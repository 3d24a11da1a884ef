use vstd::prelude::*;

use crate::chunking::{chunk_offsets, prefix_sum};
use crate::normalize::partial_name;

verus! {

/// What the driver of one document does next.
#[derive(PartialEq, Eq, Structural, Clone, Copy, Debug)]
pub enum Action {
    /// Recognise chunk `index`, whose first page is global page `offset + 1`.
    ProcessChunk { index: usize, offset: u64 },
    /// Merge the partial results into `complete.md`.
    Merge,
    /// The document is done.
    Finish,
    /// A step failed: the remaining chunks are not processed.
    Abort,
}

/// The state of one document's processing: its chunks' offsets, how many chunks
/// have their partial result on disk, and whether a step failed or the merge ran.
pub struct DocumentRun {
    pub offsets: Vec<u64>,
    pub chunked: bool,
    pub completed: usize,
    pub failed: bool,
    pub merged: bool,
}

/// The actions of a run in which every step succeeds: each chunk in split order,
/// then the merge where the document was split, then the end.
pub open spec fn success_trace(offsets: Seq<u64>, chunked: bool) -> Seq<Action> {
    Seq::new(
        offsets.len(),
        |i: int| Action::ProcessChunk { index: i as usize, offset: offsets[i] },
    ) + (if chunked {
        seq![Action::Merge]
    } else {
        Seq::empty()
    }) + seq![Action::Finish]
}

impl DocumentRun {
    pub open spec fn wf(&self) -> bool {
        &&& self.offsets@.len() > 0
        &&& self.completed <= self.offsets@.len()
        &&& self.merged ==> self.chunked && self.completed == self.offsets@.len()
    }

    /// The next action of the run.
    pub open spec fn action(&self) -> Action {
        if self.failed {
            Action::Abort
        } else if self.completed < self.offsets@.len() {
            Action::ProcessChunk {
                index: self.completed,
                offset: self.offsets@[self.completed as int],
            }
        } else if self.chunked && !self.merged {
            Action::Merge
        } else {
            Action::Finish
        }
    }

    /// How many steps of the success trace are behind the run.
    pub open spec fn steps_done(&self) -> int {
        self.completed + if self.merged {
            1int
        } else {
            0int
        }
    }

    /// A document processed in one piece: one chunk at offset 0, no merge.
    pub fn single_shot() -> (r: DocumentRun)
        ensures
            r.wf(),
            r.offsets@ == seq![0u64],
            !r.chunked,
            r.completed == 0,
            !r.failed,
            !r.merged,
    {
        let mut offsets: Vec<u64> = Vec::new();
        offsets.push(0);
        DocumentRun { offsets, chunked: false, completed: 0, failed: false, merged: false }
    }

    /// A document split into chunks with the given page counts, in split order;
    /// `None` where there is no chunk or the total page count does not fit in a `u64`.
    pub fn split(page_counts: &Vec<u64>) -> (r: Option<DocumentRun>)
        ensures
            r is Some <==> page_counts@.len() > 0 && prefix_sum(page_counts@, page_counts@.len() as int)
                <= u64::MAX,
            r matches Some(run) ==> {
                &&& run.wf()
                &&& run.offsets@.len() == page_counts@.len()
                &&& forall|i: int|
                    0 <= i < page_counts@.len() ==> #[trigger] run.offsets@[i] == prefix_sum(
                        page_counts@,
                        i,
                    )
                &&& run.chunked
                &&& run.completed == 0
                &&& !run.failed
                &&& !run.merged
            },
    {
        if page_counts.len() == 0 {
            return None;
        }
        match chunk_offsets(page_counts) {
            Some(offsets) => Some(
                DocumentRun { offsets, chunked: true, completed: 0, failed: false, merged: false },
            ),
            None => None,
        }
    }

    /// The next action of the run.
    pub fn next_action(&self) -> (r: Action)
        requires
            self.wf(),
        ensures
            r == self.action(),
    {
        if self.failed {
            Action::Abort
        } else if self.completed < self.offsets.len() {
            Action::ProcessChunk { index: self.completed, offset: self.offsets[self.completed] }
        } else if self.chunked && !self.merged {
            Action::Merge
        } else {
            Action::Finish
        }
    }

    /// The chunk that was being processed has its partial result on disk.
    pub fn chunk_succeeded(&mut self)
        requires
            old(self).wf(),
            old(self).action() is ProcessChunk,
        ensures
            final(self).wf(),
            final(self).completed == old(self).completed + 1,
            final(self).offsets@ == old(self).offsets@,
            final(self).chunked == old(self).chunked,
            final(self).failed == old(self).failed,
            final(self).merged == old(self).merged,
    {
        let n = self.offsets.len();
        assert(self.completed < n);
        self.completed = self.completed + 1;
    }

    /// A step failed: the rest of the document is abandoned, and the partial
    /// results already on disk are kept.
    pub fn step_failed(&mut self)
        requires
            old(self).wf(),
        ensures
            final(self).wf(),
            final(self).failed,
            final(self).completed == old(self).completed,
            final(self).offsets@ == old(self).offsets@,
            final(self).chunked == old(self).chunked,
            final(self).merged == old(self).merged,
    {
        self.failed = true;
    }

    /// The merged file has been written.
    pub fn merge_succeeded(&mut self)
        requires
            old(self).wf(),
            old(self).action() == Action::Merge,
        ensures
            final(self).wf(),
            final(self).merged,
            final(self).completed == old(self).completed,
            final(self).offsets@ == old(self).offsets@,
            final(self).chunked == old(self).chunked,
            final(self).failed == old(self).failed,
    {
        self.merged = true;
    }
}

/// A run without failure takes exactly the steps of the success trace, in order.
pub proof fn lemma_run_follows_trace(run: DocumentRun)
    requires
        run.wf(),
        !run.failed,
    ensures
        0 <= run.steps_done() < success_trace(run.offsets@, run.chunked).len(),
        run.action() == success_trace(run.offsets@, run.chunked)[run.steps_done()],
{
    let t = success_trace(run.offsets@, run.chunked);
    let n = run.offsets@.len() as int;
    if run.completed < n {
    } else if run.chunked && !run.merged {
        assert(t[n] == Action::Merge);
    } else if run.chunked {
        assert(t[n + 1] == Action::Finish);
    } else {
        assert(t[n] == Action::Finish);
    }
}

/// A document processed in one piece produces one partial result at offset 0 and
/// is never merged.
pub proof fn lemma_single_shot_trace()
    ensures
        partial_name(0) == seq!['p', 'a', 'r', 't', '_', '0', '.', 'm', 'd'],
        success_trace(seq![0u64], false) == seq![
            Action::ProcessChunk { index: 0, offset: 0 },
            Action::Finish,
        ],
        forall|i: int|
            0 <= i < success_trace(seq![0u64], false).len() ==> #[trigger] success_trace(
                seq![0u64],
                false,
            )[i] != Action::Merge,
{
    assert(partial_name(0) =~= seq!['p', 'a', 'r', 't', '_', '0', '.', 'm', 'd']);
    assert(success_trace(seq![0u64], false) =~= seq![
        Action::ProcessChunk { index: 0, offset: 0 },
        Action::Finish,
    ]);
}

/// Once a step fails the run only aborts: no further chunk is processed, no merge
/// runs, and the chunks completed before the failure stay completed.
pub proof fn lemma_failure_aborts(before: DocumentRun, after: DocumentRun)
    requires
        before.wf(),
        after.wf(),
        after.failed,
        after.completed == before.completed,
    ensures
        after.action() == Action::Abort,
        after.completed == before.completed,
{
}

/// The checkpoints of one chunk's processing, in the order they are reached.
#[derive(PartialEq, Eq, Structural, Clone, Copy, Debug)]
pub enum ChunkStage {
    SubmissionBegun,
    AccessObtained,
    RecognitionRequested,
    RecognitionComplete,
    Persisted,
}

/// The position of a checkpoint in processing order.
pub open spec fn stage_rank(s: ChunkStage) -> nat {
    match s {
        ChunkStage::SubmissionBegun => 0,
        ChunkStage::AccessObtained => 1,
        ChunkStage::RecognitionRequested => 2,
        ChunkStage::RecognitionComplete => 3,
        ChunkStage::Persisted => 4,
    }
}

pub open spec fn stage_percent(s: ChunkStage) -> u32 {
    match s {
        ChunkStage::SubmissionBegun => 10,
        ChunkStage::AccessObtained => 30,
        ChunkStage::RecognitionRequested => 50,
        ChunkStage::RecognitionComplete => 80,
        ChunkStage::Persisted => 100,
    }
}

/// The current chunk's progress, in percent, at a checkpoint.
pub fn chunk_progress(stage: ChunkStage) -> (r: u32)
    ensures
        r == stage_percent(stage),
        r <= 100,
{
    match stage {
        ChunkStage::SubmissionBegun => 10,
        ChunkStage::AccessObtained => 30,
        ChunkStage::RecognitionRequested => 50,
        ChunkStage::RecognitionComplete => 80,
        ChunkStage::Persisted => 100,
    }
}

/// Progress never goes back: a later checkpoint reports at least as much.
pub proof fn lemma_chunk_progress_monotone(a: ChunkStage, b: ChunkStage)
    requires
        stage_rank(a) <= stage_rank(b),
    ensures
        stage_percent(a) <= stage_percent(b),
{
}

/// The progress of the queue, in percent, once `done` of `total` documents are done;
/// an empty queue is complete.
pub fn overall_progress(done: usize, total: usize) -> (r: u32)
    requires
        done <= total,
    ensures
        total == 0 ==> r == 100,
        total > 0 ==> r as int == done as int * 100 / total as int,
        r <= 100,
{
    if total == 0 {
        return 100;
    }
    let p: u128 = (done as u128) * 100 / (total as u128);
    assert(done as int * 100 <= total as int * 100) by (nonlinear_arith)
        requires
            done <= total,
    ;
    assert(p <= 100) by (nonlinear_arith)
        requires
            p == (done as int * 100) / total as int,
            done as int * 100 <= total as int * 100,
            total > 0,
    ;
    p as u32
}

/// The name of a document's output directory: the configured prefix, then the
/// document's file stem.
pub fn output_dir_name(prefix: &str, stem: &str) -> (r: String)
    ensures
        r@ == prefix@ + stem@,
{
    let mut r = String::from_str(prefix);
    r.append(stem);
    r
}

/// The lower-case extensions of raster images, which are wrapped into a one-page
/// document before processing.
pub open spec fn image_extensions() -> Seq<Seq<char>> {
    seq![
        seq!['j', 'p', 'g'],
        seq!['j', 'p', 'e', 'g'],
        seq!['p', 'n', 'g'],
        seq!['b', 'm', 'p'],
        seq!['t', 'i', 'f', 'f'],
        seq!['t', 'i', 'f'],
    ]
}

fn image_extension_at(i: usize) -> (r: &'static str)
    requires
        i < 6,
    ensures
        r@ == image_extensions()[i as int],
{
    proof {
        reveal_strlit("jpg");
        reveal_strlit("jpeg");
        reveal_strlit("png");
        reveal_strlit("bmp");
        reveal_strlit("tiff");
        reveal_strlit("tif");
    }
    let r = if i == 0 {
        "jpg"
    } else if i == 1 {
        "jpeg"
    } else if i == 2 {
        "png"
    } else if i == 3 {
        "bmp"
    } else if i == 4 {
        "tiff"
    } else {
        "tif"
    };
    assert(r@ =~= image_extensions()[i as int]);
    r
}

/// Whether a lower-case file extension is that of a raster image.
pub fn is_image_extension(ext: &str) -> (r: bool)
    ensures
        r == image_extensions().contains(ext@),
{
    let e = String::from_str(ext);
    let ghost exts = image_extensions();
    let mut i: usize = 0;
    while i < 6
        invariant
            i <= 6,
            e@ == ext@,
            exts == image_extensions(),
            forall|j: int| 0 <= j < i ==> exts[j] != ext@,
        decreases 6 - i,
    {
        let k = String::from_str(image_extension_at(i));
        if k == e {
            assert(exts[i as int] == ext@);
            return true;
        }
        i = i + 1;
    }
    assert(!exts.contains(ext@));
    false
}

} // verus!
