use vstd::prelude::*;

verus! {

/// The default size above which a document is split: 45 MiB.
pub const DEFAULT_THRESHOLD_BYTES: u64 = 47185920;

/// A half-open range of pages, `start..end`, of one document.
#[derive(PartialEq, Eq, Structural, Clone, Copy, Debug)]
pub struct PageRange {
    pub start: usize,
    pub end: usize,
}

/// Why a document could not be split.
#[derive(PartialEq, Eq, Structural, Clone, Copy, Debug)]
pub enum SplitError {
    EmptyDocument,
}

/// The sum of the sizes of pages `a..b`.
pub open spec fn sum_sizes(sizes: Seq<u64>, a: int, b: int) -> nat
    decreases b - a,
{
    if b <= a {
        0
    } else {
        sum_sizes(sizes, a, b - 1) + sizes[b - 1] as nat
    }
}

/// The greedy split after its first `n` pages: the chunks closed so far, where the
/// open chunk starts, and the size it holds.
pub open spec fn greedy_state(sizes: Seq<u64>, t: nat, n: nat) -> (Seq<(int, int)>, int, nat)
    decreases n,
{
    if n == 0 {
        (Seq::empty(), 0, 0)
    } else {
        let (closed, start, acc) = greedy_state(sizes, t, (n - 1) as nat);
        let p = n - 1;
        if p > start && acc + sizes[p] > t {
            (closed.push((start, p)), p, sizes[p] as nat)
        } else {
            (closed, start, acc + sizes[p] as nat)
        }
    }
}

/// The chunks of the greedy split: pages are added to a chunk until the next one
/// would take it over the threshold; a page alone over it is a chunk by itself.
pub open spec fn greedy_ranges(sizes: Seq<u64>, t: nat) -> Seq<(int, int)> {
    let (closed, start, _) = greedy_state(sizes, t, sizes.len());
    closed.push((start, sizes.len() as int))
}

/// The ranges are non-empty, in order, and cover pages `0..n` once each.
pub open spec fn covers_in_order(ranges: Seq<(int, int)>, n: int) -> bool {
    &&& ranges.len() > 0
    &&& ranges[0].0 == 0
    &&& ranges.last().1 == n
    &&& forall|i: int| 0 <= i < ranges.len() ==> #[trigger] ranges[i].0 < ranges[i].1
    &&& forall|i: int| 0 <= i < ranges.len() - 1 ==> #[trigger] ranges[i].1 == ranges[i + 1].0
}

/// Each range holds at most `t` bytes, unless it is a single page.
pub open spec fn within_threshold(ranges: Seq<(int, int)>, sizes: Seq<u64>, t: nat) -> bool {
    forall|i: int|
        0 <= i < ranges.len() ==> #[trigger] ranges[i].1 - ranges[i].0 == 1 || sum_sizes(
            sizes,
            ranges[i].0,
            ranges[i].1,
        ) <= t
}

pub open spec fn range_view(r: PageRange) -> (int, int) {
    (r.start as int, r.end as int)
}

/// The sum of the first `i` page counts.
pub open spec fn prefix_sum(counts: Seq<u64>, i: int) -> nat
    decreases i,
{
    if i <= 0 {
        0
    } else {
        prefix_sum(counts, i - 1) + counts[i - 1] as nat
    }
}

/// The global page numbers, chunk by chunk: chunk `i`'s local page `j` is
/// `prefix_sum(counts, i) + j + 1`.
pub open spec fn page_numbers(counts: Seq<u64>) -> Seq<int>
    decreases counts.len(),
{
    if counts.len() == 0 {
        Seq::empty()
    } else {
        let off = prefix_sum(counts, counts.len() - 1);
        page_numbers(counts.drop_last()) + Seq::new(counts.last() as nat, |j: int| off + j + 1)
    }
}

/// Whether a document of `size` bytes must be split under `threshold`.
pub fn needs_chunking(size: u64, threshold: u64) -> (r: bool)
    ensures
        r == (size > threshold),
{
    size > threshold
}

proof fn lemma_prefix_drop_last(counts: Seq<u64>, i: int)
    requires
        0 <= i <= counts.len() - 1,
    ensures
        prefix_sum(counts.drop_last(), i) == prefix_sum(counts, i),
    decreases i,
{
    if i > 0 {
        lemma_prefix_drop_last(counts, i - 1);
    }
}

/// The global page numbers of all chunks, in chunk order, are `1..=total` with no
/// gap and no repeat, whatever the page count of each chunk.
pub proof fn lemma_page_numbers_contiguous(counts: Seq<u64>)
    ensures
        page_numbers(counts) =~= Seq::new(
            prefix_sum(counts, counts.len() as int),
            |k: int| k + 1,
        ),
    decreases counts.len(),
{
    if counts.len() > 0 {
        let init = counts.drop_last();
        lemma_page_numbers_contiguous(init);
        lemma_prefix_drop_last(counts, counts.len() - 1);
    }
}

/// The starting page offset of each chunk: the sum of the page counts before it;
/// `None` where the total page count does not fit in a `u64`.
pub fn chunk_offsets(counts: &Vec<u64>) -> (r: Option<Vec<u64>>)
    ensures
        r is Some <==> prefix_sum(counts@, counts@.len() as int) <= u64::MAX,
        r is Some ==> r->0@.len() == counts@.len(),
        r is Some ==> forall|i: int|
            0 <= i < counts@.len() ==> #[trigger] r->0@[i] == prefix_sum(counts@, i),
{
    let mut r: Vec<u64> = Vec::new();
    let mut acc: u64 = 0;
    let mut i: usize = 0;
    while i < counts.len()
        invariant
            i <= counts@.len(),
            acc == prefix_sum(counts@, i as int),
            r@.len() == i,
            forall|j: int| 0 <= j < i ==> #[trigger] r@[j] == prefix_sum(counts@, j),
        decreases counts.len() - i,
    {
        r.push(acc);
        match acc.checked_add(counts[i]) {
            Some(next) => {
                acc = next;
            },
            None => {
                proof {
                    lemma_prefix_monotone(counts@, i + 1, counts@.len() as int);
                }
                return None;
            },
        }
        i = i + 1;
    }
    Some(r)
}

proof fn lemma_prefix_monotone(counts: Seq<u64>, a: int, b: int)
    requires
        0 <= a <= b <= counts.len(),
    ensures
        prefix_sum(counts, a) <= prefix_sum(counts, b),
    decreases b - a,
{
    if a < b {
        lemma_prefix_monotone(counts, a, b - 1);
    }
}

/// The greedy split of a document whose pages have the given sizes.
pub fn plan_chunks(page_sizes: &Vec<u64>, threshold: u64) -> (r: Result<Vec<PageRange>, SplitError>)
    ensures
        match r {
            Ok(ranges) => {
                &&& page_sizes@.len() > 0
                &&& ranges@.map_values(|x: PageRange| range_view(x)) == greedy_ranges(
                    page_sizes@,
                    threshold as nat,
                )
                &&& covers_in_order(
                    ranges@.map_values(|x: PageRange| range_view(x)),
                    page_sizes@.len() as int,
                )
                &&& within_threshold(
                    ranges@.map_values(|x: PageRange| range_view(x)),
                    page_sizes@,
                    threshold as nat,
                )
            },
            Err(e) => e == SplitError::EmptyDocument && page_sizes@.len() == 0,
        },
{
    let n = page_sizes.len();
    if n == 0 {
        return Err(SplitError::EmptyDocument);
    }
    let ghost t = threshold as nat;
    let ghost sizes = page_sizes@;
    let mut ranges: Vec<PageRange> = Vec::new();
    let mut start: usize = 0;
    let mut acc: u128 = 0;
    let mut p: usize = 0;
    while p < n
        invariant
            n == sizes.len(),
            sizes == page_sizes@,
            t == threshold as nat,
            0 < n,
            p <= n,
            start <= p,
            p > 0 ==> start < p,
            greedy_state(sizes, t, p as nat) == (
                ranges@.map_values(|x: PageRange| range_view(x)),
                start as int,
                acc as nat,
            ),
            acc == sum_sizes(sizes, start as int, p as int),
            p - start >= 2 ==> acc <= t,
            acc <= u64::MAX as nat * 2,
            ranges@.len() > 0 ==> ranges@[0].start == 0,
            ranges@.len() > 0 ==> ranges@.last().end == start,
            ranges@.len() == 0 ==> start == 0,
            forall|i: int| 0 <= i < ranges@.len() ==> #[trigger] ranges@[i].start < ranges@[i].end,
            forall|i: int|
                0 <= i < ranges@.len() - 1 ==> #[trigger] ranges@[i].end == ranges@[i + 1].start,
            forall|i: int|
                0 <= i < ranges@.len() ==> #[trigger] ranges@[i].end - ranges@[i].start == 1
                    || sum_sizes(sizes, ranges@[i].start as int, ranges@[i].end as int) <= t,
        decreases n - p,
    {
        let size = page_sizes[p];
        if p > start && acc + size as u128 > threshold as u128 {
            let ghost before = ranges@;
            ranges.push(PageRange { start, end: p });
            assert(ranges@.map_values(|x: PageRange| range_view(x)) =~= before.map_values(
                |x: PageRange| range_view(x),
            ).push((start as int, p as int)));
            start = p;
            acc = size as u128;
            assert(sum_sizes(sizes, p as int, p + 1) == sum_sizes(sizes, p as int, p as int)
                + sizes[p as int] as nat);
        } else {
            acc = acc + size as u128;
            assert(sum_sizes(sizes, start as int, p + 1) == sum_sizes(sizes, start as int, p as int)
                + sizes[p as int] as nat);
        }
        p = p + 1;
    }
    let ghost before = ranges@;
    ranges.push(PageRange { start, end: n });
    assert(ranges@.map_values(|x: PageRange| range_view(x)) =~= before.map_values(
        |x: PageRange| range_view(x),
    ).push((start as int, n as int)));
    Ok(ranges)
}

} // verus!
