use ocr_eg::chunking::{chunk_offsets, needs_chunking, plan_chunks, PageRange, SplitError, DEFAULT_THRESHOLD_BYTES};
use ocr_eg::merge::{merge_partials, PartialResult};
use ocr_eg::normalize::{
    image_file_name, normalize_chunk, partial_file_name, render_chunk_markdown, render_page_text,
    rewrite_placeholders, OcrImage, OcrPage, OcrResult,
};
use ocr_eg::provider::{standardize_pages, OCRImage, OCRPage};
use ocr_eg::run::{
    chunk_progress, is_image_extension, output_dir_name, overall_progress, Action, ChunkStage, DocumentRun,
};
use ocr_eg::text::{join_strings, push_decimal, replace_str};

fn page(md: &str, images: Vec<OcrImage>) -> OcrPage {
    OcrPage { number: 0, markdown: md.to_string(), images }
}

fn image(id: &str, b64: &str) -> OcrImage {
    OcrImage { id: id.to_string(), base64: b64.to_string() }
}

fn blank_pages(n: usize) -> OcrResult {
    let mut pages = Vec::new();
    for i in 0..n {
        pages.push(page(&format!("text {}", i), Vec::new()));
    }
    OcrResult { pages }
}

#[test]
fn decimal_spelling() {
    let mut s = String::from("n=");
    push_decimal(&mut s, 0);
    push_decimal(&mut s, 1);
    push_decimal(&mut s, 18446744073709551615);
    assert_eq!(s, "n=0118446744073709551615");
}

#[test]
fn replace_leftmost_without_overlap() {
    assert_eq!(replace_str("aaaa", "aa", "b"), "bb");
    assert_eq!(replace_str("xaaay", "aa", "-"), "x-ay");
    assert_eq!(replace_str("abc", "", "z"), "abc");
    assert_eq!(replace_str("héllo wörld", "ö", "o"), "héllo world");
    assert_eq!(replace_str("", "a", "b"), "");
}

#[test]
fn join_with_separator() {
    let parts = vec!["a".to_string(), "b".to_string(), "c".to_string()];
    assert_eq!(join_strings(&parts, "\n\n"), "a\n\nb\n\nc");
    assert_eq!(join_strings(&Vec::new(), "\n\n"), "");
}

#[test]
fn size_probe_threshold() {
    assert_eq!(DEFAULT_THRESHOLD_BYTES, 45 * 1024 * 1024);
    assert!(!needs_chunking(DEFAULT_THRESHOLD_BYTES, DEFAULT_THRESHOLD_BYTES));
    assert!(needs_chunking(DEFAULT_THRESHOLD_BYTES + 1, DEFAULT_THRESHOLD_BYTES));
    assert!(!needs_chunking(0, DEFAULT_THRESHOLD_BYTES));
}

#[test]
fn split_empty_document_fails() {
    assert_eq!(plan_chunks(&Vec::new(), 10), Err(SplitError::EmptyDocument));
}

#[test]
fn split_greedy() {
    let r = plan_chunks(&vec![4, 4, 4, 4, 4], 10).unwrap();
    assert_eq!(
        r,
        vec![PageRange { start: 0, end: 2 }, PageRange { start: 2, end: 4 }, PageRange { start: 4, end: 5 }]
    );
    let r = plan_chunks(&vec![3, 3, 4], 10).unwrap();
    assert_eq!(r, vec![PageRange { start: 0, end: 3 }]);
}

#[test]
fn split_oversized_page_alone() {
    let r = plan_chunks(&vec![2, 50, 2, 2], 10).unwrap();
    assert_eq!(
        r,
        vec![PageRange { start: 0, end: 1 }, PageRange { start: 1, end: 2 }, PageRange { start: 2, end: 4 }]
    );
    let r = plan_chunks(&vec![u64::MAX, u64::MAX], u64::MAX).unwrap();
    assert_eq!(r, vec![PageRange { start: 0, end: 1 }, PageRange { start: 1, end: 2 }]);
}

#[test]
fn offsets_are_prefix_sums() {
    assert_eq!(chunk_offsets(&vec![40, 35, 25]), Some(vec![0, 40, 75]));
    assert_eq!(chunk_offsets(&vec![7]), Some(vec![0]));
    assert_eq!(chunk_offsets(&Vec::new()), Some(Vec::<u64>::new()));
    assert_eq!(chunk_offsets(&vec![u64::MAX, 0]), Some(vec![0, u64::MAX]));
    assert_eq!(chunk_offsets(&vec![u64::MAX, 1]), None);
}

#[test]
fn image_names_unique_across_chunks() {
    let a = image_file_name(0, 0, "img-1");
    let b = image_file_name(15, 0, "img-1");
    assert_eq!(a, "0_0_img-1.png");
    assert_eq!(b, "15_0_img-1.png");
    assert_ne!(a, b);
    assert_eq!(partial_file_name(0), "part_0.md");
    assert_eq!(partial_file_name(40), "part_40.md");
}

#[test]
fn both_placeholder_spellings_rewritten() {
    let plain = rewrite_placeholders("![img-0.jpeg](img-0.jpeg)", "img-0.jpeg", "3_1_img-0.jpeg.png");
    let slash = rewrite_placeholders("![img-0.jpeg](/img-0.jpeg)", "img-0.jpeg", "3_1_img-0.jpeg.png");
    assert_eq!(plain, "![img-0.jpeg](images/3_1_img-0.jpeg.png)");
    assert_eq!(slash, plain);
    let other = rewrite_placeholders("![x](x) and ![y](y)", "x", "f.png");
    assert_eq!(other, "![x](images/f.png) and ![y](y)");
}

#[test]
fn page_text_rewrites_each_image() {
    let p = page("a ![i1](i1) b ![i2](/i2)", vec![image("i1", "AA=="), image("i2", "AA==")]);
    assert_eq!(render_page_text(&p, 15, 2), "a ![i1](images/15_2_i1.png) b ![i2](images/15_2_i2.png)");
}

#[test]
fn image_without_payload_is_not_rewritten() {
    let raw = vec![OCRPage {
        index: 0,
        markdown: "![a](a) ![b](b)".to_string(),
        images: vec![
            OCRImage { id: "a".to_string(), image_base64: Some("data:image/png;base64,aGk=".to_string()) },
            OCRImage { id: "b".to_string(), image_base64: None },
        ],
    }];
    let result = standardize_pages(raw);
    assert_eq!(result.pages.len(), 1);
    assert_eq!(result.pages[0].images.len(), 1);
    assert_eq!(result.pages[0].images[0].base64, "aGk=");
    let out = normalize_chunk(&result, 0).ok().unwrap();
    assert_eq!(out.markdown, "## Page 1\n\n![a](images/0_0_a.png) ![b](b)");
    assert_eq!(out.images.len(), 1);
    assert_eq!(out.images[0].name, "0_0_a.png");
    assert_eq!(out.images[0].bytes, b"hi".to_vec());
}

#[test]
fn single_document_ten_pages() {
    let result = blank_pages(10);
    let md = render_chunk_markdown(&result, 0);
    let mut expected = Vec::new();
    for i in 0..10 {
        expected.push(format!("## Page {}\n\ntext {}", i + 1, i));
    }
    assert_eq!(md, expected.join("\n\n"));
    let out = normalize_chunk(&result, 0).ok().unwrap();
    assert_eq!(out.file_name, "part_0.md");
    assert!(out.images.is_empty());

    let mut run = DocumentRun::single_shot();
    assert_eq!(run.next_action(), Action::ProcessChunk { index: 0, offset: 0 });
    run.chunk_succeeded();
    assert_eq!(run.next_action(), Action::Finish);
}

#[test]
fn hundred_pages_in_three_chunks() {
    let counts = vec![40, 35, 25];
    let mut run = DocumentRun::split(&counts).unwrap();
    let mut partials = Vec::new();
    let mut actions = Vec::new();
    loop {
        let a = run.next_action();
        actions.push(a);
        match a {
            Action::ProcessChunk { index, offset } => {
                let out = normalize_chunk(&blank_pages(counts[index] as usize), offset).ok().unwrap();
                partials.push(PartialResult { offset, content: out.markdown });
                run.chunk_succeeded();
            }
            Action::Merge => run.merge_succeeded(),
            Action::Finish | Action::Abort => break,
        }
    }
    assert_eq!(
        actions,
        vec![
            Action::ProcessChunk { index: 0, offset: 0 },
            Action::ProcessChunk { index: 1, offset: 40 },
            Action::ProcessChunk { index: 2, offset: 75 },
            Action::Merge,
            Action::Finish,
        ]
    );
    assert!(partials[2].content.starts_with("## Page 76\n\ntext 0"));
    let complete = merge_partials(&partials);
    let mut numbers = Vec::new();
    for line in complete.lines() {
        if let Some(n) = line.strip_prefix("## Page ") {
            numbers.push(n.parse::<u64>().unwrap());
        }
    }
    assert_eq!(numbers, (1..=100).collect::<Vec<u64>>());
    let at = complete.find("## Page 76\n\ntext 0").unwrap();
    assert!(at > complete.find("## Page 75\n\ntext 34").unwrap());
}

#[test]
fn merge_by_offset_not_arrival() {
    let parts = vec![
        PartialResult { offset: 30, content: "thirty".to_string() },
        PartialResult { offset: 0, content: "zero".to_string() },
        PartialResult { offset: 15, content: "fifteen".to_string() },
    ];
    assert_eq!(merge_partials(&parts), "zero\n\nfifteen\n\nthirty");
    let parts = vec![
        PartialResult { offset: 100, content: "b".to_string() },
        PartialResult { offset: 40, content: "a".to_string() },
    ];
    assert_eq!(merge_partials(&parts), "a\n\nb");
    assert_eq!(merge_partials(&Vec::new()), "");
}

#[test]
fn failure_aborts_remaining_chunks() {
    assert!(DocumentRun::split(&Vec::new()).is_none());
    assert!(DocumentRun::split(&vec![u64::MAX, 1]).is_none());
    let mut run = DocumentRun::split(&vec![10, 10, 10]).unwrap();
    assert_eq!(run.next_action(), Action::ProcessChunk { index: 0, offset: 0 });
    run.chunk_succeeded();
    assert_eq!(run.next_action(), Action::ProcessChunk { index: 1, offset: 10 });
    run.step_failed();
    assert_eq!(run.next_action(), Action::Abort);
    assert_eq!(run.completed, 1);
    assert!(!run.merged);
}

#[test]
fn invalid_payload_is_an_error() {
    let result = OcrResult { pages: vec![page("![x](x)", vec![image("x", "not base64!")])] };
    let err = normalize_chunk(&result, 5).err().unwrap();
    assert_eq!(err.image, "5_0_x.png");
}

#[test]
fn progress_checkpoints() {
    let stages = [
        ChunkStage::SubmissionBegun,
        ChunkStage::AccessObtained,
        ChunkStage::RecognitionRequested,
        ChunkStage::RecognitionComplete,
        ChunkStage::Persisted,
    ];
    let values: Vec<u32> = stages.iter().map(|s| chunk_progress(*s)).collect();
    assert_eq!(values, vec![10, 30, 50, 80, 100]);
    assert_eq!(overall_progress(0, 3), 0);
    assert_eq!(overall_progress(1, 3), 33);
    assert_eq!(overall_progress(3, 3), 100);
    assert_eq!(overall_progress(0, 0), 100);
    assert_eq!(overall_progress(usize::MAX - 1, usize::MAX), 99);
}

#[test]
fn output_directory_and_inputs() {
    assert_eq!(output_dir_name("lumi_ocr_results_", "report"), "lumi_ocr_results_report");
    assert_eq!(output_dir_name("", "a"), "a");
    for e in ["jpg", "jpeg", "png", "bmp", "tiff", "tif"] {
        assert!(is_image_extension(e));
    }
    assert!(!is_image_extension("pdf"));
    assert!(!is_image_extension("JPG"));
    assert!(!is_image_extension(""));
}
