use course_archiver::classify::{AttachmentContent, ExtractionOutcome};
use course_archiver::classify::extraction_benign;
use course_archiver::classify::AttachmentKind;
use course_archiver::keywords::is_relevant;
use course_archiver::pages::try_any;
use course_archiver::pages::Node2;
use course_archiver::resolver::{Candidate, FileNode};

fn file_node(path: &str, srcname: &str) -> FileNode {
    FileNode { path: Candidate::Text(path.to_string()), srcname: srcname.to_string() }
}

#[test]
fn page_text_with_exam_is_relevant() {
    assert!(is_relevant("see the exam next week"));
}

#[test]
fn keyword_is_case_insensitive() {
    assert!(is_relevant("TENTA on Monday"));
    assert!(is_relevant("Salsskrivning i sal F1"));
}

#[test]
fn latin1_keywords_match() {
    assert!(is_relevant("n\u{e4}sta \u{f6}vning"));
    assert!(is_relevant("INL\u{c4}MNING idag"));
}

#[test]
fn keyword_needs_word_boundary() {
    assert!(!is_relevant("laboration"));
    assert!(!is_relevant("collaborate"));
    assert!(is_relevant("the lab is open"));
    assert!(is_relevant("lab-report"));
}

#[test]
fn unrelated_text_is_not_relevant() {
    assert!(!is_relevant("welcome to the course page"));
    assert!(!is_relevant(""));
}

#[test]
fn page_relevance_ignores_attachments_when_text_matches() {
    let page = Node2 {
        slug: "intro".to_string(),
        doc: "see the exam next week".to_string(),
        last_modified: "2020-01-01".to_string(),
        files: Vec::new(),
        occasion: None,
    };
    assert!(page.is_relevant(&Vec::new()));
}

#[test]
fn page_relevance_from_attachment_verdict() {
    let page = Node2 {
        slug: "files".to_string(),
        doc: "various documents".to_string(),
        last_modified: "2020-01-01".to_string(),
        files: vec![file_node("01-files/a.pdf", "01-files/a.pdf")],
        occasion: None,
    };
    assert!(!page.is_relevant(&vec![false]));
    assert!(page.is_relevant(&vec![true]));
}

#[test]
fn binary_attachment_is_never_relevant() {
    let f = file_node("01-files/tenta.zip", "01-files/tenta.zip");
    assert_eq!(f.is_relevant(&AttachmentContent::Binary), Ok(false));
}

#[test]
fn unreadable_attachment_is_excluded_not_fatal() {
    let f = file_node("01-files/tenta.txt", "01-files/tenta.txt");
    assert_eq!(f.is_relevant(&AttachmentContent::Unreadable), Ok(false));
}

#[test]
fn raw_attachment_scanned_with_lossy_decoding() {
    let f = file_node("01-files/notes.txt", "01-files/notes.txt");
    let mut bytes = vec![0xFFu8];
    bytes.extend_from_slice(b"tenta");
    bytes.push(0xFF);
    assert_eq!(f.is_relevant(&AttachmentContent::Raw(bytes)), Ok(true));
    assert_eq!(f.is_relevant(&AttachmentContent::Raw(b"nothing".to_vec())), Ok(false));
}

#[test]
fn benign_extraction_failure_is_not_relevant() {
    let f = file_node("01-files/empty.pdf", "01-files/empty.pdf");
    let outcome = ExtractionOutcome {
        success: false,
        stdout: Vec::new(),
        stderr: b"Syntax Error: Document stream is empty\n".to_vec(),
    };
    assert_eq!(f.is_relevant(&AttachmentContent::Extracted(outcome)), Ok(false));
}

#[test]
fn encrypted_extraction_failure_is_not_relevant() {
    let f = file_node("01-files/locked.pdf", "01-files/locked.pdf");
    let outcome = ExtractionOutcome {
        success: false,
        stdout: Vec::new(),
        stderr: b"Command Line Error: Incorrect password\n".to_vec(),
    };
    assert_eq!(f.is_relevant(&AttachmentContent::Extracted(outcome)), Ok(false));
}

#[test]
fn tool_fault_is_not_relevant_and_not_an_error() {
    let f = file_node("01-files/odd.pdf", "01-files/odd.pdf");
    let outcome = ExtractionOutcome {
        success: false,
        stdout: Vec::new(),
        stderr: b"Some unexpected failure\n".to_vec(),
    };
    assert_eq!(f.is_relevant(&AttachmentContent::Extracted(outcome)), Ok(false));
}

#[test]
fn successful_extraction_is_scanned() {
    let f = file_node("01-files/exam.pdf", "01-files/exam.pdf");
    let relevant = ExtractionOutcome {
        success: true,
        stdout: b"first exam covers chapters 1-3".to_vec(),
        stderr: Vec::new(),
    };
    assert_eq!(f.is_relevant(&AttachmentContent::Extracted(relevant)), Ok(true));
    let boring = ExtractionOutcome {
        success: true,
        stdout: b"table of contents".to_vec(),
        stderr: Vec::new(),
    };
    assert_eq!(f.is_relevant(&AttachmentContent::Extracted(boring)), Ok(false));
}

#[test]
fn non_text_extraction_output_is_an_error() {
    let f = file_node("01-files/weird.pdf", "01-files/weird.pdf");
    let outcome = ExtractionOutcome {
        success: true,
        stdout: vec![0xC3u8, 0x28],
        stderr: Vec::new(),
    };
    assert_eq!(
        f.is_relevant(&AttachmentContent::Extracted(outcome)),
        Err(course_archiver::LibError::ExtractionNotText)
    );
}

#[test]
fn extraction_benign_recognizes_exact_messages() {
    assert!(extraction_benign(b"Syntax Error: Document stream is empty\n"));
    assert!(extraction_benign(b"Command Line Error: Incorrect password\n"));
    assert!(!extraction_benign(b"Syntax Error: Document stream is empty"));
    assert!(!extraction_benign(b"anything else\n"));
}

#[test]
fn extension_dispatch() {
    assert_eq!(file_node("a/b.PDF", "b.PDF").kind(), AttachmentKind::Extract);
    assert_eq!(file_node("a/b.ai", "b.ai").kind(), AttachmentKind::Extract);
    assert_eq!(file_node("a/b.zip", "b.zip").kind(), AttachmentKind::Binary);
    assert_eq!(file_node("a/b.JPeG", "b.JPeG").kind(), AttachmentKind::Binary);
    assert_eq!(file_node("a/b.txt", "b.txt").kind(), AttachmentKind::Text);
    assert_eq!(file_node("a/readme", "readme").kind(), AttachmentKind::Text);
    assert_eq!(file_node("a/.pdf", ".pdf").kind(), AttachmentKind::Text);
    assert_eq!(file_node("a/b.tar.pdf", "b.tar.pdf").kind(), AttachmentKind::Extract);
    let raw = FileNode {
        path: Candidate::Bytes(b"01-files/caf\xE9.docx".to_vec()),
        srcname: "x".to_string(),
    };
    assert_eq!(raw.kind(), course_archiver::classify::AttachmentKind::Binary);
}

#[test]
fn try_any_short_circuits_in_order() {
    let items: Vec<u32> = vec![1, 2, 3];
    let r: Result<bool, ()> = try_any(&items, |x: &u32| Ok(*x == 2));
    assert_eq!(r, Ok(true));
    let r2: Result<bool, ()> = try_any(&items, |x: &u32| Ok(*x == 9));
    assert_eq!(r2, Ok(false));
    let r3: Result<bool, u32> = try_any(&items, |x: &u32| if *x == 2 { Err(*x) } else { Ok(false) });
    assert_eq!(r3, Err(2));
}
