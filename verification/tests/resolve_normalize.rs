use course_archiver::normalize::ps;
use course_archiver::resolver::{Candidate, Category, FileNode, Link};
use course_archiver::LibError;

fn text_of(c: &Candidate) -> &str {
    match c {
        Candidate::Text(s) => s.as_str(),
        Candidate::Bytes(_) => panic!("expected a text candidate"),
    }
}

fn bytes_of(c: &Candidate) -> &[u8] {
    match c {
        Candidate::Bytes(b) => b.as_slice(),
        Candidate::Text(_) => panic!("expected a byte candidate"),
    }
}

fn file_link(url: &str) -> Link {
    Link { url: url.to_string(), category: Category::File }
}

#[test]
fn candidate_order_is_the_documented_fallback_chain() {
    let link = file_link("01-files/Lab 1+assignment%2Bnotes.pdf");
    let cands = link.candidates();
    assert_eq!(cands.len(), 5);
    assert_eq!(text_of(&cands[0]), "01-files/Lab 1+assignment%2Bnotes.pdf");
    assert_eq!(text_of(&cands[1]), "01-files/Lab 1 assignment%2Bnotes.pdf");
    assert_eq!(text_of(&cands[2]), "01-files/Lab 1+assignment%20notes.pdf");
    assert_eq!(bytes_of(&cands[3]), b"01-files/Lab 1+assignment+notes.pdf");
    assert_eq!(text_of(&cands[4]), "01-files/Lab%201%2Bassignment%252Bnotes.pdf");
}

#[test]
fn percent_decoding_keeps_malformed_escapes() {
    let link = file_link("a%2x%4");
    let cands = link.candidates();
    assert_eq!(bytes_of(&cands[3]), b"a%2x%4");
    let link2 = file_link("a%C3%A9b");
    let cands2 = link2.candidates();
    assert_eq!(bytes_of(&cands2[3]), "a\u{e9}b".as_bytes());
}

#[test]
fn reencoding_without_directory_encodes_whole_name() {
    let link = file_link("My File.pdf");
    let cands = link.candidates();
    assert_eq!(text_of(&cands[4]), "My%20File.pdf");
}

#[test]
fn first_existing_candidate_wins() {
    let link = file_link("01-files/Lab 1+assignment.pdf");
    let exists = vec![false, true, false, false, false];
    let resolved = link.get_file(&exists).expect("second candidate exists");
    assert_eq!(text_of(&resolved.path), "01-files/Lab 1 assignment.pdf");
    assert_eq!(resolved.srcname, "01-files/Lab 1+assignment.pdf");
    let literal = link.get_file(&vec![true, true, false, false, false]).unwrap();
    assert_eq!(text_of(&literal.path), "01-files/Lab 1+assignment.pdf");
}

#[test]
fn no_existing_candidate_is_not_found() {
    let link = file_link("01-files/missing.pdf");
    let exists = vec![false, false, false, false, false];
    assert_eq!(link.get_file(&exists).unwrap_err(), LibError::AttachmentNotFound);
}

#[test]
fn resolution_is_deterministic() {
    let link = file_link("01-files/Lab 1+assignment.pdf");
    let exists = vec![false, true, false, true, false];
    let a = link.get_file(&exists).unwrap();
    let b = link.get_file(&exists).unwrap();
    assert_eq!(text_of(&a.path), text_of(&b.path));
    assert_eq!(a.srcname, b.srcname);
}

#[test]
fn scenario_plus_fallback_and_destination_name() {
    // The recorded reference holds a `+`; the real file has a literal
    // space, so only the second candidate exists.
    let link = file_link("01-files/Lab 1+assignment.pdf");
    let exists = vec![false, true, false, false, false];
    let resolved = link.get_file(&exists).expect("resolved via the + fallback");
    assert_eq!(text_of(&resolved.path), "01-files/Lab 1 assignment.pdf");
    assert_eq!(resolved.destname(), "lab-1-assignment.pdf");
}

#[test]
fn destination_name_strips_prefix_and_keeps_extension() {
    let f = FileNode {
        path: Candidate::Text("x".to_string()),
        srcname: "01-files/My Report (final).PDF".to_string(),
    };
    assert_eq!(f.destname(), "my-report-final.PDF");
}

#[test]
fn destination_name_decodes_percent_escapes_as_utf8() {
    let f = FileNode {
        path: Candidate::Text("x".to_string()),
        srcname: "01-files/caf%C3%A9 menu.pdf".to_string(),
    };
    assert_eq!(f.destname(), "cafe-menu.pdf");
}

#[test]
fn destination_name_falls_back_to_latin1() {
    let f = FileNode {
        path: Candidate::Text("x".to_string()),
        srcname: "01-files/sm%F6rg%E5s.txt".to_string(),
    };
    assert_eq!(f.destname(), "smorgas.txt");
}

#[test]
fn destination_name_without_extension_slugifies_everything() {
    let f = FileNode {
        path: Candidate::Text("x".to_string()),
        srcname: "01-files/L\u{e4}sanvisningar HT20".to_string(),
    };
    assert_eq!(f.destname(), "lasanvisningar-ht20");
}

#[test]
fn unsafe_extensions_are_slugified() {
    let with_slash = FileNode {
        path: Candidate::Text("x".to_string()),
        srcname: "a.b/c".to_string(),
    };
    assert_eq!(with_slash.destname(), "a.b-c");
    let non_ascii = FileNode {
        path: Candidate::Text("x".to_string()),
        srcname: "01-files/notes.tex\u{e9}".to_string(),
    };
    assert_eq!(non_ascii.destname(), "notes.texe");
}

#[test]
fn normalization_is_idempotent_on_destination_names() {
    for src in [
        "01-files/Lab 1+assignment.pdf",
        "01-files/caf%C3%A9 menu.pdf",
        "01-files/sm%F6rg%E5s.txt",
        "01-files/L\u{e4}sanvisningar HT20",
        "a.b/c",
        "01-files/notes.tex\u{e9}",
    ] {
        let first = FileNode {
            path: Candidate::Text("x".to_string()),
            srcname: src.to_string(),
        }
            .destname();
        let again = FileNode {
            path: Candidate::Text("x".to_string()),
            srcname: first.clone(),
        }
            .destname();
        assert_eq!(again, first);
        assert!(first.is_ascii());
        assert!(!first.contains('/'));
        assert!(!first.contains('%'));
    }
}

#[test]
fn link_filename_is_after_last_slash() {
    assert_eq!(file_link("a/b/c.pdf").filename(), "c.pdf");
    assert_eq!(file_link("plain.pdf").filename(), "plain.pdf");
    assert_eq!(file_link("dir/").filename(), "");
}

#[test]
fn category_parsing_validates_tags() {
    assert_eq!(Link::parse_category(&None), Ok(Category::File));
    assert_eq!(Link::parse_category(&Some("file".to_string())), Ok(Category::File));
    assert_eq!(Link::parse_category(&Some("ext".to_string())), Ok(Category::External));
    assert_eq!(Link::parse_category(&Some("incourse".to_string())), Ok(Category::InCourse));
    assert_eq!(
        Link::parse_category(&Some("video".to_string())),
        Err(LibError::UnknownCategory)
    );
}

#[test]
fn is_file_only_for_file_category() {
    assert!(file_link("a").is_file());
    assert!(!Link { url: "a".to_string(), category: Category::External }.is_file());
    assert!(!Link { url: "a".to_string(), category: Category::InCourse }.is_file());
}

#[test]
fn paths_must_be_representable_text() {
    assert_eq!(ps(&Candidate::Text("a/b.pdf".to_string())), Ok("a/b.pdf".to_string()));
    assert_eq!(ps(&Candidate::Bytes(b"a/ok.pdf".to_vec())), Ok("a/ok.pdf".to_string()));
    assert_eq!(
        ps(&Candidate::Bytes(b"a/\xF6.pdf".to_vec())),
        Err(LibError::NonRepresentablePath)
    );
}
