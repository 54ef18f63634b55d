use course_archiver::archive::writecourse;
use course_archiver::pages::{retain_relevant, Node, Node2};
use course_archiver::report::{ReportBuilder, XmlEvent};
use course_archiver::resolver::{Candidate, Category, FileNode, Link};
use course_archiver::text::dec_string;

fn page(slug: &str, doc: &str, occasion: Option<&str>) -> Node2 {
    Node2 {
        slug: slug.to_string(),
        doc: doc.to_string(),
        last_modified: "2020-05-01T10:00:00".to_string(),
        files: Vec::new(),
        occasion: occasion.map(|s| s.to_string()),
    }
}

fn start_name(e: &XmlEvent) -> Option<&str> {
    match e {
        XmlEvent::Start { name, .. } => Some(name.as_str()),
        _ => None,
    }
}

fn characters(e: &XmlEvent) -> Option<&str> {
    match e {
        XmlEvent::Characters { text } => Some(text.as_str()),
        _ => None,
    }
}

#[test]
fn builder_tracks_nesting() {
    let mut b = ReportBuilder::new();
    b.start("Root".to_string(), Vec::new());
    b.start("Inner".to_string(), Vec::new());
    b.characters("hello".to_string());
    b.end();
    b.end();
    let events = b.finish();
    assert_eq!(events.len(), 5);
    assert_eq!(start_name(&events[0]), Some("Root"));
    assert_eq!(start_name(&events[1]), Some("Inner"));
    assert_eq!(characters(&events[2]), Some("hello"));
    assert!(matches!(events[3], XmlEvent::End));
    assert!(matches!(events[4], XmlEvent::End));
}

#[test]
fn empty_course_writes_nothing() {
    let mut b = ReportBuilder::new();
    b.start("Leveransobjekt".to_string(), Vec::new());
    let before = b.events.len();
    let (wrote, outs, docs) = writecourse(
        &mut b,
        &"SF1624".to_string(),
        &vec![("sv".to_string(), "Algebra".to_string())],
        &"s/SF1624".to_string(),
        Vec::new(),
    );
    assert!(!wrote);
    assert!(outs.is_empty());
    assert!(docs.is_empty());
    assert_eq!(b.events.len(), before);
}

#[test]
fn irrelevant_pages_are_dropped_before_writing() {
    let pages = vec![
        page("intro", "welcome to the course", None),
        page("info", "schedule and rooms", None),
    ];
    let verdicts: Vec<Vec<bool>> = vec![Vec::new(), Vec::new()];
    let retained = retain_relevant(pages, &verdicts);
    assert!(retained.is_empty());
}

#[test]
fn scenario_relevant_page_without_links() {
    let pages = vec![page("intro", "see the exam next week", None)];
    let verdicts: Vec<Vec<bool>> = vec![Vec::new()];
    let retained = retain_relevant(pages, &verdicts);
    assert_eq!(retained.len(), 1);

    let mut b = ReportBuilder::new();
    b.start("Leveransobjekt".to_string(), Vec::new());
    let pairs: Vec<(Node2, Vec<Option<Vec<u8>>>)> =
        retained.into_iter().map(|p| (p, Vec::new())).collect();
    let (wrote, outs, docs) = writecourse(
        &mut b,
        &"SF1624".to_string(),
        &vec![("sv".to_string(), "Algebra".to_string())],
        &"s/SF1624".to_string(),
        pairs,
    );
    assert!(wrote);
    assert!(outs.is_empty());
    assert_eq!(docs.len(), 1);
    assert_eq!(docs[0].0, "intro.html");
    assert_eq!(docs[0].1, "see the exam next week");

    // The emitted page node has no attachment children.
    let names: Vec<&str> = b.events.iter().filter_map(start_name).collect();
    assert_eq!(names, vec!["Leveransobjekt", "Kurs", "Kurskod", "Kursnamn", "Innehall", "Nod"]);
    b.end();
    let events = b.finish();
    assert!(events.iter().all(|e| start_name(e) != Some("Bilaga")));
}

#[test]
fn rewrite_is_complete_for_written_attachments() {
    let srcname = "01-files/Lab 1+assignment.pdf";
    let mut p = page(
        "labs",
        "get <a href=\"01-files/Lab 1+assignment.pdf\">the lab assignment</a> here",
        None,
    );
    p.files.push(FileNode {
        path: Candidate::Text(srcname.to_string()),
        srcname: srcname.to_string(),
    });
    let mut b = ReportBuilder::new();
    b.start("Leveransobjekt".to_string(), Vec::new());
    b.start("Innehall".to_string(), Vec::new());
    let data = vec![Some(b"%PDF-1.4 fake".to_vec())];
    let outs = p.handle(&mut b, &"s/SF1624".to_string(), &data);
    assert_eq!(outs.len(), 1);
    assert_eq!(outs[0].0, "lab-1-assignment.pdf");
    assert_eq!(outs[0].1, b"%PDF-1.4 fake".to_vec());
    assert!(!p.doc.contains(srcname));
    assert!(p.doc.contains("lab-1-assignment.pdf"));

    // The attachment element carries link, filename and size.
    let bilaga = b
        .events
        .iter()
        .find_map(|e| match e {
            XmlEvent::Start { name, attrs } if name == "Bilaga" => Some(attrs.clone()),
            _ => None,
        })
        .expect("an attachment element");
    assert_eq!(bilaga[0], ("Lank".to_string(), "s/SF1624/lab-1-assignment.pdf".to_string()));
    assert_eq!(bilaga[1], ("Filnamn".to_string(), "lab-1-assignment.pdf".to_string()));
    assert_eq!(bilaga[2], ("Storlek".to_string(), "13".to_string()));
}

#[test]
fn unreadable_attachment_is_skipped_and_left_unrewritten() {
    let srcname = "01-files/gone.pdf";
    let mut p = page("labs", "see 01-files/gone.pdf for details", None);
    p.files.push(FileNode {
        path: Candidate::Text(srcname.to_string()),
        srcname: srcname.to_string(),
    });
    let mut b = ReportBuilder::new();
    b.start("Innehall".to_string(), Vec::new());
    let data = vec![None];
    let outs = p.handle(&mut b, &"s/X".to_string(), &data);
    assert!(outs.is_empty());
    assert!(p.doc.contains(srcname));
    assert!(b.events.iter().all(|e| start_name(e) != Some("Bilaga")));
}

#[test]
fn occasion_groups_come_in_lexicographic_order() {
    let pages = vec![
        page("b-page", "tenta info", Some("HT21")),
        page("a-page", "tenta info", Some("HT20")),
        page("plain", "tenta info", None),
        page("c-page", "more tenta info", Some("HT21")),
    ];
    let pairs: Vec<(Node2, Vec<Option<Vec<u8>>>)> =
        pages.into_iter().map(|p| (p, Vec::new())).collect();
    let mut b = ReportBuilder::new();
    b.start("Leveransobjekt".to_string(), Vec::new());
    let (wrote, _outs, docs) = writecourse(
        &mut b,
        &"SF1624".to_string(),
        &vec![("sv".to_string(), "Algebra".to_string()), ("en".to_string(), "Algebra".to_string())],
        &"s/SF1624".to_string(),
        pairs,
    );
    assert!(wrote);
    assert_eq!(docs.len(), 4);
    // Ungrouped first, then HT20 before HT21, each keeping page order.
    let slugs: Vec<&str> = docs.iter().map(|d| d.0.as_str()).collect();
    assert_eq!(slugs, vec!["plain.html", "a-page.html", "b-page.html", "c-page.html"]);
    let ids: Vec<&str> = b
        .events
        .iter()
        .zip(b.events.iter().skip(1))
        .filter_map(|(e, f)| {
            if start_name(e) == Some("Identifierare") { characters(f) } else { None }
        })
        .collect();
    assert_eq!(ids, vec!["HT20", "HT21"]);
    b.end();
    let events = b.finish();
    let tillfallen = events.iter().filter(|e| start_name(e) == Some("Tillfalle")).count();
    assert_eq!(tillfallen, 2);
}

#[test]
fn into_node2_keeps_resolved_file_links_in_order() {
    let node = Node {
        slug: "labs".to_string(),
        last_modified: "2020-05-01".to_string(),
        links: vec![
            Link { url: "01-files/a.pdf".to_string(), category: Category::File },
            Link { url: "https://example.org".to_string(), category: Category::External },
            Link { url: "01-files/b.pdf".to_string(), category: Category::File },
            Link { url: "01-files/c.pdf".to_string(), category: Category::File },
        ],
        occasion: None,
    };
    let exs = vec![
        vec![true, false, false, false, false],
        vec![false, false, false, false, false],
        vec![false, false, false, false, false],
        vec![false, false, true, false, false],
    ];
    let (n2, missing) = node.into_node2("doc text".to_string(), &exs);
    assert_eq!(n2.doc, "doc text");
    assert_eq!(n2.files.len(), 2);
    assert_eq!(n2.files[0].srcname, "01-files/a.pdf");
    assert_eq!(n2.files[1].srcname, "01-files/c.pdf");
    assert_eq!(missing, vec![2]);
}

#[test]
fn decimal_rendering_is_exact() {
    assert_eq!(dec_string(0), "0");
    assert_eq!(dec_string(7), "7");
    assert_eq!(dec_string(120034), "120034");
}
