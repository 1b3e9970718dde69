use note_store::categories::get_all_categories;
use note_store::error::ErrorKind;
use note_store::scan::{get_all_notes, note_from};
use note_store::tree::{DirState, Entry, EntryKind, Stamp};

fn file(name: &str, created: Option<i128>) -> Entry {
    Entry {
        name: Some(name.to_string()),
        kind: EntryKind::File,
        created: created.map(|nanos| Stamp { nanos, text: format!("c{}", nanos) }),
        modified: Some(format!("m-{}", name)),
        children: None,
    }
}

fn dir(name: &str, created: Option<i128>, children: Option<Vec<Entry>>) -> Entry {
    Entry {
        name: Some(name.to_string()),
        kind: EntryKind::Directory,
        created: created.map(|nanos| Stamp { nanos, text: format!("c{}", nanos) }),
        modified: None,
        children,
    }
}

#[test]
fn unreadable_root_fails_the_listing() {
    let e = get_all_notes("/data", &DirState::Unreadable).unwrap_err();
    assert_eq!(e.kind, ErrorKind::ScanFailed);
    assert_eq!(e.subject, "/data");
    let e = get_all_categories("/data", &DirState::Unreadable).unwrap_err();
    assert_eq!(e.kind, ErrorKind::ScanFailed);
    assert_eq!(e.subject, "/data");
}

#[test]
fn unreadable_category_fails_the_listing() {
    let root = DirState::Listed(vec![
        dir("A", Some(1), Some(vec![file("n.json", Some(1))])),
        dir("B", Some(2), None),
        dir("C", Some(3), None),
    ]);
    let e = get_all_notes("/data", &root).unwrap_err();
    assert_eq!(e.kind, ErrorKind::ScanFailed);
    assert_eq!(e.subject, "/data/B");
    let e = get_all_categories("/data", &root).unwrap_err();
    assert_eq!(e.kind, ErrorKind::ScanFailed);
    assert_eq!(e.subject, "/data/B");
}

#[test]
fn unreadable_subcategory_fails_the_listing_of_notes_only() {
    let root = DirState::Listed(vec![dir(
        "A",
        Some(1),
        Some(vec![file("n.json", Some(1)), dir("S", Some(2), None), dir("T", Some(3), None)]),
    )]);
    let e = get_all_notes("/data", &root).unwrap_err();
    assert_eq!(e.kind, ErrorKind::ScanFailed);
    assert_eq!(e.subject, "/data/A/S");
    let (categories, step) = get_all_categories("/data", &root).unwrap();
    assert_eq!(step, None);
    assert_eq!(categories.len(), 1);
    assert_eq!(categories[0].sub_categories.len(), 2);
    assert_eq!(categories[0].sub_categories[0].id, "T");
    assert_eq!(categories[0].sub_categories[1].id, "S");
}

#[test]
fn stray_entries_are_passed_over() {
    let other = Entry {
        name: Some("pipe.json".to_string()),
        kind: EntryKind::Other,
        created: None,
        modified: None,
        children: None,
    };
    let nameless = Entry {
        name: None,
        kind: EntryKind::File,
        created: None,
        modified: None,
        children: None,
    };
    let root = DirState::Listed(vec![
        file("top.json", Some(9)),
        dir(
            "A",
            Some(1),
            Some(vec![
                file("readme.md", Some(5)),
                file(".json", Some(6)),
                other,
                nameless,
                dir("S", Some(2), Some(vec![file("x.txt", Some(7)), dir("deep.json", Some(8), None)])),
            ]),
        ),
    ]);
    let (notes, step) = get_all_notes("/data", &root).unwrap();
    assert!(notes.is_empty());
    assert_eq!(step, None);
    let (categories, _) = get_all_categories("/data", &root).unwrap();
    assert_eq!(categories.len(), 1);
    assert_eq!(categories[0].id, "A");
    assert_eq!(categories[0].sub_categories.len(), 1);
}

#[test]
fn times_that_cannot_be_told() {
    let mut note = file("n.json", None);
    note.modified = None;
    let root = DirState::Listed(vec![
        dir("Old", None, Some(vec![note, dir("S", None, Some(vec![]))])),
        dir("Before", Some(-5), Some(vec![])),
        dir("After", Some(5), Some(vec![])),
    ]);
    let (notes, _) = get_all_notes("/data", &root).unwrap();
    assert_eq!(notes.len(), 1);
    assert_eq!(notes[0].last_updated, "\u{672a}\u{77e5}");
    let (categories, _) = get_all_categories("/data", &root).unwrap();
    let ids: Vec<&str> = categories.iter().map(|c| c.id.as_str()).collect();
    assert_eq!(ids, vec!["After", "Old", "Before"]);
    assert_eq!(categories[1].created_time, "\u{672a}\u{77e5}");
    assert_eq!(categories[1].sub_categories[0].created_time, "\u{672a}\u{77e5}");
    assert_eq!(categories[0].created_time, "c5");
}

#[test]
fn directory_without_a_readable_name() {
    let mut nameless = dir("x", Some(1), Some(vec![file("n.json", Some(1))]));
    nameless.name = None;
    let root = DirState::Listed(vec![nameless]);
    let (notes, _) = get_all_notes("/data", &root).unwrap();
    assert_eq!(notes[0].id, "unknown##n");
    assert_eq!(notes[0].category_id, "unknown");
    let (categories, _) = get_all_categories("/data", &root).unwrap();
    assert_eq!(categories[0].id, "unknown");
    assert_eq!(categories[0].name, "unknown");
}

#[test]
fn notes_of_equal_time_keep_the_order_of_the_walk() {
    let root = DirState::Listed(vec![
        dir("A", Some(1), Some(vec![file("a.json", Some(4)), file("b.json", Some(4))])),
        dir("B", Some(2), Some(vec![file("c.json", Some(9)), file("d.json", None)])),
    ]);
    let (notes, _) = get_all_notes("/data", &root).unwrap();
    let ids: Vec<&str> = notes.iter().map(|n| n.id.as_str()).collect();
    assert_eq!(ids, vec!["B##c", "A##a", "A##b", "B##d"]);
}

#[test]
fn names_with_a_separator_are_listed_as_they_are() {
    let root = DirState::Listed(vec![dir("a#b", Some(1), Some(vec![file("n.json", Some(1))]))]);
    let (notes, _) = get_all_notes("/data", &root).unwrap();
    assert_eq!(notes[0].id, "a#b##n");
    assert_eq!(notes[0].path, "/data/a#b/n.json");
}

#[test]
fn note_from_reads_one_entry() {
    let (time, note) = note_from("/d", "C", Some("S"), &file("T.json", Some(42))).unwrap();
    assert_eq!(time, 42);
    assert_eq!(note.id, "C#S#T");
    assert_eq!(note.title, "T");
    assert_eq!(note.path, "/d/C/S/T.json");
    assert_eq!(note.category_id, "C");
    assert_eq!(note.sub_category_id, Some("S".to_string()));
    assert_eq!(note.last_updated, "m-T.json");
    assert!(note_from("/d", "C", None, &dir("T.json", Some(1), None)).is_none());
    assert!(note_from("/d", "C", None, &file("T.txt", Some(1))).is_none());
    let (time, _) = note_from("/d", "C", None, &file("T.json", None)).unwrap();
    assert_eq!(time, 0);
}
