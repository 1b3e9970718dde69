use note_store::categories::get_all_categories;
use note_store::error::ErrorKind;
use note_store::mutate::{
    create_category, create_subcategory, delete_category, delete_note, delete_note_by_title,
    delete_subcategory, note_path, DirProbe,
};
use note_store::plan::FsAction;
use note_store::record_io::{read_note, save_note};
use note_store::records::CategoryInfo;
use note_store::scan::get_all_notes;
use note_store::tree::{DirState, Entry, EntryKind, Stamp};

/// A directory tree in memory, on which the steps of the store are carried
/// out as a file system would.
struct Tree {
    nodes: Vec<Node>,
    clock: i128,
}

struct Node {
    path: String,
    dir: bool,
    content: String,
    created: i128,
}

impl Tree {
    fn new() -> Tree {
        Tree { nodes: Vec::new(), clock: 1_000 }
    }

    fn find(&self, path: &str) -> Option<&Node> {
        self.nodes.iter().find(|n| n.path == path)
    }

    fn has(&self, path: &str) -> bool {
        self.find(path).is_some()
    }

    fn is_dir(&self, path: &str) -> bool {
        self.find(path).map(|n| n.dir).unwrap_or(false)
    }

    fn children(&self, dir: &str) -> Vec<&Node> {
        let prefix = format!("{}/", dir);
        self.nodes
            .iter()
            .filter(|n| n.path.starts_with(&prefix) && !n.path[prefix.len()..].contains('/'))
            .collect()
    }

    fn add(&mut self, path: &str, dir: bool, content: &str) {
        self.clock += 10;
        self.nodes.push(Node {
            path: path.to_string(),
            dir,
            content: content.to_string(),
            created: self.clock,
        });
    }

    fn create_dir_all(&mut self, path: &str) -> Result<(), String> {
        let mut prefix = String::new();
        for (i, part) in path.split('/').enumerate() {
            if i > 0 {
                prefix.push('/');
            }
            prefix.push_str(part);
            if prefix.is_empty() {
                continue;
            }
            match self.find(&prefix).map(|n| n.dir) {
                Some(true) => {}
                Some(false) => return Err(format!("{} is a file", prefix)),
                None => {
                    let made = prefix.clone();
                    self.add(&made, true, "");
                }
            }
        }
        Ok(())
    }

    fn apply(&mut self, step: &FsAction) -> Result<(), String> {
        match step {
            FsAction::CreateDirAll { path } => self.create_dir_all(path),
            FsAction::RemoveDir { path } => {
                if !self.is_dir(path) {
                    return Err("no such directory".to_string());
                }
                if !self.children(path).is_empty() {
                    return Err("directory not empty".to_string());
                }
                self.nodes.retain(|n| &n.path != path);
                Ok(())
            }
            FsAction::RemoveDirAll { path } => {
                if !self.is_dir(path) {
                    return Err("no such directory".to_string());
                }
                let prefix = format!("{}/", path);
                self.nodes.retain(|n| &n.path != path && !n.path.starts_with(&prefix));
                Ok(())
            }
            FsAction::RemoveFile { path } => {
                if !self.has(path) || self.is_dir(path) {
                    return Err("no such file".to_string());
                }
                self.nodes.retain(|n| &n.path != path);
                Ok(())
            }
            FsAction::WriteFile { path, content } => {
                if self.is_dir(path) {
                    return Err("is a directory".to_string());
                }
                let parent = match path.rfind('/') {
                    Some(cut) => &path[..cut],
                    None => "",
                };
                if !parent.is_empty() && !self.is_dir(parent) {
                    return Err("no such directory".to_string());
                }
                match self.nodes.iter_mut().find(|n| &n.path == path) {
                    Some(node) => node.content = content.clone(),
                    None => self.add(path, false, content),
                }
                Ok(())
            }
        }
    }

    fn read(&self, path: &str) -> Result<String, String> {
        match self.find(path) {
            Some(n) if !n.dir => Ok(n.content.clone()),
            _ => Err("no such file".to_string()),
        }
    }

    fn entries(&self, dir: &str, depth: usize) -> Vec<Entry> {
        self.children(dir)
            .iter()
            .map(|n| Entry {
                name: Some(n.path[dir.len() + 1..].to_string()),
                kind: if n.dir { EntryKind::Directory } else { EntryKind::File },
                created: Some(Stamp { nanos: n.created, text: format!("created {}", n.created) }),
                modified: Some(format!("modified {}", n.created)),
                children: if n.dir && depth > 1 {
                    Some(self.entries(&n.path, depth - 1))
                } else {
                    None
                },
            })
            .collect()
    }

    fn state(&self, dir: &str, depth: usize) -> DirState {
        if !self.has(dir) {
            DirState::Missing
        } else if !self.is_dir(dir) {
            DirState::Unreadable
        } else {
            DirState::Listed(self.entries(dir, depth))
        }
    }

    fn probe(&self, dir: &str) -> DirProbe {
        if !self.has(dir) {
            DirProbe::Missing
        } else if !self.is_dir(dir) {
            DirProbe::Unreadable
        } else if self.children(dir).is_empty() {
            DirProbe::Empty
        } else {
            DirProbe::Occupied
        }
    }

    fn categories(&mut self, data_dir: &str) -> Vec<CategoryInfo> {
        let (list, step) = get_all_categories(data_dir, &self.state(data_dir, 2)).unwrap();
        if let Some(step) = step {
            self.apply(&step).unwrap();
        }
        list
    }

    fn save(&mut self, path: &str, content: &str) {
        for step in save_note(path, content) {
            self.apply(&step).unwrap();
        }
    }
}

fn tree_with_root(data_dir: &str) -> Tree {
    let mut tree = Tree::new();
    tree.create_dir_all(data_dir).unwrap();
    tree
}

#[test]
fn test_category_operations() {
    let data_dir = "/tmp/data";
    let mut tree = tree_with_root(data_dir);

    let categories = tree.categories(data_dir);
    assert!(categories.is_empty());

    let category_name = "\u{5b66}\u{4e60}\u{7b14}\u{8bb0}";
    let (category_id, step) = create_category(data_dir, category_name);
    tree.apply(&step).unwrap();
    assert_eq!(category_id, category_name);

    let category_path = format!("{}/{}", data_dir, category_name);
    assert!(tree.has(&category_path) && tree.is_dir(&category_path));

    let categories = tree.categories(data_dir);
    assert_eq!(categories.len(), 1);
    assert_eq!(categories[0].id, category_name);
    assert_eq!(categories[0].name, category_name);
    assert!(categories[0].sub_categories.is_empty());

    let subcategory_name = "\u{7f16}\u{7a0b}\u{8bed}\u{8a00}";
    let (subcategory_id, step) = create_subcategory(data_dir, category_name, subcategory_name);
    tree.apply(&step).unwrap();
    assert_eq!(subcategory_id, subcategory_name);

    let subcategory_path = format!("{}/{}", category_path, subcategory_name);
    assert!(tree.has(&subcategory_path) && tree.is_dir(&subcategory_path));

    let categories = tree.categories(data_dir);
    assert_eq!(categories.len(), 1);
    assert_eq!(categories[0].sub_categories.len(), 1);

    let subcategory = &categories[0].sub_categories[0];
    assert_eq!(subcategory.id, subcategory_name);
    assert_eq!(subcategory.name, subcategory_name);
    assert_eq!(subcategory.parent_id, category_name);

    let category_name2 = "\u{5de5}\u{4f5c}\u{6587}\u{6863}";
    let (_, step) = create_category(data_dir, category_name2);
    tree.apply(&step).unwrap();

    let subcategory_name2 = "\u{4f1a}\u{8bae}\u{8bb0}\u{5f55}";
    let (_, step) = create_subcategory(data_dir, category_name2, subcategory_name2);
    tree.apply(&step).unwrap();

    let subcategory_name3 = "\u{9879}\u{76ee}\u{8ba1}\u{5212}";
    let (_, step) = create_subcategory(data_dir, category_name2, subcategory_name3);
    tree.apply(&step).unwrap();

    let categories = tree.categories(data_dir);
    assert_eq!(categories.len(), 2);

    let work_category = categories.iter().find(|c| c.id == category_name2).unwrap();
    assert_eq!(work_category.sub_categories.len(), 2);

    let (_, step) = create_subcategory(
        data_dir,
        "\u{4e0d}\u{5b58}\u{5728}\u{7684}\u{5206}\u{7c7b}",
        "\u{6d4b}\u{8bd5}\u{5b50}\u{5206}\u{7c7b}",
    );
    let result = tree.apply(&step);
    assert!(result.is_ok());
}

#[test]
fn first_run_creates_the_data_root() {
    let data_dir = "/home/me/notes";
    let mut tree = Tree::new();
    let (notes, step) = get_all_notes(data_dir, &tree.state(data_dir, 3)).unwrap();
    assert!(notes.is_empty());
    assert_eq!(step, Some(FsAction::CreateDirAll { path: data_dir.to_string() }));
    tree.apply(&step.unwrap()).unwrap();
    assert!(tree.is_dir(data_dir));

    let (notes, step) = get_all_notes(data_dir, &tree.state(data_dir, 3)).unwrap();
    assert!(notes.is_empty());
    assert_eq!(step, None);
}

#[test]
fn one_note_from_creation_to_cleanup() {
    let data_dir = "/data";
    let mut tree = Tree::new();
    let (notes, step) = get_all_notes(data_dir, &tree.state(data_dir, 3)).unwrap();
    assert!(notes.is_empty());
    tree.apply(&step.unwrap()).unwrap();
    assert!(tree.is_dir(data_dir));

    let (id, step) = create_category(data_dir, "Work");
    assert_eq!(id, "Work");
    tree.apply(&step).unwrap();
    let (id, step) = create_subcategory(data_dir, "Work", "Meetings");
    assert_eq!(id, "Meetings");
    tree.apply(&step).unwrap();
    tree.save("/data/Work/Meetings/Standup.json", "{\"x\":1}");

    let (notes, step) = get_all_notes(data_dir, &tree.state(data_dir, 3)).unwrap();
    assert_eq!(step, None);
    assert_eq!(notes.len(), 1);
    assert_eq!(notes[0].id, "Work#Meetings#Standup");
    assert_eq!(notes[0].title, "Standup");
    assert_eq!(notes[0].category_id, "Work");
    assert_eq!(notes[0].sub_category_id, Some("Meetings".to_string()));
    assert_eq!(notes[0].path, "/data/Work/Meetings/Standup.json");

    let refused = delete_category(data_dir, "Work", tree.probe("/data/Work")).unwrap_err();
    assert_eq!(refused.kind, ErrorKind::NotEmpty);
    assert_eq!(refused.subject, "Work");

    let there = tree.has("/data/Work/Meetings");
    let step = delete_subcategory(data_dir, "Work", "Meetings", there).unwrap();
    assert_eq!(step, FsAction::RemoveDirAll { path: "/data/Work/Meetings".to_string() });
    tree.apply(&step).unwrap();
    assert!(!tree.has("/data/Work/Meetings/Standup.json"));

    let step = delete_category(data_dir, "Work", tree.probe("/data/Work")).unwrap();
    assert_eq!(step, FsAction::RemoveDir { path: "/data/Work".to_string() });
    tree.apply(&step).unwrap();

    assert!(tree.categories(data_dir).is_empty());
    assert!(tree.is_dir(data_dir));
}

#[test]
fn created_category_is_listed_once_and_empty() {
    let data_dir = "/data";
    for name in ["Work", "a b", "\u{5b66}\u{4e60}", "unknown"] {
        let mut tree = tree_with_root(data_dir);
        let (_, step) = create_category(data_dir, "Other");
        tree.apply(&step).unwrap();
        let (id, step) = create_category(data_dir, name);
        tree.apply(&step).unwrap();
        let listed = tree.categories(data_dir);
        let hits: Vec<&CategoryInfo> = listed.iter().filter(|c| c.id == id).collect();
        assert_eq!(hits.len(), 1);
        assert_eq!(hits[0].name, name);
        assert!(hits[0].sub_categories.is_empty());
    }
}

#[test]
fn creating_a_category_twice_changes_nothing() {
    let data_dir = "/data";
    let mut tree = tree_with_root(data_dir);
    let (_, step) = create_category(data_dir, "Work");
    tree.apply(&step).unwrap();
    let once = tree.categories(data_dir);
    let (_, step) = create_category(data_dir, "Work");
    tree.apply(&step).unwrap();
    assert_eq!(tree.categories(data_dir), once);
}

#[test]
fn created_subcategory_is_listed_once() {
    let data_dir = "/data";
    let mut tree = tree_with_root(data_dir);
    let (id, step) = create_subcategory(data_dir, "Work", "Meetings");
    assert_eq!(step, FsAction::CreateDirAll { path: "/data/Work/Meetings".to_string() });
    tree.apply(&step).unwrap();
    let first = tree.categories(data_dir);
    assert_eq!(first.len(), 1);
    assert_eq!(first[0].id, "Work");
    assert_eq!(first[0].sub_categories.len(), 1);
    assert_eq!(first[0].sub_categories[0].id, id);
    assert_eq!(first[0].sub_categories[0].name, "Meetings");
    assert_eq!(first[0].sub_categories[0].parent_id, "Work");

    let (_, step) = create_subcategory(data_dir, "Work", "Meetings");
    tree.apply(&step).unwrap();
    assert_eq!(tree.categories(data_dir), first);
}

#[test]
fn delete_category_needs_it_empty() {
    let data_dir = "/data";
    let mut tree = tree_with_root(data_dir);
    let (_, step) = create_subcategory(data_dir, "Work", "Meetings");
    tree.apply(&step).unwrap();

    let refused = delete_category(data_dir, "Work", tree.probe("/data/Work"));
    assert_eq!(refused.unwrap_err().kind, ErrorKind::NotEmpty);
    assert!(tree.is_dir("/data/Work/Meetings"));

    let step = delete_subcategory(data_dir, "Work", "Meetings", true).unwrap();
    tree.apply(&step).unwrap();
    let step = delete_category(data_dir, "Work", tree.probe("/data/Work")).unwrap();
    tree.apply(&step).unwrap();
    assert!(tree.categories(data_dir).iter().all(|c| c.id != "Work"));
}

#[test]
fn delete_category_by_what_was_found() {
    let e = delete_category("/data", "Work", DirProbe::Missing).unwrap_err();
    assert_eq!(e.kind, ErrorKind::NotFound);
    assert_eq!(e.subject, "Work");
    let e = delete_category("/data", "Work", DirProbe::Unreadable).unwrap_err();
    assert_eq!(e.kind, ErrorKind::ScanFailed);
    assert_eq!(e.subject, "/data/Work");
    let e = delete_category("/data", "Work", DirProbe::Occupied).unwrap_err();
    assert_eq!(e.kind, ErrorKind::NotEmpty);
    assert_eq!(
        delete_category("/data", "Work", DirProbe::Empty).unwrap(),
        FsAction::RemoveDir { path: "/data/Work".to_string() }
    );
}

#[test]
fn delete_subcategory_that_is_absent() {
    let e = delete_subcategory("/data", "Work", "Meetings", false).unwrap_err();
    assert_eq!(e.kind, ErrorKind::NotFound);
    assert_eq!(e.subject, "Meetings");
}

#[test]
fn saved_note_reads_back() {
    let mut tree = Tree::new();
    let path = "/fresh/a/b/Note.json";
    assert!(!tree.has("/fresh"));
    tree.save(path, "X");
    assert_eq!(read_note(path, tree.read(path)).unwrap(), "X");
    tree.save(path, "{\"y\":2}");
    assert_eq!(read_note(path, tree.read(path)).unwrap(), "{\"y\":2}");
}

#[test]
fn save_note_creates_the_directory_first() {
    let steps = save_note("/data/Work/Tasks.json", "{}");
    assert_eq!(
        steps,
        vec![
            FsAction::CreateDirAll { path: "/data/Work".to_string() },
            FsAction::WriteFile { path: "/data/Work/Tasks.json".to_string(), content: "{}".to_string() },
        ]
    );
    assert_eq!(
        save_note("", "x"),
        vec![FsAction::WriteFile { path: "".to_string(), content: "x".to_string() }]
    );
}

#[test]
fn read_note_reports_the_reason() {
    let e = read_note("/data/none.json", Err("not found".to_string())).unwrap_err();
    assert_eq!(e.kind, ErrorKind::ReadFailed);
    assert_eq!(e.subject, "/data/none.json");
    assert_eq!(e.detail, "not found");
}

#[test]
fn refused_step_is_a_write_failure() {
    let step = FsAction::RemoveFile { path: "/data/a.json".to_string() };
    let e = step.failed("denied");
    assert_eq!(e.kind, ErrorKind::WriteFailed);
    assert_eq!(e.subject, "/data/a.json");
    assert_eq!(e.detail, "denied");
    assert_eq!(step.target(), "/data/a.json");
}

#[test]
fn categories_are_listed_newest_first() {
    let data_dir = "/data";
    let mut tree = tree_with_root(data_dir);
    for name in ["first", "second", "third"] {
        let (_, step) = create_category(data_dir, name);
        tree.apply(&step).unwrap();
    }
    for name in ["old", "new"] {
        let (_, step) = create_subcategory(data_dir, "second", name);
        tree.apply(&step).unwrap();
    }
    let listed = tree.categories(data_dir);
    let ids: Vec<&str> = listed.iter().map(|c| c.id.as_str()).collect();
    assert_eq!(ids, vec!["third", "second", "first"]);
    let subs: Vec<&str> = listed[1].sub_categories.iter().map(|s| s.id.as_str()).collect();
    assert_eq!(subs, vec!["new", "old"]);
    assert_eq!(listed[0].created_time, "created 1040");
}

#[test]
fn notes_are_listed_newest_first() {
    let data_dir = "/data";
    let mut tree = tree_with_root(data_dir);
    tree.save("/data/Work/Meetings/Standup.json", "1");
    tree.save("/data/Work/Tasks.json", "2");
    tree.save("/data/Home/Shopping.json", "3");
    tree.save("/data/Work/readme.txt", "4");
    tree.save("/data/stray.json", "5");
    let (notes, _) = get_all_notes(data_dir, &tree.state(data_dir, 3)).unwrap();
    let ids: Vec<&str> = notes.iter().map(|n| n.id.as_str()).collect();
    assert_eq!(ids, vec!["Home##Shopping", "Work##Tasks", "Work#Meetings#Standup"]);
    assert_eq!(notes[1].sub_category_id, None);
    assert_eq!(notes[1].path, "/data/Work/Tasks.json");
    assert_eq!(notes[1].title, "Tasks");
    assert_eq!(notes[1].category_id, "Work");
    assert!(notes[1].last_updated.starts_with("modified "));
}

#[test]
fn delete_note_by_its_id() {
    let data_dir = "/data";
    let mut tree = tree_with_root(data_dir);
    tree.save("/data/Work/Meetings/Standup.json", "1");
    tree.save("/data/Work/Tasks.json", "2");

    let path = note_path(data_dir, "Work#Meetings#Standup").unwrap();
    assert_eq!(path, "/data/Work/Meetings/Standup.json");
    let step = delete_note(data_dir, "Work#Meetings#Standup", tree.has(&path)).unwrap();
    assert_eq!(step, FsAction::RemoveFile { path: path.clone() });
    tree.apply(&step).unwrap();
    assert!(!tree.has(&path));

    let e = delete_note(data_dir, "Work#Meetings#Standup", tree.has(&path)).unwrap_err();
    assert_eq!(e.kind, ErrorKind::NotFound);
    assert_eq!(e.subject, path);

    let path = note_path(data_dir, "Work##Tasks").unwrap();
    assert_eq!(path, "/data/Work/Tasks.json");
    let step = delete_note(data_dir, "Work##Tasks", tree.has(&path)).unwrap();
    tree.apply(&step).unwrap();
    let (notes, _) = get_all_notes(data_dir, &tree.state(data_dir, 3)).unwrap();
    assert!(notes.is_empty());
}

#[test]
fn delete_note_with_a_malformed_id() {
    for id in ["Standup", "Work#Standup", "a#b#c#d", ""] {
        let e = delete_note("/data", id, true).unwrap_err();
        assert_eq!(e.kind, ErrorKind::MalformedId);
        assert_eq!(e.subject, id);
        assert_eq!(note_path("/data", id).unwrap_err().kind, ErrorKind::MalformedId);
    }
}

#[test]
fn delete_note_by_title_takes_the_first_on_the_way() {
    let data_dir = "/data";
    let mut tree = tree_with_root(data_dir);
    tree.save("/data/Work/Meetings/Plan.json", "1");
    tree.save("/data/Home/Plan.json", "2");
    let step = delete_note_by_title(data_dir, "Plan", &tree.state(data_dir, 3)).unwrap();
    assert_eq!(step, FsAction::RemoveFile { path: "/data/Work/Meetings/Plan.json".to_string() });
    tree.apply(&step).unwrap();
    let step = delete_note_by_title(data_dir, "Plan", &tree.state(data_dir, 3)).unwrap();
    assert_eq!(step, FsAction::RemoveFile { path: "/data/Home/Plan.json".to_string() });
    tree.apply(&step).unwrap();
    let e = delete_note_by_title(data_dir, "Plan", &tree.state(data_dir, 3)).unwrap_err();
    assert_eq!(e.kind, ErrorKind::NotFound);
    assert_eq!(e.subject, "Plan");
}

#[test]
fn delete_note_by_title_without_a_tree() {
    let e = delete_note_by_title("/data", "Plan", &DirState::Missing).unwrap_err();
    assert_eq!(e.kind, ErrorKind::NotFound);
    let e = delete_note_by_title("/data", "Plan", &DirState::Unreadable).unwrap_err();
    assert_eq!(e.kind, ErrorKind::ScanFailed);
}
