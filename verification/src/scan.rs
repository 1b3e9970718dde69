//! Listing the notes of a tree.
//!
//! The tree is walked two levels deep. A directory under the data root is a
//! category. In a category, a directory is a sub-category and a note file is
//! a note of the category itself; in a sub-category, a note file is a note.
//! Everything else is passed over.

use vstd::prelude::*;
use vstd::string::*;
use crate::codec::{
    NoteKeyText,
    category_path,
    category_path_text,
    decoded,
    field_text,
    id_text,
    join_id,
    lemma_decode_encode,
    note_title,
    optional_str_text,
    path_text,
    separator_free,
    subcategory_path,
    subcategory_path_text,
    title_of_file,
    to_path,
};
use crate::error::{ErrorKind, StoreError, plain_failure};
use crate::order::{arranged, newest_first, newest_first_order, positions, times, times_of};
use crate::plan::{ActionText, FsAction, optional_action};
use crate::records::{NoteInfo, NoteText, note_texts};
use crate::tree::{
    DirState,
    Entry,
    EntryKind,
    created_key,
    entry_name,
    gathered,
    modified_text,
    with_found,
};

verus! {

/// What a sequence of dated note records stands for.
pub open spec fn dated_notes(found: Seq<(i128, NoteInfo)>) -> Seq<(i128, NoteText)> {
    found.map_values(|p: (i128, NoteInfo)| (p.0, p.1@))
}

/// What an optional dated note record stands for.
pub open spec fn dated_note(found: Option<(i128, NoteInfo)>) -> Option<(i128, NoteText)> {
    match found {
        Some(p) => Some((p.0, p.1@)),
        None => None,
    }
}

/// The note that the entry `e` holds, with the time by which it is ranked:
/// `e` is a file whose name is that of a note file.
pub open spec fn note_in(
    data_dir: Seq<char>,
    category: Seq<char>,
    subcategory: Option<Seq<char>>,
    e: Entry,
) -> Option<(i128, NoteText)> {
    if e.kind == EntryKind::File && e.name is Some && title_of_file(e.name->0@) is Some {
        let title = title_of_file(e.name->0@)->0;
        Some(
            (
                created_key(e),
                NoteText {
                    id: id_text(category, subcategory, title),
                    title,
                    path: path_text(data_dir, category, subcategory, title),
                    category_id: category,
                    sub_category_id: subcategory,
                    last_updated: modified_text(e),
                },
            ),
        )
    } else {
        None
    }
}

/// The notes among the entries of a sub-category, in the order of the
/// entries.
pub open spec fn notes_in_files(
    data_dir: Seq<char>,
    category: Seq<char>,
    subcategory: Option<Seq<char>>,
    files: Seq<Entry>,
) -> Seq<(i128, NoteText)> {
    gathered(files, |e: Entry| note_in(data_dir, category, subcategory, e))
}

/// The notes that one entry of a category brings: those of a sub-category, or
/// the note of the category itself that the entry holds.
pub open spec fn notes_in_entry(data_dir: Seq<char>, category: Seq<char>, e: Entry) -> Seq<
    (i128, NoteText),
> {
    if e.kind == EntryKind::Directory {
        match e.children {
            Some(files) => notes_in_files(data_dir, category, Some(entry_name(e)), files@),
            None => Seq::empty(),
        }
    } else {
        with_found(Seq::empty(), note_in(data_dir, category, None, e))
    }
}

/// The notes of a category, in the order of its entries.
pub open spec fn notes_in_category(
    data_dir: Seq<char>,
    category: Seq<char>,
    entries: Seq<Entry>,
) -> Seq<(i128, NoteText)>
    decreases entries.len(),
{
    if entries.len() == 0 {
        Seq::empty()
    } else {
        notes_in_category(data_dir, category, entries.drop_last()) + notes_in_entry(
            data_dir,
            category,
            entries.last(),
        )
    }
}

/// The notes that one entry of the data root brings: those of a category.
pub open spec fn notes_in_top(data_dir: Seq<char>, c: Entry) -> Seq<(i128, NoteText)> {
    if c.kind == EntryKind::Directory {
        match c.children {
            Some(entries) => notes_in_category(data_dir, entry_name(c), entries@),
            None => Seq::empty(),
        }
    } else {
        Seq::empty()
    }
}

/// The notes of the tree, in the order of the walk.
pub open spec fn notes_in_root(data_dir: Seq<char>, top: Seq<Entry>) -> Seq<(i128, NoteText)>
    decreases top.len(),
{
    if top.len() == 0 {
        Seq::empty()
    } else {
        notes_in_root(data_dir, top.drop_last()) + notes_in_top(data_dir, top.last())
    }
}

/// The path of the sub-category that `e` is, where it has no listing.
pub open spec fn fault_in_entry(data_dir: Seq<char>, category: Seq<char>, e: Entry) -> Option<
    Seq<char>,
> {
    if e.kind == EntryKind::Directory && e.children is None {
        Some(subcategory_path_text(data_dir, category, entry_name(e)))
    } else {
        None
    }
}

/// The path of the first sub-category of a category that has no listing.
pub open spec fn fault_in_category(
    data_dir: Seq<char>,
    category: Seq<char>,
    entries: Seq<Entry>,
) -> Option<Seq<char>>
    decreases entries.len(),
{
    if entries.len() == 0 {
        None
    } else {
        match fault_in_category(data_dir, category, entries.drop_last()) {
            Some(p) => Some(p),
            None => fault_in_entry(data_dir, category, entries.last()),
        }
    }
}

/// The path of the first directory without a listing that the walk meets in
/// the category that `c` is: the category itself, or one of its
/// sub-categories.
pub open spec fn fault_in_top(data_dir: Seq<char>, c: Entry) -> Option<Seq<char>> {
    if c.kind == EntryKind::Directory {
        match c.children {
            Some(entries) => fault_in_category(data_dir, entry_name(c), entries@),
            None => Some(category_path_text(data_dir, entry_name(c))),
        }
    } else {
        None
    }
}

/// The path of the first directory without a listing that the walk meets.
pub open spec fn fault_in_root(data_dir: Seq<char>, top: Seq<Entry>) -> Option<Seq<char>>
    decreases top.len(),
{
    if top.len() == 0 {
        None
    } else {
        match fault_in_root(data_dir, top.drop_last()) {
            Some(p) => Some(p),
            None => fault_in_top(data_dir, top.last()),
        }
    }
}

/// The notes of the tree as they are listed: newest first.
pub open spec fn listed_notes(data_dir: Seq<char>, top: Seq<Entry>) -> Seq<NoteText> {
    arranged(notes_in_root(data_dir, top))
}

/// A fault among the first entries of a category is the fault of the
/// category.
pub proof fn lemma_category_fault_stays(
    data_dir: Seq<char>,
    category: Seq<char>,
    entries: Seq<Entry>,
    k: int,
)
    requires
        0 <= k <= entries.len(),
        fault_in_category(data_dir, category, entries.take(k)) is Some,
    ensures
        fault_in_category(data_dir, category, entries) == fault_in_category(
            data_dir,
            category,
            entries.take(k),
        ),
    decreases entries.len(),
{
    if k == entries.len() {
        assert(entries.take(k) =~= entries);
    } else {
        assert(entries.drop_last().take(k) =~= entries.take(k));
        lemma_category_fault_stays(data_dir, category, entries.drop_last(), k);
    }
}

/// A fault among the first entries of the data root is the fault of the
/// tree.
pub proof fn lemma_root_fault_stays(data_dir: Seq<char>, top: Seq<Entry>, k: int)
    requires
        0 <= k <= top.len(),
        fault_in_root(data_dir, top.take(k)) is Some,
    ensures
        fault_in_root(data_dir, top) == fault_in_root(data_dir, top.take(k)),
    decreases top.len(),
{
    if k == top.len() {
        assert(top.take(k) =~= top);
    } else {
        assert(top.drop_last().take(k) =~= top.take(k));
        lemma_root_fault_stays(data_dir, top.drop_last(), k);
    }
}

/// The id of a listed note leads back to its file: where the names on the
/// way hold no separator, and the sub-category is absent or has a name that
/// is not empty, the fields that the id decodes to are those of the note, and
/// their path is the path of the record.
pub proof fn lemma_listed_id_leads_back(
    data_dir: Seq<char>,
    category: Seq<char>,
    subcategory: Option<Seq<char>>,
    e: Entry,
)
    requires
        note_in(data_dir, category, subcategory, e) is Some,
        separator_free(category),
        separator_free(field_text(subcategory)),
        subcategory != Some(Seq::<char>::empty()),
        separator_free(note_in(data_dir, category, subcategory, e).unwrap().1.title),
    ensures
        ({
            let note = note_in(data_dir, category, subcategory, e).unwrap().1;
            &&& decoded(note.id) == Some(NoteKeyText { category, subcategory, title: note.title })
            &&& path_text(data_dir, category, subcategory, note.title) == note.path
        }),
{
    let note = note_in(data_dir, category, subcategory, e).unwrap().1;
    lemma_decode_encode(category, subcategory, note.title);
}

/// The note that `e` holds, if it holds one.
pub fn note_from(data_dir: &str, category: &str, subcategory: Option<&str>, e: &Entry) -> (res:
    Option<(i128, NoteInfo)>)
    ensures
        dated_note(res) == note_in(data_dir@, category@, optional_str_text(subcategory), *e),
{
    match e.kind {
        EntryKind::File => {},
        _ => {
            return None;
        },
    }
    let name = match &e.name {
        Some(n) => n,
        None => {
            return None;
        },
    };
    let title = match note_title(name.as_str()) {
        Some(t) => t,
        None => {
            return None;
        },
    };
    let sub_category_id = match subcategory {
        Some(s) => Some(String::from_str(s)),
        None => None,
    };
    let note = NoteInfo {
        id: join_id(category, subcategory, title.as_str()),
        path: to_path(data_dir, category, subcategory, title.as_str()),
        title,
        category_id: String::from_str(category),
        sub_category_id,
        last_updated: e.last_updated(),
    };
    Some((e.rank(), note))
}

/// Adds the notes among the entries of a sub-category to `found`.
pub fn scan_files(
    data_dir: &str,
    category: &str,
    subcategory: Option<&str>,
    files: &Vec<Entry>,
    found: &mut Vec<(i128, NoteInfo)>,
)
    ensures
        dated_notes(final(found)@) == dated_notes(old(found)@) + notes_in_files(
            data_dir@,
            category@,
            optional_str_text(subcategory),
            files@,
        ),
{
    let ghost before = dated_notes(found@);
    let ghost sub = optional_str_text(subcategory);
    let n = files.len();
    let mut i: usize = 0;
    assert(before + notes_in_files(data_dir@, category@, sub, files@.take(0)) =~= before);
    while i < n
        invariant
            n == files.len(),
            i <= n,
            sub == optional_str_text(subcategory),
            dated_notes(found@) == before + notes_in_files(
                data_dir@,
                category@,
                sub,
                files@.take(i as int),
            ),
        decreases n - i,
    {
        let seen = note_from(data_dir, category, subcategory, &files[i]);
        proof {
            assert(files@.take(i + 1).drop_last() =~= files@.take(i as int));
            assert(files@.take(i + 1).last() == files@[i as int]);
        }
        match seen {
            Some(pair) => {
                proof {
                    let earlier = notes_in_files(data_dir@, category@, sub, files@.take(i as int));
                    assert(dated_notes(found@.push(pair)) =~= dated_notes(found@).push(
                        (pair.0, pair.1@),
                    ));
                    assert((before + earlier).push((pair.0, pair.1@)) =~= before + earlier.push(
                        (pair.0, pair.1@),
                    ));
                }
                found.push(pair);
            },
            None => {},
        }
        i += 1;
    }
    assert(files@.take(n as int) =~= files@);
}

/// Adds the notes of a category to `found`.
///
/// Fails with `ScanFailed` at the first sub-category that has no listing.
pub fn scan_category(
    data_dir: &str,
    category: &str,
    entries: &Vec<Entry>,
    found: &mut Vec<(i128, NoteInfo)>,
) -> (res: Result<(), StoreError>)
    ensures
        match fault_in_category(data_dir@, category@, entries@) {
            Some(p) => res is Err && res->Err_0@ == plain_failure(ErrorKind::ScanFailed, p),
            None => res is Ok && dated_notes(final(found)@) == dated_notes(old(found)@)
                + notes_in_category(data_dir@, category@, entries@),
        },
{
    let ghost before = dated_notes(found@);
    let n = entries.len();
    let mut i: usize = 0;
    assert(before + notes_in_category(data_dir@, category@, entries@.take(0)) =~= before);
    while i < n
        invariant
            n == entries.len(),
            i <= n,
            fault_in_category(data_dir@, category@, entries@.take(i as int)) is None,
            dated_notes(found@) == before + notes_in_category(
                data_dir@,
                category@,
                entries@.take(i as int),
            ),
        decreases n - i,
    {
        let e = &entries[i];
        let ghost earlier = notes_in_category(data_dir@, category@, entries@.take(i as int));
        proof {
            assert(entries@.take(i + 1).drop_last() =~= entries@.take(i as int));
            assert(entries@.take(i + 1).last() == entries@[i as int]);
        }
        match e.kind {
            EntryKind::Directory => {
                let name = e.shown_name();
                match &e.children {
                    Some(files) => {
                        scan_files(data_dir, category, Some(name.as_str()), files, found);
                        proof {
                            let here = notes_in_entry(data_dir@, category@, *e);
                            assert((before + earlier) + here =~= before + (earlier + here));
                        }
                    },
                    None => {
                        proof {
                            lemma_category_fault_stays(data_dir@, category@, entries@, i + 1);
                        }
                        let path = subcategory_path(data_dir, category, name.as_str());
                        return Err(StoreError::new(ErrorKind::ScanFailed, path.as_str()));
                    },
                }
            },
            _ => {
                let seen = note_from(data_dir, category, None, e);
                match seen {
                    Some(pair) => {
                        proof {
                            assert(dated_notes(found@.push(pair)) =~= dated_notes(found@).push(
                                (pair.0, pair.1@),
                            ));
                            assert((before + earlier).push((pair.0, pair.1@)) =~= before + (earlier
                                + seq![(pair.0, pair.1@)]));
                            assert(notes_in_entry(data_dir@, category@, *e) =~= seq![
                                (pair.0, pair.1@),
                            ]);
                        }
                        found.push(pair);
                    },
                    None => {
                        assert(before + earlier =~= before + (earlier + Seq::<
                            (i128, NoteText),
                        >::empty()));
                    },
                }
            },
        }
        i += 1;
    }
    assert(entries@.take(n as int) =~= entries@);
    Ok(())
}

/// Adds the notes of the tree to `found`.
///
/// Fails with `ScanFailed` at the first directory on the way that has no
/// listing.
pub fn scan_root(data_dir: &str, top: &Vec<Entry>, found: &mut Vec<(i128, NoteInfo)>) -> (res:
    Result<(), StoreError>)
    ensures
        match fault_in_root(data_dir@, top@) {
            Some(p) => res is Err && res->Err_0@ == plain_failure(ErrorKind::ScanFailed, p),
            None => res is Ok && dated_notes(final(found)@) == dated_notes(old(found)@)
                + notes_in_root(data_dir@, top@),
        },
{
    let ghost before = dated_notes(found@);
    let n = top.len();
    let mut i: usize = 0;
    assert(before + notes_in_root(data_dir@, top@.take(0)) =~= before);
    while i < n
        invariant
            n == top.len(),
            i <= n,
            fault_in_root(data_dir@, top@.take(i as int)) is None,
            dated_notes(found@) == before + notes_in_root(data_dir@, top@.take(i as int)),
        decreases n - i,
    {
        let c = &top[i];
        let ghost earlier = notes_in_root(data_dir@, top@.take(i as int));
        proof {
            assert(top@.take(i + 1).drop_last() =~= top@.take(i as int));
            assert(top@.take(i + 1).last() == top@[i as int]);
        }
        match c.kind {
            EntryKind::Directory => {
                let name = c.shown_name();
                match &c.children {
                    Some(entries) => {
                        let walked = scan_category(data_dir, name.as_str(), entries, found);
                        match walked {
                            Ok(()) => {
                                proof {
                                    let here = notes_in_top(data_dir@, *c);
                                    assert((before + earlier) + here =~= before + (earlier + here));
                                }
                            },
                            Err(e) => {
                                proof {
                                    lemma_root_fault_stays(data_dir@, top@, i + 1);
                                }
                                return Err(e);
                            },
                        }
                    },
                    None => {
                        proof {
                            lemma_root_fault_stays(data_dir@, top@, i + 1);
                        }
                        let path = category_path(data_dir, name.as_str());
                        return Err(StoreError::new(ErrorKind::ScanFailed, path.as_str()));
                    },
                }
            },
            _ => {
                assert(before + earlier =~= before + (earlier + Seq::<(i128, NoteText)>::empty()));
            },
        }
        i += 1;
    }
    assert(top@.take(n as int) =~= top@);
    Ok(())
}

/// The note records of `found`, newest first.
pub fn arrange_notes(found: &Vec<(i128, NoteInfo)>) -> (res: Vec<NoteInfo>)
    ensures
        note_texts(res@) == arranged(dated_notes(found@)),
{
    let n = found.len();
    let keys = times_of(found);
    assert(keys@ =~= times(dated_notes(found@)));
    let order = newest_first_order(&keys);
    let mut notes: Vec<NoteInfo> = Vec::new();
    let mut j: usize = 0;
    while j < n
        invariant
            n == found.len(),
            n == order.len(),
            j <= n,
            keys@ == times(dated_notes(found@)),
            positions(order@) == newest_first(keys@),
            forall|a: int| 0 <= a < order.len() ==> order[a] < n,
            note_texts(notes@) == arranged(dated_notes(found@)).take(j as int),
        decreases n - j,
    {
        let at = order[j];
        let copy = found[at].1.duplicate();
        proof {
            let all = arranged(dated_notes(found@));
            assert(positions(order@)[j as int] == at as int);
            assert(all[j as int] == copy@);
            assert(note_texts(notes@.push(copy)) =~= note_texts(notes@).push(copy@));
            assert(all.take(j + 1) =~= all.take(j as int).push(all[j as int]));
        }
        notes.push(copy);
        j += 1;
    }
    proof {
        let all = arranged(dated_notes(found@));
        assert(all.take(n as int) =~= all);
    }
    notes
}

/// Lists the notes under `data_dir`, newest first, from what was observed at
/// that path.
///
/// Where nothing is there yet, the list is empty and the step to create the
/// directory is returned with it. Fails with `ScanFailed` where the data
/// root, or a directory on the way, has no listing.
pub fn get_all_notes(data_dir: &str, root: &DirState) -> (res: Result<
    (Vec<NoteInfo>, Option<FsAction>),
    StoreError,
>)
    ensures
        match *root {
            DirState::Missing => res is Ok && res->Ok_0.0@.len() == 0 && optional_action(
                res->Ok_0.1,
            ) == Some(ActionText::CreateDirAll { path: data_dir@ }),
            DirState::Unreadable => res is Err && res->Err_0@ == plain_failure(
                ErrorKind::ScanFailed,
                data_dir@,
            ),
            DirState::Listed(top) => match fault_in_root(data_dir@, top@) {
                Some(p) => res is Err && res->Err_0@ == plain_failure(ErrorKind::ScanFailed, p),
                None => res is Ok && res->Ok_0.1 is None && note_texts(res->Ok_0.0@)
                    == listed_notes(data_dir@, top@),
            },
        },
{
    match root {
        DirState::Missing => {
            let step = FsAction::CreateDirAll { path: String::from_str(data_dir) };
            Ok((Vec::new(), Some(step)))
        },
        DirState::Unreadable => Err(StoreError::new(ErrorKind::ScanFailed, data_dir)),
        DirState::Listed(top) => {
            let mut found: Vec<(i128, NoteInfo)> = Vec::new();
            assert(dated_notes(found@) + notes_in_root(data_dir@, top@) =~= notes_in_root(
                data_dir@,
                top@,
            ));
            match scan_root(data_dir, top, &mut found) {
                Ok(()) => Ok((arrange_notes(&found), None)),
                Err(e) => Err(e),
            }
        },
    }
}

} // verus!
