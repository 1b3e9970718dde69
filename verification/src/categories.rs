//! Listing the categories of a tree, each with its sub-categories.
//!
//! A directory under the data root is a category, and a directory in a
//! category is a sub-category. Files are of no concern here.

use vstd::prelude::*;
use vstd::string::*;
use crate::codec::{category_path, category_path_text};
use crate::error::{ErrorKind, StoreError, plain_failure};
use crate::order::{arranged, newest_first, newest_first_order, positions, times, times_of};
use crate::plan::{ActionText, FsAction, optional_action};
use crate::records::{
    CategoryInfo,
    CategoryText,
    SubCategoryInfo,
    SubCategoryText,
    category_texts,
    subcategory_texts,
};
use crate::tree::{
    DirState,
    Entry,
    EntryKind,
    created_key,
    created_text,
    entry_name,
    gathered,
};

verus! {

/// What a sequence of dated sub-category records stands for.
pub open spec fn dated_subcategories(found: Seq<(i128, SubCategoryInfo)>) -> Seq<
    (i128, SubCategoryText),
> {
    found.map_values(|p: (i128, SubCategoryInfo)| (p.0, p.1@))
}

/// What a sequence of dated category records stands for.
pub open spec fn dated_categories(found: Seq<(i128, CategoryInfo)>) -> Seq<(i128, CategoryText)> {
    found.map_values(|p: (i128, CategoryInfo)| (p.0, p.1@))
}

/// The sub-category that the entry `e` of `category` is, with the time by
/// which it is ranked: `e` is a directory.
pub open spec fn subcategory_in(category: Seq<char>, e: Entry) -> Option<(i128, SubCategoryText)> {
    if e.kind == EntryKind::Directory {
        Some(
            (
                created_key(e),
                SubCategoryText {
                    id: entry_name(e),
                    name: entry_name(e),
                    parent_id: category,
                    created_time: created_text(e),
                },
            ),
        )
    } else {
        None
    }
}

/// The sub-categories of a category, in the order of its entries.
pub open spec fn subcategories_in(category: Seq<char>, entries: Seq<Entry>) -> Seq<
    (i128, SubCategoryText),
> {
    gathered(entries, subcategory_pick(category))
}

/// `subcategory_in` for the entries of `category`.
pub open spec fn subcategory_pick(category: Seq<char>) -> spec_fn(Entry) -> Option<
    (i128, SubCategoryText),
> {
    |e: Entry| subcategory_in(category, e)
}

/// `category_in` for the entries of the data root.
pub open spec fn category_pick() -> spec_fn(Entry) -> Option<(i128, CategoryText)> {
    |c: Entry| category_in(c)
}

/// The category that the entry `c` of the data root is, with the time by
/// which it is ranked: `c` is a directory with a listing. Its sub-categories
/// stand newest first.
pub open spec fn category_in(c: Entry) -> Option<(i128, CategoryText)> {
    if c.kind == EntryKind::Directory && c.children is Some {
        Some(
            (
                created_key(c),
                CategoryText {
                    id: entry_name(c),
                    name: entry_name(c),
                    sub_categories: arranged(subcategories_in(entry_name(c), c.children->0@)),
                    created_time: created_text(c),
                },
            ),
        )
    } else {
        None
    }
}

/// The categories of the tree, in the order of the entries of the data root.
pub open spec fn categories_in(top: Seq<Entry>) -> Seq<(i128, CategoryText)> {
    gathered(top, category_pick())
}

/// The path of the category that `c` is, where it has no listing.
pub open spec fn unlisted(data_dir: Seq<char>, c: Entry) -> Option<Seq<char>> {
    if c.kind == EntryKind::Directory && c.children is None {
        Some(category_path_text(data_dir, entry_name(c)))
    } else {
        None
    }
}

/// The path of the first category of the tree that has no listing.
pub open spec fn first_unlisted(data_dir: Seq<char>, top: Seq<Entry>) -> Option<Seq<char>>
    decreases top.len(),
{
    if top.len() == 0 {
        None
    } else {
        match first_unlisted(data_dir, top.drop_last()) {
            Some(p) => Some(p),
            None => unlisted(data_dir, top.last()),
        }
    }
}

/// The categories of the tree as they are listed: newest first, and in each
/// its sub-categories newest first.
pub open spec fn listed_categories(top: Seq<Entry>) -> Seq<CategoryText> {
    arranged(categories_in(top))
}

/// A category without a listing among the first entries of the data root is
/// the first of the tree.
pub proof fn lemma_first_unlisted_stays(data_dir: Seq<char>, top: Seq<Entry>, k: int)
    requires
        0 <= k <= top.len(),
        first_unlisted(data_dir, top.take(k)) is Some,
    ensures
        first_unlisted(data_dir, top) == first_unlisted(data_dir, top.take(k)),
    decreases top.len(),
{
    if k == top.len() {
        assert(top.take(k) =~= top);
    } else {
        assert(top.drop_last().take(k) =~= top.take(k));
        lemma_first_unlisted_stays(data_dir, top.drop_last(), k);
    }
}

/// The sub-categories of `category` among `entries`, in the order of the
/// entries.
pub fn scan_subcategories(category: &str, entries: &Vec<Entry>) -> (found: Vec<
    (i128, SubCategoryInfo),
>)
    ensures
        dated_subcategories(found@) == subcategories_in(category@, entries@),
{
    let mut found: Vec<(i128, SubCategoryInfo)> = Vec::new();
    let n = entries.len();
    let mut i: usize = 0;
    assert(dated_subcategories(found@) =~= subcategories_in(category@, entries@.take(0)));
    while i < n
        invariant
            n == entries.len(),
            i <= n,
            dated_subcategories(found@) == subcategories_in(category@, entries@.take(i as int)),
        decreases n - i,
    {
        let e = &entries[i];
        proof {
            assert(entries@.take(i + 1).drop_last() =~= entries@.take(i as int));
            assert(entries@.take(i + 1).last() == entries@[i as int]);
        }
        match e.kind {
            EntryKind::Directory => {
                let name = e.shown_name();
                let sub = SubCategoryInfo {
                    id: name.clone(),
                    name,
                    parent_id: String::from_str(category),
                    created_time: e.created_time(),
                };
                let pair = (e.rank(), sub);
                assert(dated_subcategories(found@.push(pair)) =~= dated_subcategories(
                    found@,
                ).push((pair.0, pair.1@)));
                found.push(pair);
            },
            _ => {},
        }
        i += 1;
    }
    assert(entries@.take(n as int) =~= entries@);
    found
}

/// The sub-category records of `found`, newest first.
pub fn arrange_subcategories(found: &Vec<(i128, SubCategoryInfo)>) -> (res: Vec<SubCategoryInfo>)
    ensures
        subcategory_texts(res@) == arranged(dated_subcategories(found@)),
{
    let n = found.len();
    let keys = times_of(found);
    assert(keys@ =~= times(dated_subcategories(found@)));
    let order = newest_first_order(&keys);
    let mut subs: Vec<SubCategoryInfo> = Vec::new();
    let mut j: usize = 0;
    while j < n
        invariant
            n == found.len(),
            n == order.len(),
            j <= n,
            keys@ == times(dated_subcategories(found@)),
            positions(order@) == newest_first(keys@),
            forall|a: int| 0 <= a < order.len() ==> order[a] < n,
            subcategory_texts(subs@) == arranged(dated_subcategories(found@)).take(j as int),
        decreases n - j,
    {
        let at = order[j];
        let copy = found[at].1.duplicate();
        proof {
            let all = arranged(dated_subcategories(found@));
            assert(positions(order@)[j as int] == at as int);
            assert(all[j as int] == copy@);
            assert(subcategory_texts(subs@.push(copy)) =~= subcategory_texts(subs@).push(copy@));
            assert(all.take(j + 1) =~= all.take(j as int).push(all[j as int]));
        }
        subs.push(copy);
        j += 1;
    }
    proof {
        let all = arranged(dated_subcategories(found@));
        assert(all.take(n as int) =~= all);
    }
    subs
}

/// The category records of `found`, newest first.
pub fn arrange_categories(found: &Vec<(i128, CategoryInfo)>) -> (res: Vec<CategoryInfo>)
    ensures
        category_texts(res@) == arranged(dated_categories(found@)),
{
    let n = found.len();
    let keys = times_of(found);
    assert(keys@ =~= times(dated_categories(found@)));
    let order = newest_first_order(&keys);
    let mut categories: Vec<CategoryInfo> = Vec::new();
    let mut j: usize = 0;
    while j < n
        invariant
            n == found.len(),
            n == order.len(),
            j <= n,
            keys@ == times(dated_categories(found@)),
            positions(order@) == newest_first(keys@),
            forall|a: int| 0 <= a < order.len() ==> order[a] < n,
            category_texts(categories@) == arranged(dated_categories(found@)).take(j as int),
        decreases n - j,
    {
        let at = order[j];
        let copy = found[at].1.duplicate();
        proof {
            let all = arranged(dated_categories(found@));
            assert(positions(order@)[j as int] == at as int);
            assert(all[j as int] == copy@);
            assert(category_texts(categories@.push(copy)) =~= category_texts(categories@).push(
                copy@,
            ));
            assert(all.take(j + 1) =~= all.take(j as int).push(all[j as int]));
        }
        categories.push(copy);
        j += 1;
    }
    proof {
        let all = arranged(dated_categories(found@));
        assert(all.take(n as int) =~= all);
    }
    categories
}

/// The categories among the entries of the data root, in the order of the
/// entries.
///
/// Fails with `ScanFailed` at the first category that has no listing.
pub fn scan_categories(data_dir: &str, top: &Vec<Entry>) -> (res: Result<
    Vec<(i128, CategoryInfo)>,
    StoreError,
>)
    ensures
        match first_unlisted(data_dir@, top@) {
            Some(p) => res is Err && res->Err_0@ == plain_failure(ErrorKind::ScanFailed, p),
            None => res is Ok && dated_categories(res->Ok_0@) == categories_in(top@),
        },
{
    let mut found: Vec<(i128, CategoryInfo)> = Vec::new();
    let n = top.len();
    let mut i: usize = 0;
    assert(dated_categories(found@) =~= categories_in(top@.take(0)));
    while i < n
        invariant
            n == top.len(),
            i <= n,
            first_unlisted(data_dir@, top@.take(i as int)) is None,
            dated_categories(found@) == categories_in(top@.take(i as int)),
        decreases n - i,
    {
        let c = &top[i];
        proof {
            assert(top@.take(i + 1).drop_last() =~= top@.take(i as int));
            assert(top@.take(i + 1).last() == top@[i as int]);
        }
        match c.kind {
            EntryKind::Directory => {
                let name = c.shown_name();
                match &c.children {
                    Some(entries) => {
                        let subs = scan_subcategories(name.as_str(), entries);
                        let category = CategoryInfo {
                            id: name.clone(),
                            name,
                            sub_categories: arrange_subcategories(&subs),
                            created_time: c.created_time(),
                        };
                        let pair = (c.rank(), category);
                        assert(dated_categories(found@.push(pair)) =~= dated_categories(
                            found@,
                        ).push((pair.0, pair.1@)));
                        found.push(pair);
                    },
                    None => {
                        proof {
                            lemma_first_unlisted_stays(data_dir@, top@, i + 1);
                        }
                        let path = category_path(data_dir, name.as_str());
                        return Err(StoreError::new(ErrorKind::ScanFailed, path.as_str()));
                    },
                }
            },
            _ => {},
        }
        i += 1;
    }
    assert(top@.take(n as int) =~= top@);
    Ok(found)
}

/// Lists the categories under `data_dir`, newest first, each with its
/// sub-categories newest first, from what was observed at that path.
///
/// Where nothing is there yet, the list is empty and the step to create the
/// directory is returned with it. Fails with `ScanFailed` where the data
/// root or a category has no listing.
pub fn get_all_categories(data_dir: &str, root: &DirState) -> (res: Result<
    (Vec<CategoryInfo>, Option<FsAction>),
    StoreError,
>)
    ensures
        match *root {
            DirState::Missing => res is Ok && res->Ok_0.0@.len() == 0 && optional_action(
                res->Ok_0.1,
            ) == Some(ActionText::CreateDirAll { path: data_dir@ }),
            DirState::Unreadable => res is Err && res->Err_0@ == plain_failure(
                ErrorKind::ScanFailed,
                data_dir@,
            ),
            DirState::Listed(top) => match first_unlisted(data_dir@, top@) {
                Some(p) => res is Err && res->Err_0@ == plain_failure(ErrorKind::ScanFailed, p),
                None => res is Ok && res->Ok_0.1 is None && category_texts(res->Ok_0.0@)
                    == listed_categories(top@),
            },
        },
{
    match root {
        DirState::Missing => {
            let step = FsAction::CreateDirAll { path: String::from_str(data_dir) };
            Ok((Vec::new(), Some(step)))
        },
        DirState::Unreadable => Err(StoreError::new(ErrorKind::ScanFailed, data_dir)),
        DirState::Listed(top) => {
            match scan_categories(data_dir, top) {
                Ok(found) => Ok((arrange_categories(&found), None)),
                Err(e) => Err(e),
            }
        },
    }
}

} // verus!
