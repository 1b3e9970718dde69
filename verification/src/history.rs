//! What holds of the store over several operations.
//!
//! A step that the store returns changes the tree on disk, and the next
//! listing is made from the tree as it then is. The relations here say, in
//! terms of listings, what a step that succeeded leaves behind; the theorems
//! say what the store then lists.

use vstd::prelude::*;
use crate::categories::{
    categories_in,
    category_in,
    category_pick,
    listed_categories,
    subcategories_in,
    subcategory_in,
    subcategory_pick,
};
use crate::codec::{SLASH, category_path_text};
use crate::error::{ErrorKind, ErrorText, plain_failure};
use crate::mutate::{DirProbe, category_deletion};
use crate::order::{arranged, lemma_newest_first, newest_first, times};
use crate::plan::ActionText;
use crate::records::SubCategoryText;
use crate::tree::{Entry, EntryKind, created_key, entry_name, gathered, lemma_origin, origin};

verus! {

/// The position among `entries` of the entry from which the record at
/// position `a` of the arranged list was made.
pub open spec fn source<R>(
    entries: Seq<Entry>,
    pick: spec_fn(Entry) -> Option<(i128, R)>,
    a: int,
) -> int {
    origin(entries, pick, newest_first(times(gathered(entries, pick)))[a])
}

/// Arranging loses and invents nothing: each record of the arranged list was
/// made from the entry at its source, no two records from the same entry, and
/// every entry of which `pick` makes a record is the source of one.
pub proof fn lemma_source<R>(entries: Seq<Entry>, pick: spec_fn(Entry) -> Option<(i128, R)>)
    ensures
        arranged(gathered(entries, pick)).len() == gathered(entries, pick).len(),
        forall|a: int|
            0 <= a < gathered(entries, pick).len() ==> {
                &&& 0 <= #[trigger] source(entries, pick, a) < entries.len()
                &&& pick(entries[source(entries, pick, a)]) is Some
                &&& pick(entries[source(entries, pick, a)]).unwrap().1 == arranged(
                    gathered(entries, pick),
                )[a]
            },
        forall|a: int, b: int|
            0 <= a < gathered(entries, pick).len() && 0 <= b < gathered(entries, pick).len() && a
                != b ==> #[trigger] source(entries, pick, a) != #[trigger] source(entries, pick, b),
        forall|k: int|
            0 <= k < entries.len() && (#[trigger] pick(entries[k])) is Some ==> exists|a: int|
                0 <= a < gathered(entries, pick).len() && #[trigger] source(entries, pick, a) == k,
{
    let found = gathered(entries, pick);
    let keys = times(found);
    let order = newest_first(keys);
    lemma_origin(entries, pick);
    lemma_newest_first(keys);
    assert forall|a: int| 0 <= a < found.len() implies {
        &&& 0 <= #[trigger] source(entries, pick, a) < entries.len()
        &&& pick(entries[source(entries, pick, a)]) is Some
        &&& pick(entries[source(entries, pick, a)]).unwrap().1 == arranged(found)[a]
    } by {
        assert(0 <= order[a] < keys.len());
        assert(0 <= origin(entries, pick, order[a]) < entries.len());
    }
    assert forall|a: int, b: int|
        0 <= a < found.len() && 0 <= b < found.len() && a != b implies #[trigger] source(
        entries,
        pick,
        a,
    ) != #[trigger] source(entries, pick, b) by {
        assert(0 <= order[a] < keys.len());
        assert(0 <= order[b] < keys.len());
        assert(order[a] != order[b]);
        if order[a] < order[b] {
            assert(origin(entries, pick, order[a]) < origin(entries, pick, order[b]));
        } else {
            assert(origin(entries, pick, order[b]) < origin(entries, pick, order[a]));
        }
    }
    assert forall|k: int|
        0 <= k < entries.len() && (#[trigger] pick(entries[k])) is Some implies exists|a: int|
        0 <= a < found.len() && #[trigger] source(entries, pick, a) == k by {
        let j = choose|j: int| 0 <= j < found.len() && #[trigger] origin(entries, pick, j) == k;
        assert(order.contains(j));
        let a = choose|a: int| 0 <= a < order.len() && order[a] == j;
        assert(source(entries, pick, a) == k);
    }
}

/// `e` bears the name `name`.
pub open spec fn named(e: Entry, name: Seq<char>) -> bool {
    e.name is Some && e.name->0@ == name
}

/// `e` is a directory that is listed under `name`.
pub open spec fn goes_by(e: Entry, name: Seq<char>) -> bool {
    e.kind == EntryKind::Directory && entry_name(e) == name
}

/// Where one listed category goes by a name, the list of categories holds
/// its record, and no other record of that id.
pub proof fn lemma_sole_category(top: Seq<Entry>, k: int)
    requires
        0 <= k < top.len(),
        category_in(top[k]) is Some,
        forall|i: int| 0 <= i < top.len() && i != k ==> !goes_by(top[i], entry_name(top[k])),
    ensures
        exists|a: int|
            {
                &&& 0 <= a < listed_categories(top).len()
                &&& #[trigger] listed_categories(top)[a] == category_in(top[k]).unwrap().1
                &&& forall|b: int|
                    0 <= b < listed_categories(top).len() && b != a ==> (
                    #[trigger] listed_categories(top)[b]).id != entry_name(top[k])
            },
{
    let pick = category_pick();
    let listed = listed_categories(top);
    lemma_source(top, pick);
    assert(pick(top[k]) is Some);
    let a = choose|a: int| 0 <= a < listed.len() && #[trigger] source(top, pick, a) == k;
    assert forall|b: int| 0 <= b < listed.len() && b != a implies (#[trigger] listed[b]).id
        != entry_name(top[k]) by {
        let i = source(top, pick, b);
        assert(i != k);
        assert(pick(top[i]) is Some);
        assert(listed[b] == category_in(top[i]).unwrap().1);
    }
    assert(listed[a] == category_in(top[k]).unwrap().1);
}

/// Where no directory goes by a name, the list of categories holds no record
/// of that id.
pub proof fn lemma_no_category(top: Seq<Entry>, name: Seq<char>)
    requires
        forall|i: int| 0 <= i < top.len() ==> !goes_by(top[i], name),
    ensures
        forall|b: int|
            0 <= b < listed_categories(top).len() ==> (#[trigger] listed_categories(top)[b]).id
                != name,
{
    let pick = category_pick();
    let listed = listed_categories(top);
    lemma_source(top, pick);
    assert forall|b: int| 0 <= b < listed.len() implies (#[trigger] listed[b]).id != name by {
        let i = source(top, pick, b);
        assert(pick(top[i]) is Some);
        assert(listed[b] == category_in(top[i]).unwrap().1);
    }
}

/// Where one directory of a category goes by a name, the list of its
/// sub-categories holds the record of that directory, and no other record of
/// that id.
pub proof fn lemma_sole_subcategory(category: Seq<char>, entries: Seq<Entry>, j: int)
    requires
        0 <= j < entries.len(),
        entries[j].kind == EntryKind::Directory,
        forall|i: int|
            0 <= i < entries.len() && i != j ==> !goes_by(entries[i], entry_name(entries[j])),
    ensures
        exists|a: int|
            {
                &&& 0 <= a < arranged(subcategories_in(category, entries)).len()
                &&& #[trigger] arranged(subcategories_in(category, entries))[a] == subcategory_in(
                    category,
                    entries[j],
                ).unwrap().1
                &&& forall|b: int|
                    0 <= b < arranged(subcategories_in(category, entries)).len() && b != a ==> (
                    #[trigger] arranged(subcategories_in(category, entries))[b]).id != entry_name(
                        entries[j],
                    )
            },
{
    let pick = subcategory_pick(category);
    let listed = arranged(subcategories_in(category, entries));
    lemma_source(entries, pick);
    assert(pick(entries[j]) is Some);
    let a = choose|a: int| 0 <= a < listed.len() && #[trigger] source(entries, pick, a) == j;
    assert forall|b: int| 0 <= b < listed.len() && b != a implies (#[trigger] listed[b]).id
        != entry_name(entries[j]) by {
        let i = source(entries, pick, b);
        assert(i != j);
        assert(pick(entries[i]) is Some);
        assert(listed[b] == subcategory_in(category, entries[i]).unwrap().1);
    }
    assert(listed[a] == subcategory_in(category, entries[j]).unwrap().1);
}

/// The list that `get_all_categories` returns is ordered by the time at which
/// the directories were created, later ones first.
pub proof fn lemma_categories_newest_first(top: Seq<Entry>)
    ensures
        forall|a: int, b: int|
            0 <= a < b < listed_categories(top).len() ==> created_key(
                top[#[trigger] source(top, category_pick(), a)],
            ) >= created_key(top[#[trigger] source(top, category_pick(), b)]),
{
    let pick = category_pick();
    let found = categories_in(top);
    let keys = times(found);
    let order = newest_first(keys);
    lemma_source(top, pick);
    lemma_origin(top, pick);
    lemma_newest_first(keys);
    assert forall|a: int, b: int| 0 <= a < b < listed_categories(top).len() implies created_key(
        top[#[trigger] source(top, pick, a)],
    ) >= created_key(top[#[trigger] source(top, pick, b)]) by {
        assert(0 <= order[a] < keys.len());
        assert(0 <= order[b] < keys.len());
        assert(keys[order[a]] >= keys[order[b]]);
        assert(pick(top[origin(top, pick, order[a])]) == Some(found[order[a]]));
        assert(pick(top[origin(top, pick, order[b])]) == Some(found[order[b]]));
    }
}

/// Categories that were created at times that differ pairwise are listed in
/// strictly descending order of those times.
pub proof fn lemma_categories_strictly_newest_first(top: Seq<Entry>)
    requires
        forall|i: int, j: int|
            0 <= i < j < top.len() && category_in(top[i]) is Some && category_in(top[j]) is Some
                ==> created_key(top[i]) != created_key(top[j]),
    ensures
        forall|a: int, b: int|
            0 <= a < b < listed_categories(top).len() ==> created_key(
                top[#[trigger] source(top, category_pick(), a)],
            ) > created_key(top[#[trigger] source(top, category_pick(), b)]),
{
    let pick = category_pick();
    lemma_source(top, pick);
    lemma_categories_newest_first(top);
    assert forall|a: int, b: int| 0 <= a < b < listed_categories(top).len() implies created_key(
        top[#[trigger] source(top, pick, a)],
    ) > created_key(top[#[trigger] source(top, pick, b)]) by {
        let i = source(top, pick, a);
        let j = source(top, pick, b);
        assert(i != j);
        assert(pick(top[i]) is Some && pick(top[j]) is Some);
        if i < j {
            assert(created_key(top[i]) != created_key(top[j]));
        } else {
            assert(created_key(top[j]) != created_key(top[i]));
        }
    }
}

/// A name that is one segment of a path.
pub open spec fn plain_name(name: Seq<char>) -> bool {
    &&& name.len() > 0
    &&& forall|i: int| 0 <= i < name.len() ==> name[i] != SLASH
    &&& name != seq!['.']
    &&& name != seq!['.', '.']
}

/// A listing names each of its entries once.
pub open spec fn names_once(entries: Seq<Entry>) -> bool {
    forall|i: int, j: int|
        0 <= i < entries.len() && 0 <= j < entries.len() && i != j && (
        #[trigger] entries[i]).name is Some && (#[trigger] entries[j]).name is Some
            ==> entries[i].name->0@ != entries[j].name->0@
}

/// A directory as it is right after it was made: it bears its name, and its
/// listing is empty.
pub open spec fn fresh_directory(e: Entry, name: Seq<char>) -> bool {
    &&& e.kind == EntryKind::Directory
    &&& named(e, name)
    &&& e.children is Some
    &&& e.children->0@.len() == 0
}

/// `after` lists a directory once the step that creates the directory `name`
/// in it has succeeded on what listed as `before`: a directory of that name
/// is left as it is, and else a fresh one has entered the listing.
pub open spec fn directory_made(before: Seq<Entry>, after: Seq<Entry>, name: Seq<char>) -> bool {
    if exists|k: int| 0 <= k < before.len() && named(#[trigger] before[k], name) {
        &&& after == before
        &&& forall|k: int|
            0 <= k < before.len() && named(#[trigger] before[k], name) ==> before[k].kind
                == EntryKind::Directory
    } else {
        exists|k: int, e: Entry|
            0 <= k <= before.len() && fresh_directory(e, name) && after == #[trigger] before.insert(
                k,
                e,
            )
    }
}

/// `after` lists the data root once the step of `create_category` for `name`
/// has succeeded on a tree whose data root listed as `before`, or was
/// missing where `before` is empty.
pub open spec fn category_made(before: Seq<Entry>, after: Seq<Entry>, name: Seq<char>) -> bool {
    plain_name(name) && directory_made(before, after, name)
}

/// Once a category was created under a name by which no directory went
/// before, the list of categories holds one record of that id, with that
/// name and without sub-categories.
pub proof fn lemma_created_category_is_listed(
    before: Seq<Entry>,
    after: Seq<Entry>,
    name: Seq<char>,
)
    requires
        category_made(before, after, name),
        forall|i: int| 0 <= i < before.len() ==> !goes_by(before[i], name),
    ensures
        exists|a: int|
            {
                &&& 0 <= a < listed_categories(after).len()
                &&& (#[trigger] listed_categories(after)[a]).id == name
                &&& listed_categories(after)[a].name == name
                &&& listed_categories(after)[a].sub_categories.len() == 0
                &&& forall|b: int|
                    0 <= b < listed_categories(after).len() && b != a ==> (
                    #[trigger] listed_categories(after)[b]).id != name
            },
{
    if exists|k: int| 0 <= k < before.len() && named(#[trigger] before[k], name) {
        let k = choose|k: int| 0 <= k < before.len() && named(#[trigger] before[k], name);
        assert(goes_by(before[k], name));
    }
    let (k, e) = choose|k: int, e: Entry|
        0 <= k <= before.len() && fresh_directory(e, name) && after == #[trigger] before.insert(
            k,
            e,
        );
    assert(after[k] == e);
    assert forall|i: int| 0 <= i < after.len() && i != k implies !goes_by(after[i], name) by {
        if i < k {
            assert(after[i] == before[i]);
        } else {
            assert(after[i] == before[i - 1]);
        }
    }
    lemma_sole_category(after, k);
    lemma_source(e.children->0@, subcategory_pick(name));
}

/// `now` is the entry `was` with the listing `listing`.
pub open spec fn relisted(was: Entry, now: Entry, listing: Seq<Entry>) -> bool {
    &&& now.name == was.name
    &&& now.kind == was.kind
    &&& now.created == was.created
    &&& now.modified == was.modified
    &&& now.children is Some
    &&& now.children->0@ == listing
}

/// The entry at `k` is the category `category`, and the entry at `j` of its
/// listing is its sub-category `name`.
pub open spec fn subcategory_at(
    top: Seq<Entry>,
    category: Seq<char>,
    name: Seq<char>,
    k: int,
    j: int,
) -> bool {
    &&& 0 <= k < top.len()
    &&& named(top[k], category)
    &&& top[k].kind == EntryKind::Directory
    &&& top[k].children is Some
    &&& 0 <= j < top[k].children->0@.len()
    &&& named(top[k].children->0@[j], name)
    &&& top[k].children->0@[j].kind == EntryKind::Directory
}

/// `after` lists the data root once the step of `create_subcategory` for
/// `name` under `category` has succeeded on a tree whose data root listed as
/// `before`: the category is made where it was missing, and the
/// sub-category in it; what was there is left as it is.
pub open spec fn subcategory_made(
    before: Seq<Entry>,
    after: Seq<Entry>,
    category: Seq<char>,
    name: Seq<char>,
) -> bool {
    &&& plain_name(category)
    &&& plain_name(name)
    &&& if exists|k: int| 0 <= k < before.len() && named(#[trigger] before[k], category) {
        exists|k: int|
            {
                &&& 0 <= k < before.len()
                &&& named(#[trigger] before[k], category)
                &&& before[k].kind == EntryKind::Directory
                &&& before[k].children is Some
                &&& after.len() == before.len()
                &&& forall|i: int| 0 <= i < before.len() && i != k ==> after[i] == before[i]
                &&& relisted(before[k], after[k], after[k].children->0@)
                &&& directory_made(before[k].children->0@, after[k].children->0@, name)
                &&& after[k].children->0@ == before[k].children->0@ ==> after[k] == before[k]
            }
    } else {
        exists|k: int, c: Entry|
            {
                &&& 0 <= k <= before.len()
                &&& c.kind == EntryKind::Directory
                &&& named(c, category)
                &&& c.children is Some
                &&& directory_made(Seq::empty(), c.children->0@, name)
                &&& after == #[trigger] before.insert(k, c)
            }
    }
}

/// `subs` holds one record of the id `name`, and its parent is `category`.
pub open spec fn lists_once(
    subs: Seq<SubCategoryText>,
    category: Seq<char>,
    name: Seq<char>,
) -> bool {
    exists|i: int|
        {
            &&& 0 <= i < subs.len()
            &&& (#[trigger] subs[i]).id == name
            &&& subs[i].parent_id == category
            &&& forall|h: int| 0 <= h < subs.len() && h != i ==> (#[trigger] subs[h]).id != name
        }
}

/// Once a sub-category was created, the list of categories holds one record
/// of the category, and the sub-categories of that record hold one record of
/// the sub-category, whose parent is the category. This is said of listings
/// that name each entry once and show no directory without a name under the
/// names in question.
pub proof fn lemma_created_subcategory_is_listed(
    before: Seq<Entry>,
    after: Seq<Entry>,
    category: Seq<char>,
    name: Seq<char>,
)
    requires
        subcategory_made(before, after, category, name),
        names_once(before),
        forall|i: int|
            0 <= i < before.len() && goes_by(before[i], category) ==> named(before[i], category),
        forall|i: int, j: int|
            0 <= i < before.len() && named(before[i], category) && before[i].children is Some
                && 0 <= j < before[i].children->0@.len() && goes_by(
                before[i].children->0@[j],
                name,
            ) ==> named(before[i].children->0@[j], name),
        forall|i: int|
            0 <= i < before.len() && named(before[i], category) && before[i].children is Some
                ==> names_once(before[i].children->0@),
    ensures
        exists|k: int, j: int| subcategory_at(after, category, name, k, j),
        exists|a: int|
            {
                &&& 0 <= a < listed_categories(after).len()
                &&& (#[trigger] listed_categories(after)[a]).id == category
                &&& forall|b: int|
                    0 <= b < listed_categories(after).len() && b != a ==> (
                    #[trigger] listed_categories(after)[b]).id != category
                &&& lists_once(listed_categories(after)[a].sub_categories, category, name)
            },
{
    let listed = listed_categories(after);
    if exists|k: int| 0 <= k < before.len() && named(#[trigger] before[k], category) {
        let k = choose|k: int|
            {
                &&& 0 <= k < before.len()
                &&& named(#[trigger] before[k], category)
                &&& before[k].kind == EntryKind::Directory
                &&& before[k].children is Some
                &&& after.len() == before.len()
                &&& forall|i: int| 0 <= i < before.len() && i != k ==> after[i] == before[i]
                &&& relisted(before[k], after[k], after[k].children->0@)
                &&& directory_made(before[k].children->0@, after[k].children->0@, name)
                &&& after[k].children->0@ == before[k].children->0@ ==> after[k] == before[k]
            };
        let was = before[k].children->0@;
        let now = after[k].children->0@;
        assert forall|i: int| 0 <= i < after.len() && i != k implies !goes_by(
            after[i],
            entry_name(after[k]),
        ) by {
            assert(after[i] == before[i]);
            if goes_by(before[i], category) {
                assert(named(before[i], category));
                assert(before[i].name->0@ == before[k].name->0@);
            }
        }
        lemma_sole_category(after, k);
        assert(names_once(was));
        if exists|j: int| 0 <= j < was.len() && named(#[trigger] was[j], name) {
            let j = choose|j: int| 0 <= j < was.len() && named(#[trigger] was[j], name);
            assert(now == was);
            assert forall|i: int| 0 <= i < now.len() && i != j implies !goes_by(
                now[i],
                entry_name(now[j]),
            ) by {
                if goes_by(was[i], name) {
                    assert(named(was[i], name));
                    assert(was[i].name->0@ == was[j].name->0@);
                }
            }
            lemma_sole_subcategory(category, now, j);
            assert(lists_once(arranged(subcategories_in(category, now)), category, name));
            assert(subcategory_at(after, category, name, k, j));
        } else {
            let (j, e) = choose|j: int, e: Entry|
                0 <= j <= was.len() && fresh_directory(e, name) && now == #[trigger] was.insert(
                    j,
                    e,
                );
            assert(now[j] == e);
            assert forall|i: int| 0 <= i < now.len() && i != j implies !goes_by(
                now[i],
                entry_name(now[j]),
            ) by {
                let h = if i < j { i } else { i - 1 };
                assert(now[i] == was[h]);
                if goes_by(was[h], name) {
                    assert(named(was[h], name));
                }
            }
            lemma_sole_subcategory(category, now, j);
            assert(lists_once(arranged(subcategories_in(category, now)), category, name));
            assert(subcategory_at(after, category, name, k, j));
        }
    } else {
        let (k, c) = choose|k: int, c: Entry|
            {
                &&& 0 <= k <= before.len()
                &&& c.kind == EntryKind::Directory
                &&& named(c, category)
                &&& c.children is Some
                &&& directory_made(Seq::empty(), c.children->0@, name)
                &&& after == #[trigger] before.insert(k, c)
            };
        assert(after[k] == c);
        assert forall|i: int| 0 <= i < after.len() && i != k implies !goes_by(
            after[i],
            entry_name(after[k]),
        ) by {
            let h = if i < k { i } else { i - 1 };
            assert(after[i] == before[h]);
            if goes_by(before[h], category) {
                assert(named(before[h], category));
            }
        }
        lemma_sole_category(after, k);
        let now = c.children->0@;
        let (j, e) = choose|j: int, e: Entry|
            0 <= j <= 0 && fresh_directory(e, name) && now == #[trigger] Seq::<
                Entry,
            >::empty().insert(j, e);
        assert(now[0] == e);
        assert(now.len() == 1);
        lemma_sole_subcategory(category, now, 0);
        assert(lists_once(arranged(subcategories_in(category, now)), category, name));
        assert(subcategory_at(after, category, name, k, 0));
    }
}

/// Creating a sub-category that is there changes nothing.
pub proof fn lemma_created_subcategory_again(
    after: Seq<Entry>,
    again: Seq<Entry>,
    category: Seq<char>,
    name: Seq<char>,
)
    requires
        exists|k: int, j: int| subcategory_at(after, category, name, k, j),
        names_once(after),
        subcategory_made(after, again, category, name),
    ensures
        again == after,
{
    let (k, j) = choose|k: int, j: int| subcategory_at(after, category, name, k, j);
    assert(named(after[k], category));
    let k2 = choose|k2: int|
        {
            &&& 0 <= k2 < after.len()
            &&& named(#[trigger] after[k2], category)
            &&& after[k2].kind == EntryKind::Directory
            &&& after[k2].children is Some
            &&& again.len() == after.len()
            &&& forall|i: int| 0 <= i < after.len() && i != k2 ==> again[i] == after[i]
            &&& relisted(after[k2], again[k2], again[k2].children->0@)
            &&& directory_made(after[k2].children->0@, again[k2].children->0@, name)
            &&& again[k2].children->0@ == after[k2].children->0@ ==> again[k2] == after[k2]
        };
    if k2 != k {
        assert(after[k2].name->0@ == after[k].name->0@);
    }
    assert(named(after[k].children->0@[j], name));
    assert(again =~= after);
}

/// What is found at the path of the directory that `e` shows.
pub open spec fn probe_of(e: Entry) -> DirProbe {
    if e.kind == EntryKind::Directory && e.children is Some {
        if e.children->0@.len() == 0 {
            DirProbe::Empty
        } else {
            DirProbe::Occupied
        }
    } else {
        DirProbe::Unreadable
    }
}

/// `after` lists the data root once the step of `delete_subcategory` for
/// `name` under `category` has succeeded on a tree whose data root listed as
/// `before`: the sub-category has left the listing of the category.
pub open spec fn subcategory_removed(
    before: Seq<Entry>,
    after: Seq<Entry>,
    category: Seq<char>,
    name: Seq<char>,
) -> bool {
    exists|k: int, j: int|
        {
            &&& #[trigger] subcategory_at(before, category, name, k, j)
            &&& after.len() == before.len()
            &&& forall|i: int| 0 <= i < before.len() && i != k ==> after[i] == before[i]
            &&& relisted(before[k], after[k], before[k].children->0@.remove(j))
        }
}

/// `after` lists the data root once the step of `delete_category` for `name`
/// has succeeded on a tree whose data root listed as `before`: the category,
/// which was empty, has left the listing.
pub open spec fn category_removed(before: Seq<Entry>, after: Seq<Entry>, name: Seq<char>) -> bool {
    exists|k: int|
        {
            &&& 0 <= k < before.len()
            &&& named(#[trigger] before[k], name)
            &&& probe_of(before[k]) == DirProbe::Empty
            &&& after == before.remove(k)
        }
}

/// A category that holds one sub-category cannot be deleted: the attempt
/// fails with `NotEmpty`. Once the sub-category was deleted, the deletion of
/// the category is granted, and once it was carried out the list of
/// categories holds no record of the category. This is said of a listing
/// that names each entry once and shows no directory without a name under
/// the name of the category.
pub proof fn lemma_delete_category_after_its_subcategory(
    data_dir: Seq<char>,
    first: Seq<Entry>,
    second: Seq<Entry>,
    third: Seq<Entry>,
    category: Seq<char>,
    name: Seq<char>,
    k: int,
)
    requires
        names_once(first),
        forall|i: int|
            0 <= i < first.len() && goes_by(first[i], category) ==> named(first[i], category),
        subcategory_at(first, category, name, k, 0),
        first[k].children->0@.len() == 1,
        subcategory_removed(first, second, category, name),
        category_removed(second, third, category),
    ensures
        category_deletion(data_dir, category, probe_of(first[k])) == Err::<ActionText, _>(
            plain_failure(ErrorKind::NotEmpty, category),
        ),
        named(second[k], category),
        category_deletion(data_dir, category, probe_of(second[k])) == Ok::<_, ErrorText>(
            ActionText::RemoveDir { path: category_path_text(data_dir, category) },
        ),
        forall|b: int|
            0 <= b < listed_categories(third).len() ==> (#[trigger] listed_categories(third)[b]).id
                != category,
{
    let (k1, j1) = choose|k1: int, j1: int|
        {
            &&& #[trigger] subcategory_at(first, category, name, k1, j1)
            &&& second.len() == first.len()
            &&& forall|i: int| 0 <= i < first.len() && i != k1 ==> second[i] == first[i]
            &&& relisted(first[k1], second[k1], first[k1].children->0@.remove(j1))
        };
    if k1 != k {
        assert(first[k1].name->0@ == first[k].name->0@);
    }
    assert(second[k].children->0@.len() == 0);
    let k2 = choose|k2: int|
        {
            &&& 0 <= k2 < second.len()
            &&& named(#[trigger] second[k2], category)
            &&& probe_of(second[k2]) == DirProbe::Empty
            &&& third == second.remove(k2)
        };
    if k2 != k {
        assert(second[k2] == first[k2]);
        assert(first[k2].name->0@ == first[k].name->0@);
    }
    assert forall|i: int| 0 <= i < third.len() implies !goes_by(third[i], category) by {
        let h = if i < k { i } else { i + 1 };
        assert(third[i] == second[h]);
        assert(second[h] == first[h]);
        if goes_by(first[h], category) {
            assert(named(first[h], category));
            assert(first[h].name->0@ == first[k].name->0@);
        }
    }
    lemma_no_category(third, category);
}

} // verus!
