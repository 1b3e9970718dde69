//! Newest first: the order in which records are listed.
//!
//! Records are ranked by the time at which they were created, later ones
//! first. Records of one and the same time keep the order in which they were
//! found.

use vstd::prelude::*;

verus! {

/// Where an item of time `key` enters `order`, a ranking of positions in
/// `keys`: behind the last position whose time is not earlier than `key`.
pub open spec fn slot(keys: Seq<i128>, order: Seq<int>, key: i128) -> int
    decreases order.len(),
{
    if order.len() == 0 {
        0
    } else if keys[order.last()] >= key {
        order.len() as int
    } else {
        slot(keys, order.drop_last(), key)
    }
}

/// The ranking of the first `n` positions of `keys`: each position enters the
/// ranking of those before it at its slot.
pub open spec fn ranked(keys: Seq<i128>, n: nat) -> Seq<int>
    decreases n,
{
    if n == 0 {
        Seq::empty()
    } else {
        let before = ranked(keys, (n - 1) as nat);
        before.insert(slot(keys, before, keys[n - 1]), n - 1)
    }
}

/// The positions of `keys`, latest time first.
pub open spec fn newest_first(keys: Seq<i128>) -> Seq<int> {
    ranked(keys, keys.len())
}

/// The positions that a vector of indices holds.
pub open spec fn positions(order: Seq<usize>) -> Seq<int> {
    order.map_values(|i: usize| i as int)
}

/// `order` lists positions of `keys` by descending time.
pub open spec fn descending(keys: Seq<i128>, order: Seq<int>) -> bool {
    &&& forall|a: int| 0 <= a < order.len() ==> 0 <= #[trigger] order[a] < keys.len()
    &&& forall|a: int, b: int|
        0 <= a < b < order.len() ==> keys[#[trigger] order[a]] >= keys[#[trigger] order[b]]
}

/// `order` lists positions of equal time in ascending order.
pub open spec fn steady(keys: Seq<i128>, order: Seq<int>) -> bool {
    forall|a: int, b: int|
        0 <= a < b < order.len() && keys[#[trigger] order[a]] == keys[#[trigger] order[b]]
            ==> order[a] < order[b]
}

/// The slot lies within the ranking; no time before it is earlier than
/// `key`, and every time from it on is.
pub proof fn lemma_slot(keys: Seq<i128>, order: Seq<int>, key: i128)
    requires
        descending(keys, order),
    ensures
        0 <= slot(keys, order, key) <= order.len(),
        forall|a: int| 0 <= a < slot(keys, order, key) ==> keys[#[trigger] order[a]] >= key,
        forall|a: int|
            slot(keys, order, key) <= a < order.len() ==> keys[#[trigger] order[a]] < key,
    decreases order.len(),
{
    if order.len() == 0 {
    } else if keys[order.last()] >= key {
        assert forall|a: int| 0 <= a < order.len() implies keys[#[trigger] order[a]] >= key by {
            if a < order.len() - 1 {
                assert(keys[order[a]] >= keys[order[order.len() - 1]]);
            }
        }
    } else {
        let shorter = order.drop_last();
        assert(descending(keys, shorter)) by {
            assert forall|a: int, b: int|
                0 <= a < b < shorter.len() implies keys[#[trigger] shorter[a]]
                >= keys[#[trigger] shorter[b]] by {
                assert(shorter[a] == order[a] && shorter[b] == order[b]);
            }
            assert forall|a: int| 0 <= a < shorter.len() implies 0 <= #[trigger] shorter[a]
                < keys.len() by {
                assert(shorter[a] == order[a]);
            }
        }
        lemma_slot(keys, shorter, key);
        let p = slot(keys, shorter, key);
        assert forall|a: int| 0 <= a < p implies keys[#[trigger] order[a]] >= key by {
            assert(shorter[a] == order[a]);
        }
        assert forall|a: int| p <= a < order.len() implies keys[#[trigger] order[a]] < key by {
            if a < shorter.len() {
                assert(shorter[a] == order[a]);
            }
        }
    }
}

/// The ranking of the first `n` positions holds each of them once, by
/// descending time, and positions of equal time in ascending order.
pub proof fn lemma_ranked(keys: Seq<i128>, n: nat)
    requires
        n <= keys.len(),
    ensures
        ranked(keys, n).len() == n,
        descending(keys, ranked(keys, n)),
        steady(keys, ranked(keys, n)),
        forall|a: int| 0 <= a < n ==> 0 <= #[trigger] ranked(keys, n)[a] < n,
        forall|i: int| 0 <= i < n ==> ranked(keys, n).contains(i),
        ranked(keys, n).no_duplicates(),
    decreases n,
{
    if n > 0 {
        let before = ranked(keys, (n - 1) as nat);
        lemma_ranked(keys, (n - 1) as nat);
        let key = keys[n - 1];
        lemma_slot(keys, before, key);
        let p = slot(keys, before, key);
        let after = before.insert(p, n - 1);
        assert(after == ranked(keys, n));
        assert forall|a: int| 0 <= a < n implies 0 <= #[trigger] after[a] < n by {
            if a < p {
                assert(after[a] == before[a]);
            } else if a > p {
                assert(after[a] == before[a - 1]);
            }
        }
        assert forall|a: int, b: int| 0 <= a < b < after.len() implies keys[#[trigger] after[a]]
            >= keys[#[trigger] after[b]] by {
            let ia = if a < p { a } else { a - 1 };
            let ib = if b < p { b } else { b - 1 };
            if a != p {
                assert(after[a] == before[ia]);
            }
            if b != p {
                assert(after[b] == before[ib]);
            }
            if a != p && b != p {
                assert(keys[before[ia]] >= keys[before[ib]]);
            }
        }
        assert forall|a: int, b: int|
            0 <= a < b < after.len() && keys[#[trigger] after[a]] == keys[#[trigger] after[b]]
            implies after[a] < after[b] by {
            let ia = if a < p { a } else { a - 1 };
            let ib = if b < p { b } else { b - 1 };
            if a != p {
                assert(after[a] == before[ia]);
                assert(0 <= before[ia] < n - 1);
            }
            if b != p {
                assert(after[b] == before[ib]);
                assert(0 <= before[ib] < n - 1);
            }
        }
        assert forall|a: int, b: int|
            0 <= a < after.len() && 0 <= b < after.len() && a != b implies after[a] != after[b] by {
            let ia = if a < p { a } else { a - 1 };
            let ib = if b < p { b } else { b - 1 };
            if a != p {
                assert(after[a] == before[ia]);
                assert(0 <= before[ia] < n - 1);
            }
            if b != p {
                assert(after[b] == before[ib]);
                assert(0 <= before[ib] < n - 1);
            }
        }
        assert forall|i: int| 0 <= i < n implies after.contains(i) by {
            if i == n - 1 {
                assert(after[p] == i);
            } else {
                assert(before.contains(i));
                let a = choose|a: int| 0 <= a < before.len() && before[a] == i;
                if a < p {
                    assert(after[a] == i);
                } else {
                    assert(after[a + 1] == i);
                }
            }
        }
    }
}

/// Listing newest first puts every position in once, by descending time;
/// positions of equal time stay in the order in which they came.
pub proof fn lemma_newest_first(keys: Seq<i128>)
    ensures
        newest_first(keys).len() == keys.len(),
        descending(keys, newest_first(keys)),
        steady(keys, newest_first(keys)),
        forall|i: int| 0 <= i < keys.len() ==> newest_first(keys).contains(i),
        newest_first(keys).no_duplicates(),
{
    lemma_ranked(keys, keys.len());
}

/// Where times differ pairwise, listing newest first is strictly descending.
pub proof fn lemma_newest_first_strict(keys: Seq<i128>)
    requires
        forall|i: int, j: int| 0 <= i < j < keys.len() ==> keys[i] != keys[j],
    ensures
        forall|a: int, b: int|
            0 <= a < b < keys.len() ==> keys[#[trigger] newest_first(keys)[a]]
                > keys[#[trigger] newest_first(keys)[b]],
{
    lemma_newest_first(keys);
    let order = newest_first(keys);
    assert forall|a: int, b: int| 0 <= a < b < keys.len() implies keys[#[trigger] order[a]]
        > keys[#[trigger] order[b]] by {
        assert(keys[order[a]] >= keys[order[b]]);
        if keys[order[a]] == keys[order[b]] {
            assert(order[a] < order[b]);
        }
    }
}

/// The times of a sequence of dated records.
pub open spec fn times<R>(found: Seq<(i128, R)>) -> Seq<i128> {
    found.map_values(|p: (i128, R)| p.0)
}

/// The records of `found`, newest first.
pub open spec fn arranged<R>(found: Seq<(i128, R)>) -> Seq<R> {
    newest_first(times(found)).map_values(|i: int| found[i].1)
}

/// Arranging keeps every record, once, and puts later ones first: the record
/// at position `a` of the arranged list is the one found at position
/// `newest_first(times(found))[a]`, no position is taken twice and none is
/// left out, and the times descend along the list.
pub proof fn lemma_arranged<R>(found: Seq<(i128, R)>)
    ensures
        arranged(found).len() == found.len(),
        forall|a: int|
            0 <= a < found.len() ==> {
                &&& 0 <= #[trigger] newest_first(times(found))[a] < found.len()
                &&& arranged(found)[a] == found[newest_first(times(found))[a]].1
            },
        forall|a: int, b: int|
            0 <= a < b < found.len() ==> found[#[trigger] newest_first(times(found))[a]].0
                >= found[#[trigger] newest_first(times(found))[b]].0,
        forall|a: int, b: int|
            0 <= a < found.len() && 0 <= b < found.len() && a != b ==> #[trigger] newest_first(
                times(found),
            )[a] != #[trigger] newest_first(times(found))[b],
        forall|j: int| 0 <= j < found.len() ==> newest_first(times(found)).contains(j),
{
    let keys = times(found);
    let order = newest_first(keys);
    lemma_newest_first(keys);
    assert forall|a: int, b: int| 0 <= a < b < found.len() implies found[#[trigger] order[a]].0
        >= found[#[trigger] order[b]].0 by {
        assert(0 <= order[a] < keys.len() && 0 <= order[b] < keys.len());
        assert(keys[order[a]] >= keys[order[b]]);
    }
}

/// The times of dated records.
pub fn times_of<T>(found: &Vec<(i128, T)>) -> (keys: Vec<i128>)
    ensures
        keys@ == times(found@),
{
    let n = found.len();
    let mut keys: Vec<i128> = Vec::new();
    let mut i: usize = 0;
    while i < n
        invariant
            n == found.len(),
            i <= n,
            keys@ == times(found@).take(i as int),
        decreases n - i,
    {
        assert(times(found@).take(i + 1) =~= times(found@).take(i as int).push(found@[i as int].0));
        keys.push(found[i].0);
        i += 1;
    }
    assert(times(found@).take(n as int) =~= times(found@));
    keys
}

/// Ranks the positions of `keys`, latest time first.
pub fn newest_first_order(keys: &Vec<i128>) -> (order: Vec<usize>)
    ensures
        positions(order@) == newest_first(keys@),
        order.len() == keys.len(),
        forall|a: int| 0 <= a < order.len() ==> order[a] < keys.len(),
{
    let n = keys.len();
    let mut order: Vec<usize> = Vec::new();
    let mut i: usize = 0;
    assert(positions(order@) =~= ranked(keys@, 0));
    while i < n
        invariant
            n == keys.len(),
            i <= n,
            order.len() == i,
            positions(order@) == ranked(keys@, i as nat),
            forall|a: int| 0 <= a < order.len() ==> order[a] < i,
        decreases n - i,
    {
        let key = keys[i];
        let mut pos = order.len();
        assert(positions(order@).take(pos as int) =~= positions(order@));
        while pos > 0 && keys[order[pos - 1]] < key
            invariant
                n == keys.len(),
                i < n,
                pos <= order.len(),
                forall|a: int| 0 <= a < order.len() ==> order[a] < i,
                slot(keys@, positions(order@), key) == slot(
                    keys@,
                    positions(order@).take(pos as int),
                    key,
                ),
            decreases pos,
        {
            assert(positions(order@).take(pos as int).drop_last() =~= positions(order@).take(
                pos - 1,
            ));
            pos -= 1;
        }
        proof {
            let shown = positions(order@).take(pos as int);
            if pos > 0 {
                assert(shown.last() == order[pos - 1] as int);
            }
            assert(slot(keys@, shown, key) == pos);
            assert(positions(order@.insert(pos as int, i)) =~= positions(order@).insert(
                pos as int,
                i as int,
            ));
        }
        order.insert(pos, i);
        i += 1;
    }
    order
}

} // verus!
