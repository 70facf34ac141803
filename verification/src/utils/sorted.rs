//! Sequences kept in strictly increasing order, and sets of byte strings stored as such.

use crate::utils::blob::{contents, contents_of};
use crate::utils::order::{
    compare, lemma_lex_irreflexive, lemma_lex_transitive, lex_less, Order,
};
use bytes::Bytes;
use vstd::prelude::*;

verus! {

/// Whether `less` is a strict order: nothing comes before itself, and what comes before
/// something that comes before a third comes before the third.
pub open spec fn strict_order<T>(less: spec_fn(T, T) -> bool) -> bool {
    &&& forall|a: T| !#[trigger] less(a, a)
    &&& forall|a: T, b: T, c: T| #[trigger] less(a, b) && #[trigger] less(b, c) ==> less(a, c)
}

/// Whether each item comes before all later ones, so that none occurs twice.
pub open spec fn sorted_by<T>(items: Seq<T>, less: spec_fn(T, T) -> bool) -> bool {
    forall|i: int, j: int|
        0 <= i < j < items.len() ==> less(#[trigger] items[i], #[trigger] items[j])
}

/// A value that lies strictly between two neighbours of a sorted sequence, or outside
/// its ends, is none of its items.
pub proof fn lemma_gap_is_absent<T>(items: Seq<T>, less: spec_fn(T, T) -> bool, at: int, value: T)
    requires
        strict_order(less),
        sorted_by(items, less),
        0 <= at <= items.len(),
        forall|i: int| 0 <= i < at ==> less(#[trigger] items[i], value),
        at == items.len() || less(value, items[at]),
    ensures
        !items.contains(value),
{
}

/// Putting a value into its gap keeps the order and adds the value to the items.
pub proof fn lemma_insert_sorted<T>(items: Seq<T>, less: spec_fn(T, T) -> bool, at: int, value: T)
    requires
        strict_order(less),
        sorted_by(items, less),
        0 <= at <= items.len(),
        forall|i: int| 0 <= i < at ==> less(#[trigger] items[i], value),
        at == items.len() || less(value, items[at]),
    ensures
        sorted_by(items.insert(at, value), less),
        forall|x: T| items.insert(at, value).contains(x) <==> (items.contains(x) || x == value),
        items.insert(at, value).to_set() == items.to_set().insert(value),
{
    let out = items.insert(at, value);
    assert forall|x: T| out.contains(x) <==> (items.contains(x) || x == value) by {
        if items.contains(x) {
            let i = choose|i: int| 0 <= i < items.len() && items[i] == x;
            if i < at {
                assert(out[i] == x);
            } else {
                assert(out[i + 1] == x);
            }
        }
        if x == value {
            assert(out[at] == x);
        }
    }
}

/// Taking an item out keeps the order and takes the item out of the items.
pub proof fn lemma_remove_sorted<T>(items: Seq<T>, less: spec_fn(T, T) -> bool, at: int)
    requires
        strict_order(less),
        sorted_by(items, less),
        0 <= at < items.len(),
    ensures
        sorted_by(items.remove(at), less),
        forall|x: T| items.remove(at).contains(x) <==> (items.contains(x) && x != items[at]),
        items.remove(at).to_set() == items.to_set().remove(items[at]),
{
    let out = items.remove(at);
    let value = items[at];
    assert forall|i: int, j: int| 0 <= i < j < out.len() implies less(out[i], out[j]) by {
        let a = if i < at {
            i
        } else {
            i + 1
        };
        let b = if j < at {
            j
        } else {
            j + 1
        };
        assert(out[i] == items[a] && out[j] == items[b]);
    }
    assert forall|x: T| out.contains(x) <==> (items.contains(x) && x != value) by {
        if out.contains(x) {
            let i = choose|i: int| 0 <= i < out.len() && out[i] == x;
            let a = if i < at {
                i
            } else {
                i + 1
            };
            assert(items[a] == x);
        }
        if items.contains(x) && x != value {
            let i = choose|i: int| 0 <= i < items.len() && items[i] == x;
            if i < at {
                assert(out[i] == x);
            } else {
                assert(out[i - 1] == x);
            }
        }
    }
}

/// Two increasing sequences with the same items are the same sequence.
pub proof fn lemma_sorted_unique<T>(a: Seq<T>, b: Seq<T>, less: spec_fn(T, T) -> bool)
    requires
        strict_order(less),
        sorted_by(a, less),
        sorted_by(b, less),
        a.to_set() == b.to_set(),
    ensures
        a == b,
    decreases a.len(),
{
    if a.len() == 0 {
        if b.len() > 0 {
            assert(b.to_set().contains(b[0]));
        }
    } else {
        assert(a.to_set().contains(a[0]));
        assert(b.contains(b[0]));
        lemma_remove_sorted(a, less, 0);
        lemma_remove_sorted(b, less, 0);
        lemma_sorted_unique(a.remove(0), b.remove(0), less);
        assert(a =~= seq![a[0]] + a.remove(0));
    }
}

/// The order of byte strings, as a relation.
pub open spec fn bytes_less() -> spec_fn(Seq<u8>, Seq<u8>) -> bool {
    |a: Seq<u8>, b: Seq<u8>| lex_less(a, b)
}

/// The order of byte strings is a strict order.
pub proof fn lemma_bytes_less_strict()
    ensures
        strict_order(bytes_less()),
{
    let less = bytes_less();
    assert forall|a: Seq<u8>| !#[trigger] less(a, a) by {
        lemma_lex_irreflexive(a);
    }
    assert forall|a: Seq<u8>, b: Seq<u8>, c: Seq<u8>| #[trigger]
        less(a, b) && #[trigger] less(b, c) implies less(a, c) by {
        lemma_lex_transitive(a, b, c);
    }
}

/// The set of the byte strings behind `items`.
pub open spec fn members(items: Seq<Bytes>) -> Set<Seq<u8>> {
    contents_of(items).to_set()
}

/// Whether `items` is a set in increasing order.
pub open spec fn is_sorted_set(items: Seq<Bytes>) -> bool {
    sorted_by(contents_of(items), bytes_less())
}

/// The items of a set of byte strings, in increasing order.
pub open spec fn listing(s: Set<Seq<u8>>) -> Seq<Seq<u8>> {
    choose|items: Seq<Seq<u8>>| sorted_by(items, bytes_less()) && items.to_set() == s
}

/// An increasing sequence is the listing of its items, and the set of its items has
/// as many elements as the sequence has items.
pub proof fn lemma_listing(items: Seq<Seq<u8>>)
    requires
        sorted_by(items, bytes_less()),
    ensures
        listing(items.to_set()) == items,
        items.to_set().finite(),
        items.to_set().len() == items.len(),
{
    lemma_bytes_less_strict();
    let other = listing(items.to_set());
    lemma_sorted_unique(other, items, bytes_less());
    items.unique_seq_to_set();
    vstd::seq_lib::seq_to_set_is_finite(items);
}

/// The items of a sequence with one more are the items of the sequence and that one.
pub proof fn lemma_push_members<T>(items: Seq<T>, item: T)
    ensures
        items.push(item).to_set() == items.to_set().insert(item),
{
    let out = items.push(item);
    assert forall|x: T| out.contains(x) <==> (items.contains(x) || x == item) by {
        if items.contains(x) {
            let i = choose|i: int| 0 <= i < items.len() && items[i] == x;
            assert(out[i] == x);
        }
        if x == item {
            assert(out[items.len() as int] == x);
        }
    }
}

/// Finds where `value` stands among `items`, or where it would have to stand.
pub fn position(items: &Vec<Bytes>, value: &[u8]) -> (r: (usize, bool))
    requires
        is_sorted_set(items@),
    ensures
        r.0 <= items@.len(),
        forall|i: int| 0 <= i < r.0 ==> lex_less(#[trigger] contents_of(items@)[i], value@),
        r.1 ==> r.0 < items@.len() && contents(items@[r.0 as int]) == value@,
        !r.1 ==> r.0 == items@.len() || lex_less(value@, contents(items@[r.0 as int])),
        r.1 == members(items@).contains(value@),
{
    let mut i: usize = 0;
    let ghost all = contents_of(items@);
    proof {
        lemma_bytes_less_strict();
    }
    while i < items.len()
        invariant
            i <= items@.len(),
            all == contents_of(items@),
            sorted_by(all, bytes_less()),
            strict_order(bytes_less()),
            forall|k: int| 0 <= k < i ==> lex_less(#[trigger] all[k], value@),
        decreases items@.len() - i,
    {
        match compare(items[i].as_ref(), value) {
            Order::Less => {
            },
            Order::Equal => {
                assert(all[i as int] == value@);
                return (i, true);
            },
            Order::Greater => {
                proof {
                    lemma_gap_is_absent(all, bytes_less(), i as int, value@);
                }
                return (i, false);
            },
        }
        i = i + 1;
    }
    proof {
        lemma_gap_is_absent(all, bytes_less(), i as int, value@);
    }
    (i, false)
}

/// Whether `value` is one of `items`.
pub fn contains_sorted(items: &Vec<Bytes>, value: &[u8]) -> (r: bool)
    requires
        is_sorted_set(items@),
    ensures
        r == members(items@).contains(value@),
{
    position(items, value).1
}

/// Adds `value` to `items` unless it is there already, and tells whether it added it.
pub fn insert_sorted(items: &mut Vec<Bytes>, value: Bytes) -> (added: bool)
    requires
        is_sorted_set(old(items)@),
    ensures
        is_sorted_set(final(items)@),
        members(final(items)@) == members(old(items)@).insert(contents(value)),
        added == !members(old(items)@).contains(contents(value)),
{
    let (at, found) = position(items, value.as_ref());
    if found {
        false
    } else {
        proof {
            lemma_bytes_less_strict();
            lemma_insert_sorted(contents_of(items@), bytes_less(), at as int, contents(value));
            assert(contents_of(items@.insert(at as int, value)) =~= contents_of(items@).insert(
                at as int,
                contents(value),
            ));
        }
        items.insert(at, value);
        true
    }
}

/// Takes `value` out of `items` if it is there, and tells whether it was.
pub fn remove_sorted(items: &mut Vec<Bytes>, value: &[u8]) -> (removed: bool)
    requires
        is_sorted_set(old(items)@),
    ensures
        is_sorted_set(final(items)@),
        members(final(items)@) == members(old(items)@).remove(value@),
        removed == members(old(items)@).contains(value@),
{
    let (at, found) = position(items, value);
    if found {
        proof {
            lemma_bytes_less_strict();
            lemma_remove_sorted(contents_of(items@), bytes_less(), at as int);
            assert(contents_of(items@.remove(at as int)) =~= contents_of(items@).remove(at as int));
        }
        items.remove(at);
        true
    } else {
        false
    }
}

/// A set with the same items, behind handles of its own.
pub fn copy_set(items: &Vec<Bytes>) -> (out: Vec<Bytes>)
    ensures
        contents_of(out@) == contents_of(items@),
{
    let mut out: Vec<Bytes> = Vec::new();
    let mut i: usize = 0;
    while i < items.len()
        invariant
            i <= items@.len(),
            contents_of(out@) == contents_of(items@).take(i as int),
        decreases items@.len() - i,
    {
        let ghost before = contents_of(out@);
        let item = items[i].clone();
        out.push(item);
        assert(contents_of(out@) =~= before.push(contents(item)));
        i = i + 1;
    }
    out
}

/// The items of `items` that are in `other` where `present`, and those that are not in
/// `other` otherwise.
pub fn filter_by(items: &Vec<Bytes>, other: &Vec<Bytes>, present: bool) -> (out: Vec<Bytes>)
    requires
        is_sorted_set(items@),
        is_sorted_set(other@),
    ensures
        is_sorted_set(out@),
        members(out@) == if present {
            members(items@).intersect(members(other@))
        } else {
            members(items@).difference(members(other@))
        },
{
    let ghost all = contents_of(items@);
    let mut out: Vec<Bytes> = Vec::new();
    let mut i: usize = 0;
    while i < items.len()
        invariant
            i <= items@.len(),
            all == contents_of(items@),
            sorted_by(all, bytes_less()),
            is_sorted_set(other@),
            is_sorted_set(out@),
            forall|a: int|
                0 <= a < out@.len() ==> exists|j: int|
                    0 <= j < i && all[j] == #[trigger] contents_of(out@)[a],
            members(out@) == if present {
                all.take(i as int).to_set().intersect(members(other@))
            } else {
                all.take(i as int).to_set().difference(members(other@))
            },
        decreases items@.len() - i,
    {
        let item: &[u8] = items[i].as_ref();
        let ghost before = contents_of(out@);
        proof {
            lemma_push_members(all.take(i as int), all[i as int]);
            assert(all.take(i + 1) =~= all.take(i as int).push(all[i as int]));
        }
        if contains_sorted(other, item) == present {
            let copy = items[i].clone();
            out.push(copy);
            proof {
                let after = contents_of(out@);
                assert(after =~= before.push(all[i as int]));
                lemma_push_members(before, all[i as int]);
                assert(members(out@) =~= if present {
                    all.take(i + 1).to_set().intersect(members(other@))
                } else {
                    all.take(i + 1).to_set().difference(members(other@))
                });
            }
        } else {
            proof {
                assert(members(out@) =~= if present {
                    all.take(i + 1).to_set().intersect(members(other@))
                } else {
                    all.take(i + 1).to_set().difference(members(other@))
                });
            }
        }
        i = i + 1;
    }
    assert(all.take(i as int) =~= all);
    out
}

/// Adds to `items` every item of `other`.
pub fn add_set(items: &mut Vec<Bytes>, other: &Vec<Bytes>)
    requires
        is_sorted_set(old(items)@),
    ensures
        is_sorted_set(final(items)@),
        members(final(items)@) == members(old(items)@).union(members(other@)),
{
    let ghost all = contents_of(other@);
    let mut i: usize = 0;
    while i < other.len()
        invariant
            i <= other@.len(),
            all == contents_of(other@),
            is_sorted_set(items@),
            members(items@) == members(old(items)@).union(all.take(i as int).to_set()),
        decreases other@.len() - i,
    {
        proof {
            lemma_push_members(all.take(i as int), all[i as int]);
            assert(all.take(i + 1) =~= all.take(i as int).push(all[i as int]));
        }
        let copy = other[i].clone();
        insert_sorted(items, copy);
        i = i + 1;
    }
    assert(all.take(i as int) =~= all);
}

} // verus!
