//! The storage engine: keys with their typed values, and the schedule of the moments
//! at which entries expire.
//!
//! Time is a count of milliseconds on a clock of the caller's choosing.

use crate::utils::blob::{contents, contents_of};
use crate::utils::decimal::{
    digits, format_i64, format_u64, lemma_strict_i64_reads_digits, signed_digits, strict_i64,
};
use crate::utils::serialization::{
    btree_to_bytes, bytes_to_i64, render_range, rendered_list, rendered_set,
};
use crate::utils::order::{
    compare, lemma_lex_irreflexive, lemma_lex_transitive, lex_less, same_text, Order,
};
use crate::utils::sorted::{
    add_set, contains_sorted, copy_set, filter_by, insert_sorted, is_sorted_set,
    lemma_insert_sorted, lemma_listing, lemma_push_members, lemma_remove_sorted, listing, members,
    remove_sorted, sorted_by, strict_order,
};
use bytes::Bytes;
use std::collections::VecDeque;
use vstd::prelude::*;
use vstd::utf8::encode_utf8;

verus! {

/// A stored value.
#[derive(Debug)]
pub enum DbData {
    /// A byte string.
    String(Bytes),
    /// A list of byte strings, open at both ends.
    List(VecDeque<Bytes>),
    /// A set of byte strings, in increasing order.
    Members(Vec<Bytes>),
    /// Pairs of a field and its value.
    Hash(Vec<(Bytes, Bytes)>),
}

/// A stored value and the moment at which it expires, if it does.
#[derive(Debug)]
pub struct Entry {
    pub data: DbData,
    pub expires_at: Option<u64>,
}

/// A key and what is stored under it.
#[derive(Debug)]
pub struct Slot {
    pub key: String,
    pub entry: Entry,
}

/// A stored value as a mathematical value.
pub enum DataView {
    String(Seq<u8>),
    List(Seq<Seq<u8>>),
    Members(Set<Seq<u8>>),
    Hash(Seq<(Seq<u8>, Seq<u8>)>),
}

/// An entry as a mathematical value.
pub struct EntryView {
    pub data: DataView,
    pub expires_at: Option<u64>,
}

/// What the engine holds: the entry of each key that has one.
pub type Table = Map<Seq<char>, EntryView>;

/// A moment and the key that expires then.
pub type Due = (u64, Seq<char>);

impl View for DbData {
    type V = DataView;

    open spec fn view(&self) -> DataView {
        match self {
            DbData::String(b) => DataView::String(contents(*b)),
            DbData::List(l) => DataView::List(contents_of(l@)),
            DbData::Members(s) => DataView::Members(members(s@)),
            DbData::Hash(h) => DataView::Hash(
                Seq::new(h@.len(), |i: int| (contents(h@[i].0), contents(h@[i].1))),
            ),
        }
    }
}

impl View for Entry {
    type V = EntryView;

    open spec fn view(&self) -> EntryView {
        EntryView { data: self.data@, expires_at: self.expires_at }
    }
}

impl DbData {
    /// Whether the value is kept as its kind asks: a set in increasing order.
    pub open spec fn wf(self) -> bool {
        self matches DbData::Members(s) ==> is_sorted_set(s@)
    }
}

/// Whether some slot holds the key `k`.
pub open spec fn has_key(slots: Seq<Slot>, k: Seq<char>) -> bool {
    exists|i: int| 0 <= i < slots.len() && (#[trigger] slots[i]).key@ == k
}

/// The index of a slot that holds the key `k`.
pub open spec fn slot_of(slots: Seq<Slot>, k: Seq<char>) -> int {
    choose|i: int| 0 <= i < slots.len() && (#[trigger] slots[i]).key@ == k
}

/// The table that a sequence of slots stands for.
pub open spec fn table(slots: Seq<Slot>) -> Table {
    Map::new(|k: Seq<char>| has_key(slots, k), |k: Seq<char>| slots[slot_of(slots, k)].entry@)
}

/// Whether no two slots hold the same key.
pub open spec fn distinct_keys(slots: Seq<Slot>) -> bool {
    forall|i: int, j: int|
        0 <= i < j < slots.len() ==> (#[trigger] slots[i]).key@ != (#[trigger] slots[j]).key@
}

/// Whether every stored value is kept as its kind asks.
pub open spec fn values_wf(slots: Seq<Slot>) -> bool {
    forall|i: int| 0 <= i < slots.len() ==> (#[trigger] slots[i]).entry.data.wf()
}

/// A new slot with a new key adds its entry to the table.
pub proof fn lemma_table_push(slots: Seq<Slot>, slot: Slot)
    requires
        distinct_keys(slots),
        !has_key(slots, slot.key@),
    ensures
        distinct_keys(slots.push(slot)),
        table(slots.push(slot)) == table(slots).insert(slot.key@, slot.entry@),
{
    let out = slots.push(slot);
    assert forall|k: Seq<char>| has_key(out, k) <==> (has_key(slots, k) || k == slot.key@) by {
        if has_key(slots, k) {
            let i = slot_of(slots, k);
            assert(out[i].key@ == k);
        }
        if k == slot.key@ {
            assert(out[slots.len() as int].key@ == k);
        }
    }
}

/// A slot whose entry changes under the same key changes that entry of the table.
pub proof fn lemma_table_update(slots: Seq<Slot>, i: int, slot: Slot)
    requires
        distinct_keys(slots),
        0 <= i < slots.len(),
        slot.key@ == slots[i].key@,
    ensures
        distinct_keys(slots.update(i, slot)),
        table(slots.update(i, slot)) == table(slots).insert(slot.key@, slot.entry@),
{
    let out = slots.update(i, slot);
    assert forall|k: Seq<char>| has_key(out, k) <==> has_key(slots, k) by {
        if has_key(slots, k) {
            let j = slot_of(slots, k);
            assert(out[j].key@ == k);
        }
    }
}

/// Taking a slot out takes its key out of the table.
pub proof fn lemma_table_remove(slots: Seq<Slot>, i: int)
    requires
        distinct_keys(slots),
        0 <= i < slots.len(),
    ensures
        distinct_keys(slots.remove(i)),
        table(slots.remove(i)) == table(slots).remove(slots[i].key@),
{
    let out = slots.remove(i);
    let gone = slots[i].key@;
    assert forall|a: int, b: int| 0 <= a < b < out.len() implies (#[trigger] out[a]).key@ != (
    #[trigger] out[b]).key@ by {
        let a0 = if a < i {
            a
        } else {
            a + 1
        };
        let b0 = if b < i {
            b
        } else {
            b + 1
        };
        assert(out[a] == slots[a0] && out[b] == slots[b0]);
    }
    assert forall|k: Seq<char>| has_key(out, k) <==> (has_key(slots, k) && k != gone) by {
        if has_key(out, k) {
            let j = slot_of(out, k);
            let j0 = if j < i {
                j
            } else {
                j + 1
            };
            assert(out[j] == slots[j0]);
        }
        if has_key(slots, k) && k != gone {
            let j = slot_of(slots, k);
            if j < i {
                assert(out[j] == slots[j]);
            } else {
                assert(out[j - 1] == slots[j]);
            }
        }
    }
    assert forall|k: Seq<char>| has_key(out, k) implies #[trigger] table(out)[k] == table(
        slots,
    ).remove(gone)[k] by {
        let j = slot_of(out, k);
        let j0 = if j < i {
            j
        } else {
            j + 1
        };
        assert(out[j] == slots[j0]);
    }
}

/// The order of the schedule: by moment, and by key among those of one moment.
pub open spec fn due_less() -> spec_fn(Due, Due) -> bool {
    |a: Due, b: Due| a.0 < b.0 || (a.0 == b.0 && lex_less(encode_utf8(a.1), encode_utf8(b.1)))
}

/// The order of the schedule is a strict order.
pub proof fn lemma_due_less_strict()
    ensures
        strict_order(due_less()),
{
    let less = due_less();
    assert forall|a: Due| !#[trigger] less(a, a) by {
        lemma_lex_irreflexive(encode_utf8(a.1));
    }
    assert forall|a: Due, b: Due, c: Due| #[trigger] less(a, b) && #[trigger] less(
        b,
        c,
    ) implies less(a, c) by {
        if a.0 == b.0 && b.0 == c.0 {
            lemma_lex_transitive(encode_utf8(a.1), encode_utf8(b.1), encode_utf8(c.1));
        }
    }
}

/// The schedule as a sequence of mathematical values.
pub open spec fn dues(expirations: Seq<(u64, String)>) -> Seq<Due> {
    Seq::new(expirations.len(), |i: int| (expirations[i].0, expirations[i].1@))
}

/// The moments at which the entries of a table expire, each with its key.
pub open spec fn deadlines(t: Table) -> Set<Due> {
    Set::new(|d: Due| t.contains_key(d.1) && t[d.1].expires_at == Some(d.0))
}

/// Whether `w` is the first moment at which an entry of `t` expires.
pub open spec fn is_earliest(t: Table, w: u64) -> bool {
    &&& exists|k: Seq<char>| #[trigger] t.contains_key(k) && t[k].expires_at == Some(w)
    &&& forall|k: Seq<char>| #[trigger]
        t.contains_key(k) && t[k].expires_at is Some ==> w <= t[k].expires_at.unwrap()
}

/// The first moment at which an entry of `t` expires, if any entry does.
pub open spec fn earliest(t: Table) -> Option<u64> {
    if exists|w: u64| is_earliest(t, w) {
        Some(choose|w: u64| is_earliest(t, w))
    } else {
        None
    }
}

/// Whether the entry `e` has expired at the moment `now`.
pub open spec fn expired(e: EntryView, now: u64) -> bool {
    e.expires_at matches Some(w) && w <= now
}

/// The moment that lies `ttl` after `now`, or the last moment of the clock where that
/// lies beyond it.
pub open spec fn deadline(now: u64, ttl: u64) -> u64 {
    if now + ttl > u64::MAX {
        u64::MAX
    } else {
        (now + ttl) as u64
    }
}

/// The list stored under `k`, where one is.
pub open spec fn list_at(t: Table, k: Seq<char>) -> Option<Seq<Seq<u8>>> {
    if t.contains_key(k) {
        match t[k].data {
            DataView::List(l) => Some(l),
            _ => None,
        }
    } else {
        None
    }
}

/// The table with another value under `k`, and the deadline of `k` as it was.
pub open spec fn with_data(t: Table, k: Seq<char>, data: DataView) -> Table {
    t.insert(k, EntryView { data: data, expires_at: t[k].expires_at })
}

/// The byte strings that texts are stored as.
pub open spec fn texts(values: Seq<String>) -> Seq<Seq<u8>> {
    Seq::new(values.len(), |i: int| encode_utf8(values[i]@))
}

/// A sequence read from its end.
pub open spec fn backwards(s: Seq<Seq<u8>>) -> Seq<Seq<u8>> {
    Seq::new(s.len(), |i: int| s[s.len() - 1 - i])
}

/// A list after `values` were pushed one by one: each behind the last where `right`,
/// each in front of the first otherwise.
pub open spec fn pushed(list: Seq<Seq<u8>>, values: Seq<Seq<u8>>, right: bool) -> Seq<Seq<u8>> {
    if right {
        list + values
    } else {
        backwards(values) + list
    }
}

/// The items of `list` with an index from `start` to `end`, both included.
pub open spec fn range_of(list: Seq<Seq<u8>>, start: u64, end: u64) -> Seq<Seq<u8>> {
    let lo = if start < list.len() {
        start as int
    } else {
        list.len() as int
    };
    let hi = if end < list.len() {
        end + 1
    } else {
        list.len() as int
    };
    if lo < hi {
        list.subrange(lo, hi)
    } else {
        Seq::empty()
    }
}

/// The set stored under `k`, where one is.
pub open spec fn set_at(t: Table, k: Seq<char>) -> Option<Set<Seq<u8>>> {
    if t.contains_key(k) {
        match t[k].data {
            DataView::Members(s) => Some(s),
            _ => None,
        }
    } else {
        None
    }
}

/// The set stored under `k`, or the empty set where none is.
pub open spec fn set_or_empty(t: Table, k: Seq<char>) -> Set<Seq<u8>> {
    match set_at(t, k) {
        Some(s) => s,
        None => Set::empty(),
    }
}

/// A way to make one set of several.
#[derive(Clone, Copy, Debug, PartialEq, Eq)]
pub enum SetOp {
    /// What is in all of them.
    Inter,
    /// What is in the first and in none of the others.
    Diff,
    /// What is in any of them.
    Union,
}

/// The set that `op` makes of two sets.
pub open spec fn combined_two(op: SetOp, a: Set<Seq<u8>>, b: Set<Seq<u8>>) -> Set<Seq<u8>> {
    match op {
        SetOp::Inter => a.intersect(b),
        SetOp::Diff => a.difference(b),
        SetOp::Union => a.union(b),
    }
}

/// The set that `op` makes of the sets stored under `keys`, a key without a set
/// standing for the empty set.
pub open spec fn combined(t: Table, keys: Seq<Seq<char>>, op: SetOp) -> Set<Seq<u8>>
    decreases keys.len(),
{
    if keys.len() == 0 {
        Set::empty()
    } else if keys.len() == 1 {
        set_or_empty(t, keys[0])
    } else {
        combined_two(op, combined(t, keys.drop_last(), op), set_or_empty(t, keys.last()))
    }
}

/// The keys as mathematical values.
pub open spec fn key_views(keys: Seq<String>) -> Seq<Seq<char>> {
    Seq::new(keys.len(), |i: int| keys[i]@)
}

/// The text for a truth value: `true` or `false`.
pub open spec fn truth_text(b: bool) -> Seq<u8> {
    if b {
        seq![116u8, 114u8, 117u8, 101u8]
    } else {
        seq![102u8, 97u8, 108u8, 115u8, 101u8]
    }
}

/// Adds each of `values` to the set `items`.
fn add_texts(items: &mut Vec<Bytes>, values: &Vec<String>)
    requires
        is_sorted_set(old(items)@),
    ensures
        is_sorted_set(final(items)@),
        members(final(items)@) == members(old(items)@).union(texts(values@).to_set()),
{
    let ghost all = texts(values@);
    let mut i: usize = 0;
    while i < values.len()
        invariant
            i <= values@.len(),
            all == texts(values@),
            is_sorted_set(items@),
            members(items@) == members(old(items)@).union(all.take(i as int).to_set()),
        decreases values@.len() - i,
    {
        proof {
            lemma_push_members(all.take(i as int), all[i as int]);
            assert(all.take(i + 1) =~= all.take(i as int).push(all[i as int]));
        }
        let item = Bytes::copy_from_slice(values[i].as_str().as_bytes());
        insert_sorted(items, item);
        i = i + 1;
    }
    assert(all.take(i as int) =~= all);
}

/// Takes each of `values` out of the set `items`.
fn remove_texts(items: &mut Vec<Bytes>, values: &Vec<String>)
    requires
        is_sorted_set(old(items)@),
    ensures
        is_sorted_set(final(items)@),
        members(final(items)@) == members(old(items)@).difference(texts(values@).to_set()),
        final(items)@.len() <= old(items)@.len(),
{
    let ghost all = texts(values@);
    let mut i: usize = 0;
    while i < values.len()
        invariant
            i <= values@.len(),
            all == texts(values@),
            is_sorted_set(items@),
            items@.len() <= old(items)@.len(),
            members(items@) == members(old(items)@).difference(all.take(i as int).to_set()),
        decreases values@.len() - i,
    {
        proof {
            lemma_push_members(all.take(i as int), all[i as int]);
            assert(all.take(i + 1) =~= all.take(i as int).push(all[i as int]));
            lemma_listing(contents_of(items@));
        }
        remove_sorted(items, values[i].as_str().as_bytes());
        proof {
            lemma_listing(contents_of(items@));
        }
        i = i + 1;
    }
    assert(all.take(i as int) =~= all);
}

/// The table after a byte string was stored under `key`, to expire `expire`
/// milliseconds after `now` where that is given.
pub open spec fn after_set(
    t: Table,
    key: Seq<char>,
    value: Seq<u8>,
    expire: Option<u64>,
    now: u64,
) -> Table {
    t.insert(
        key,
        EntryView {
            data: DataView::String(value),
            expires_at: match expire {
                Some(ttl) => Some(deadline(now, ttl)),
                None => None,
            },
        },
    )
}

/// Whether storing an entry that expires `expire` milliseconds after `now` brings a
/// deadline that comes before every deadline of `t`.
pub open spec fn set_wakes(t: Table, expire: Option<u64>, now: u64) -> bool {
    match expire {
        Some(ttl) => match earliest(t) {
            Some(next) => next > deadline(now, ttl),
            None => true,
        },
        None => false,
    }
}

/// The table after `values` were pushed onto the list under `key`.
pub open spec fn after_push(t: Table, key: Seq<char>, values: Seq<Seq<u8>>, right: bool) -> Table {
    if !t.contains_key(key) {
        t.insert(
            key,
            EntryView {
                data: DataView::List(pushed(Seq::empty(), values, right)),
                expires_at: None,
            },
        )
    } else {
        match t[key].data {
            DataView::List(l) => with_data(t, key, DataView::List(pushed(l, values, right))),
            _ => t,
        }
    }
}

/// The item that a pop takes off the list under `key`, where there is one.
pub open spec fn popped(t: Table, key: Seq<char>, right: bool) -> Option<Seq<u8>> {
    match list_at(t, key) {
        Some(l) => if l.len() == 0 {
            None
        } else if right {
            Some(l.last())
        } else {
            Some(l.first())
        },
        None => None,
    }
}

/// The table after a pop from the list under `key`.
pub open spec fn after_pop(t: Table, key: Seq<char>, right: bool) -> Table {
    match list_at(t, key) {
        Some(l) => if l.len() == 0 {
            t
        } else if right {
            with_data(t, key, DataView::List(l.drop_last()))
        } else {
            with_data(t, key, DataView::List(l.drop_first()))
        },
        None => t,
    }
}

/// The items of the list under `key` with an index from `start` to `end`, written out.
pub open spec fn ranged(t: Table, key: Seq<char>, start: u64, end: u64) -> Option<Seq<u8>> {
    match list_at(t, key) {
        Some(l) => Some(rendered_list(range_of(l, start, end))),
        None => None,
    }
}

/// The table after `values` were added to the set under `key`.
pub open spec fn after_sadd(t: Table, key: Seq<char>, values: Set<Seq<u8>>) -> Table {
    if !t.contains_key(key) {
        t.insert(key, EntryView { data: DataView::Members(values), expires_at: None })
    } else {
        match t[key].data {
            DataView::Members(s) => with_data(t, key, DataView::Members(s.union(values))),
            _ => t,
        }
    }
}

/// The table after `values` were taken out of the set under `key`.
pub open spec fn after_srem(t: Table, key: Seq<char>, values: Set<Seq<u8>>) -> Table {
    match set_at(t, key) {
        Some(s) => with_data(t, key, DataView::Members(s.difference(values))),
        None => t,
    }
}

/// How many items leave the set under `key` when `values` are taken out of it, in
/// decimal text.
pub open spec fn removed_count(t: Table, key: Seq<char>, values: Set<Seq<u8>>) -> Option<Seq<u8>> {
    match set_at(t, key) {
        Some(s) => Some(digits((s.len() - s.difference(values).len()) as nat)),
        None => None,
    }
}

/// The number of items of the set under `key`, in decimal text.
pub open spec fn cardinality(t: Table, key: Seq<char>) -> Option<Seq<u8>> {
    match set_at(t, key) {
        Some(s) => Some(digits(s.len())),
        None => None,
    }
}

/// Whether `value` is in the set under `key`, as text.
pub open spec fn membership(t: Table, key: Seq<char>, value: Seq<u8>) -> Option<Seq<u8>> {
    match set_at(t, key) {
        Some(s) => Some(truth_text(s.contains(value))),
        None => None,
    }
}

/// The set under `key` written out, its items in increasing order.
pub open spec fn all_members(t: Table, key: Seq<char>) -> Option<Seq<u8>> {
    match set_at(t, key) {
        Some(s) => Some(rendered_set(listing(s))),
        None => None,
    }
}

/// The set that `op` makes of the sets under `keys`, written out with its items in
/// increasing order; nothing without keys.
pub open spec fn combination(t: Table, keys: Seq<Seq<char>>, op: SetOp) -> Option<Seq<u8>> {
    if keys.len() == 0 {
        None
    } else {
        Some(rendered_set(listing(combined(t, keys, op))))
    }
}

/// Why a number could not be added to what a key holds.
#[derive(Debug, PartialEq, Eq, Clone, Copy)]
pub enum IncrError {
    /// The key holds nothing.
    NoSuchKey,
    /// The key holds a list, a set or a hash.
    WrongType,
    /// The key holds a byte string that is no decimal number in the range of `i64`.
    NotANumber,
    /// The sum leaves the range of `i64`.
    Overflow,
}

/// What adding `delta` to the number stored under `k` gives.
pub open spec fn incremented(t: Table, k: Seq<char>, delta: i64) -> Result<i64, IncrError> {
    if !t.contains_key(k) {
        Err(IncrError::NoSuchKey)
    } else {
        match t[k].data {
            DataView::String(v) => match strict_i64(v) {
                Some(n) => if i64::MIN <= n + delta <= i64::MAX {
                    Ok((n + delta) as i64)
                } else {
                    Err(IncrError::Overflow)
                },
                None => Err(IncrError::NotANumber),
            },
            _ => Err(IncrError::WrongType),
        }
    }
}

/// The table after `delta` was added to the number stored under `k`.
pub open spec fn after_incrby(t: Table, k: Seq<char>, delta: i64) -> Table {
    match incremented(t, k, delta) {
        Ok(sum) => with_data(t, k, DataView::String(signed_digits(sum as int))),
        Err(_) => t,
    }
}

/// Giving one slot another value, with its key and deadline kept, changes that entry
/// of the table and leaves the deadlines as they were.
pub proof fn lemma_rewrite(before: Seq<Slot>, after: Seq<Slot>, i: int)
    requires
        distinct_keys(before),
        values_wf(before),
        0 <= i < before.len(),
        after.len() == before.len(),
        forall|j: int| 0 <= j < before.len() && j != i ==> after[j] == before[j],
        after[i].key@ == before[i].key@,
        after[i].entry.expires_at == before[i].entry.expires_at,
        after[i].entry.data.wf(),
    ensures
        distinct_keys(after),
        values_wf(after),
        table(after) == with_data(table(before), before[i].key@, after[i].entry.data@),
        deadlines(table(after)) == deadlines(table(before)),
{
}

/// Pushes `values` onto `list` one by one, at its back where `right` and at its front
/// otherwise.
fn extend_list(list: &mut VecDeque<Bytes>, values: &Vec<String>, right: bool)
    ensures
        contents_of(final(list)@) == pushed(contents_of(old(list)@), texts(values@), right),
{
    let ghost start = contents_of(list@);
    let ghost all = texts(values@);
    let mut i: usize = 0;
    while i < values.len()
        invariant
            i <= values@.len(),
            all == texts(values@),
            contents_of(list@) == pushed(start, all.take(i as int), right),
        decreases values@.len() - i,
    {
        let item = Bytes::copy_from_slice(values[i].as_str().as_bytes());
        let ghost before = contents_of(list@);
        if right {
            list.push_back(item);
            assert(contents_of(list@) =~= before.push(contents(item)));
        } else {
            list.push_front(item);
            assert(contents_of(list@) =~= seq![contents(item)] + before);
        }
        i = i + 1;
    }
}

/// A key that holds nothing gives nothing: no byte string, and no item to pop, and a
/// pop leaves all as it is.
pub proof fn lemma_unwritten_key(t: Table, k: Seq<char>, right: bool)
    requires
        !t.contains_key(k),
    ensures
        string_at(t, k) is None,
        popped(t, k, right) is None,
        after_pop(t, k, right) == t,
{
}

/// A byte string that was stored under a key is what the key holds right after.
pub proof fn lemma_set_then_get(t: Table, k: Seq<char>, v: Seq<u8>, expire: Option<u64>, now: u64)
    ensures
        string_at(after_set(t, k, v, expire, now), k) == Some(v),
{
}

/// An entry stored to expire is there until its deadline and gone from then on: the
/// sweep at a moment before the deadline keeps it, and the sweep at the deadline or
/// after it removes it from the table.
pub proof fn lemma_expiry(t: Table, k: Seq<char>, v: Seq<u8>, ttl: u64, now: u64, later: u64)
    ensures
        string_at(after_set(t, k, v, Some(ttl), now), k) == Some(v),
        unexpired(after_set(t, k, v, Some(ttl), now), later).contains_key(k) <==> later < deadline(
            now,
            ttl,
        ),
        later < deadline(now, ttl) ==> string_at(
            unexpired(after_set(t, k, v, Some(ttl), now), later),
            k,
        ) == Some(v),
{
}

/// An entry stored without a time to live is kept by every sweep.
pub proof fn lemma_no_expiry(t: Table, k: Seq<char>, v: Seq<u8>, now: u64, later: u64)
    ensures
        string_at(unexpired(after_set(t, k, v, None, now), later), k) == Some(v),
{
}

/// Adding to a number that is stored as decimal text stores the decimal text of the
/// sum.
pub proof fn lemma_incrby_then_get(t: Table, k: Seq<char>, n: i64, delta: i64)
    requires
        string_at(t, k) == Some(signed_digits(n as int)),
        i64::MIN <= n + delta <= i64::MAX,
    ensures
        incremented(t, k, delta) == Ok::<i64, IncrError>((n + delta) as i64),
        string_at(after_incrby(t, k, delta), k) == Some(signed_digits(n + delta)),
{
    lemma_strict_i64_reads_digits(n as int);
}

/// Items pushed onto the back of a new list come off its front in the order in which
/// they were given, and items pushed onto its front in the opposite order.
pub proof fn lemma_push_then_pop(t: Table, k: Seq<char>, values: Seq<Seq<u8>>)
    requires
        !t.contains_key(k),
        values.len() > 0,
    ensures
        popped(after_push(t, k, values, true), k, false) == Some(values.first()),
        popped(after_push(t, k, values, true), k, true) == Some(values.last()),
        popped(after_push(t, k, values, false), k, false) == Some(values.last()),
        popped(after_push(t, k, values, false), k, true) == Some(values.first()),
{
}

/// What was added to a set is in it, what was taken out of it is not, and all else is
/// in it or not as before.
pub proof fn lemma_sadd_srem(t: Table, k: Seq<char>, values: Set<Seq<u8>>, x: Seq<u8>)
    requires
        !t.contains_key(k) || set_at(t, k) is Some,
    ensures
        set_at(after_sadd(t, k, values), k) == Some(set_or_empty(t, k).union(values)),
        values.contains(x) ==> set_at(after_sadd(t, k, values), k).unwrap().contains(x),
        set_at(t, k) is Some ==> set_at(after_srem(t, k, values), k) == Some(
            set_or_empty(t, k).difference(values),
        ),
        set_at(t, k) is Some && values.contains(x) ==> !set_at(
            after_srem(t, k, values),
            k,
        ).unwrap().contains(x),
{
}

/// Of two sets, the operations make the intersection, the difference and the union;
/// and what they make of the keys is written out in one way only, whatever the order
/// in which the items came into the sets.
pub proof fn lemma_two_sets(t: Table, a: Seq<char>, b: Seq<char>)
    ensures
        combined(t, seq![a, b], SetOp::Inter) == set_or_empty(t, a).intersect(set_or_empty(t, b)),
        combined(t, seq![a, b], SetOp::Diff) == set_or_empty(t, a).difference(set_or_empty(t, b)),
        combined(t, seq![a, b], SetOp::Union) == set_or_empty(t, a).union(set_or_empty(t, b)),
{
    let keys = seq![a, b];
    reveal_with_fuel(combined, 3);
}

/// The in-memory store.
#[derive(Debug)]
pub struct Db {
    slots: Vec<Slot>,
    expirations: Vec<(u64, String)>,
    shutdown: bool,
}

/// Tells how the scheduled `(a_when, a_key)` stands to `(b_when, b_key)`.
fn compare_due(a_when: u64, a_key: &str, b_when: u64, b_key: &str) -> (r: Order)
    ensures
        match r {
            Order::Less => due_less()((a_when, a_key@), (b_when, b_key@)),
            Order::Equal => a_when == b_when && a_key@ == b_key@,
            Order::Greater => due_less()((b_when, b_key@), (a_when, a_key@)),
        },
{
    if a_when < b_when {
        Order::Less
    } else if a_when > b_when {
        Order::Greater
    } else {
        proof {
            vstd::utf8::encode_utf8_decode_utf8(a_key@);
            vstd::utf8::encode_utf8_decode_utf8(b_key@);
        }
        compare(a_key.as_bytes(), b_key.as_bytes())
    }
}

/// Finds where `(when, key)` stands in the schedule, or where it would have to stand.
fn locate(expirations: &Vec<(u64, String)>, when: u64, key: &str) -> (r: (usize, bool))
    requires
        sorted_by(dues(expirations@), due_less()),
    ensures
        r.0 <= expirations@.len(),
        forall|i: int| 0 <= i < r.0 ==> due_less()(#[trigger] dues(expirations@)[i], (when, key@)),
        r.1 ==> r.0 < expirations@.len() && dues(expirations@)[r.0 as int] == (when, key@),
        !r.1 ==> r.0 == expirations@.len() || due_less()(
            (when, key@),
            dues(expirations@)[r.0 as int],
        ),
        r.1 == dues(expirations@).contains((when, key@)),
{
    let ghost all = dues(expirations@);
    let ghost target: Due = (when, key@);
    proof {
        lemma_due_less_strict();
    }
    let mut i: usize = 0;
    while i < expirations.len()
        invariant
            i <= expirations@.len(),
            all == dues(expirations@),
            target == (when, key@),
            sorted_by(all, due_less()),
            strict_order(due_less()),
            forall|k: int| 0 <= k < i ==> due_less()(#[trigger] all[k], target),
        decreases expirations@.len() - i,
    {
        let item = &expirations[i];
        assert(all[i as int] == (item.0, item.1@));
        match compare_due(item.0, item.1.as_str(), when, key) {
            Order::Less => {},
            Order::Equal => {
                return (i, true);
            },
            Order::Greater => {
                return (i, false);
            },
        }
        i = i + 1;
    }
    (i, false)
}

/// Enters `(when, key)` into the schedule.
fn schedule(expirations: &mut Vec<(u64, String)>, when: u64, key: String)
    requires
        sorted_by(dues(old(expirations)@), due_less()),
    ensures
        sorted_by(dues(final(expirations)@), due_less()),
        dues(final(expirations)@).to_set() == dues(old(expirations)@).to_set().insert((when, key@)),
{
    let (at, found) = locate(expirations, when, key.as_str());
    if found {
    } else {
        proof {
            lemma_due_less_strict();
            lemma_insert_sorted(dues(expirations@), due_less(), at as int, (when, key@));
            assert(dues(expirations@.insert(at as int, (when, key))) =~= dues(
                expirations@,
            ).insert(at as int, (when, key@)));
        }
        expirations.insert(at, (when, key));
    }
}

/// Strikes `(when, key)` from the schedule.
fn unschedule(expirations: &mut Vec<(u64, String)>, when: u64, key: &str)
    requires
        sorted_by(dues(old(expirations)@), due_less()),
    ensures
        sorted_by(dues(final(expirations)@), due_less()),
        dues(final(expirations)@).to_set() == dues(old(expirations)@).to_set().remove((when, key@)),
{
    let (at, found) = locate(expirations, when, key);
    if found {
        proof {
            lemma_due_less_strict();
            lemma_remove_sorted(dues(expirations@), due_less(), at as int);
            assert(dues(expirations@.remove(at as int)) =~= dues(expirations@).remove(at as int));
        }
        expirations.remove(at);
    }
}

/// Finds the slot that holds `key`.
fn find_slot(slots: &Vec<Slot>, key: &str) -> (r: Option<usize>)
    requires
        distinct_keys(slots@),
    ensures
        match r {
            Some(i) => i < slots@.len() && slots@[i as int].key@ == key@ && table(
                slots@,
            ).contains_key(key@) && table(slots@)[key@] == slots@[i as int].entry@,
            None => !table(slots@).contains_key(key@),
        },
{
    let mut i: usize = 0;
    while i < slots.len()
        invariant
            i <= slots@.len(),
            distinct_keys(slots@),
            forall|j: int| 0 <= j < i ==> (#[trigger] slots@[j]).key@ != key@,
        decreases slots@.len() - i,
    {
        if same_text(slots[i].key.as_str(), key) {
            return Some(i);
        }
        i = i + 1;
    }
    None
}

/// The earliest moment of a table is the one that `is_earliest` singles out.
pub proof fn lemma_earliest_is(t: Table, w: u64)
    requires
        is_earliest(t, w),
    ensures
        earliest(t) == Some(w),
{
}

/// The entries of `t` that have not expired at `now`.
pub open spec fn unexpired(t: Table, now: u64) -> Table {
    Map::new(|k: Seq<char>| t.contains_key(k) && !expired(t[k], now), |k: Seq<char>| t[k])
}

/// The byte string stored under `k`, where one is.
pub open spec fn string_at(t: Table, k: Seq<char>) -> Option<Seq<u8>> {
    if t.contains_key(k) {
        match t[k].data {
            DataView::String(v) => Some(v),
            _ => None,
        }
    } else {
        None
    }
}

impl View for Db {
    type V = Table;

    closed spec fn view(&self) -> Table {
        table(self.slots@)
    }
}

impl Db {
    /// The schedule: each moment at which an entry expires, with the entry's key, in
    /// the order of `due_less`.
    pub closed spec fn expirations(&self) -> Seq<Due> {
        dues(self.expirations@)
    }

    /// Whether the engine was closed.
    pub closed spec fn closed(&self) -> bool {
        self.shutdown
    }

    /// Whether the engine is in order: no key occurs twice, every set is kept in
    /// increasing order, and the schedule is in order and holds exactly the deadlines
    /// of the entries.
    pub closed spec fn wf(&self) -> bool {
        &&& distinct_keys(self.slots@)
        &&& values_wf(self.slots@)
        &&& sorted_by(dues(self.expirations@), due_less())
        &&& dues(self.expirations@).to_set() == deadlines(table(self.slots@))
    }

    /// A key is on the schedule if and only if its entry expires, and then with the
    /// moment at which it does; the schedule is in increasing order.
    pub proof fn lemma_schedule(&self)
        requires
            self.wf(),
        ensures
            sorted_by(self.expirations(), due_less()),
            forall|w: u64, k: Seq<char>| #[trigger]
                self.expirations().contains((w, k)) <==> (self@.contains_key(k)
                    && self@[k].expires_at == Some(w)),
    {
        assert forall|w: u64, k: Seq<char>| #[trigger]
            self.expirations().contains((w, k)) <==> (self@.contains_key(k) && self@[k].expires_at
                == Some(w)) by {
            assert(self.expirations().to_set().contains((w, k)) <==> deadlines(self@).contains(
                (w, k),
            ));
        }
    }

    /// An engine that holds nothing.
    pub fn new() -> (db: Db)
        ensures
            db.wf(),
            db@ == Map::<Seq<char>, EntryView>::empty(),
            !db.closed(),
    {
        let db = Db { slots: Vec::new(), expirations: Vec::new(), shutdown: false };
        assert(dues(db.expirations@).to_set() =~= deadlines(table(db.slots@)));
        db
    }

    /// Whether the engine was closed.
    pub fn is_shutdown(&self) -> (r: bool)
        ensures
            r == self.closed(),
    {
        self.shutdown
    }

    /// Closes the engine. The caller wakes the sweeper, which then ends.
    pub fn shutdown_purge_task(&mut self)
        requires
            old(self).wf(),
        ensures
            final(self).wf(),
            final(self).closed(),
            final(self)@ == old(self)@,
    {
        self.shutdown = true;
    }

    /// The first moment at which an entry expires, if any entry does.
    pub fn next_expiration(&self) -> (r: Option<u64>)
        requires
            self.wf(),
        ensures
            r == earliest(self@),
    {
        if self.expirations.len() == 0 {
            proof {
                let t = self@;
                assert forall|k: Seq<char>| #[trigger] t.contains_key(k) implies t[k].expires_at
                    is None by {
                    if t[k].expires_at is Some {
                        let d: Due = (t[k].expires_at.unwrap(), k);
                        assert(deadlines(t).contains(d));
                    }
                }
            }
            None
        } else {
            let when = self.expirations[0].0;
            proof {
                self.lemma_first_is_earliest();
            }
            Some(when)
        }
    }

    /// The first entry of the schedule carries the earliest deadline.
    proof fn lemma_first_is_earliest(&self)
        requires
            self.wf(),
            self.expirations@.len() > 0,
        ensures
            earliest(self@) == Some(self.expirations@[0].0),
            forall|k: Seq<char>| #[trigger]
                self@.contains_key(k) && self@[k].expires_at is Some ==> self.expirations@[0].0
                    <= self@[k].expires_at.unwrap(),
    {
        let t = self@;
        let all = dues(self.expirations@);
        let when = self.expirations@[0].0;
        assert(all.to_set().contains(all[0]));
        assert forall|k: Seq<char>| #[trigger]
            t.contains_key(k) && t[k].expires_at is Some implies when
            <= t[k].expires_at.unwrap() by {
            let d: Due = (t[k].expires_at.unwrap(), k);
            assert(deadlines(t).contains(d));
        }
        lemma_earliest_is(t, when);
    }

    /// The byte string stored under `key`; nothing where the key is absent or holds a
    /// value of another kind.
    pub fn get(&self, key: &str) -> (r: Option<Bytes>)
        requires
            self.wf(),
        ensures
            match string_at(self@, key@) {
                Some(v) => r matches Some(b) && contents(b) == v,
                None => r is None,
            },
    {
        match find_slot(&self.slots, key) {
            Some(i) => match &self.slots[i].entry.data {
                DbData::String(v) => Some(v.clone()),
                _ => None,
            },
            None => None,
        }
    }

    /// Stores `data` under `key`, in place of what was there, and brings the schedule
    /// up to date.
    fn put(&mut self, key: String, data: DbData, expires_at: Option<u64>)
        requires
            old(self).wf(),
            data.wf(),
        ensures
            final(self).wf(),
            final(self).closed() == old(self).closed(),
            final(self)@ == old(self)@.insert(
                key@,
                EntryView { data: data@, expires_at: expires_at },
            ),
    {
        match find_slot(&self.slots, key.as_str()) {
            Some(i) => {
                let ghost old_slots = self.slots@;
                let slot = &mut self.slots[i];
                let prev = slot.entry.expires_at;
                slot.entry = Entry { data, expires_at };
                proof {
                    lemma_table_update(old_slots, i as int, self.slots@[i as int]);
                }
                match prev {
                    Some(when) => {
                        unschedule(&mut self.expirations, when, key.as_str());
                    },
                    None => {},
                }
            },
            None => {
                let ghost old_slots = self.slots@;
                let slot = Slot { key: key.clone(), entry: Entry { data, expires_at } };
                proof {
                    lemma_table_push(old_slots, slot);
                }
                self.slots.push(slot);
            },
        }
        match expires_at {
            Some(when) => {
                schedule(&mut self.expirations, when, key);
            },
            None => {},
        }
        proof {
            let after = table(self.slots@);
            assert(dues(self.expirations@).to_set() =~= deadlines(after));
        }
    }

    /// Stores the byte string `value` under `key`, in place of whatever was there. With
    /// `expire`, the entry expires that many milliseconds after `now`. The result
    /// tells whether the sweeper has to be woken: it has where the new deadline comes
    /// before every deadline there was.
    pub fn set(
        &mut self,
        key: String,
        value: Bytes,
        expire: Option<u64>,
        now: u64,
    ) -> (notify: bool)
        requires
            old(self).wf(),
        ensures
            final(self).wf(),
            final(self).closed() == old(self).closed(),
            final(self)@ == after_set(old(self)@, key@, contents(value), expire, now),
            notify == set_wakes(old(self)@, expire, now),
    {
        let mut notify = false;
        let expires_at = match expire {
            Some(ttl) => {
                let when = if ttl > u64::MAX - now {
                    u64::MAX
                } else {
                    now + ttl
                };
                notify = match self.next_expiration() {
                    Some(next) => next > when,
                    None => true,
                };
                Some(when)
            },
            None => None,
        };
        self.put(key, DbData::String(value), expires_at);
        notify
    }

    /// Pushes `value` onto the list under `key`, one by one: at its back where `right`,
    /// at its front otherwise. A key that holds nothing gets a new list. A key that
    /// holds a value of another kind is left as it is.
    pub fn push(&mut self, key: String, value: Vec<String>, right: bool)
        requires
            old(self).wf(),
        ensures
            final(self).wf(),
            final(self).closed() == old(self).closed(),
            final(self)@ == after_push(old(self)@, key@, texts(value@), right),
    {
        match find_slot(&self.slots, key.as_str()) {
            None => {
                let mut list: VecDeque<Bytes> = VecDeque::new();
                extend_list(&mut list, &value, right);
                self.put(key, DbData::List(list), None);
            },
            Some(i) => {
                let ghost before = self.slots@;
                let slot = &mut self.slots[i];
                match &mut slot.entry.data {
                    DbData::List(list) => {
                        extend_list(list, &value, right);
                    },
                    _ => {},
                }
                proof {
                    lemma_rewrite(before, self.slots@, i as int);
                }
            },
        }
    }

    /// Takes one item off the list under `key`: the last where `right`, the first
    /// otherwise. There is none where the key holds no list or an empty one.
    pub fn pop(&mut self, key: &str, right: bool) -> (r: Option<Bytes>)
        requires
            old(self).wf(),
        ensures
            final(self).wf(),
            final(self).closed() == old(self).closed(),
            final(self)@ == after_pop(old(self)@, key@, right),
            match popped(old(self)@, key@, right) {
                Some(item) => r matches Some(b) && contents(b) == item,
                None => r is None,
            },
    {
        match find_slot(&self.slots, key) {
            None => None,
            Some(i) => {
                let ghost before = self.slots@;
                let slot = &mut self.slots[i];
                let r = match &mut slot.entry.data {
                    DbData::List(list) => {
                        let ghost was = list@;
                        let item = if right {
                            list.pop_back()
                        } else {
                            list.pop_front()
                        };
                        proof {
                            if was.len() > 0 {
                                if right {
                                    assert(contents_of(list@) =~= contents_of(was).drop_last());
                                } else {
                                    assert(contents_of(list@) =~= contents_of(was).drop_first());
                                }
                            }
                        }
                        item
                    },
                    _ => None,
                };
                proof {
                    lemma_rewrite(before, self.slots@, i as int);
                }
                r
            },
        }
    }

    /// Writes out the items of the list under `key` with an index from `start` to
    /// `end`, both included. There is nothing to write where the key holds no list.
    pub fn lrange(&self, key: &str, start: u64, end: u64) -> (r: Option<Bytes>)
        requires
            self.wf(),
        ensures
            match ranged(self@, key@, start, end) {
                Some(text) => r matches Some(b) && contents(b) == text,
                None => r is None,
            },
    {
        match find_slot(&self.slots, key) {
            None => None,
            Some(i) => match &self.slots[i].entry.data {
                DbData::List(list) => {
                    let len = list.len();
                    let lo: usize = if start < len as u64 {
                        start as usize
                    } else {
                        len
                    };
                    let hi: usize = if end < len as u64 {
                        end as usize + 1
                    } else {
                        len
                    };
                    if lo < hi {
                        Some(render_range(list, lo, hi))
                    } else {
                        assert(contents_of(list@).subrange(lo as int, lo as int) =~= Seq::<
                            Seq<u8>,
                        >::empty());
                        Some(render_range(list, lo, lo))
                    }
                },
                _ => None,
            },
        }
    }

    /// Adds `delta` to the decimal number stored under `key` and stores the sum as
    /// decimal text. Otherwise nothing changes and the error says why: the key holds
    /// nothing, a value of another kind, or no number, or the sum is out of range.
    pub fn incrby(&mut self, key: &str, delta: i64) -> (r: Result<i64, IncrError>)
        requires
            old(self).wf(),
        ensures
            final(self).wf(),
            final(self).closed() == old(self).closed(),
            r == incremented(old(self)@, key@, delta),
            final(self)@ == after_incrby(old(self)@, key@, delta),
    {
        match find_slot(&self.slots, key) {
            None => Err(IncrError::NoSuchKey),
            Some(i) => {
                let ghost before = self.slots@;
                let slot = &mut self.slots[i];
                let r = match &mut slot.entry.data {
                    DbData::String(stored) => {
                        let text: &[u8] = (*stored).as_ref();
                        match bytes_to_i64(text) {
                            Some(n) => {
                                let sum = n.checked_add(delta);
                                match sum {
                                    Some(sum) => {
                                        let written = format_i64(sum);
                                        *stored = Bytes::copy_from_slice(written.as_slice());
                                        Ok(sum)
                                    },
                                    None => Err(IncrError::Overflow),
                                }
                            },
                            None => Err(IncrError::NotANumber),
                        }
                    },
                    _ => Err(IncrError::WrongType),
                };
                proof {
                    lemma_rewrite(before, self.slots@, i as int);
                }
                r
            },
        }
    }

    /// Adds `values` to the set under `key`. A key that holds nothing gets a new set.
    /// A key that holds a value of another kind is left as it is.
    pub fn sadd(&mut self, key: String, values: Vec<String>)
        requires
            old(self).wf(),
        ensures
            final(self).wf(),
            final(self).closed() == old(self).closed(),
            final(self)@ == after_sadd(old(self)@, key@, texts(values@).to_set()),
    {
        match find_slot(&self.slots, key.as_str()) {
            None => {
                let mut items: Vec<Bytes> = Vec::new();
                add_texts(&mut items, &values);
                assert(members(items@) =~= texts(values@).to_set());
                self.put(key, DbData::Members(items), None);
            },
            Some(i) => {
                let ghost before = self.slots@;
                let slot = &mut self.slots[i];
                match &mut slot.entry.data {
                    DbData::Members(items) => {
                        add_texts(items, &values);
                    },
                    _ => {},
                }
                proof {
                    lemma_rewrite(before, self.slots@, i as int);
                }
            },
        }
    }

    /// Takes `values` out of the set under `key` and tells, in decimal text, how many
    /// items left the set. There is nothing to tell where the key holds no set.
    pub fn srem(&mut self, key: &str, values: Vec<String>) -> (r: Option<Bytes>)
        requires
            old(self).wf(),
        ensures
            final(self).wf(),
            final(self).closed() == old(self).closed(),
            final(self)@ == after_srem(old(self)@, key@, texts(values@).to_set()),
            match removed_count(old(self)@, key@, texts(values@).to_set()) {
                Some(text) => r matches Some(b) && contents(b) == text,
                None => r is None,
            },
    {
        match find_slot(&self.slots, key) {
            None => None,
            Some(i) => {
                let ghost before = self.slots@;
                let slot = &mut self.slots[i];
                let r = match &mut slot.entry.data {
                    DbData::Members(items) => {
                        let had = items.len();
                        proof {
                            lemma_listing(contents_of(items@));
                        }
                        remove_texts(items, &values);
                        proof {
                            lemma_listing(contents_of(items@));
                        }
                        let gone = (had - items.len()) as u64;
                        Some(Bytes::copy_from_slice(format_u64(gone).as_slice()))
                    },
                    _ => None,
                };
                proof {
                    lemma_rewrite(before, self.slots@, i as int);
                }
                r
            },
        }
    }

    /// The number of items of the set under `key`, in decimal text. There is nothing
    /// to tell where the key holds no set.
    pub fn scard(&self, key: &str) -> (r: Option<Bytes>)
        requires
            self.wf(),
        ensures
            match cardinality(self@, key@) {
                Some(text) => r matches Some(b) && contents(b) == text,
                None => r is None,
            },
    {
        match find_slot(&self.slots, key) {
            None => None,
            Some(i) => {
                match &self.slots[i].entry.data {
                    DbData::Members(items) => {
                        proof {
                            lemma_listing(contents_of(items@));
                        }
                        Some(Bytes::copy_from_slice(format_u64(items.len() as u64).as_slice()))
                    },
                    _ => None,
                }
            },
        }
    }

    /// Whether `value` is in the set under `key`, as the text `true` or `false`. There
    /// is nothing to tell where the key holds no set.
    pub fn sismember(&self, key: &str, value: &str) -> (r: Option<Bytes>)
        requires
            self.wf(),
        ensures
            match membership(self@, key@, encode_utf8(value@)) {
                Some(text) => r matches Some(b) && contents(b) == text,
                None => r is None,
            },
    {
        match find_slot(&self.slots, key) {
            None => None,
            Some(i) => {
                match &self.slots[i].entry.data {
                    DbData::Members(items) => {
                        let mut text: Vec<u8> = Vec::new();
                        if contains_sorted(items, value.as_bytes()) {
                            text.push(116);
                            text.push(114);
                            text.push(117);
                            text.push(101);
                        } else {
                            text.push(102);
                            text.push(97);
                            text.push(108);
                            text.push(115);
                            text.push(101);
                        }
                        Some(Bytes::copy_from_slice(text.as_slice()))
                    },
                    _ => None,
                }
            },
        }
    }

    /// The set under `key` written out, its items in increasing order. There is
    /// nothing to write where the key holds no set.
    pub fn sismembers(&self, key: &str) -> (r: Option<Bytes>)
        requires
            self.wf(),
        ensures
            match all_members(self@, key@) {
                Some(text) => r matches Some(b) && contents(b) == text,
                None => r is None,
            },
    {
        match find_slot(&self.slots, key) {
            None => None,
            Some(i) => {
                match &self.slots[i].entry.data {
                    DbData::Members(items) => {
                        proof {
                            lemma_listing(contents_of(items@));
                        }
                        Some(btree_to_bytes(items))
                    },
                    _ => None,
                }
            },
        }
    }

    /// The items of the set under `key`, or none where the key holds no set.
    fn set_items(&self, key: &str) -> (out: Vec<Bytes>)
        requires
            self.wf(),
        ensures
            is_sorted_set(out@),
            members(out@) == set_or_empty(self@, key@),
    {
        let empty: Vec<Bytes> = Vec::new();
        match find_slot(&self.slots, key) {
            None => empty,
            Some(i) => {
                match &self.slots[i].entry.data {
                    DbData::Members(items) => copy_set(items),
                    _ => empty,
                }
            },
        }
    }

    /// The set that `op` makes of the sets under `keys`, written out with its items in
    /// increasing order. A key that holds no set counts as the empty set. Without
    /// keys there is nothing to write.
    pub fn combine(&self, keys: &Vec<String>, op: SetOp) -> (r: Option<Bytes>)
        requires
            self.wf(),
        ensures
            match combination(self@, key_views(keys@), op) {
                Some(text) => r matches Some(b) && contents(b) == text,
                None => r is None,
            },
    {
        if keys.len() == 0 {
            return None;
        }
        let ghost all = key_views(keys@);
        let mut acc = self.set_items(keys[0].as_str());
        let mut i: usize = 1;
        while i < keys.len()
            invariant
                1 <= i <= keys@.len(),
                self.wf(),
                all == key_views(keys@),
                is_sorted_set(acc@),
                members(acc@) == combined(self@, all.take(i as int), op),
            decreases keys@.len() - i,
        {
            let other = self.set_items(keys[i].as_str());
            proof {
                assert(all.take(i + 1).drop_last() =~= all.take(i as int));
            }
            match op {
                SetOp::Inter => {
                    acc = filter_by(&acc, &other, true);
                },
                SetOp::Diff => {
                    acc = filter_by(&acc, &other, false);
                },
                SetOp::Union => {
                    add_set(&mut acc, &other);
                },
            }
            i = i + 1;
        }
        proof {
            assert(all.take(i as int) =~= all);
            lemma_listing(contents_of(acc@));
        }
        Some(btree_to_bytes(&acc))
    }

    /// What is in all of the sets under `keys`, written out.
    pub fn sinter(&self, keys: &Vec<String>) -> (r: Option<Bytes>)
        requires
            self.wf(),
        ensures
            match combination(self@, key_views(keys@), SetOp::Inter) {
                Some(text) => r matches Some(b) && contents(b) == text,
                None => r is None,
            },
    {
        self.combine(keys, SetOp::Inter)
    }

    /// What is in the set under the first of `keys` and in none of the others, written
    /// out.
    pub fn sdiff(&self, keys: &Vec<String>) -> (r: Option<Bytes>)
        requires
            self.wf(),
        ensures
            match combination(self@, key_views(keys@), SetOp::Diff) {
                Some(text) => r matches Some(b) && contents(b) == text,
                None => r is None,
            },
    {
        self.combine(keys, SetOp::Diff)
    }

    /// What is in any of the sets under `keys`, written out.
    pub fn sunion(&self, keys: &Vec<String>) -> (r: Option<Bytes>)
        requires
            self.wf(),
        ensures
            match combination(self@, key_views(keys@), SetOp::Union) {
                Some(text) => r matches Some(b) && contents(b) == text,
                None => r is None,
            },
    {
        self.combine(keys, SetOp::Union)
    }

    /// Removes every entry that has expired at `now`, and tells the first moment at
    /// which one of the others expires. A closed engine is left as it is.
    pub fn purge_expired_keys(&mut self, now: u64) -> (r: Option<u64>)
        requires
            old(self).wf(),
        ensures
            final(self).wf(),
            final(self).closed() == old(self).closed(),
            old(self).closed() ==> r is None && final(self)@ == old(self)@,
            !old(self).closed() ==> final(self)@ == unexpired(old(self)@, now) && r == earliest(
                final(self)@,
            ),
    {
        if self.shutdown {
            return None;
        }
        while self.expirations.len() > 0
            invariant
                self.wf(),
                !old(self).closed(),
                self.closed() == old(self).closed(),
                forall|k: Seq<char>| #[trigger]
                    self@.contains_key(k) ==> old(self)@.contains_key(k) && self@[k] == old(
                        self,
                    )@[k],
                forall|k: Seq<char>| #[trigger]
                    old(self)@.contains_key(k) && !self@.contains_key(k) ==> expired(
                        old(self)@[k],
                        now,
                    ),
            decreases self.expirations@.len(),
        {
            let when = self.expirations[0].0;
            proof {
                self.lemma_first_is_earliest();
            }
            if when > now {
                return Some(when);
            }
            let ghost all = dues(self.expirations@);
            let ghost old_slots = self.slots@;
            let ghost gone = all[0];
            proof {
                assert(all.to_set().contains(gone));
                lemma_due_less_strict();
                lemma_remove_sorted(all, due_less(), 0);
                assert(dues(self.expirations@.remove(0)) =~= all.remove(0));
            }
            let found = find_slot(&self.slots, self.expirations[0].1.as_str());
            self.expirations.remove(0);
            match found {
                Some(i) => {
                    proof {
                        lemma_table_remove(old_slots, i as int);
                    }
                    self.slots.remove(i);
                    proof {
                        assert forall|j: int| 0 <= j < self.slots@.len() implies (
                        #[trigger] self.slots@[j]).entry.data.wf() by {
                            let j0 = if j < i {
                                j
                            } else {
                                j + 1
                            };
                            assert(self.slots@[j] == old_slots[j0]);
                        }
                        assert(dues(self.expirations@).to_set() =~= deadlines(self@));
                    }
                },
                None => {},
            }
        }
        proof {
            let t = self@;
            assert forall|k: Seq<char>| #[trigger] t.contains_key(k) implies t[k].expires_at
                is None by {
                if t[k].expires_at is Some {
                    let d: Due = (t[k].expires_at.unwrap(), k);
                    assert(deadlines(t).contains(d));
                }
            }
        }
        None
    }
}

} // verus!
