//! Values as text: numbers read from stored bytes, and collections written out for a
//! reply.

use crate::connect::connection::write_all;
use crate::utils::blob::{contents, contents_of};
use crate::utils::decimal::{all_digits, has_minus, is_digit, strict_i64, unsigned_part, value_of};
use crate::utils::text::utf8_text;
use bytes::Bytes;
use std::collections::VecDeque;
use vstd::prelude::*;
use vstd::utf8::valid_utf8;

verus! {

/// The items, one after the other, with a comma between each two.
pub open spec fn joined(items: Seq<Seq<u8>>) -> Seq<u8>
    decreases items.len(),
{
    if items.len() == 0 {
        Seq::empty()
    } else if items.len() == 1 {
        items[0]
    } else {
        joined(items.drop_last()) + seq![44u8] + items.last()
    }
}

/// An item of a list as it is shown: itself where it is text, otherwise nothing.
pub open spec fn shown(item: Seq<u8>) -> Seq<u8> {
    if valid_utf8(item) {
        item
    } else {
        Seq::empty()
    }
}

/// A list written out: its items as they are shown, between square brackets.
pub open spec fn rendered_list(items: Seq<Seq<u8>>) -> Seq<u8> {
    seq![91u8] + joined(Seq::new(items.len(), |i: int| shown(items[i]))) + seq![93u8]
}

/// A set written out: its items between braces.
pub open spec fn rendered_set(items: Seq<Seq<u8>>) -> Seq<u8> {
    seq![123u8] + joined(items) + seq![125u8]
}

/// A sequence of pairs written out: each as field, colon and value, between braces.
pub open spec fn rendered_pairs(pairs: Seq<(Seq<u8>, Seq<u8>)>) -> Seq<u8> {
    seq![123u8] + joined(Seq::new(pairs.len(), |i: int| pairs[i].0 + seq![58u8] + pairs[i].1))
        + seq![125u8]
}

/// Joining one more item appends a comma and the item, but for the first.
pub proof fn lemma_joined_push(items: Seq<Seq<u8>>, item: Seq<u8>)
    ensures
        joined(items.push(item)) == if items.len() == 0 {
            item
        } else {
            joined(items) + seq![44u8] + item
        },
{
    assert(items.push(item).drop_last() =~= items);
}

/// The number that `bytes` spell: an optional sign and then digits, nothing else.
pub fn bytes_to_i64(bytes: &[u8]) -> (r: Option<i64>)
    ensures
        r == strict_i64(bytes@),
{
    let n = bytes.len();
    if n == 0 {
        return None;
    }
    let negative = bytes[0] == 45;
    let start: usize = if bytes[0] == 45 || bytes[0] == 43 {
        1
    } else {
        0
    };
    let ghost body = unsigned_part(bytes@);
    if start >= n {
        return None;
    }
    let limit: u64 = if negative {
        9223372036854775808
    } else {
        9223372036854775807
    };
    let mut acc: u64 = 0;
    let mut i: usize = start;
    while i < n
        invariant
            start <= i <= n,
            n == bytes@.len(),
            body == bytes@.skip(start as int),
            body == unsigned_part(bytes@),
            negative == has_minus(bytes@),
            limit == if negative {
                9223372036854775808u64
            } else {
                9223372036854775807u64
            },
            all_digits(body.take(i - start)),
            acc == value_of(body.take(i - start)),
            acc <= limit,
            limit <= 9223372036854775808,
        decreases n - i,
    {
        let b = bytes[i];
        if b < 48 || b > 57 {
            assert(!is_digit(body[i - start]));
            return None;
        }
        let d: u64 = (b - 48) as u64;
        let ghost next = body.take(i - start + 1);
        proof {
            assert(next.drop_last() =~= body.take(i - start));
        }
        if acc > (limit - d) / 10 {
            proof {
                if all_digits(body) {
                    lemma_value_of_prefix(body, i - start + 1);
                }
            }
            return None;
        }
        acc = acc * 10 + d;
        i = i + 1;
    }
    assert(body.take(i - start) =~= body);
    if negative {
        if acc == 9223372036854775808 {
            Some(i64::MIN)
        } else {
            Some(-(acc as i64))
        }
    } else {
        Some(acc as i64)
    }
}

/// The digits at the start of a number denote no more than all of them do.
pub proof fn lemma_value_of_prefix(s: Seq<u8>, k: int)
    requires
        all_digits(s),
        0 <= k <= s.len(),
    ensures
        value_of(s.take(k)) <= value_of(s),
    decreases s.len() - k,
{
    if k < s.len() {
        lemma_value_of_prefix(s, k + 1);
        let t = s.take(k + 1);
        assert(t.drop_last() =~= s.take(k));
    } else {
        assert(s.take(k) =~= s);
    }
}

/// Writes out the items of `list` from index `from` up to, not including, `to`.
pub fn render_range(list: &VecDeque<Bytes>, from: usize, to: usize) -> (r: Bytes)
    requires
        from <= to <= list@.len(),
    ensures
        contents(r) == rendered_list(contents_of(list@).subrange(from as int, to as int)),
{
    let ghost items = contents_of(list@).subrange(from as int, to as int);
    let ghost texts = Seq::new(items.len(), |i: int| shown(items[i]));
    let mut out: Vec<u8> = Vec::new();
    out.push(91);
    let mut i: usize = from;
    while i < to
        invariant
            from <= i <= to,
            to <= list@.len(),
            items == contents_of(list@).subrange(from as int, to as int),
            texts == Seq::new(items.len(), |i: int| shown(items[i])),
            out@ == seq![91u8] + joined(texts.take(i - from)),
        decreases to - i,
    {
        let item: &[u8] = list[i].as_ref();
        proof {
            lemma_joined_push(texts.take(i - from), texts[i - from]);
            assert(texts.take(i - from + 1) =~= texts.take(i - from).push(texts[i - from]));
        }
        if i > from {
            out.push(44);
        }
        if utf8_text(item).is_some() {
            write_all(&mut out, item);
        }
        i = i + 1;
    }
    out.push(93);
    assert(texts.take(to - from) =~= texts);
    Bytes::copy_from_slice(out.as_slice())
}

/// Writes out a list: its items between square brackets, with commas between them. An
/// item that is no text is shown as nothing.
pub fn list_to_bytes(list: &VecDeque<Bytes>) -> (r: Bytes)
    ensures
        contents(r) == rendered_list(contents_of(list@)),
{
    assert(contents_of(list@).subrange(0, list@.len() as int) =~= contents_of(list@));
    render_range(list, 0, list.len())
}

/// Writes out a set: its items between braces, with commas between them.
pub fn btree_to_bytes(collection: &Vec<Bytes>) -> (r: Bytes)
    ensures
        contents(r) == rendered_set(contents_of(collection@)),
{
    let ghost items = contents_of(collection@);
    let mut out: Vec<u8> = Vec::new();
    out.push(123);
    let mut i: usize = 0;
    while i < collection.len()
        invariant
            i <= collection@.len(),
            items == contents_of(collection@),
            out@ == seq![123u8] + joined(items.take(i as int)),
        decreases collection@.len() - i,
    {
        let item: &[u8] = collection[i].as_ref();
        proof {
            lemma_joined_push(items.take(i as int), items[i as int]);
            assert(items.take(i + 1) =~= items.take(i as int).push(items[i as int]));
        }
        if i > 0 {
            out.push(44);
        }
        write_all(&mut out, item);
        i = i + 1;
    }
    out.push(125);
    assert(items.take(collection@.len() as int) =~= items);
    Bytes::copy_from_slice(out.as_slice())
}

/// Writes out pairs: each as field, colon and value, between braces, with commas
/// between them.
pub fn map_to_bytes(map: &Vec<(Bytes, Bytes)>) -> (r: Bytes)
    ensures
        contents(r) == rendered_pairs(
            Seq::new(map@.len(), |i: int| (contents(map@[i].0), contents(map@[i].1))),
        ),
{
    let ghost pairs = Seq::new(map@.len(), |i: int| (contents(map@[i].0), contents(map@[i].1)));
    let ghost texts = Seq::new(pairs.len(), |i: int| pairs[i].0 + seq![58u8] + pairs[i].1);
    let mut out: Vec<u8> = Vec::new();
    out.push(123);
    let mut i: usize = 0;
    while i < map.len()
        invariant
            i <= map@.len(),
            pairs == Seq::new(map@.len(), |i: int| (contents(map@[i].0), contents(map@[i].1))),
            texts == Seq::new(pairs.len(), |i: int| pairs[i].0 + seq![58u8] + pairs[i].1),
            out@ == seq![123u8] + joined(texts.take(i as int)),
        decreases map@.len() - i,
    {
        let field: &[u8] = map[i].0.as_ref();
        let value: &[u8] = map[i].1.as_ref();
        proof {
            lemma_joined_push(texts.take(i as int), texts[i as int]);
            assert(texts.take(i + 1) =~= texts.take(i as int).push(texts[i as int]));
        }
        if i > 0 {
            out.push(44);
        }
        write_all(&mut out, field);
        out.push(58);
        write_all(&mut out, value);
        i = i + 1;
    }
    out.push(125);
    assert(texts.take(map@.len() as int) =~= texts);
    Bytes::copy_from_slice(out.as_slice())
}

} // verus!
