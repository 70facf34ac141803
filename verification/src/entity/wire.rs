//! The wire grammar: what bytes a message is written as, and what message a byte
//! string starts with.
//!
//! Every message begins with a type byte. Text and numbers run to the next CRLF; a
//! bulk string gives its length, then that many bytes and a CRLF; an array gives the
//! count of the messages that follow it.

use crate::utils::decimal::{
    digits, is_digit, lemma_digits_shape, lemma_lenient_i64_reads_digits,
    lemma_lenient_u64_reads_digits, lenient_i64, lenient_u64, signed_digits,
};
use vstd::prelude::*;
use vstd::utf8::{decode_utf8, encode_utf8, valid_utf8};

verus! {

/// Type byte of a simple string, `'+'`.
pub const TAG_SIMPLE: u8 = 43;

/// Type byte of an error, `'-'`.
pub const TAG_ERROR: u8 = 45;

/// Type byte of an unsigned integer, `':'`.
pub const TAG_USIZE: u8 = 58;

/// Type byte of a signed integer, `'='`.
pub const TAG_INTEGER: u8 = 61;

/// Type byte of a bulk string and of null, `'$'`.
pub const TAG_BULK: u8 = 36;

/// Type byte of an array, `'*'`.
pub const TAG_ARRAY: u8 = 42;

/// Carriage return.
pub const CR: u8 = 13;

/// Line feed.
pub const LF: u8 = 10;

/// A message as a mathematical value.
pub enum FrameView {
    Simple(Seq<char>),
    Error(Seq<char>),
    USize(u64),
    Integer(i64),
    Bulk(Seq<u8>),
    Null,
    Array(Seq<FrameView>),
}

/// The two bytes that end a line.
pub open spec fn crlf() -> Seq<u8> {
    seq![13u8, 10u8]
}

/// The line that spells the null marker, `-1`.
pub open spec fn null_line() -> Seq<u8> {
    seq![45u8, 49u8]
}

/// Whether a CRLF starts at index `i` of `s`.
pub open spec fn crlf_at(s: Seq<u8>, i: int) -> bool {
    0 <= i && i + 1 < s.len() && s[i] == 13 && s[i + 1] == 10
}

/// Whether `s` holds no CRLF.
pub open spec fn no_crlf(s: Seq<u8>) -> bool {
    forall|i: int| !crlf_at(s, i)
}

/// The number of bytes in front of the first CRLF of `s`, if it has one.
pub open spec fn line_len(s: Seq<u8>) -> Option<nat>
    decreases s.len(),
{
    if s.len() < 2 {
        None
    } else if s[0] == 13 && s[1] == 10 {
        Some(0nat)
    } else {
        match line_len(s.drop_first()) {
            Some(n) => Some(n + 1),
            None => None,
        }
    }
}

/// Why a byte string is not the start of any message.
pub enum Fault {
    /// The byte where a message should start is no type byte.
    TypeByte(u8),
    /// A number, a text or the null marker is not written as the grammar asks.
    Format,
}

/// What stands at the front of a byte string.
pub enum Decoded {
    /// A whole message, which takes the first `len` bytes.
    Complete { frame: FrameView, len: nat },
    /// The start of a message; more bytes are needed to tell which.
    Incomplete,
    /// Bytes that no message starts with.
    Malformed(Fault),
}

/// What stands at the front of a byte string that is read as several messages in a row.
pub enum DecodedItems {
    /// As many whole messages as were asked for, which take the first `len` bytes.
    Complete { items: Seq<FrameView>, len: nat },
    /// The bytes end before the last message does.
    Incomplete,
    /// One of the messages is malformed.
    Malformed(Fault),
}

/// Reads a line of text after the type byte.
pub open spec fn decode_text_line(body: Seq<u8>, error: bool) -> Decoded {
    match line_len(body) {
        None => Decoded::Incomplete,
        Some(n) => {
            let line = body.take(n as int);
            if !valid_utf8(line) {
                Decoded::Malformed(Fault::Format)
            } else if error {
                Decoded::Complete { frame: FrameView::Error(decode_utf8(line)), len: 1 + n + 2 }
            } else {
                Decoded::Complete { frame: FrameView::Simple(decode_utf8(line)), len: 1 + n + 2 }
            }
        },
    }
}

/// Reads an unsigned number after the type byte.
pub open spec fn decode_usize_line(body: Seq<u8>) -> Decoded {
    match line_len(body) {
        None => Decoded::Incomplete,
        Some(n) => match lenient_u64(body.take(n as int)) {
            None => Decoded::Malformed(Fault::Format),
            Some(v) => Decoded::Complete { frame: FrameView::USize(v), len: 1 + n + 2 },
        },
    }
}

/// Reads a signed number after the type byte.
pub open spec fn decode_integer_line(body: Seq<u8>) -> Decoded {
    match line_len(body) {
        None => Decoded::Incomplete,
        Some(n) => match lenient_i64(body.take(n as int)) {
            None => Decoded::Malformed(Fault::Format),
            Some(v) => Decoded::Complete { frame: FrameView::Integer(v), len: 1 + n + 2 },
        },
    }
}

/// Reads a bulk string or the null marker after the type byte.
pub open spec fn decode_bulk(body: Seq<u8>) -> Decoded {
    if body.len() == 0 {
        Decoded::Incomplete
    } else {
        match line_len(body) {
            None => Decoded::Incomplete,
            Some(n) => {
                let line = body.take(n as int);
                if body[0] == 45 {
                    if line == null_line() {
                        Decoded::Complete { frame: FrameView::Null, len: 1 + n + 2 }
                    } else {
                        Decoded::Malformed(Fault::Format)
                    }
                } else {
                    match lenient_u64(line) {
                        None => Decoded::Malformed(Fault::Format),
                        Some(size) => if size > usize::MAX {
                            Decoded::Malformed(Fault::Format)
                        } else if body.len() < n + 2 + size + 2 {
                            Decoded::Incomplete
                        } else {
                            Decoded::Complete {
                                frame: FrameView::Bulk(
                                    body.subrange(n as int + 2, n as int + 2 + size as int),
                                ),
                                len: 1 + n + 2 + size as nat + 2,
                            }
                        },
                    }
                }
            },
        }
    }
}

/// What is left of `s` behind its first `n` bytes.
pub open spec fn after(s: Seq<u8>, n: nat) -> Seq<u8> {
    if n <= s.len() {
        s.skip(n as int)
    } else {
        Seq::empty()
    }
}

/// The array made of the messages that follow a header of `header` bytes.
pub open spec fn array_of(header: nat, items: DecodedItems) -> Decoded {
    match items {
        DecodedItems::Complete { items, len } => Decoded::Complete {
            frame: FrameView::Array(items),
            len: header + len,
        },
        DecodedItems::Incomplete => Decoded::Incomplete,
        DecodedItems::Malformed(fault) => Decoded::Malformed(fault),
    }
}

/// The message that `s` starts with.
pub open spec fn decode(s: Seq<u8>) -> Decoded
    decreases s.len(), 0nat,
{
    if s.len() == 0 {
        Decoded::Incomplete
    } else {
        let body = s.drop_first();
        if s[0] == 43 {
            decode_text_line(body, false)
        } else if s[0] == 45 {
            decode_text_line(body, true)
        } else if s[0] == 58 {
            decode_usize_line(body)
        } else if s[0] == 61 {
            decode_integer_line(body)
        } else if s[0] == 36 {
            decode_bulk(body)
        } else if s[0] == 42 {
            match line_len(body) {
                None => Decoded::Incomplete,
                Some(n) => match lenient_u64(body.take(n as int)) {
                    None => Decoded::Malformed(Fault::Format),
                    Some(count) => if count > usize::MAX {
                        Decoded::Malformed(Fault::Format)
                    } else {
                        array_of(1 + n + 2, decode_items(after(body, n + 2), count as nat))
                    },
                },
            }
        } else {
            Decoded::Malformed(Fault::TypeByte(s[0]))
        }
    }
}

/// The `count` messages that `s` starts with.
pub open spec fn decode_items(s: Seq<u8>, count: nat) -> DecodedItems
    decreases s.len(), 1 + count,
{
    if count == 0 {
        DecodedItems::Complete { items: Seq::empty(), len: 0 }
    } else {
        match decode(s) {
            Decoded::Incomplete => DecodedItems::Incomplete,
            Decoded::Malformed(fault) => DecodedItems::Malformed(fault),
            Decoded::Complete { frame, len } => match decode_items(
                after(s, len),
                (count - 1) as nat,
            ) {
                DecodedItems::Complete { items, len: more } => DecodedItems::Complete {
                    items: seq![frame] + items,
                    len: len + more,
                },
                DecodedItems::Incomplete => DecodedItems::Incomplete,
                DecodedItems::Malformed(fault) => DecodedItems::Malformed(fault),
            },
        }
    }
}

/// The bytes that a message is written as.
pub open spec fn encode(f: FrameView) -> Seq<u8>
    decreases f, 0nat,
{
    match f {
        FrameView::Simple(text) => seq![43u8] + encode_utf8(text) + crlf(),
        FrameView::Error(text) => seq![45u8] + encode_utf8(text) + crlf(),
        FrameView::USize(v) => seq![58u8] + digits(v as nat) + crlf(),
        FrameView::Integer(v) => seq![61u8] + signed_digits(v as int) + crlf(),
        FrameView::Bulk(data) => seq![36u8] + digits(data.len()) + crlf() + data + crlf(),
        FrameView::Null => seq![36u8] + null_line() + crlf(),
        FrameView::Array(items) => seq![42u8] + digits(items.len()) + crlf() + encode_from(
            items,
            0,
        ),
    }
}

/// The bytes that the items from index `i` on are written as, one after the other.
pub open spec fn encode_from(items: Seq<FrameView>, i: nat) -> Seq<u8>
    decreases items, items.len() - i,
{
    if i >= items.len() {
        Seq::empty()
    } else {
        encode(items[i as int]) + encode_from(items, i + 1)
    }
}

/// Whether a message can be read back from the bytes that it is written as: a text
/// holds no CRLF, and a length fits in `usize`.
pub open spec fn wire_safe(f: FrameView) -> bool
    decreases f,
{
    match f {
        FrameView::Simple(text) => no_crlf(encode_utf8(text)),
        FrameView::Error(text) => no_crlf(encode_utf8(text)),
        FrameView::USize(_) => true,
        FrameView::Integer(_) => true,
        FrameView::Bulk(data) => data.len() <= usize::MAX,
        FrameView::Null => true,
        FrameView::Array(items) => items.len() <= usize::MAX && forall|i: int|
            0 <= i < items.len() ==> wire_safe(#[trigger] items[i]),
    }
}

/// The first CRLF of `s` starts at `n` where one starts there and none starts earlier.
pub proof fn lemma_line_len_found(s: Seq<u8>, n: nat)
    requires
        crlf_at(s, n as int),
        forall|j: int| 0 <= j < n ==> !crlf_at(s, j),
    ensures
        line_len(s) == Some(n),
    decreases n,
{
    if n > 0 {
        assert(!crlf_at(s, 0));
        let t = s.drop_first();
        assert forall|j: int| 0 <= j < n - 1 implies !crlf_at(t, j) by {
            assert(!crlf_at(s, j + 1));
        }
        lemma_line_len_found(t, (n - 1) as nat);
    }
}

/// A byte string without CRLF has no complete line.
pub proof fn lemma_line_len_none(s: Seq<u8>)
    requires
        no_crlf(s),
    ensures
        line_len(s) is None,
    decreases s.len(),
{
    if s.len() >= 2 {
        assert(!crlf_at(s, 0));
        let t = s.drop_first();
        assert forall|j: int| !crlf_at(t, j) by {
            assert(!crlf_at(s, j + 1));
        }
        lemma_line_len_none(t);
    }
}

/// Where `s` has a complete line, a CRLF starts right behind it and none starts within
/// it.
pub proof fn lemma_line_len_some(s: Seq<u8>)
    requires
        line_len(s) is Some,
    ensures
        crlf_at(s, line_len(s).unwrap() as int),
        forall|j: int| 0 <= j < line_len(s).unwrap() ==> !crlf_at(s, j),
        line_len(s).unwrap() + 2 <= s.len(),
    decreases s.len(),
{
    if !(s[0] == 13 && s[1] == 10) {
        let t = s.drop_first();
        lemma_line_len_some(t);
        let n = line_len(s).unwrap();
        assert forall|j: int| 0 <= j < n implies !crlf_at(s, j) by {
            if j > 0 {
                assert(!crlf_at(t, j - 1));
            }
        }
    }
}

/// The outcome of reading several messages, told from the messages read first, the
/// bytes that they took, and the outcome of reading the others.
pub open spec fn after_items(done: Seq<FrameView>, used: nat, rest: DecodedItems) -> DecodedItems {
    match rest {
        DecodedItems::Complete { items, len } => DecodedItems::Complete {
            items: done + items,
            len: used + len,
        },
        DecodedItems::Incomplete => DecodedItems::Incomplete,
        DecodedItems::Malformed(fault) => DecodedItems::Malformed(fault),
    }
}

/// A message takes at least three bytes, and no more than there are.
pub proof fn lemma_decode_bounds(s: Seq<u8>)
    ensures
        decode(s) matches Decoded::Complete { len, .. } ==> 3 <= len <= s.len(),
    decreases s.len(), 0nat,
{
    if s.len() > 0 {
        let body = s.drop_first();
        if line_len(body) is Some {
            lemma_line_len_some(body);
            let n = line_len(body).unwrap();
            if s[0] == 42 {
                match lenient_u64(body.take(n as int)) {
                    Some(count) => {
                        if count <= usize::MAX {
                            lemma_decode_items_bounds(after(body, n + 2), count as nat);
                        }
                    },
                    None => {},
                }
            }
        }
    }
}

/// Several messages in a row take no more bytes than there are, and as many messages
/// are read as were asked for.
pub proof fn lemma_decode_items_bounds(s: Seq<u8>, count: nat)
    ensures
        decode_items(s, count) matches DecodedItems::Complete { items, len } ==> len <= s.len()
            && items.len() == count,
    decreases s.len(), 1 + count,
{
    if count > 0 {
        lemma_decode_bounds(s);
        match decode(s) {
            Decoded::Complete { frame, len } => {
                lemma_decode_items_bounds(after(s, len), (count - 1) as nat);
            },
            _ => {},
        }
    }
}

/// Reading several messages is reading the first and then the others.
pub proof fn lemma_decode_items_step(done: Seq<FrameView>, used: nat, s: Seq<u8>, count: nat)
    requires
        count > 0,
        decode(s) is Complete,
    ensures
        ({
            let frame = decode(s)->frame;
            let len = decode(s)->len;
            after_items(done, used, decode_items(s, count)) == after_items(
                done.push(frame),
                used + len,
                decode_items(s.skip(len as int), (count - 1) as nat),
            )
        }),
{
    lemma_decode_bounds(s);
    let frame = decode(s)->frame;
    let len = decode(s)->len;
    match decode_items(s.skip(len as int), (count - 1) as nat) {
        DecodedItems::Complete { items, len: more } => {
            assert(done + (seq![frame] + items) =~= done.push(frame) + items);
        },
        _ => {},
    }
}

/// A line that holds no CRLF ends where the CRLF behind it starts.
pub proof fn lemma_line_found(line: Seq<u8>, rest: Seq<u8>)
    requires
        no_crlf(line),
    ensures
        line_len(line + crlf() + rest) == Some(line.len()),
        (line + crlf() + rest).take(line.len() as int) == line,
        (line + crlf() + rest).skip(line.len() as int + 2) == rest,
{
    let s = line + crlf() + rest;
    let n = line.len();
    assert forall|j: int| 0 <= j < n implies !crlf_at(s, j) by {
        if j + 1 < n {
            assert(!crlf_at(line, j));
        }
    }
    lemma_line_len_found(s, n);
}

/// A line that holds no CRLF, cut anywhere before the end of the CRLF behind it, is
/// no complete line.
pub proof fn lemma_line_cut(line: Seq<u8>, k: int)
    requires
        no_crlf(line),
        0 <= k < line.len() + 2,
    ensures
        line_len((line + crlf()).take(k)) is None,
{
    let s = (line + crlf()).take(k);
    assert forall|j: int| !crlf_at(s, j) by {
        if 0 <= j && j + 1 < s.len() {
            if j + 1 < line.len() {
                assert(!crlf_at(line, j));
            }
        }
    }
    lemma_line_len_none(s);
}

/// Decimal text holds no CRLF and starts with a digit.
pub proof fn lemma_digits_line(n: nat)
    ensures
        no_crlf(digits(n)),
        digits(n).len() >= 1,
        is_digit(digits(n)[0]),
{
    lemma_digits_shape(n);
}

/// Signed decimal text holds no CRLF.
pub proof fn lemma_signed_digits_line(v: int)
    ensures
        no_crlf(signed_digits(v)),
{
    let s = signed_digits(v);
    if v < 0 {
        let d = digits((-v) as nat);
        lemma_digits_shape((-v) as nat);
    } else {
        lemma_digits_line(v as nat);
    }
}

/// Reading back what was written gives the message that was written, and leaves
/// whatever follows it unread.
pub proof fn lemma_decode_encode(f: FrameView, rest: Seq<u8>)
    requires
        wire_safe(f),
    ensures
        decode(encode(f) + rest) == (Decoded::Complete { frame: f, len: encode(f).len() }),
    decreases f, 0nat,
{
    let s = encode(f) + rest;
    let body = s.drop_first();
    match f {
        FrameView::Simple(text) => {
            let line = encode_utf8(text);
            assert(body =~= line + crlf() + rest);
            lemma_line_found(line, rest);
            vstd::utf8::encode_utf8_valid_utf8(text);
            vstd::utf8::encode_utf8_decode_utf8(text);
        },
        FrameView::Error(text) => {
            let line = encode_utf8(text);
            assert(body =~= line + crlf() + rest);
            lemma_line_found(line, rest);
            vstd::utf8::encode_utf8_valid_utf8(text);
            vstd::utf8::encode_utf8_decode_utf8(text);
        },
        FrameView::USize(v) => {
            let line = digits(v as nat);
            assert(body =~= line + crlf() + rest);
            lemma_digits_line(v as nat);
            lemma_line_found(line, rest);
            lemma_lenient_u64_reads_digits(v as nat, Seq::empty());
        },
        FrameView::Integer(v) => {
            let line = signed_digits(v as int);
            assert(body =~= line + crlf() + rest);
            lemma_signed_digits_line(v as int);
            lemma_line_found(line, rest);
            lemma_lenient_i64_reads_digits(v as int, Seq::empty());
        },
        FrameView::Bulk(data) => {
            let line = digits(data.len());
            let tail = data + crlf() + rest;
            assert(body =~= line + crlf() + tail);
            lemma_digits_line(data.len());
            lemma_line_found(line, tail);
            lemma_lenient_u64_reads_digits(data.len(), Seq::empty());
            let n = line.len() as int;
            assert(body.subrange(n + 2, n + 2 + data.len()) =~= data);
        },
        FrameView::Null => {
            let line = null_line();
            assert(body =~= line + crlf() + rest);
            lemma_line_found(line, rest);
        },
        FrameView::Array(items) => {
            let line = digits(items.len());
            let tail = encode_from(items, 0) + rest;
            assert(body =~= line + crlf() + tail);
            lemma_digits_line(items.len());
            lemma_line_found(line, tail);
            lemma_lenient_u64_reads_digits(items.len(), Seq::empty());
            lemma_decode_encode_from(items, 0, rest);
            assert(items.skip(0) =~= items);
        },
    }
}

/// Reading back several messages written one after the other gives those messages.
pub proof fn lemma_decode_encode_from(items: Seq<FrameView>, i: nat, rest: Seq<u8>)
    requires
        i <= items.len(),
        forall|j: int| 0 <= j < items.len() ==> wire_safe(#[trigger] items[j]),
    ensures
        decode_items(encode_from(items, i) + rest, (items.len() - i) as nat) == (
        DecodedItems::Complete { items: items.skip(i as int), len: encode_from(items, i).len() }),
    decreases items, items.len() - i,
{
    if i < items.len() {
        let first = encode(items[i as int]);
        let more = encode_from(items, i + 1);
        let s = encode_from(items, i) + rest;
        assert(s =~= first + (more + rest));
        lemma_decode_encode(items[i as int], more + rest);
        assert(s.skip(first.len() as int) =~= more + rest);
        lemma_decode_encode_from(items, i + 1, rest);
        assert(seq![items[i as int]] + items.skip(i as int + 1) =~= items.skip(i as int));
    } else {
        assert(items.skip(i as int) =~= Seq::<FrameView>::empty());
    }
}

/// The bytes of a message, cut anywhere before their end, are the start of a message
/// and never a whole one.
pub proof fn lemma_decode_truncated(f: FrameView, k: int)
    requires
        wire_safe(f),
        0 <= k < encode(f).len(),
    ensures
        decode(encode(f).take(k)) == Decoded::Incomplete,
    decreases f, 0nat,
{
    let s = encode(f).take(k);
    if k > 0 {
        let body = s.drop_first();
        match f {
            FrameView::Simple(text) => {
                let line = encode_utf8(text);
                assert(body =~= (line + crlf()).take(k - 1));
                lemma_line_cut(line, k - 1);
            },
            FrameView::Error(text) => {
                let line = encode_utf8(text);
                assert(body =~= (line + crlf()).take(k - 1));
                lemma_line_cut(line, k - 1);
            },
            FrameView::USize(v) => {
                let line = digits(v as nat);
                assert(body =~= (line + crlf()).take(k - 1));
                lemma_digits_line(v as nat);
                lemma_line_cut(line, k - 1);
            },
            FrameView::Integer(v) => {
                let line = signed_digits(v as int);
                assert(body =~= (line + crlf()).take(k - 1));
                lemma_signed_digits_line(v as int);
                lemma_line_cut(line, k - 1);
            },
            FrameView::Null => {
                let line = null_line();
                assert(body =~= (line + crlf()).take(k - 1));
                lemma_line_cut(line, k - 1);
            },
            FrameView::Bulk(data) => {
                let line = digits(data.len());
                lemma_digits_line(data.len());
                if k - 1 < line.len() + 2 {
                    assert(body =~= (line + crlf()).take(k - 1));
                    lemma_line_cut(line, k - 1);
                } else {
                    let tail = (data + crlf()).take(k - 1 - line.len() - 2);
                    assert(body =~= line + crlf() + tail);
                    lemma_line_found(line, tail);
                    lemma_lenient_u64_reads_digits(data.len(), Seq::empty());
                }
            },
            FrameView::Array(items) => {
                let line = digits(items.len());
                lemma_digits_line(items.len());
                if k - 1 < line.len() + 2 {
                    assert(body =~= (line + crlf()).take(k - 1));
                    lemma_line_cut(line, k - 1);
                } else {
                    let m = k - 1 - line.len() - 2;
                    let tail = encode_from(items, 0).take(m);
                    assert(body =~= line + crlf() + tail);
                    lemma_line_found(line, tail);
                    lemma_lenient_u64_reads_digits(items.len(), Seq::empty());
                    lemma_decode_truncated_from(items, 0, m);
                }
            },
        }
    }
}

/// Several messages written one after the other, cut anywhere before their end, are
/// not that many whole messages.
pub proof fn lemma_decode_truncated_from(items: Seq<FrameView>, i: nat, m: int)
    requires
        i <= items.len(),
        forall|j: int| 0 <= j < items.len() ==> wire_safe(#[trigger] items[j]),
        0 <= m < encode_from(items, i).len(),
    ensures
        decode_items(encode_from(items, i).take(m), (items.len() - i) as nat)
            == DecodedItems::Incomplete,
    decreases items, items.len() - i,
{
    let first = encode(items[i as int]);
    let more = encode_from(items, i + 1);
    let s = encode_from(items, i).take(m);
    if m < first.len() {
        assert(s =~= first.take(m));
        lemma_decode_truncated(items[i as int], m);
    } else {
        let cut = more.take(m - first.len());
        assert(s =~= first + cut);
        lemma_decode_encode(items[i as int], cut);
        assert(s.skip(first.len() as int) =~= cut);
        lemma_decode_truncated_from(items, i + 1, m - first.len());
    }
}

} // verus!
