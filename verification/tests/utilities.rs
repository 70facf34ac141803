use bytes::Bytes;
use nano_redis::cmd::Command;
use nano_redis::entity::frame::Frame;
use nano_redis::entity::parse::Parse;
use nano_redis::utils::decimal::{format_i64, format_u64, push_digits, push_signed_digits};
use nano_redis::utils::order::{compare, same_text, Order};
use nano_redis::utils::serialization::{btree_to_bytes, bytes_to_i64, list_to_bytes, map_to_bytes, render_range};
use nano_redis::utils::sorted::{add_set, contains_sorted, copy_set, filter_by, insert_sorted, position, remove_sorted};
use nano_redis::utils::text::{decode_text, push_decimal, push_signed_decimal};
use std::collections::VecDeque;

fn atoi_u64(text: &[u8]) -> Option<u64> {
    let field = Frame::Bulk(Bytes::copy_from_slice(text));
    Parse::new(Frame::Array(vec![field])).unwrap().next_u64().ok()
}

fn atoi_i64(text: &[u8]) -> Option<i64> {
    let field = Frame::Bulk(Bytes::copy_from_slice(text));
    Parse::new(Frame::Array(vec![field])).unwrap().next_i64().ok()
}

fn to_lowercase(name: &str) -> String {
    let field = Frame::Bulk(Bytes::copy_from_slice(name.as_bytes()));
    match Command::from_frame(Frame::Array(vec![field])).unwrap() {
        Command::Unknown(cmd) => cmd.get_name().to_string(),
        other => panic!("unexpected command {:?}", other),
    }
}

fn blobs(items: &[&str]) -> Vec<Bytes> {
    items.iter().map(|s| Bytes::copy_from_slice(s.as_bytes())).collect()
}

#[test]
fn decimal_text_of_unsigned_numbers() {
    assert_eq!(format_u64(0), b"0".to_vec());
    assert_eq!(format_u64(9), b"9".to_vec());
    assert_eq!(format_u64(10), b"10".to_vec());
    assert_eq!(format_u64(1002003), b"1002003".to_vec());
    assert_eq!(format_u64(u64::MAX), b"18446744073709551615".to_vec());
    let mut out = b"n=".to_vec();
    push_digits(42, &mut out);
    assert_eq!(out, b"n=42".to_vec());
}

#[test]
fn decimal_text_of_signed_numbers() {
    assert_eq!(format_i64(0), b"0".to_vec());
    assert_eq!(format_i64(-1), b"-1".to_vec());
    assert_eq!(format_i64(1234), b"1234".to_vec());
    assert_eq!(format_i64(i64::MAX), b"9223372036854775807".to_vec());
    assert_eq!(format_i64(i64::MIN), b"-9223372036854775808".to_vec());
    let mut out = Vec::new();
    push_signed_digits(-30, &mut out);
    assert_eq!(out, b"-30".to_vec());
}

#[test]
fn decimal_text_agrees_with_the_standard_formatting() {
    for n in [0u64, 1, 9, 10, 99, 100, 12345, 4294967295, 4294967296, u64::MAX - 1, u64::MAX] {
        assert_eq!(format_u64(n), n.to_string().into_bytes());
    }
    for v in [0i64, 1, -1, 9, -9, 10, -10, 65535, -65536, i64::MAX, i64::MIN, i64::MIN + 1] {
        assert_eq!(format_i64(v), v.to_string().into_bytes());
    }
}

#[test]
fn lenient_reading_of_unsigned_numbers() {
    assert_eq!(atoi_u64(b"42"), Some(42));
    assert_eq!(atoi_u64(b"42 is the answer"), Some(42));
    assert_eq!(atoi_u64(b"0042"), Some(42));
    assert_eq!(atoi_u64(b"+42"), Some(42));
    assert_eq!(atoi_u64(b"-0"), Some(0));
    assert_eq!(atoi_u64(b"-000"), Some(0));
    assert_eq!(atoi_u64(b"+"), Some(0));
    assert_eq!(atoi_u64(b"-"), Some(0));
    assert_eq!(atoi_u64(b"+x"), Some(0));
    assert_eq!(atoi_u64(b"-1"), None);
    assert_eq!(atoi_u64(b"-01"), None);
    assert_eq!(atoi_u64(b"-10"), None);
    assert_eq!(atoi_u64(b""), None);
    assert_eq!(atoi_u64(b"x1"), None);
    assert_eq!(atoi_u64(b" 1"), None);
    assert_eq!(atoi_u64(b"18446744073709551615"), Some(u64::MAX));
    assert_eq!(atoi_u64(b"18446744073709551616"), None);
    assert_eq!(atoi_u64(b"000000000000000000000000018446744073709551615"), Some(u64::MAX));
    assert_eq!(atoi_u64(b"99999999999999999999999"), None);
}

#[test]
fn lenient_reading_of_signed_numbers() {
    assert_eq!(atoi_i64(b"42"), Some(42));
    assert_eq!(atoi_i64(b"-42"), Some(-42));
    assert_eq!(atoi_i64(b"+42"), Some(42));
    assert_eq!(atoi_i64(b"-42abc"), Some(-42));
    assert_eq!(atoi_i64(b"-"), Some(0));
    assert_eq!(atoi_i64(b"+"), Some(0));
    assert_eq!(atoi_i64(b""), None);
    assert_eq!(atoi_i64(b"abc"), None);
    assert_eq!(atoi_i64(b"9223372036854775807"), Some(i64::MAX));
    assert_eq!(atoi_i64(b"9223372036854775808"), None);
    assert_eq!(atoi_i64(b"-9223372036854775808"), Some(i64::MIN));
    assert_eq!(atoi_i64(b"-9223372036854775809"), None);
    assert_eq!(atoi_i64(b"-00000000000000000000009223372036854775808"), Some(i64::MIN));
}

#[test]
fn lenient_reading_gives_back_what_was_written() {
    for n in [0u64, 7, 10, 1234567, u64::MAX] {
        assert_eq!(atoi_u64(&format_u64(n)), Some(n));
    }
    for v in [0i64, 7, -7, i64::MAX, i64::MIN] {
        assert_eq!(atoi_i64(&format_i64(v)), Some(v));
        assert_eq!(bytes_to_i64(&format_i64(v)), Some(v));
    }
}

#[test]
fn strict_reading_of_signed_numbers() {
    assert_eq!(bytes_to_i64(b"0"), Some(0));
    assert_eq!(bytes_to_i64(b"15"), Some(15));
    assert_eq!(bytes_to_i64(b"-15"), Some(-15));
    assert_eq!(bytes_to_i64(b"+15"), Some(15));
    assert_eq!(bytes_to_i64(b"0015"), Some(15));
    assert_eq!(bytes_to_i64(b"-0"), Some(0));
    assert_eq!(bytes_to_i64(b"9223372036854775807"), Some(i64::MAX));
    assert_eq!(bytes_to_i64(b"-9223372036854775808"), Some(i64::MIN));
    assert_eq!(bytes_to_i64(b"9223372036854775808"), None);
    assert_eq!(bytes_to_i64(b"-9223372036854775809"), None);
    assert_eq!(bytes_to_i64(b"99999999999999999999"), None);
    assert_eq!(bytes_to_i64(b""), None);
    assert_eq!(bytes_to_i64(b"+"), None);
    assert_eq!(bytes_to_i64(b"-"), None);
    assert_eq!(bytes_to_i64(b"15x"), None);
    assert_eq!(bytes_to_i64(b"x15"), None);
    assert_eq!(bytes_to_i64(b" 15"), None);
    assert_eq!(bytes_to_i64(b"1 5"), None);
    assert_eq!(bytes_to_i64(b"--5"), None);
    assert_eq!(bytes_to_i64(b"+-5"), None);
}

#[test]
fn strict_reading_agrees_with_the_standard_parser() {
    for text in ["0", "-0", "+0", "12", "-12", "+12", "", "+", "-", "1a", "a1", " 1", "1 ",
        "9223372036854775807", "9223372036854775808", "-9223372036854775808",
        "-9223372036854775809", "000000000000000000000000000001", "1_000", "0x10", "١٢"] {
        assert_eq!(bytes_to_i64(text.as_bytes()), text.parse::<i64>().ok(), "text {:?}", text);
    }
}

#[test]
fn byte_strings_are_ordered_byte_by_byte() {
    assert_eq!(compare(b"", b""), Order::Equal);
    assert_eq!(compare(b"", b"a"), Order::Less);
    assert_eq!(compare(b"a", b""), Order::Greater);
    assert_eq!(compare(b"abc", b"abc"), Order::Equal);
    assert_eq!(compare(b"abc", b"abd"), Order::Less);
    assert_eq!(compare(b"abd", b"abc"), Order::Greater);
    assert_eq!(compare(b"ab", b"abc"), Order::Less);
    assert_eq!(compare(b"abc", b"ab"), Order::Greater);
    assert_eq!(compare(b"b", b"abc"), Order::Greater);
    assert_eq!(compare(b"\x7f", b"\x80"), Order::Less);
    assert_eq!(compare(b"\xff", b"\x00\xff"), Order::Greater);
}

#[test]
fn byte_string_order_agrees_with_the_standard_order() {
    let items: Vec<&[u8]> = vec![b"", b"a", b"ab", b"abc", b"b", b"\x00", b"\xff", b"a\x00", b"aa"];
    for a in &items {
        for b in &items {
            let expected = match a.cmp(b) {
                std::cmp::Ordering::Less => Order::Less,
                std::cmp::Ordering::Equal => Order::Equal,
                std::cmp::Ordering::Greater => Order::Greater,
            };
            assert_eq!(compare(a, b), expected);
        }
    }
}

#[test]
fn texts_compare_by_their_characters() {
    assert!(same_text("", ""));
    assert!(same_text("get", "get"));
    assert!(!same_text("get", "GET"));
    assert!(!same_text("get", "gets"));
    assert!(same_text("caf\u{e9}", "caf\u{e9}"));
    assert!(!same_text("caf\u{e9}", "cafe"));
}

#[test]
fn sorted_set_keeps_order_and_holds_each_item_once() {
    let mut items: Vec<Bytes> = Vec::new();
    assert!(insert_sorted(&mut items, Bytes::from_static(b"m")));
    assert!(insert_sorted(&mut items, Bytes::from_static(b"a")));
    assert!(insert_sorted(&mut items, Bytes::from_static(b"z")));
    assert!(insert_sorted(&mut items, Bytes::from_static(b"b")));
    assert!(!insert_sorted(&mut items, Bytes::from_static(b"m")));
    assert_eq!(items, blobs(&["a", "b", "m", "z"]));
    assert_eq!(position(&items, b"a"), (0, true));
    assert_eq!(position(&items, b"m"), (2, true));
    assert_eq!(position(&items, b"c"), (2, false));
    assert_eq!(position(&items, b"zz"), (4, false));
    assert_eq!(position(&items, b""), (0, false));
    assert!(contains_sorted(&items, b"z"));
    assert!(!contains_sorted(&items, b"y"));
    assert!(remove_sorted(&mut items, b"b"));
    assert!(!remove_sorted(&mut items, b"b"));
    assert_eq!(items, blobs(&["a", "m", "z"]));
}

#[test]
fn sorted_set_combinations() {
    let a = blobs(&["1", "2", "3", "4"]);
    let b = blobs(&["0", "2", "4", "6"]);
    assert_eq!(filter_by(&a, &b, true), blobs(&["2", "4"]));
    assert_eq!(filter_by(&a, &b, false), blobs(&["1", "3"]));
    assert_eq!(filter_by(&b, &a, false), blobs(&["0", "6"]));
    assert_eq!(filter_by(&a, &vec![], true), blobs(&[]));
    assert_eq!(filter_by(&a, &vec![], false), a);
    let mut union = copy_set(&a);
    assert_eq!(union, a);
    add_set(&mut union, &b);
    assert_eq!(union, blobs(&["0", "1", "2", "3", "4", "6"]));
}

#[test]
fn list_is_written_out_between_square_brackets() {
    let list: VecDeque<Bytes> = blobs(&["a", "b", "c"]).into_iter().collect();
    assert_eq!(list_to_bytes(&list), Bytes::from_static(b"[a,b,c]"));
    assert_eq!(render_range(&list, 1, 3), Bytes::from_static(b"[b,c]"));
    assert_eq!(render_range(&list, 1, 1), Bytes::from_static(b"[]"));
    assert_eq!(list_to_bytes(&VecDeque::new()), Bytes::from_static(b"[]"));
    let one: VecDeque<Bytes> = blobs(&["only"]).into_iter().collect();
    assert_eq!(list_to_bytes(&one), Bytes::from_static(b"[only]"));
}

#[test]
fn list_item_that_is_no_text_is_shown_as_nothing() {
    let mut list: VecDeque<Bytes> = VecDeque::new();
    list.push_back(Bytes::from_static(b"a"));
    list.push_back(Bytes::from_static(b"\xff\xfe"));
    list.push_back(Bytes::from_static(b"c"));
    assert_eq!(list_to_bytes(&list), Bytes::from_static(b"[a,,c]"));
}

#[test]
fn set_is_written_out_between_braces() {
    assert_eq!(btree_to_bytes(&blobs(&["a", "b"])), Bytes::from_static(b"{a,b}"));
    assert_eq!(btree_to_bytes(&blobs(&["a"])), Bytes::from_static(b"{a}"));
    assert_eq!(btree_to_bytes(&vec![]), Bytes::from_static(b"{}"));
}

#[test]
fn pairs_are_written_out_with_colons() {
    let pairs = vec![
        (Bytes::from_static(b"k1"), Bytes::from_static(b"v1")),
        (Bytes::from_static(b"k2"), Bytes::from_static(b"")),
    ];
    assert_eq!(map_to_bytes(&pairs), Bytes::from_static(b"{k1:v1,k2:}"));
    assert_eq!(map_to_bytes(&vec![]), Bytes::from_static(b"{}"));
}

#[test]
fn utf8_is_checked() {
    assert_eq!(decode_text(b"plain"), Some("plain".to_string()));
    assert_eq!(decode_text("caf\u{e9}".as_bytes()), Some("caf\u{e9}".to_string()));
    assert_eq!(decode_text(b""), Some(String::new()));
    assert_eq!(decode_text(b"\xff"), None);
    assert_eq!(decode_text(b"\xc3"), None);
    assert_eq!(decode_text(b"\xed\xa0\x80"), None);
    assert_eq!(decode_text(b"abc"), Some("abc".to_string()));
    assert_eq!(decode_text(b"a\x80"), None);
}

#[test]
fn lower_case_follows_the_standard_rules() {
    assert_eq!(to_lowercase("FLY"), "fly");
    assert_eq!(to_lowercase("To The Moon"), "to the moon");
    assert_eq!(to_lowercase("already"), "already");
    assert_eq!(to_lowercase("\u{c9}COLE"), "\u{e9}cole");
    assert_eq!(to_lowercase("\u{212a}"), "k");
}

#[test]
fn numbers_spelled_out_in_characters() {
    let mut text = String::from("n=");
    push_decimal(0, &mut text);
    push_decimal(907, &mut text);
    assert_eq!(text, "n=0907");
    let mut text = String::new();
    push_decimal(u64::MAX, &mut text);
    assert_eq!(text, "18446744073709551615");
    let mut text = String::new();
    push_signed_decimal(-45, &mut text);
    push_signed_decimal(45, &mut text);
    push_signed_decimal(i64::MIN, &mut text);
    assert_eq!(text, "-4545-9223372036854775808");
}

#[test]
fn debug_form_of_bytes_that_are_no_text() {
    assert_eq!(Frame::Bulk(Bytes::from_static(b"\xff")).to_text(), "b\"\\xff\"");
    assert_eq!(Frame::Bulk(Bytes::from_static(b"a\x80\n")).to_text(), "b\"a\\x80\\n\"");
}
