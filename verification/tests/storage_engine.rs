use bytes::Bytes;
use nano_redis::entity::db::{Db, IncrError, SetOp};

fn strings(items: &[&str]) -> Vec<String> {
    items.iter().map(|s| s.to_string()).collect()
}

fn text(value: Option<Bytes>) -> Option<String> {
    value.map(|b| String::from_utf8(b.to_vec()).unwrap())
}

#[test]
fn unwritten_key_has_no_value() {
    let mut db = Db::new();
    assert_eq!(db.get("missing"), None);
    assert_eq!(db.pop("missing", false), None);
    assert_eq!(db.pop("missing", true), None);
    assert_eq!(db.lrange("missing", 0, 10), None);
    assert_eq!(db.scard("missing"), None);
    assert_eq!(db.sismember("missing", "x"), None);
    assert_eq!(db.sismembers("missing"), None);
    assert_eq!(db.next_expiration(), None);
    db.set("other".to_string(), Bytes::from_static(b"v"), None, 0);
    assert_eq!(db.get("missing"), None);
    assert_eq!(db.pop("missing", true), None);
}

#[test]
fn set_then_get_returns_the_value_byte_for_byte() {
    let mut db = Db::new();
    let value = Bytes::from_static(b"\x00binary\xff\r\nvalue");
    db.set("k".to_string(), value.clone(), None, 0);
    assert_eq!(db.get("k"), Some(value));
    db.set("empty".to_string(), Bytes::new(), None, 0);
    assert_eq!(db.get("empty"), Some(Bytes::new()));
}

#[test]
fn set_replaces_the_old_value() {
    let mut db = Db::new();
    db.set("k".to_string(), Bytes::from_static(b"one"), None, 0);
    db.set("k".to_string(), Bytes::from_static(b"two"), None, 0);
    assert_eq!(text(db.get("k")), Some("two".to_string()));
}

#[test]
fn set_replaces_a_value_of_another_kind() {
    let mut db = Db::new();
    db.push("k".to_string(), strings(&["a"]), true);
    assert_eq!(db.get("k"), None);
    db.set("k".to_string(), Bytes::from_static(b"now a string"), None, 0);
    assert_eq!(text(db.get("k")), Some("now a string".to_string()));
    assert_eq!(db.pop("k", true), None);
}

#[test]
fn keys_are_told_apart() {
    let mut db = Db::new();
    db.set("a".to_string(), Bytes::from_static(b"1"), None, 0);
    db.set("ab".to_string(), Bytes::from_static(b"2"), None, 0);
    db.set("".to_string(), Bytes::from_static(b"3"), None, 0);
    assert_eq!(text(db.get("a")), Some("1".to_string()));
    assert_eq!(text(db.get("ab")), Some("2".to_string()));
    assert_eq!(text(db.get("")), Some("3".to_string()));
    assert_eq!(db.get("b"), None);
}

#[test]
fn ttl_entry_is_there_until_it_expires_and_then_gone() {
    let mut db = Db::new();
    let notify = db.set("k".to_string(), Bytes::from_static(b"v"), Some(50), 1000);
    assert!(notify);
    assert_eq!(text(db.get("k")), Some("v".to_string()));
    assert_eq!(db.next_expiration(), Some(1050));
    assert_eq!(db.purge_expired_keys(1000), Some(1050));
    assert_eq!(db.purge_expired_keys(1049), Some(1050));
    assert_eq!(text(db.get("k")), Some("v".to_string()));
    assert_eq!(db.purge_expired_keys(1050), None);
    assert_eq!(db.get("k"), None);
    assert_eq!(db.next_expiration(), None);
    db.push("k".to_string(), strings(&["fresh"]), true);
    assert_eq!(text(db.pop("k", true)), Some("fresh".to_string()));
}

#[test]
fn sweep_removes_all_that_expired_and_keeps_the_rest() {
    let mut db = Db::new();
    db.set("a".to_string(), Bytes::from_static(b"1"), Some(10), 0);
    db.set("b".to_string(), Bytes::from_static(b"2"), Some(20), 0);
    db.set("c".to_string(), Bytes::from_static(b"3"), Some(30), 0);
    db.set("d".to_string(), Bytes::from_static(b"4"), None, 0);
    assert_eq!(db.purge_expired_keys(25), Some(30));
    assert_eq!(db.get("a"), None);
    assert_eq!(db.get("b"), None);
    assert_eq!(text(db.get("c")), Some("3".to_string()));
    assert_eq!(text(db.get("d")), Some("4".to_string()));
    assert_eq!(db.purge_expired_keys(1_000_000), None);
    assert_eq!(db.get("c"), None);
    assert_eq!(text(db.get("d")), Some("4".to_string()));
}

#[test]
fn entries_that_expire_at_the_same_moment_are_all_removed() {
    let mut db = Db::new();
    db.set("b".to_string(), Bytes::from_static(b"1"), Some(10), 0);
    db.set("a".to_string(), Bytes::from_static(b"2"), Some(10), 0);
    db.set("c".to_string(), Bytes::from_static(b"3"), Some(10), 0);
    assert_eq!(db.next_expiration(), Some(10));
    assert_eq!(db.purge_expired_keys(10), None);
    assert_eq!(db.get("a"), None);
    assert_eq!(db.get("b"), None);
    assert_eq!(db.get("c"), None);
}

#[test]
fn set_tells_when_the_sweeper_has_to_be_woken() {
    let mut db = Db::new();
    assert!(!db.set("plain".to_string(), Bytes::from_static(b"v"), None, 0));
    assert!(db.set("a".to_string(), Bytes::from_static(b"v"), Some(100), 0));
    assert!(!db.set("b".to_string(), Bytes::from_static(b"v"), Some(200), 0));
    assert!(!db.set("c".to_string(), Bytes::from_static(b"v"), Some(100), 0));
    assert!(db.set("d".to_string(), Bytes::from_static(b"v"), Some(50), 0));
    assert_eq!(db.next_expiration(), Some(50));
}

#[test]
fn replacing_an_entry_replaces_its_deadline() {
    let mut db = Db::new();
    db.set("k".to_string(), Bytes::from_static(b"v"), Some(10), 0);
    db.set("k".to_string(), Bytes::from_static(b"w"), Some(500), 0);
    assert_eq!(db.next_expiration(), Some(500));
    assert_eq!(db.purge_expired_keys(100), Some(500));
    assert_eq!(text(db.get("k")), Some("w".to_string()));
    db.set("k".to_string(), Bytes::from_static(b"x"), None, 0);
    assert_eq!(db.next_expiration(), None);
    assert_eq!(db.purge_expired_keys(u64::MAX), None);
    assert_eq!(text(db.get("k")), Some("x".to_string()));
}

#[test]
fn deadline_beyond_the_clock_is_the_last_moment() {
    let mut db = Db::new();
    db.set("k".to_string(), Bytes::from_static(b"v"), Some(u64::MAX), 5);
    assert_eq!(db.next_expiration(), Some(u64::MAX));
    assert_eq!(db.purge_expired_keys(u64::MAX - 1), Some(u64::MAX));
    assert_eq!(text(db.get("k")), Some("v".to_string()));
}

#[test]
fn closed_engine_is_not_swept() {
    let mut db = Db::new();
    db.set("k".to_string(), Bytes::from_static(b"v"), Some(10), 0);
    assert!(!db.is_shutdown());
    db.shutdown_purge_task();
    assert!(db.is_shutdown());
    assert_eq!(db.purge_expired_keys(100), None);
    assert_eq!(text(db.get("k")), Some("v".to_string()));
}

#[test]
fn incrby_adds_to_a_stored_number() {
    let mut db = Db::new();
    db.set("n".to_string(), Bytes::from_static(b"10"), None, 0);
    assert_eq!(db.incrby("n", 5), Ok(15));
    assert_eq!(text(db.get("n")), Some("15".to_string()));
    assert_eq!(db.incrby("n", -20), Ok(-5));
    assert_eq!(text(db.get("n")), Some("-5".to_string()));
    assert_eq!(db.incrby("n", 5), Ok(0));
    assert_eq!(text(db.get("n")), Some("0".to_string()));
}

#[test]
fn incrby_reads_signs_and_leading_zeros() {
    let mut db = Db::new();
    db.set("n".to_string(), Bytes::from_static(b"+007"), None, 0);
    assert_eq!(db.incrby("n", 1), Ok(8));
    assert_eq!(text(db.get("n")), Some("8".to_string()));
    db.set("m".to_string(), Bytes::from_static(b"-9223372036854775808"), None, 0);
    assert_eq!(db.incrby("m", 1), Ok(-9223372036854775807));
    db.set("z".to_string(), Bytes::from_static(b"-0"), None, 0);
    assert_eq!(db.incrby("z", 0), Ok(0));
    assert_eq!(text(db.get("z")), Some("0".to_string()));
}

#[test]
fn incrby_keeps_the_deadline() {
    let mut db = Db::new();
    db.set("n".to_string(), Bytes::from_static(b"1"), Some(10), 0);
    assert_eq!(db.incrby("n", 1), Ok(2));
    assert_eq!(db.next_expiration(), Some(10));
    assert_eq!(db.purge_expired_keys(10), None);
    assert_eq!(db.get("n"), None);
}

#[test]
fn incrby_on_a_missing_key_is_an_error() {
    let mut db = Db::new();
    assert_eq!(db.incrby("n", 5), Err(IncrError::NoSuchKey));
    assert_eq!(db.get("n"), None);
}

#[test]
fn incrby_on_a_value_of_another_kind_is_an_error() {
    let mut db = Db::new();
    db.push("l".to_string(), strings(&["1"]), true);
    assert_eq!(db.incrby("l", 5), Err(IncrError::WrongType));
    db.sadd("s".to_string(), strings(&["1"]));
    assert_eq!(db.incrby("s", 5), Err(IncrError::WrongType));
    assert_eq!(text(db.pop("l", true)), Some("1".to_string()));
}

#[test]
fn incrby_on_text_that_is_no_number_is_an_error() {
    let mut db = Db::new();
    for bad in ["", "abc", "12abc", " 12", "12 ", "+", "-", "1_000", "1.5", "9223372036854775808"] {
        db.set("n".to_string(), Bytes::copy_from_slice(bad.as_bytes()), None, 0);
        assert_eq!(db.incrby("n", 1), Err(IncrError::NotANumber), "stored {:?}", bad);
        assert_eq!(text(db.get("n")), Some(bad.to_string()));
    }
    db.set("n".to_string(), Bytes::from_static(b"\xff"), None, 0);
    assert_eq!(db.incrby("n", 1), Err(IncrError::NotANumber));
}

#[test]
fn incrby_out_of_range_is_an_error() {
    let mut db = Db::new();
    db.set("n".to_string(), Bytes::from_static(b"9223372036854775807"), None, 0);
    assert_eq!(db.incrby("n", 1), Err(IncrError::Overflow));
    assert_eq!(text(db.get("n")), Some("9223372036854775807".to_string()));
    db.set("n".to_string(), Bytes::from_static(b"-9223372036854775808"), None, 0);
    assert_eq!(db.incrby("n", -1), Err(IncrError::Overflow));
    assert_eq!(db.incrby("n", 0), Ok(i64::MIN));
}

#[test]
fn push_right_then_pop_left_gives_the_first() {
    let mut db = Db::new();
    db.push("l".to_string(), strings(&["a", "b"]), true);
    assert_eq!(text(db.pop("l", false)), Some("a".to_string()));
    assert_eq!(text(db.pop("l", false)), Some("b".to_string()));
    assert_eq!(db.pop("l", false), None);
}

#[test]
fn push_left_then_pop_left_gives_the_last() {
    let mut db = Db::new();
    db.push("l2".to_string(), strings(&["a", "b"]), false);
    assert_eq!(text(db.pop("l2", false)), Some("b".to_string()));
    assert_eq!(text(db.pop("l2", false)), Some("a".to_string()));
    assert_eq!(db.pop("l2", true), None);
}

#[test]
fn push_onto_an_existing_list() {
    let mut db = Db::new();
    db.push("l".to_string(), strings(&["m"]), true);
    db.push("l".to_string(), strings(&["x", "y"]), true);
    db.push("l".to_string(), strings(&["a", "b"]), false);
    assert_eq!(text(db.lrange("l", 0, 100)), Some("[b,a,m,x,y]".to_string()));
    assert_eq!(text(db.pop("l", true)), Some("y".to_string()));
    assert_eq!(text(db.pop("l", false)), Some("b".to_string()));
    assert_eq!(text(db.lrange("l", 0, 100)), Some("[a,m,x]".to_string()));
}

#[test]
fn push_onto_a_value_of_another_kind_changes_nothing() {
    let mut db = Db::new();
    db.set("k".to_string(), Bytes::from_static(b"v"), None, 0);
    db.push("k".to_string(), strings(&["a"]), true);
    assert_eq!(text(db.get("k")), Some("v".to_string()));
    assert_eq!(db.pop("k", true), None);
}

#[test]
fn push_of_nothing_makes_an_empty_list() {
    let mut db = Db::new();
    db.push("l".to_string(), vec![], true);
    assert_eq!(text(db.lrange("l", 0, 5)), Some("[]".to_string()));
    assert_eq!(db.pop("l", true), None);
}

#[test]
fn lrange_is_inclusive_and_clamped() {
    let mut db = Db::new();
    db.push("l".to_string(), strings(&["a", "b", "c", "d"]), true);
    assert_eq!(text(db.lrange("l", 0, 0)), Some("[a]".to_string()));
    assert_eq!(text(db.lrange("l", 1, 2)), Some("[b,c]".to_string()));
    assert_eq!(text(db.lrange("l", 0, 3)), Some("[a,b,c,d]".to_string()));
    assert_eq!(text(db.lrange("l", 2, 100)), Some("[c,d]".to_string()));
    assert_eq!(text(db.lrange("l", 0, u64::MAX)), Some("[a,b,c,d]".to_string()));
    assert_eq!(text(db.lrange("l", 3, 1)), Some("[]".to_string()));
    assert_eq!(text(db.lrange("l", 4, 9)), Some("[]".to_string()));
    assert_eq!(text(db.lrange("l", u64::MAX, u64::MAX)), Some("[]".to_string()));
}

#[test]
fn lrange_of_a_value_of_another_kind_is_nothing() {
    let mut db = Db::new();
    db.set("k".to_string(), Bytes::from_static(b"v"), None, 0);
    assert_eq!(db.lrange("k", 0, 1), None);
}

#[test]
fn set_membership() {
    let mut db = Db::new();
    db.sadd("s".to_string(), strings(&["x", "y"]));
    assert_eq!(text(db.sismember("s", "x")), Some("true".to_string()));
    assert_eq!(text(db.sismember("s", "z")), Some("false".to_string()));
    assert_eq!(text(db.scard("s")), Some("2".to_string()));
    assert_eq!(text(db.srem("s", strings(&["x"]))), Some("1".to_string()));
    assert_eq!(text(db.sismember("s", "x")), Some("false".to_string()));
    assert_eq!(text(db.sismember("s", "y")), Some("true".to_string()));
    assert_eq!(text(db.scard("s")), Some("1".to_string()));
}

#[test]
fn set_holds_each_item_once() {
    let mut db = Db::new();
    db.sadd("s".to_string(), strings(&["b", "a", "b", "a", "c"]));
    db.sadd("s".to_string(), strings(&["c", "a"]));
    assert_eq!(text(db.scard("s")), Some("3".to_string()));
    assert_eq!(text(db.sismembers("s")), Some("{a,b,c}".to_string()));
}

#[test]
fn srem_counts_what_left_the_set() {
    let mut db = Db::new();
    db.sadd("s".to_string(), strings(&["a", "b", "c"]));
    assert_eq!(text(db.srem("s", strings(&["a", "a", "zz", "c"]))), Some("2".to_string()));
    assert_eq!(text(db.sismembers("s")), Some("{b}".to_string()));
    assert_eq!(text(db.srem("s", strings(&[]))), Some("0".to_string()));
    assert_eq!(text(db.srem("s", strings(&["b"]))), Some("1".to_string()));
    assert_eq!(text(db.sismembers("s")), Some("{}".to_string()));
    assert_eq!(text(db.scard("s")), Some("0".to_string()));
    assert_eq!(db.srem("missing", strings(&["a"])), None);
}

#[test]
fn set_operations_on_a_value_of_another_kind() {
    let mut db = Db::new();
    db.set("k".to_string(), Bytes::from_static(b"v"), None, 0);
    db.sadd("k".to_string(), strings(&["a"]));
    assert_eq!(text(db.get("k")), Some("v".to_string()));
    assert_eq!(db.scard("k"), None);
    assert_eq!(db.sismember("k", "a"), None);
    assert_eq!(db.sismembers("k"), None);
    assert_eq!(db.srem("k", strings(&["a"])), None);
}

#[test]
fn set_is_written_out_in_increasing_order() {
    let mut db = Db::new();
    db.sadd("s".to_string(), strings(&["pear", "apple", "fig", "app", "zebra", ""]));
    assert_eq!(text(db.sismembers("s")), Some("{,app,apple,fig,pear,zebra}".to_string()));
}

#[test]
fn set_combinations_do_not_depend_on_insertion_order() {
    let mut one = Db::new();
    one.sadd("a".to_string(), strings(&["1", "2", "3", "4"]));
    one.sadd("b".to_string(), strings(&["3", "4", "5"]));
    let mut two = Db::new();
    two.sadd("b".to_string(), strings(&["5", "3"]));
    two.sadd("a".to_string(), strings(&["4", "3"]));
    two.sadd("b".to_string(), strings(&["4"]));
    two.sadd("a".to_string(), strings(&["2", "1", "4"]));
    let keys = strings(&["a", "b"]);
    for db in [&one, &two] {
        assert_eq!(text(db.sinter(&keys)), Some("{3,4}".to_string()));
        assert_eq!(text(db.sdiff(&keys)), Some("{1,2}".to_string()));
        assert_eq!(text(db.sunion(&keys)), Some("{1,2,3,4,5}".to_string()));
        assert_eq!(text(db.combine(&keys, SetOp::Inter)), Some("{3,4}".to_string()));
    }
    let reversed = strings(&["b", "a"]);
    assert_eq!(text(one.sinter(&reversed)), Some("{3,4}".to_string()));
    assert_eq!(text(one.sdiff(&reversed)), Some("{5}".to_string()));
    assert_eq!(text(one.sunion(&reversed)), Some("{1,2,3,4,5}".to_string()));
}

#[test]
fn set_combinations_of_several_keys() {
    let mut db = Db::new();
    db.sadd("a".to_string(), strings(&["1", "2", "3", "4"]));
    db.sadd("b".to_string(), strings(&["2", "3", "4"]));
    db.sadd("c".to_string(), strings(&["3", "4", "9"]));
    let keys = strings(&["a", "b", "c"]);
    assert_eq!(text(db.sinter(&keys)), Some("{3,4}".to_string()));
    assert_eq!(text(db.sdiff(&keys)), Some("{1}".to_string()));
    assert_eq!(text(db.sunion(&keys)), Some("{1,2,3,4,9}".to_string()));
    assert_eq!(text(db.sinter(&strings(&["a"]))), Some("{1,2,3,4}".to_string()));
}

#[test]
fn set_combinations_with_keys_that_hold_no_set() {
    let mut db = Db::new();
    db.sadd("a".to_string(), strings(&["1", "2"]));
    db.set("str".to_string(), Bytes::from_static(b"v"), None, 0);
    assert_eq!(text(db.sinter(&strings(&["a", "missing"]))), Some("{}".to_string()));
    assert_eq!(text(db.sdiff(&strings(&["a", "missing"]))), Some("{1,2}".to_string()));
    assert_eq!(text(db.sunion(&strings(&["missing", "a", "str"]))), Some("{1,2}".to_string()));
    assert_eq!(text(db.sdiff(&strings(&["missing", "a"]))), Some("{}".to_string()));
    assert_eq!(db.sinter(&vec![]), None);
    assert_eq!(db.sdiff(&vec![]), None);
    assert_eq!(db.sunion(&vec![]), None);
}
