//! Texts, times, digests and ids.
use filesync_notes::clock::{
    current_time, format_backup_stamp, format_timestamp, is_expired, retention_cutoff, Timestamp,
    FIRST_SECOND, LAST_SECOND,
};
use filesync_notes::hashing::{hash_file, ContentHash};
use filesync_notes::ids::new_id;
use filesync_notes::keyed::KeyedList;
use filesync_notes::listing::{add_key, add_keys, find_key, has_key, is_ascending, select_keys};
use filesync_notes::ordering::order_by_size;
use filesync_notes::text::{
    contains, decimal, ends_with, is_blank, is_whitespace, join, order_of, same_text, starts_with,
    trim, trim_class, CharClass, Order,
};

fn strings(list: &[&str]) -> Vec<String> {
    list.iter().map(|s| s.to_string()).collect()
}

#[test]
fn white_space_is_that_of_unicode() {
    for n in 0..0x11_0000u32 {
        if let Some(c) = char::from_u32(n) {
            assert_eq!(is_whitespace(c), c.is_whitespace(), "{n:x}");
        }
    }
}

#[test]
fn trimming_is_that_of_std() {
    for text in ["", "  ", " a b ", "\u{3000}x\u{2028}", "x", "\"a\"", "\" a\""] {
        assert_eq!(trim(text), text.trim());
        assert_eq!(trim_class(text, CharClass::DoubleQuote), text.trim_matches('"'));
        assert_eq!(is_blank(text), text.trim().is_empty());
        assert_eq!(trim(&trim(text)), trim(text));
    }
}

#[test]
fn order_of_texts_is_that_of_std() {
    let texts = ["", "a", "b", "ab", "A", "é", "e\u{301}", "中", "\u{10000}", "\u{ffff}"];
    for a in texts {
        for b in texts {
            let expected = match a.cmp(b) {
                std::cmp::Ordering::Less => Order::Less,
                std::cmp::Ordering::Equal => Order::Equal,
                std::cmp::Ordering::Greater => Order::Greater,
            };
            assert_eq!(order_of(a, b), expected);
            assert_eq!(same_text(a, b), a == b);
        }
    }
}

#[test]
fn searching_is_that_of_std() {
    for (text, part) in [("abcab", "ab"), ("abc", ""), ("", "a"), ("执行失败", "失败"), ("a", "ab")] {
        assert_eq!(starts_with(text, part), text.starts_with(part));
        assert_eq!(ends_with(text, part), text.ends_with(part));
        assert_eq!(contains(text, part), text.contains(part));
    }
}

#[test]
fn numerals_and_joins() {
    for n in [0, 7, 10, 305, u64::MAX] {
        assert_eq!(decimal(n), n.to_string());
    }
    assert_eq!(join(&strings(&["a", "b", "c"]), " | "), "a | b | c");
    assert_eq!(join(&strings(&[]), ","), "");
    assert_eq!(join(&strings(&["x"]), ","), "x");
}

#[test]
fn calendar_ends_where_chrono_ends() {
    let first = chrono::DateTime::<chrono::Utc>::MIN_UTC.timestamp();
    let last = chrono::DateTime::<chrono::Utc>::MAX_UTC.timestamp();
    assert_eq!(FIRST_SECOND, first);
    assert_eq!(LAST_SECOND, last);
    for seconds in [FIRST_SECOND, LAST_SECOND] {
        let at = Timestamp { seconds, nanos: 999_999_999 };
        assert!(!format_timestamp(at).is_empty());
        assert!(!format_backup_stamp(at).is_empty());
    }
}

#[test]
fn times_are_written_as_expected() {
    let at = Timestamp { seconds: 1_700_000_000, nanos: 500_000_000 };
    assert_eq!(format_timestamp(at), "2023-11-14T22:13:20.500+00:00");
    assert_eq!(format_backup_stamp(at), "20231114-221320");
    assert_eq!(at.millis(), 1_700_000_000_500);
    assert!(Timestamp { seconds: 1, nanos: 2 }.is_before(Timestamp { seconds: 1, nanos: 3 }));
    assert!(!Timestamp { seconds: 2, nanos: 0 }.is_before(Timestamp { seconds: 1, nanos: 3 }));
    let now = current_time();
    assert!(now.seconds > 1_700_000_000);
}

#[test]
fn retention_is_counted_in_days() {
    let now = Timestamp { seconds: 1_700_000_000, nanos: 7 };
    let cutoff = retention_cutoff(now, 30).unwrap();
    assert_eq!(cutoff, Timestamp { seconds: 1_700_000_000 - 30 * 86_400, nanos: 7 });
    assert!(is_expired(Timestamp { seconds: cutoff.seconds, nanos: 6 }, cutoff));
    assert!(!is_expired(cutoff, cutoff));
    assert_eq!(retention_cutoff(now, 1 << 40), None);
    assert_eq!(retention_cutoff(now, u64::MAX), None);
    let shorter = retention_cutoff(now, 29).unwrap();
    assert!(cutoff.is_before(shorter));
}

#[test]
fn digest_does_not_depend_on_the_pieces() {
    let whole = hash_file(&vec![b"hello world".to_vec()]);
    let cut = hash_file(&vec![b"hel".to_vec(), Vec::new(), b"lo world".to_vec()]);
    assert_eq!(whole, cut);
    assert_eq!(whole, blake3::hash(b"hello world").to_hex().to_string());
    assert_ne!(whole, hash_file(&vec![b"hello worle".to_vec()]));
    let mut hash = ContentHash::new();
    hash.update(b"hello ");
    hash.update(b"world");
    assert_eq!(hash.finish(), whole);
}

#[test]
fn ids_are_fresh() {
    let a = new_id();
    let b = new_id();
    assert_ne!(a, b);
    assert_eq!(a.len(), 36);
    assert_eq!(&a[14..15], "4");
    assert_eq!(a, a.to_lowercase());
}

#[test]
fn key_sets_stay_in_order() {
    let mut keys = strings(&[]);
    for key in ["b", "a", "c", "b"] {
        add_key(&mut keys, key.to_string());
    }
    assert_eq!(keys, strings(&["a", "b", "c"]));
    add_keys(&mut keys, &strings(&["d", "a", "B"]));
    assert_eq!(keys, strings(&["B", "a", "b", "c", "d"]));
    assert!(is_ascending(&keys));
    assert!(has_key(&keys, "c"));
    assert!(!has_key(&keys, "x"));
    let place = find_key(&keys, "bb");
    assert!(!place.found);
    assert_eq!(place.at, 3);
    assert_eq!(select_keys(&keys, &strings(&["a", "d", "z"]), true), strings(&["a", "d"]));
    assert_eq!(select_keys(&keys, &strings(&["a", "d", "z"]), false), strings(&["B", "b", "c"]));
    assert!(!is_ascending(&strings(&["a", "a"])));
}

#[test]
fn largest_comes_first_and_equals_stay() {
    assert_eq!(order_by_size(&vec![1, 3, 2, 3, 1]), vec![1, 3, 2, 0, 4]);
    assert!(order_by_size(&vec![]).is_empty());
}

#[test]
fn table_holds_what_was_put_last() {
    let mut table = KeyedList::new();
    table.insert("b".to_string(), 1);
    table.insert("a".to_string(), 2);
    table.insert("b".to_string(), 3);
    assert_eq!(table.get("b"), Some(&3));
    assert_eq!(table.get("a"), Some(&2));
    table.remove("a");
    table.remove("zz");
    assert_eq!(table.get("a"), None);
    assert_eq!(table.get("b"), Some(&3));
}
