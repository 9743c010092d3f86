use arecibo::cache::{decode_entry, decode_entry_time, encode_entry, needs_sweep, oldest_entry, Timestamp};

#[test]
fn stored_value_round_trips() {
    let raw = b"d4:infod6:lengthi5e4:name1:xee".repeat(20);
    let now = Timestamp { secs: 1_700_000_000, nanos: 5 };
    let stored = encode_entry(&raw, now).unwrap();
    assert_ne!(stored, raw);
    assert_eq!(decode_entry(&stored).unwrap(), raw);
    assert_eq!(decode_entry_time(&stored), Some(now));
}

#[test]
fn empty_payload_round_trips() {
    let now = Timestamp { secs: 0, nanos: 0 };
    let stored = encode_entry(&[], now).unwrap();
    assert_eq!(decode_entry(&stored).unwrap(), Vec::<u8>::new());
}

#[test]
fn corrupt_value_is_a_miss() {
    assert_eq!(decode_entry(&[0xff, 0xff, 0xff]), None);
    assert_eq!(decode_entry(&[]), None);
    assert_eq!(decode_entry_time(&[]), None);
}

#[test]
fn sweep_picks_oldest_of_three() {
    let t1 = Timestamp { secs: 10, nanos: 0 };
    let t2 = Timestamp { secs: 20, nanos: 0 };
    let t3 = Timestamp { secs: 30, nanos: 0 };
    assert_eq!(oldest_entry(&vec![Some(t2), Some(t1), Some(t3)]), Some(1));
}

#[test]
fn sweep_compares_nanoseconds_and_prefers_first_on_tie() {
    let a = Timestamp { secs: 5, nanos: 9 };
    let b = Timestamp { secs: 5, nanos: 3 };
    assert_eq!(oldest_entry(&vec![Some(a), Some(b), Some(b)]), Some(1));
}

#[test]
fn sweep_skips_unreadable_entries() {
    let t = Timestamp { secs: 99, nanos: 0 };
    assert_eq!(oldest_entry(&vec![None, Some(t), None]), Some(1));
    assert_eq!(oldest_entry(&vec![None, None]), None);
    assert_eq!(oldest_entry(&vec![]), None);
}

#[test]
fn sweep_runs_only_over_capacity() {
    assert!(!needs_sweep(5, 5));
    assert!(needs_sweep(6, 5));
    assert!(!needs_sweep(0, 0));
}

#[test]
fn sweep_over_stored_values() {
    let old = encode_entry(b"a", Timestamp { secs: 1, nanos: 0 }).unwrap();
    let new = encode_entry(b"b", Timestamp { secs: 2, nanos: 0 }).unwrap();
    let times: Vec<_> = [new, vec![1u8, 2], old].iter().map(|v| decode_entry_time(v)).collect();
    assert_eq!(oldest_entry(&times), Some(2));
}

#[test]
fn huge_claimed_length_is_a_miss() {
    // A length prefix of 2^64 - 1 (marker 253, then eight 0xff bytes) and nothing after it.
    let mut v = vec![253u8];
    v.extend([0xffu8; 8]);
    assert_eq!(decode_entry(&v), None);
    assert_eq!(decode_entry_time(&v), None);
}
