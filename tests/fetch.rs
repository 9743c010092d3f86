use arecibo::fetch::{fetch_result, PermitPool, Resolution, TorrentError};

#[test]
fn one_fetch_too_many_fails() {
    let k = 4;
    let mut pool = PermitPool::new(k);
    let results: Vec<_> = (0..k + 1).map(|_| pool.try_acquire()).collect();
    assert_eq!(results.iter().filter(|r| r.is_ok()).count(), k);
    assert_eq!(results.iter().filter(|r| **r == Err(TorrentError::NoSlotsAvailable)).count(), 1);
    assert_eq!(pool.available(), 0);
}

#[test]
fn released_permit_can_be_taken_again() {
    let mut pool = PermitPool::new(1);
    assert!(pool.try_acquire().is_ok());
    assert_eq!(pool.try_acquire(), Err(TorrentError::NoSlotsAvailable));
    pool.release();
    assert_eq!(pool.available(), 1);
    assert!(pool.try_acquire().is_ok());
}

#[test]
fn empty_pool_refuses() {
    let mut pool = PermitPool::new(0);
    assert_eq!(pool.try_acquire(), Err(TorrentError::NoSlotsAvailable));
}

#[test]
fn resolver_outcomes_map_to_results() {
    assert_eq!(fetch_result(Resolution::Descriptor(vec![1, 2, 3])), Ok(vec![1, 2, 3]));
    assert_eq!(fetch_result(Resolution::DeadlineExceeded), Err(TorrentError::TimedOut));
    assert_eq!(fetch_result(Resolution::OtherResponse), Err(TorrentError::UnexpectedResponse));
    assert_eq!(fetch_result(Resolution::Failed), Err(TorrentError::UnexpectedResponse));
}

#[test]
fn error_messages_differ() {
    let kinds = [
        TorrentError::TimedOut,
        TorrentError::ParseFailed,
        TorrentError::UnexpectedResponse,
        TorrentError::NoSlotsAvailable,
        TorrentError::CacheFailed,
    ];
    for a in kinds.iter() {
        for b in kinds.iter() {
            assert_eq!(a == b, a.message() == b.message());
        }
    }
    assert_eq!(TorrentError::TimedOut.message(), "timed out getting torrent file");
}

use arecibo::cache::{decode_entry, encode_entry, Timestamp};
use arecibo::fetch::{begin_fetch, finish_fetch, Lookup};

#[test]
fn cached_value_is_served_without_a_permit() {
    let raw = b"d4:infod6:lengthi5e4:name1:xee".to_vec();
    let stored = encode_entry(&raw, Timestamp { secs: 3, nanos: 0 }).unwrap();
    let mut pool = PermitPool::new(1);
    match begin_fetch(Some(stored), &mut pool) {
        Lookup::Hit(b) => assert_eq!(b, raw),
        _ => panic!("expected a hit"),
    }
    assert_eq!(pool.available(), 1);
}

#[test]
fn corrupt_value_falls_through_to_a_fetch() {
    let mut pool = PermitPool::new(1);
    assert!(matches!(begin_fetch(Some(vec![0xff, 0x00]), &mut pool), Lookup::Fetch));
    assert_eq!(pool.available(), 0);
    assert!(matches!(
        begin_fetch(None, &mut pool),
        Lookup::Refused(TorrentError::NoSlotsAvailable)
    ));
}

#[test]
fn finished_fetch_releases_and_stores() {
    let mut pool = PermitPool::new(2);
    assert!(matches!(begin_fetch(None, &mut pool), Lookup::Fetch));
    let raw = vec![4u8, 5, 6];
    let (bytes, stored) = finish_fetch(Resolution::Descriptor(raw.clone()), &mut pool, Timestamp { secs: 1, nanos: 2 }).unwrap();
    assert_eq!(bytes, raw);
    assert_eq!(decode_entry(&stored.unwrap()).unwrap(), raw);
    assert_eq!(pool.available(), 2);
}

#[test]
fn timed_out_fetch_releases_its_permit() {
    let mut pool = PermitPool::new(1);
    assert!(matches!(begin_fetch(None, &mut pool), Lookup::Fetch));
    let r = finish_fetch(Resolution::DeadlineExceeded, &mut pool, Timestamp { secs: 0, nanos: 0 });
    assert_eq!(r.unwrap_err(), TorrentError::TimedOut);
    assert_eq!(pool.available(), 1);
}
