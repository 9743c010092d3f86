use arecibo::infohash::InfoHash;
use arecibo::magnet::magnet_uri;

const HEX40: &str = "0123456789abcdef0123456789abcdef01234567";

#[test]
fn magnet_without_trackers() {
    let h = InfoHash::from_str(HEX40).unwrap();
    assert_eq!(magnet_uri(&h, &vec![]).unwrap(), format!("magnet:?xt=urn:btih:{}", HEX40));
}

#[test]
fn magnet_with_trackers_encodes_each_pair() {
    let h = InfoHash::from_str(&HEX40.to_uppercase()).unwrap();
    let trackers = vec!["udp://a.example:80/announce".to_string(), "udp://b.example:1337".to_string()];
    assert_eq!(
        magnet_uri(&h, &trackers).unwrap(),
        format!(
            "magnet:?xt=urn:btih:{}&tr=udp%3A%2F%2Fa.example%3A80%2Fannounce&tr=udp%3A%2F%2Fb.example%3A1337",
            HEX40
        )
    );
}
