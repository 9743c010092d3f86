use arecibo::metadata::{describe, project};
use arecibo::torrent::{DescriptorError, Field, TorrentBytes};

fn multi_file() -> Vec<u8> {
    b"d4:infod5:filesld6:lengthi10e4:pathl5:a.txteed6:lengthi20e4:pathl3:sub5:b.txteee4:name4:packee"
        .to_vec()
}

#[test]
fn multi_file_projection() {
    let m = describe(&multi_file()).unwrap();
    assert_eq!(m.name, "pack");
    assert_eq!(m.size, 30);
    assert_eq!(m.created_at, None);
    assert_eq!(m.files.len(), 2);
    assert_eq!(m.files[0].path, vec!["pack", "a.txt"]);
    assert_eq!(m.files[0].size, 10);
    assert_eq!(m.files[1].path, vec!["pack", "sub", "b.txt"]);
    assert_eq!(m.files[1].size, 20);
}

#[test]
fn single_file_projection() {
    let m = describe(b"d4:infod6:lengthi7000000e4:name9:movie.mkvee").unwrap();
    assert_eq!(m.name, "movie.mkv");
    assert_eq!(m.size, 7000000);
    assert_eq!(m.files.len(), 1);
    assert_eq!(m.files[0].path, vec!["movie.mkv"]);
    assert_eq!(m.files[0].size, 7000000);
}

#[test]
fn projection_is_repeatable() {
    let a = describe(&multi_file()).unwrap();
    let b = describe(&multi_file()).unwrap();
    assert_eq!(a.name, b.name);
    assert_eq!(a.size, b.size);
    assert_eq!(a.files.len(), b.files.len());
    for (x, y) in a.files.iter().zip(b.files.iter()) {
        assert_eq!(x.path, y.path);
        assert_eq!(x.size, y.size);
    }
}

#[test]
fn missing_info_is_reported() {
    let r = TorrentBytes::from_bencode(b"d13:creation datei5ee");
    assert_eq!(r.unwrap_err(), DescriptorError::MissingField(Field::Info));
}

#[test]
fn missing_length_and_files_fails_projection() {
    let t = TorrentBytes::from_bencode(b"d4:infod4:name1:xee").unwrap();
    assert_eq!(project(&t).unwrap_err(), DescriptorError::MissingField(Field::Length));
}

#[test]
fn missing_name_is_reported() {
    let r = TorrentBytes::from_bencode(b"d4:infod6:lengthi1eee");
    assert_eq!(r.unwrap_err(), DescriptorError::MissingField(Field::Name));
}

#[test]
fn file_without_path_is_reported() {
    let r = TorrentBytes::from_bencode(b"d4:infod5:filesld6:lengthi1eee4:name1:xee");
    assert_eq!(r.unwrap_err(), DescriptorError::MissingField(Field::Path));
}

#[test]
fn file_without_length_is_reported() {
    let r = TorrentBytes::from_bencode(b"d4:infod5:filesld4:pathl1:aeee4:name1:xee");
    assert_eq!(r.unwrap_err(), DescriptorError::MissingField(Field::Length));
}

#[test]
fn creation_date_and_source_are_read() {
    let t = TorrentBytes::from_bencode(
        b"d13:creation datei1700000000e4:infod6:lengthi5e4:name1:x6:source3:abcee",
    )
    .unwrap();
    assert_eq!(t.creation_date, Some(1700000000));
    assert_eq!(t.info.source.as_deref(), Some("abc"));
    assert_eq!(t.info.file_length, Some(5));
    let m = project(&t).unwrap();
    assert_eq!(m.created_at, Some(1700000000));
}

#[test]
fn unknown_keys_are_skipped() {
    let t = TorrentBytes::from_bencode(
        b"d8:announce3:url4:infod6:lengthi5e4:name1:x6:piecesli1eli2ed1:ai-3eeeee7:comment1:ce",
    )
    .unwrap();
    assert_eq!(t.info.name, "x");
    assert_eq!(t.info.file_length, Some(5));
}

#[test]
fn later_duplicate_key_wins_and_order_is_free() {
    let t = TorrentBytes::from_bencode(b"d4:infod4:name1:b6:lengthi1e4:name1:a6:lengthi2eee").unwrap();
    assert_eq!(t.info.name, "a");
    assert_eq!(t.info.file_length, Some(2));
}

#[test]
fn malformed_inputs_are_rejected() {
    let cases: [&[u8]; 10] = [
        b"",
        b"l4:infoe",
        b"d4:infod4:name1:x6:lengthi5e",
        b"d4:infod4:name1:x6:lengthi05eee",
        b"d4:infod4:name1:x6:lengthi-0eee",
        b"d4:infod4:name1:x6:lengthi-5eee",
        b"d4:infod4:name01:x6:lengthi5eee",
        b"d4:infod4:name9:xee",
        b"d4:infod6:lengthi5e4:name1:xeeX",
        b"di1e4:infoe",
    ];
    for c in cases.iter() {
        assert_eq!(TorrentBytes::from_bencode(c).unwrap_err(), DescriptorError::MalformedEncoding);
    }
}

#[test]
fn invalid_utf8_name_is_malformed() {
    let r = TorrentBytes::from_bencode(b"d4:infod6:lengthi5e4:name2:\xff\xfeee");
    assert_eq!(r.unwrap_err(), DescriptorError::MalformedEncoding);
}

#[test]
fn integer_wider_than_sixty_four_bits_is_malformed() {
    let r = TorrentBytes::from_bencode(b"d4:infod6:lengthi99999999999999999999e4:name1:xee");
    assert_eq!(r.unwrap_err(), DescriptorError::MalformedEncoding);
}

#[test]
fn total_size_overflow_is_reported() {
    let b = b"d4:infod5:filesld6:lengthi18446744073709551615e4:pathl1:aeed6:lengthi1e4:pathl1:beee4:name1:xee";
    let t = TorrentBytes::from_bencode(b).unwrap();
    assert_eq!(project(&t).unwrap_err(), DescriptorError::SizeOverflow);
}

#[test]
fn deep_nesting_in_skipped_value_is_malformed() {
    let mut b = b"d4:infod6:lengthi5e4:name1:xe5:extra".to_vec();
    b.extend(std::iter::repeat(b'l').take(100));
    b.extend(std::iter::repeat(b'e').take(100));
    b.push(b'e');
    assert_eq!(TorrentBytes::from_bencode(&b).unwrap_err(), DescriptorError::MalformedEncoding);
}
