use vstd::prelude::*;

use crate::bencode::{
    read_str, read_uint, skip_value, skip_end, str_token, uint_token, MAX_SKIP_DEPTH,
};
use crate::bytes::copy_range;

verus! {

/// A field that a descriptor must hold and did not.
#[derive(Debug, Clone, Copy, PartialEq, Eq, Structural)]
pub enum Field {
    Info,
    Name,
    Length,
    Path,
}

/// Why bytes could not be turned into a descriptor, or a descriptor into metadata.
#[derive(Debug, Clone, Copy, PartialEq, Eq, Structural)]
pub enum DescriptorError {
    MissingField(Field),
    MalformedEncoding,
    SizeOverflow,
}

/// A decoded descriptor: its info dictionary and its creation date.
#[derive(Debug)]
pub struct TorrentBytes {
    pub info: TorrentBytesInfo,
    pub creation_date: Option<u32>,
}

/// The info dictionary: one file of `file_length` bytes, or a list of `files`.
#[derive(Debug)]
pub struct TorrentBytesInfo {
    pub name: String,
    pub source: Option<String>,
    pub file_length: Option<u64>,
    pub files: Option<Vec<TorrentBytesFile>>,
}

/// One entry of a multi-file layout.
#[derive(Debug)]
pub struct TorrentBytesFile {
    pub path: Vec<String>,
    pub length: u64,
}

pub struct FileView {
    pub path: Seq<Seq<char>>,
    pub length: u64,
}

pub struct InfoView {
    pub name: Seq<char>,
    pub source: Option<Seq<char>>,
    pub file_length: Option<u64>,
    pub files: Option<Seq<FileView>>,
}

pub struct TorrentView {
    pub info: InfoView,
    pub creation_date: Option<u32>,
}

/// What the fields of an info dictionary hold so far.
pub struct InfoFields {
    pub name: Option<Seq<char>>,
    pub source: Option<Seq<char>>,
    pub file_length: Option<u64>,
    pub files: Option<Seq<FileView>>,
}

pub open spec fn texts(v: Seq<String>) -> Seq<Seq<char>> {
    v.map_values(|t: String| t@)
}

pub open spec fn opt_text(o: Option<String>) -> Option<Seq<char>> {
    match o {
        Some(t) => Some(t@),
        None => None,
    }
}

pub open spec fn opt_texts(o: Option<Vec<String>>) -> Option<Seq<Seq<char>>> {
    match o {
        Some(v) => Some(texts(v@)),
        None => None,
    }
}

pub open spec fn opt_info(o: Option<TorrentBytesInfo>) -> Option<InfoView> {
    match o {
        Some(v) => Some(v@),
        None => None,
    }
}

pub open spec fn file_views(v: Seq<TorrentBytesFile>) -> Seq<FileView> {
    v.map_values(|f: TorrentBytesFile| f@)
}

pub open spec fn opt_files(o: Option<Vec<TorrentBytesFile>>) -> Option<Seq<FileView>> {
    match o {
        Some(v) => Some(file_views(v@)),
        None => None,
    }
}

impl View for TorrentBytesFile {
    type V = FileView;

    open spec fn view(&self) -> FileView {
        FileView { path: texts(self.path@), length: self.length }
    }
}

impl View for TorrentBytesInfo {
    type V = InfoView;

    open spec fn view(&self) -> InfoView {
        InfoView {
            name: self.name@,
            source: opt_text(self.source),
            file_length: self.file_length,
            files: opt_files(self.files),
        }
    }
}

impl View for TorrentBytes {
    type V = TorrentView;

    open spec fn view(&self) -> TorrentView {
        TorrentView { info: self.info@, creation_date: self.creation_date }
    }
}

/// The text that UTF-8 bytes spell, if they are valid UTF-8.
pub uninterp spec fn utf8_text(b: Seq<u8>) -> Option<Seq<char>>;

pub open spec fn all_ascii(b: Seq<u8>) -> bool {
    forall|i: int| 0 <= i < b.len() ==> b[i] < 128
}

/// The characters of ASCII bytes, one for each byte.
pub open spec fn ascii_text(b: Seq<u8>) -> Seq<char> {
    Seq::new(b.len(), |i: int| b[i] as char)
}

/// Relies on String::from_utf8: the bytes become a string exactly when they are
/// valid UTF-8; ASCII bytes are valid and stand each for one character.
#[verifier::external_body]
fn text_from_utf8(b: Vec<u8>) -> (r: Option<String>)
    ensures
        r matches Some(t) ==> utf8_text(b@) == Some(t@),
        r is None <==> utf8_text(b@) is None,
        r is None ==> !all_ascii(b@),
        r matches Some(t) ==> (all_ascii(b@) ==> t@ == ascii_text(b@)),
{
    String::from_utf8(b).ok()
}

pub open spec fn key_info() -> Seq<u8> {
    seq![105u8, 110, 102, 111]
}

pub open spec fn key_creation_date() -> Seq<u8> {
    seq![99u8, 114, 101, 97, 116, 105, 111, 110, 32, 100, 97, 116, 101]
}

pub open spec fn key_name() -> Seq<u8> {
    seq![110u8, 97, 109, 101]
}

pub open spec fn key_source() -> Seq<u8> {
    seq![115u8, 111, 117, 114, 99, 101]
}

pub open spec fn key_length() -> Seq<u8> {
    seq![108u8, 101, 110, 103, 116, 104]
}

pub open spec fn key_files() -> Seq<u8> {
    seq![102u8, 105, 108, 101, 115]
}

pub open spec fn key_path() -> Seq<u8> {
    seq![112u8, 97, 116, 104]
}

/// A value that ends at `e`, after `j`, inside the input.
pub open spec fn advances(s: Seq<u8>, j: int, e: int) -> bool {
    j < e && e <= s.len()
}

/// The key of the dictionary entry at `j`, and where its value starts.
pub open spec fn key_at(s: Seq<u8>, j: int) -> Option<(Seq<u8>, int)> {
    match str_token(s, j) {
        Some((a, k)) => Some((s.subrange(a, k), k)),
        None => None,
    }
}

/// A byte string token at `i` that holds UTF-8 text.
pub open spec fn text_token(s: Seq<u8>, i: int) -> Result<(Seq<char>, int), DescriptorError> {
    match str_token(s, i) {
        Some((a, e)) => match utf8_text(s.subrange(a, e)) {
            Some(t) => Ok((t, e)),
            None => Err(DescriptorError::MalformedEncoding),
        },
        None => Err(DescriptorError::MalformedEncoding),
    }
}

/// The texts of the list items from `j` on, after those already in `acc`.
pub open spec fn text_list_items(s: Seq<u8>, j: int, acc: Seq<Seq<char>>) -> Result<
    (Seq<Seq<char>>, int),
    DescriptorError,
>
    decreases s.len() - j,
{
    if !(0 <= j < s.len()) {
        Err(DescriptorError::MalformedEncoding)
    } else if s[j] == 101 {
        Ok((acc, j + 1))
    } else {
        match text_token(s, j) {
            Ok((t, e)) => if advances(s, j, e) {
                text_list_items(s, e, acc.push(t))
            } else {
                Err(DescriptorError::MalformedEncoding)
            },
            Err(x) => Err(x),
        }
    }
}

/// A list of texts at `i`.
pub open spec fn text_list(s: Seq<u8>, i: int) -> Result<(Seq<Seq<char>>, int), DescriptorError> {
    if 0 <= i < s.len() && s[i] == 108 {
        text_list_items(s, i + 1, seq![])
    } else {
        Err(DescriptorError::MalformedEncoding)
    }
}

/// The `path` and `length` of a file dictionary whose entries go on from `j`;
/// a later entry for a key replaces an earlier one.
pub open spec fn file_fields(
    s: Seq<u8>,
    j: int,
    path: Option<Seq<Seq<char>>>,
    length: Option<u64>,
) -> Result<(Option<Seq<Seq<char>>>, Option<u64>, int), DescriptorError>
    decreases s.len() - j,
{
    if !(0 <= j < s.len()) {
        Err(DescriptorError::MalformedEncoding)
    } else if s[j] == 101 {
        Ok((path, length, j + 1))
    } else {
        match key_at(s, j) {
            None => Err(DescriptorError::MalformedEncoding),
            Some((key, k)) => if key == key_length() {
                match uint_token(s, k, u64::MAX as nat) {
                    Some((v, e)) => if advances(s, j, e) {
                        file_fields(s, e, path, Some(v as u64))
                    } else {
                        Err(DescriptorError::MalformedEncoding)
                    },
                    None => Err(DescriptorError::MalformedEncoding),
                }
            } else if key == key_path() {
                match text_list(s, k) {
                    Ok((p, e)) => if advances(s, j, e) {
                        file_fields(s, e, Some(p), length)
                    } else {
                        Err(DescriptorError::MalformedEncoding)
                    },
                    Err(x) => Err(x),
                }
            } else {
                match skip_end(s, k, MAX_SKIP_DEPTH as nat) {
                    Some(e) => if advances(s, j, e) {
                        file_fields(s, e, path, length)
                    } else {
                        Err(DescriptorError::MalformedEncoding)
                    },
                    None => Err(DescriptorError::MalformedEncoding),
                }
            },
        }
    }
}

/// The file dictionary at `i`; `length` and then `path` are required.
pub open spec fn file_entry(s: Seq<u8>, i: int) -> Result<(FileView, int), DescriptorError> {
    if 0 <= i < s.len() && s[i] == 100 {
        match file_fields(s, i + 1, None, None) {
            Ok((p, l, e)) => match (l, p) {
                (None, _) => Err(DescriptorError::MissingField(Field::Length)),
                (Some(_), None) => Err(DescriptorError::MissingField(Field::Path)),
                (Some(l), Some(p)) => Ok((FileView { path: p, length: l }, e)),
            },
            Err(x) => Err(x),
        }
    } else {
        Err(DescriptorError::MalformedEncoding)
    }
}

/// The file entries of the list items from `j` on, after those already in `acc`.
pub open spec fn file_list_items(s: Seq<u8>, j: int, acc: Seq<FileView>) -> Result<
    (Seq<FileView>, int),
    DescriptorError,
>
    decreases s.len() - j,
{
    if !(0 <= j < s.len()) {
        Err(DescriptorError::MalformedEncoding)
    } else if s[j] == 101 {
        Ok((acc, j + 1))
    } else {
        match file_entry(s, j) {
            Ok((f, e)) => if advances(s, j, e) {
                file_list_items(s, e, acc.push(f))
            } else {
                Err(DescriptorError::MalformedEncoding)
            },
            Err(x) => Err(x),
        }
    }
}

/// A list of file dictionaries at `i`.
pub open spec fn file_list(s: Seq<u8>, i: int) -> Result<(Seq<FileView>, int), DescriptorError> {
    if 0 <= i < s.len() && s[i] == 108 {
        file_list_items(s, i + 1, seq![])
    } else {
        Err(DescriptorError::MalformedEncoding)
    }
}

pub open spec fn no_info_fields() -> InfoFields {
    InfoFields { name: None, source: None, file_length: None, files: None }
}

/// The fields of an info dictionary whose entries go on from `j`; a later entry
/// for a key replaces an earlier one, unknown keys are passed over.
pub open spec fn info_fields(s: Seq<u8>, j: int, acc: InfoFields) -> Result<
    (InfoFields, int),
    DescriptorError,
>
    decreases s.len() - j,
{
    if !(0 <= j < s.len()) {
        Err(DescriptorError::MalformedEncoding)
    } else if s[j] == 101 {
        Ok((acc, j + 1))
    } else {
        match key_at(s, j) {
            None => Err(DescriptorError::MalformedEncoding),
            Some((key, k)) => if key == key_name() || key == key_source() {
                match text_token(s, k) {
                    Ok((t, e)) => if !advances(s, j, e) {
                        Err(DescriptorError::MalformedEncoding)
                    } else if key == key_name() {
                        info_fields(
                            s,
                            e,
                            InfoFields {
                                name: Some(t),
                                source: acc.source,
                                file_length: acc.file_length,
                                files: acc.files,
                            },
                        )
                    } else {
                        info_fields(
                            s,
                            e,
                            InfoFields {
                                name: acc.name,
                                source: Some(t),
                                file_length: acc.file_length,
                                files: acc.files,
                            },
                        )
                    },
                    Err(x) => Err(x),
                }
            } else if key == key_length() {
                match uint_token(s, k, u64::MAX as nat) {
                    Some((v, e)) => if advances(s, j, e) {
                        info_fields(
                            s,
                            e,
                            InfoFields {
                                name: acc.name,
                                source: acc.source,
                                file_length: Some(v as u64),
                                files: acc.files,
                            },
                        )
                    } else {
                        Err(DescriptorError::MalformedEncoding)
                    },
                    None => Err(DescriptorError::MalformedEncoding),
                }
            } else if key == key_files() {
                match file_list(s, k) {
                    Ok((fs, e)) => if advances(s, j, e) {
                        info_fields(
                            s,
                            e,
                            InfoFields {
                                name: acc.name,
                                source: acc.source,
                                file_length: acc.file_length,
                                files: Some(fs),
                            },
                        )
                    } else {
                        Err(DescriptorError::MalformedEncoding)
                    },
                    Err(x) => Err(x),
                }
            } else {
                match skip_end(s, k, MAX_SKIP_DEPTH as nat) {
                    Some(e) => if advances(s, j, e) {
                        info_fields(s, e, acc)
                    } else {
                        Err(DescriptorError::MalformedEncoding)
                    },
                    None => Err(DescriptorError::MalformedEncoding),
                }
            },
        }
    }
}

/// The info dictionary at `i`; `name` is required.
pub open spec fn info_entry(s: Seq<u8>, i: int) -> Result<(InfoView, int), DescriptorError> {
    if 0 <= i < s.len() && s[i] == 100 {
        match info_fields(s, i + 1, no_info_fields()) {
            Ok((f, e)) => match f.name {
                Some(n) => Ok(
                    (InfoView { name: n, source: f.source, file_length: f.file_length, files: f.files }, e),
                ),
                None => Err(DescriptorError::MissingField(Field::Name)),
            },
            Err(x) => Err(x),
        }
    } else {
        Err(DescriptorError::MalformedEncoding)
    }
}

/// The `info` and `creation date` of the top dictionary whose entries go on from `j`.
pub open spec fn top_fields(
    s: Seq<u8>,
    j: int,
    info: Option<InfoView>,
    date: Option<u32>,
) -> Result<(Option<InfoView>, Option<u32>, int), DescriptorError>
    decreases s.len() - j,
{
    if !(0 <= j < s.len()) {
        Err(DescriptorError::MalformedEncoding)
    } else if s[j] == 101 {
        Ok((info, date, j + 1))
    } else {
        match key_at(s, j) {
            None => Err(DescriptorError::MalformedEncoding),
            Some((key, k)) => if key == key_info() {
                match info_entry(s, k) {
                    Ok((v, e)) => if advances(s, j, e) {
                        top_fields(s, e, Some(v), date)
                    } else {
                        Err(DescriptorError::MalformedEncoding)
                    },
                    Err(x) => Err(x),
                }
            } else if key == key_creation_date() {
                match uint_token(s, k, u32::MAX as nat) {
                    Some((v, e)) => if advances(s, j, e) {
                        top_fields(s, e, info, Some(v as u32))
                    } else {
                        Err(DescriptorError::MalformedEncoding)
                    },
                    None => Err(DescriptorError::MalformedEncoding),
                }
            } else {
                match skip_end(s, k, MAX_SKIP_DEPTH as nat) {
                    Some(e) => if advances(s, j, e) {
                        top_fields(s, e, info, date)
                    } else {
                        Err(DescriptorError::MalformedEncoding)
                    },
                    None => Err(DescriptorError::MalformedEncoding),
                }
            },
        }
    }
}

/// The descriptor that the whole of `s` encodes: one dictionary, nothing after
/// it, with an `info` entry.
pub open spec fn torrent_of(s: Seq<u8>) -> Result<TorrentView, DescriptorError> {
    if 0 < s.len() && s[0] == 100 {
        match top_fields(s, 1, None, None) {
            Ok((info, date, e)) => if e != s.len() {
                Err(DescriptorError::MalformedEncoding)
            } else {
                match info {
                    Some(v) => Ok(TorrentView { info: v, creation_date: date }),
                    None => Err(DescriptorError::MissingField(Field::Info)),
                }
            },
            Err(x) => Err(x),
        }
    } else {
        Err(DescriptorError::MalformedEncoding)
    }
}

/// Whether `s[a..b]` holds exactly the bytes of `key`.
fn key_is(s: &[u8], a: usize, b: usize, key: &[u8]) -> (r: bool)
    requires
        a <= b <= s@.len(),
    ensures
        r == (s@.subrange(a as int, b as int) == key@),
{
    if b - a != key.len() {
        return false;
    }
    let mut t: usize = 0;
    while t < key.len()
        invariant
            a <= b <= s@.len(),
            b - a == key@.len(),
            t <= key@.len(),
            forall|u: int| 0 <= u < t ==> s@[a + u] == key@[u],
        decreases key@.len() - t,
    {
        if s[a + t] != key[t] {
            assert(s@.subrange(a as int, b as int)[t as int] != key@[t as int]);
            return false;
        }
        t = t + 1;
    }
    assert(s@.subrange(a as int, b as int) =~= key@);
    true
}

/// Reads the key of the dictionary entry at `j`: where it starts, where it ends.
fn read_key(s: &[u8], j: usize) -> (r: Option<(usize, usize)>)
    requires
        j <= s@.len(),
    ensures
        match r {
            Some((a, k)) => a <= k <= s@.len() && key_at(s@, j as int) == Some(
                (s@.subrange(a as int, k as int), k as int),
            ),
            None => key_at(s@, j as int) is None,
        },
{
    match read_str(s, j) {
        Some((a, k)) => {
            proof {
                crate::bencode::lemma_str_token_bounds(s@, j as int);
            }
            Some((a, k))
        },
        None => None,
    }
}

/// Reads the byte string token at `i` as UTF-8 text.
fn read_text(s: &[u8], i: usize) -> (r: Result<(String, usize), DescriptorError>)
    requires
        i <= s@.len(),
    ensures
        match r {
            Ok((t, e)) => text_token(s@, i as int) == Ok::<(Seq<char>, int), DescriptorError>(
                (t@, e as int),
            ),
            Err(x) => text_token(s@, i as int) == Err::<(Seq<char>, int), DescriptorError>(x),
        },
{
    match read_str(s, i) {
        Some((a, e)) => {
            proof {
                crate::bencode::lemma_str_token_bounds(s@, i as int);
            }
            match text_from_utf8(copy_range(s, a, e)) {
                Some(t) => Ok((t, e)),
                None => Err(DescriptorError::MalformedEncoding),
            }
        },
        None => Err(DescriptorError::MalformedEncoding),
    }
}

/// Reads a list of UTF-8 texts at `i`.
fn read_text_list(s: &[u8], i: usize) -> (r: Result<(Vec<String>, usize), DescriptorError>)
    requires
        i <= s@.len(),
    ensures
        match r {
            Ok((v, e)) => text_list(s@, i as int) == Ok::<(Seq<Seq<char>>, int), DescriptorError>(
                (texts(v@), e as int),
            ),
            Err(x) => text_list(s@, i as int) == Err::<(Seq<Seq<char>>, int), DescriptorError>(x),
        },
{
    if i >= s.len() || s[i] != 108 {
        return Err(DescriptorError::MalformedEncoding);
    }
    let mut acc: Vec<String> = Vec::new();
    let mut j: usize = i + 1;
    proof {
        assert(texts(acc@) =~= seq![]);
    }
    while j < s.len()
        invariant
            i < j <= s@.len(),
            text_list(s@, i as int) == text_list_items(s@, j as int, texts(acc@)),
        decreases s@.len() - j,
    {
        if s[j] == 101 {
            return Ok((acc, j + 1));
        }
        let (t, e) = match read_text(s, j) {
            Ok(x) => x,
            Err(x) => {
                return Err(x);
            },
        };
        if !(j < e && e <= s.len()) {
            return Err(DescriptorError::MalformedEncoding);
        }
        let ghost before = texts(acc@);
        acc.push(t);
        proof {
            assert(texts(acc@) =~= before.push(t@));
        }
        j = e;
    }
    Err(DescriptorError::MalformedEncoding)
}

impl TorrentBytesFile {
    /// Decodes the file dictionary at `i`; returns it and the index after it.
    pub fn decode_bencode_object(s: &[u8], i: usize) -> (r: Result<(Self, usize), DescriptorError>)
        requires
            i <= s@.len(),
        ensures
            match r {
                Ok((f, e)) => file_entry(s@, i as int) == Ok::<(FileView, int), DescriptorError>(
                    (f@, e as int),
                ),
                Err(x) => file_entry(s@, i as int) == Err::<(FileView, int), DescriptorError>(x),
            },
    {
        if i >= s.len() || s[i] != 100 {
            return Err(DescriptorError::MalformedEncoding);
        }
        let length_key = vec![108u8, 101, 110, 103, 116, 104];
        let path_key = vec![112u8, 97, 116, 104];
        proof {
            assert(length_key@ =~= key_length());
            assert(path_key@ =~= key_path());
        }
        let mut length: Option<u64> = None;
        let mut path: Option<Vec<String>> = None;
        let mut j: usize = i + 1;
        while j < s.len()
            invariant
                i < j <= s@.len(),
                s@[i as int] == 100,
                length_key@ == key_length(),
                path_key@ == key_path(),
                file_fields(s@, i + 1, None, None) == file_fields(
                    s@,
                    j as int,
                    opt_texts(path),
                    length,
                ),
            decreases s@.len() - j,
        {
            if s[j] == 101 {
                let ghost pv = opt_texts(path);
                proof {
                    assert(file_fields(s@, j as int, pv, length) == Ok::<
                        (Option<Seq<Seq<char>>>, Option<u64>, int),
                        DescriptorError,
                    >((pv, length, j + 1)));
                }
                let l = match length {
                    Some(l) => l,
                    None => {
                        return Err(DescriptorError::MissingField(Field::Length));
                    },
                };
                let p = match path {
                    Some(p) => p,
                    None => {
                        return Err(DescriptorError::MissingField(Field::Path));
                    },
                };
                let f = TorrentBytesFile { path: p, length: l };
                return Ok((f, j + 1));
            }
            let (a, k) = match read_key(s, j) {
                Some(x) => x,
                None => {
                    return Err(DescriptorError::MalformedEncoding);
                },
            };
            let e = if key_is(s, a, k, length_key.as_slice()) {
                match read_uint(s, k, u64::MAX) {
                    Some((v, e)) => {
                        length = Some(v);
                        e
                    },
                    None => {
                        return Err(DescriptorError::MalformedEncoding);
                    },
                }
            } else if key_is(s, a, k, path_key.as_slice()) {
                match read_text_list(s, k) {
                    Ok((p, e)) => {
                        path = Some(p);
                        e
                    },
                    Err(x) => {
                        return Err(x);
                    },
                }
            } else {
                match skip_value(s, k, MAX_SKIP_DEPTH) {
                    Some(e) => e,
                    None => {
                        return Err(DescriptorError::MalformedEncoding);
                    },
                }
            };
            if !(j < e && e <= s.len()) {
                return Err(DescriptorError::MalformedEncoding);
            }
            j = e;
        }
        Err(DescriptorError::MalformedEncoding)
    }
}

/// Reads a list of file dictionaries at `i`.
fn read_file_list(s: &[u8], i: usize) -> (r: Result<(Vec<TorrentBytesFile>, usize), DescriptorError>)
    requires
        i <= s@.len(),
    ensures
        match r {
            Ok((v, e)) => file_list(s@, i as int) == Ok::<(Seq<FileView>, int), DescriptorError>(
                (file_views(v@), e as int),
            ),
            Err(x) => file_list(s@, i as int) == Err::<(Seq<FileView>, int), DescriptorError>(x),
        },
{
    if i >= s.len() || s[i] != 108 {
        return Err(DescriptorError::MalformedEncoding);
    }
    let mut acc: Vec<TorrentBytesFile> = Vec::new();
    let mut j: usize = i + 1;
    proof {
        assert(file_views(acc@) =~= seq![]);
    }
    while j < s.len()
        invariant
            i < j <= s@.len(),
            file_list(s@, i as int) == file_list_items(s@, j as int, file_views(acc@)),
        decreases s@.len() - j,
    {
        if s[j] == 101 {
            return Ok((acc, j + 1));
        }
        let (f, e) = match TorrentBytesFile::decode_bencode_object(s, j) {
            Ok(x) => x,
            Err(x) => {
                return Err(x);
            },
        };
        if !(j < e && e <= s.len()) {
            return Err(DescriptorError::MalformedEncoding);
        }
        let ghost before = file_views(acc@);
        let ghost fv = f@;
        acc.push(f);
        proof {
            assert(file_views(acc@) =~= before.push(fv));
        }
        j = e;
    }
    Err(DescriptorError::MalformedEncoding)
}

impl TorrentBytesInfo {
    /// Decodes the info dictionary at `i`; returns it and the index after it.
    pub fn decode_bencode_object(s: &[u8], i: usize) -> (r: Result<(Self, usize), DescriptorError>)
        requires
            i <= s@.len(),
        ensures
            match r {
                Ok((v, e)) => info_entry(s@, i as int) == Ok::<(InfoView, int), DescriptorError>(
                    (v@, e as int),
                ),
                Err(x) => info_entry(s@, i as int) == Err::<(InfoView, int), DescriptorError>(x),
            },
    {
        if i >= s.len() || s[i] != 100 {
            return Err(DescriptorError::MalformedEncoding);
        }
        let name_key = vec![110u8, 97, 109, 101];
        let source_key = vec![115u8, 111, 117, 114, 99, 101];
        let length_key = vec![108u8, 101, 110, 103, 116, 104];
        let files_key = vec![102u8, 105, 108, 101, 115];
        proof {
            assert(name_key@ =~= key_name());
            assert(source_key@ =~= key_source());
            assert(length_key@ =~= key_length());
            assert(files_key@ =~= key_files());
        }
        let mut name: Option<String> = None;
        let mut source: Option<String> = None;
        let mut file_length: Option<u64> = None;
        let mut files: Option<Vec<TorrentBytesFile>> = None;
        let mut j: usize = i + 1;
        while j < s.len()
            invariant
                i < j <= s@.len(),
                s@[i as int] == 100,
                name_key@ == key_name(),
                source_key@ == key_source(),
                length_key@ == key_length(),
                files_key@ == key_files(),
                info_fields(s@, i + 1, no_info_fields()) == info_fields(
                    s@,
                    j as int,
                    InfoFields {
                        name: opt_text(name),
                        source: opt_text(source),
                        file_length,
                        files: opt_files(files),
                    },
                ),
            decreases s@.len() - j,
        {
            if s[j] == 101 {
                let ghost acc = InfoFields {
                    name: opt_text(name),
                    source: opt_text(source),
                    file_length,
                    files: opt_files(files),
                };
                proof {
                    assert(info_fields(s@, j as int, acc) == Ok::<(InfoFields, int), DescriptorError>(
                        (acc, j + 1),
                    ));
                }
                let n = match name {
                    Some(n) => n,
                    None => {
                        return Err(DescriptorError::MissingField(Field::Name));
                    },
                };
                return Ok((TorrentBytesInfo { name: n, source, file_length, files }, j + 1));
            }
            let (a, k) = match read_key(s, j) {
                Some(x) => x,
                None => {
                    return Err(DescriptorError::MalformedEncoding);
                },
            };
            let is_name = key_is(s, a, k, name_key.as_slice());
            let e = if is_name || key_is(s, a, k, source_key.as_slice()) {
                match read_text(s, k) {
                    Ok((t, e)) => {
                        if !(j < e && e <= s.len()) {
                            return Err(DescriptorError::MalformedEncoding);
                        }
                        if is_name {
                            name = Some(t);
                        } else {
                            source = Some(t);
                        }
                        e
                    },
                    Err(x) => {
                        return Err(x);
                    },
                }
            } else if key_is(s, a, k, length_key.as_slice()) {
                match read_uint(s, k, u64::MAX) {
                    Some((v, e)) => {
                        file_length = Some(v);
                        e
                    },
                    None => {
                        return Err(DescriptorError::MalformedEncoding);
                    },
                }
            } else if key_is(s, a, k, files_key.as_slice()) {
                match read_file_list(s, k) {
                    Ok((fs, e)) => {
                        files = Some(fs);
                        e
                    },
                    Err(x) => {
                        return Err(x);
                    },
                }
            } else {
                match skip_value(s, k, MAX_SKIP_DEPTH) {
                    Some(e) => e,
                    None => {
                        return Err(DescriptorError::MalformedEncoding);
                    },
                }
            };
            if !(j < e && e <= s.len()) {
                return Err(DescriptorError::MalformedEncoding);
            }
            j = e;
        }
        Err(DescriptorError::MalformedEncoding)
    }
}

impl TorrentBytes {
    /// Decodes a whole descriptor: one dictionary that fills `s`, with an `info`
    /// entry and an optional `creation date`.
    pub fn from_bencode(s: &[u8]) -> (r: Result<Self, DescriptorError>)
        ensures
            match r {
                Ok(t) => torrent_of(s@) == Ok::<TorrentView, DescriptorError>(t@),
                Err(x) => torrent_of(s@) == Err::<TorrentView, DescriptorError>(x),
            },
    {
        if s.len() == 0 || s[0] != 100 {
            return Err(DescriptorError::MalformedEncoding);
        }
        let info_key = vec![105u8, 110, 102, 111];
        let date_key = vec![99u8, 114, 101, 97, 116, 105, 111, 110, 32, 100, 97, 116, 101];
        proof {
            assert(info_key@ =~= key_info());
            assert(date_key@ =~= key_creation_date());
        }
        let mut info: Option<TorrentBytesInfo> = None;
        let mut creation_date: Option<u32> = None;
        let mut j: usize = 1;
        while j < s.len()
            invariant
                1 <= j <= s@.len(),
                s@[0] == 100,
                info_key@ == key_info(),
                date_key@ == key_creation_date(),
                top_fields(s@, 1, None, None) == top_fields(
                    s@,
                    j as int,
                    opt_info(info),
                    creation_date,
                ),
            decreases s@.len() - j,
        {
            if s[j] == 101 {
                let ghost iv = opt_info(info);
                proof {
                    assert(top_fields(s@, j as int, iv, creation_date) == Ok::<
                        (Option<InfoView>, Option<u32>, int),
                        DescriptorError,
                    >((iv, creation_date, j + 1)));
                }
                if j + 1 != s.len() {
                    return Err(DescriptorError::MalformedEncoding);
                }
                return match info {
                    Some(v) => Ok(TorrentBytes { info: v, creation_date }),
                    None => Err(DescriptorError::MissingField(Field::Info)),
                };
            }
            let (a, k) = match read_key(s, j) {
                Some(x) => x,
                None => {
                    return Err(DescriptorError::MalformedEncoding);
                },
            };
            let e = if key_is(s, a, k, info_key.as_slice()) {
                match TorrentBytesInfo::decode_bencode_object(s, k) {
                    Ok((v, e)) => {
                        info = Some(v);
                        e
                    },
                    Err(x) => {
                        return Err(x);
                    },
                }
            } else if key_is(s, a, k, date_key.as_slice()) {
                match read_uint(s, k, 0xffff_ffff) {
                    Some((v, e)) => {
                        creation_date = Some(v as u32);
                        e
                    },
                    None => {
                        return Err(DescriptorError::MalformedEncoding);
                    },
                }
            } else {
                match skip_value(s, k, MAX_SKIP_DEPTH) {
                    Some(e) => e,
                    None => {
                        return Err(DescriptorError::MalformedEncoding);
                    },
                }
            };
            if !(j < e && e <= s.len()) {
                return Err(DescriptorError::MalformedEncoding);
            }
            j = e;
        }
        Err(DescriptorError::MalformedEncoding)
    }
}

/// A descriptor whose top dictionary reads to the end of the input without an
/// `info` entry fails with `MissingField(Info)`.
pub proof fn lemma_missing_info(s: Seq<u8>, date: Option<u32>)
    requires
        0 < s.len(),
        s[0] == 100,
        top_fields(s, 1, None, None) == Ok::<(Option<InfoView>, Option<u32>, int), DescriptorError>(
            (None, date, s.len() as int),
        ),
    ensures
        torrent_of(s) == Err::<TorrentView, DescriptorError>(DescriptorError::MissingField(Field::Info)),
{
}

} // verus!
