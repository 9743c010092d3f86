use vstd::prelude::*;

use crate::torrent::{
    DescriptorError, Field, FileView, TorrentBytes, TorrentBytesFile, TorrentView, file_views,
    texts, torrent_of,
};

verus! {

/// The metadata served for a descriptor: its name, total size, creation time and
/// file list.
#[derive(Debug)]
pub struct TorrentMetadata {
    pub name: String,
    pub size: u64,
    pub created_at: Option<i64>,
    pub files: Vec<TorrentMetadataFile>,
}

/// One served file: its path, the descriptor's name first, and its size.
#[derive(Debug)]
pub struct TorrentMetadataFile {
    pub path: Vec<String>,
    pub size: u64,
}

pub struct MetadataFileView {
    pub path: Seq<Seq<char>>,
    pub size: u64,
}

pub struct MetadataView {
    pub name: Seq<char>,
    pub size: u64,
    pub created_at: Option<i64>,
    pub files: Seq<MetadataFileView>,
}

impl View for TorrentMetadataFile {
    type V = MetadataFileView;

    open spec fn view(&self) -> MetadataFileView {
        MetadataFileView { path: texts(self.path@), size: self.size }
    }
}

pub open spec fn metadata_file_views(v: Seq<TorrentMetadataFile>) -> Seq<MetadataFileView> {
    v.map_values(|f: TorrentMetadataFile| f@)
}

impl View for TorrentMetadata {
    type V = MetadataView;

    open spec fn view(&self) -> MetadataView {
        MetadataView {
            name: self.name@,
            size: self.size,
            created_at: self.created_at,
            files: metadata_file_views(self.files@),
        }
    }
}

/// The sum of the lengths of the first `n` files.
pub open spec fn total_length(fs: Seq<FileView>, n: int) -> int
    decreases n,
{
    if n <= 0 {
        0
    } else {
        total_length(fs, n - 1) + fs[n - 1].length
    }
}

/// A served file for each entry of a multi-file layout, under the descriptor's name.
pub open spec fn listed_files(name: Seq<char>, fs: Seq<FileView>) -> Seq<MetadataFileView> {
    Seq::new(
        fs.len(),
        |i: int| MetadataFileView { path: seq![name] + fs[i].path, size: fs[i].length },
    )
}

pub open spec fn created_at_of(date: Option<u32>) -> Option<i64> {
    match date {
        Some(d) => Some(d as i64),
        None => None,
    }
}

/// The metadata of a descriptor: a multi-file layout lists its files under the
/// name; otherwise the single file of `length` bytes carries the name.
pub open spec fn projection(t: TorrentView) -> Result<MetadataView, DescriptorError> {
    let name = t.info.name;
    match t.info.files {
        Some(fs) => if total_length(fs, fs.len() as int) > u64::MAX {
            Err(DescriptorError::SizeOverflow)
        } else {
            Ok(
                MetadataView {
                    name,
                    size: total_length(fs, fs.len() as int) as u64,
                    created_at: created_at_of(t.creation_date),
                    files: listed_files(name, fs),
                },
            )
        },
        None => match t.info.file_length {
            Some(l) => Ok(
                MetadataView {
                    name,
                    size: l,
                    created_at: created_at_of(t.creation_date),
                    files: seq![MetadataFileView { path: seq![name], size: l }],
                },
            ),
            None => Err(DescriptorError::MissingField(Field::Length)),
        },
    }
}

/// The metadata of the descriptor that `s` encodes.
pub open spec fn description(s: Seq<u8>) -> Result<MetadataView, DescriptorError> {
    match torrent_of(s) {
        Ok(t) => projection(t),
        Err(x) => Err(x),
    }
}

proof fn lemma_total_length_grows(fs: Seq<FileView>, n: int, m: int)
    requires
        0 <= n <= m <= fs.len(),
    ensures
        total_length(fs, n) <= total_length(fs, m),
    decreases m - n,
{
    if n < m {
        lemma_total_length_grows(fs, n, m - 1);
    }
}

/// The served path of one file: the descriptor's name, then the file's own path.
fn prefixed_path(name: &String, path: &Vec<String>) -> (r: Vec<String>)
    ensures
        texts(r@) == seq![name@] + texts(path@),
{
    let mut r: Vec<String> = Vec::new();
    r.push(name.clone());
    let mut i: usize = 0;
    while i < path.len()
        invariant
            i <= path@.len(),
            texts(r@) == seq![name@] + texts(path@.subrange(0, i as int)),
        decreases path@.len() - i,
    {
        let ghost before = texts(r@);
        r.push(path[i].clone());
        proof {
            assert(texts(r@) =~= before.push(path@[i as int]@));
            assert(texts(path@.subrange(0, i + 1)) =~= texts(path@.subrange(0, i as int)).push(
                path@[i as int]@,
            ));
        }
        i = i + 1;
    }
    proof {
        assert(path@.subrange(0, path@.len() as int) =~= path@);
    }
    r
}

/// Turns a decoded descriptor into the metadata that is served for it.
pub fn project(t: &TorrentBytes) -> (r: Result<TorrentMetadata, DescriptorError>)
    ensures
        match r {
            Ok(m) => projection(t@) == Ok::<MetadataView, DescriptorError>(m@),
            Err(x) => projection(t@) == Err::<MetadataView, DescriptorError>(x),
        },
{
    let name = &t.info.name;
    let created_at = match t.creation_date {
        Some(d) => Some(d as i64),
        None => None,
    };
    match &t.info.files {
        Some(fs) => {
            let ghost fsv = file_views(fs@);
            let mut files: Vec<TorrentMetadataFile> = Vec::with_capacity(fs.len());
            let mut size: u64 = 0;
            let mut i: usize = 0;
            while i < fs.len()
                invariant
                    i <= fs@.len(),
                    fsv == file_views(fs@),
                    t@.info.files == Some(fsv),
                    size == total_length(fsv, i as int),
                    metadata_file_views(files@) == listed_files(name@, fsv).subrange(0, i as int),
                decreases fs@.len() - i,
            {
                let f: &TorrentBytesFile = &fs[i];
                assert(fsv[i as int] == f@);
                if size > u64::MAX - f.length {
                    proof {
                        assert(total_length(fsv, i + 1) == total_length(fsv, i as int) + fsv[i as int].length);
                        lemma_total_length_grows(fsv, i + 1, fsv.len() as int);
                    }
                    return Err(DescriptorError::SizeOverflow);
                }
                size = size + f.length;
                let entry = TorrentMetadataFile { path: prefixed_path(name, &f.path), size: f.length };
                let ghost before = metadata_file_views(files@);
                files.push(entry);
                proof {
                    assert(metadata_file_views(files@) =~= before.push(entry@));
                    assert(listed_files(name@, fsv).subrange(0, i + 1) =~= listed_files(
                        name@,
                        fsv,
                    ).subrange(0, i as int).push(entry@));
                }
                i = i + 1;
            }
            proof {
                assert(listed_files(name@, fsv).subrange(0, fsv.len() as int) =~= listed_files(
                    name@,
                    fsv,
                ));
            }
            Ok(TorrentMetadata { name: name.clone(), size, created_at, files })
        },
        None => match t.info.file_length {
            Some(l) => {
                let path = vec![name.clone()];
                let entry = TorrentMetadataFile { path, size: l };
                let files = vec![entry];
                proof {
                    assert(texts(path@) =~= seq![name@]);
                    assert(metadata_file_views(files@) =~= seq![
                        MetadataFileView { path: seq![name@], size: l },
                    ]);
                }
                Ok(TorrentMetadata { name: name.clone(), size: l, created_at, files })
            },
            None => Err(DescriptorError::MissingField(Field::Length)),
        },
    }
}

/// Decodes a descriptor and turns it into the metadata that is served for it.
pub fn describe(s: &[u8]) -> (r: Result<TorrentMetadata, DescriptorError>)
    ensures
        match r {
            Ok(m) => description(s@) == Ok::<MetadataView, DescriptorError>(m@),
            Err(x) => description(s@) == Err::<MetadataView, DescriptorError>(x),
        },
{
    match TorrentBytes::from_bencode(s) {
        Ok(t) => project(&t),
        Err(x) => Err(x),
    }
}

/// Describing the same bytes twice gives the same metadata, or the same error.
pub proof fn lemma_describe_repeatable(s: Seq<u8>, first: Result<MetadataView, DescriptorError>, second: Result<MetadataView, DescriptorError>)
    requires
        first == description(s),
        second == description(s),
    ensures
        first == second,
{
}

/// A descriptor with neither a `files` list nor a `length` fails projection with
/// `MissingField(Length)`; it is never given an empty file list or size zero.
pub proof fn lemma_missing_length(t: TorrentView)
    requires
        t.info.files is None,
        t.info.file_length is None,
    ensures
        projection(t) == Err::<MetadataView, DescriptorError>(DescriptorError::MissingField(Field::Length)),
{
}

} // verus!
