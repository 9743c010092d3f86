pub mod bencode;
pub mod bytes;
pub mod cache;
pub mod fetch;
pub mod infohash;
pub mod magnet;
pub mod metadata;
pub mod torrent;
