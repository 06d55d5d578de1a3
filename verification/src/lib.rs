//! Verified core of a downloader for audio shows published as HLS playlists.

pub mod text;
pub mod utils;
pub mod paths;
pub mod models;
pub mod kukufm;
pub mod client;
pub mod m3u8;
pub mod downloader;
pub mod audio;
