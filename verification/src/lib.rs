//! Verified core of a downloader for Picarto VODs: the login record, the
//! request texts sent to Picarto, the lookup of a video in a channel listing,
//! the reading of HLS playlists, the naming of downloaded segments and the
//! merge list and arguments handed to FFmpeg.

pub mod data;
pub mod downloader;
pub mod encoder;
pub mod grabber;
pub mod json;
pub mod login;
pub mod order;
pub mod playlist;
pub mod text;
