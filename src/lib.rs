//! Decrypting downloader core for encrypted HLS streams: playlist parsing,
//! AES-128-CBC segment decryption and the local output layout.

pub mod text;
pub mod decrypt;
pub mod hotmart;
pub mod videos;
