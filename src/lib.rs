//! Client library for a video-hosting web API, centred on a concurrent
//! ranged-download engine whose decisions are verified.
pub mod assembly;
pub mod engine;
pub mod error;
pub mod items;
pub mod models;
pub mod range;
pub mod text;

pub use error::{Error, Result};
pub use models::{
    BasicMusicInfo, BasicView, Clarity, DownloadInfo, DownloadParam, DurlInfo, GetDownloadInfoParam,
    Owner, PackInfo, Protocol, SeasonList, VideoId, VideoMetadata, View,
};
