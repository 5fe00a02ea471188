//! The browser-facing logic of a DLNA media server: requests, library pages,
//! playback, captions, previews, downloads and status.

pub mod asset;
pub mod budget;
pub mod capability;
pub mod caption;
pub mod catalog;
pub mod codec;
pub mod conversion;
pub mod download;
pub mod encoding;
pub mod entry;
pub mod folder;
pub mod http;
pub mod job;
pub mod jpeg;
pub mod law;
pub mod library;
pub mod listing;
pub mod markup;
pub mod number;
pub mod order;
pub mod playback;
pub mod player;
pub mod preview;
pub mod problem;
pub mod projection;
pub mod query;
pub mod route;
pub mod scan;
pub mod status;
pub mod subtitle;
pub mod tally;
pub mod text;
pub mod title;
pub mod track;
