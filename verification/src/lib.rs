//! Core logic of the Popcorn media center: playlist, feed and catalog
//! parsers, request/range arithmetic and the curation decisions, each with
//! a contract proved by Verus.
use vstd::prelude::*;

pub mod text;
pub mod percent;
pub mod iptv;
pub mod indexers;
pub mod youtube;
pub mod sources;
pub mod keychain;
pub mod ai;
pub mod engine;
pub mod online_library;
pub mod subtitles;
pub mod opensubtitles;
pub mod local_library;
pub mod http_retry;
pub mod availability_ping;
pub mod aurorae_icons;
pub mod svg;
pub mod commands;
pub mod torrent_health;
pub mod app_settings;
pub mod os_accent;

verus! {

} // verus!
