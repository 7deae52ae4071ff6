//! Public catalogs of free films.
pub mod archive_org;
pub mod public_domain_torrents;
pub mod settings;
