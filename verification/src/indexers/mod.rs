//! Torrent indexers the user brings: how a search is addressed to one and
//! how its answer (a page of magnets, an RSS feed or a JSON document) is
//! read into results.
use vstd::prelude::*;
use crate::iptv::opt_view;

pub mod parse;
pub mod json;
pub mod search;

verus! {

/// A user-configured indexer.
pub struct Indexer {
    pub id: String,
    pub name: String,
    pub search_url_template: String,
    /// `"magnet_list"`, `"rss"` or `"json"`.
    pub result_format: String,
    pub json_paths: Option<JsonPaths>,
    pub enabled: bool,
}

/// Where the fields of a result sit in a JSON answer, as dot-paths.
pub struct JsonPaths {
    /// The array of results; empty when the answer itself is the array.
    pub items_path: String,
    pub title_field: String,
    pub magnet_field: String,
    pub size_field: Option<String>,
    pub seeders_field: Option<String>,
}

/// One search result.
pub struct IndexerResult {
    pub title: String,
    pub magnet: String,
    pub size: Option<String>,
    pub seeders: Option<String>,
    pub source_indexer: String,
}

/// A search result as plain sequences.
pub struct ResultModel {
    pub title: Seq<char>,
    pub magnet: Seq<char>,
    pub size: Option<Seq<char>>,
    pub seeders: Option<Seq<char>>,
    pub source_indexer: Seq<char>,
}

impl View for IndexerResult {
    type V = ResultModel;

    open spec fn view(&self) -> ResultModel {
        ResultModel {
            title: self.title@,
            magnet: self.magnet@,
            size: opt_view(self.size),
            seeders: opt_view(self.seeders),
            source_indexer: self.source_indexer@,
        }
    }
}

} // verus!
