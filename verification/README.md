# popcorn

The core of the Popcorn media center as a Verus library: the parsers,
request/range arithmetic and curation decisions are executable Rust with
contracts that Verus proves. Where an outside crate does the work
(`serde_json`, `m3u8-rs`, `url`, `roxmltree`, `librqbit-core`, `mp4`,
`keyring`, `base64`, `urlencoding`), the call sits behind a small trusted
wrapper whose contract names or states what it returns.

- `src/` — the verified library.
  - `text`, `percent`: character-level helpers and percent-encoding.
  - `indexers`: magnet pages, RSS feeds and JSON answers (parsed with
    `serde_json`) of the indexers the user configures; search URLs and
    merged multi-term searches.
  - `iptv`: M3U channel lists, HLS playlists (`m3u8-rs`), the recorder's
    decisions.
  - `sources`: archive.org (queries, playable files, torrent file
    targets via `librqbit-core`) and Public Domain Torrents pages.
  - `youtube`: channel references and the paging of uploads.
  - `ai`: prompts, curation decisions (kept positions, the chunked
    curation by hint with its cache, the order by score).
  - `engine`: the `Range` arithmetic of the stream server, qBittorrent
    state labels, remux track and timing decisions (`mp4`).
  - `aurorae_icons`, `svg`: KDE decoration glyphs (INI section, SVG
    group through `roxmltree`).
  - `keychain`, `http_retry`, `availability_ping`, `app_settings`,
    `commands`, `subtitles`, `online_library`, …: the smaller rules.
- `tests/` — the library's tests, run against the real outside crates.
- `app/` — HTTP, SQLite, files and serde shapes around the library.
