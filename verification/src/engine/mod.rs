//! The torrent engines: what is handed to an engine, how an engine's state
//! is named to the interface, and the byte arithmetic of streaming and of
//! the MKV-to-MP4 remux.
use vstd::prelude::*;

pub mod stream_server;
pub mod remux;

verus! {

/// What a torrent is added from.
pub enum AddTorrentSource {
    Magnet(String),
    TorrentBytes(Vec<u8>),
}

/// The states a qBittorrent server reports for a torrent.
#[derive(PartialEq, Eq, Structural, Clone, Copy, Debug)]
pub enum QbState {
    Error,
    MissingFiles,
    Uploading,
    PausedUP,
    QueuedUP,
    StalledUP,
    CheckingUP,
    ForcedUP,
    Allocating,
    Downloading,
    MetaDL,
    PausedDL,
    QueuedDL,
    StalledDL,
    CheckingDL,
    ForcedDL,
    CheckingResumeData,
    Moving,
    Unknown,
}

/// The interface's name for a qBittorrent state: `error`, `paused`,
/// `live` (transferring or waiting to) or `initializing` (checking,
/// allocating, fetching metadata, moving, unknown, or no state).
pub open spec fn qb_state_label(state: Option<QbState>) -> Seq<char> {
    match state {
        Some(QbState::Error) | Some(QbState::MissingFiles) => "error"@,
        Some(QbState::PausedUP) | Some(QbState::PausedDL) => "paused"@,
        Some(QbState::Downloading) | Some(QbState::Uploading) | Some(QbState::ForcedUP) | Some(QbState::ForcedDL)
        | Some(QbState::QueuedUP) | Some(QbState::QueuedDL) | Some(QbState::StalledUP) | Some(
            QbState::StalledDL,
        ) => "live"@,
        _ => "initializing"@,
    }
}

/// The interface's name for a qBittorrent state.
pub fn state_label(state: Option<QbState>) -> (r: &'static str)
    ensures
        r@ == qb_state_label(state),
{
    match state {
        Some(QbState::Error) | Some(QbState::MissingFiles) => "error",
        Some(QbState::PausedUP) | Some(QbState::PausedDL) => "paused",
        Some(QbState::Downloading) | Some(QbState::Uploading) | Some(QbState::ForcedUP) | Some(QbState::ForcedDL)
        | Some(QbState::QueuedUP) | Some(QbState::QueuedDL) | Some(QbState::StalledUP) | Some(
            QbState::StalledDL,
        ) => "live",
        _ => "initializing",
    }
}

/// A lower-case hexadecimal digit.
pub open spec fn hex_lower(d: int) -> char {
    if d < 10 {
        (0x30 + d) as char
    } else {
        (0x61 + d - 10) as char
    }
}

/// Each byte as two lower-case hexadecimal digits.
pub open spec fn hex_of(b: Seq<u8>) -> Seq<char>
    decreases b.len(),
{
    if b.len() == 0 {
        seq![]
    } else {
        hex_of(b.drop_last()) + seq![hex_lower((b.last() / 16) as int), hex_lower((b.last() % 16) as int)]
    }
}

fn hex_lower_exec(d: u8) -> (c: char)
    requires
        d < 16,
    ensures
        c == hex_lower(d as int),
{
    match d {
        0 => '0',
        1 => '1',
        2 => '2',
        3 => '3',
        4 => '4',
        5 => '5',
        6 => '6',
        7 => '7',
        8 => '8',
        9 => '9',
        10 => 'a',
        11 => 'b',
        12 => 'c',
        13 => 'd',
        14 => 'e',
        _ => 'f',
    }
}

/// The bytes (an info-hash) as lower-case hexadecimal.
pub fn hex_encode(bytes: &[u8]) -> (r: String)
    ensures
        r@ == hex_of(bytes@),
{
    let mut out = String::new();
    let mut i: usize = 0;
    while i < bytes.len()
        invariant
            i <= bytes@.len(),
            out@ == hex_of(bytes@.take(i as int)),
        decreases bytes@.len() - i,
    {
        proof {
            assert(bytes@.take(i + 1).drop_last() =~= bytes@.take(i as int));
            assert(bytes@.take(i + 1).last() == bytes@[i as int]);
        }
        let b = bytes[i];
        out.push(hex_lower_exec(b / 16));
        out.push(hex_lower_exec(b % 16));
        i += 1;
        assert(out@ =~= hex_of(bytes@.take(i as int)));
    }
    assert(bytes@.take(i as int) =~= bytes@);
    out
}

/// The hexadecimal text of an info-hash is two characters per byte, each
/// a lower-case hexadecimal digit.
pub proof fn hex_of_length(b: Seq<u8>)
    ensures
        hex_of(b).len() == 2 * b.len(),
    decreases b.len(),
{
    if b.len() > 0 {
        hex_of_length(b.drop_last());
    }
}


/// How every state is named: `error` for an error or missing files,
/// `paused` for a paused torrent, `live` exactly for a torrent that is
/// transferring, queued or stalled (up or down, forced or not), and
/// `initializing` for every other state and for no state.
pub proof fn each_state_has_its_label(s: QbState)
    ensures
        qb_state_label(Some(s)) == "error"@ <==> (s == QbState::Error || s == QbState::MissingFiles),
        qb_state_label(Some(s)) == "paused"@ <==> (s == QbState::PausedUP || s == QbState::PausedDL),
        qb_state_label(Some(s)) == "live"@ <==> (s == QbState::Downloading || s == QbState::Uploading || s
            == QbState::ForcedUP || s == QbState::ForcedDL || s == QbState::QueuedUP || s == QbState::QueuedDL || s
            == QbState::StalledUP || s == QbState::StalledDL),
        qb_state_label(Some(s)) == "initializing"@ <==> (s == QbState::CheckingUP || s == QbState::CheckingDL || s
            == QbState::CheckingResumeData || s == QbState::Allocating || s == QbState::MetaDL || s
            == QbState::Moving || s == QbState::Unknown),
        qb_state_label(None) == "initializing"@,
{
    reveal_strlit("error");
    reveal_strlit("paused");
    reveal_strlit("live");
    reveal_strlit("initializing");
    assert("error"@.len() == 5 && "paused"@.len() == 6 && "live"@.len() == 4 && "initializing"@.len() == 12);
}

} // verus!
