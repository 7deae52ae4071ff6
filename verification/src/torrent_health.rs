//! The health of a torrent offered by an indexer: how many peers a quick
//! look at its trackers and at the DHT finds. The lookups are the
//! caller's; here is how their answers are reported.
use vstd::prelude::*;

verus! {

/// Peers found and where: `tracker`, `dht`, or `sin datos` when nothing
/// could be asked (a malformed magnet, no v1 info-hash, no tracker and no
/// DHT). `Some(0)` is a real answer: the swarm was asked and nobody
/// answered.
pub struct TorrentHealth {
    pub peers_found: Option<u32>,
    pub source: &'static str,
}

/// The report when nothing could be asked.
pub fn no_data() -> (r: TorrentHealth)
    ensures
        r.peers_found is None,
        r.source@ == "sin datos"@,
{
    TorrentHealth { peers_found: None, source: "sin datos" }
}

/// After asking the trackers: the report when they found peers, else
/// `None` (the DHT is asked next).
pub fn tracker_report(tracker: Option<u32>) -> (r: Option<TorrentHealth>)
    ensures
        match tracker {
            Some(n) if n > 0 => r matches Some(h) && h.peers_found == Some(n) && h.source@ == "tracker"@,
            _ => r is None,
        },
{
    match tracker {
        Some(n) => if n > 0 {
            Some(TorrentHealth { peers_found: Some(n), source: "tracker" })
        } else {
            None
        },
        None => None,
    }
}

/// The report once trackers (without peers) and the DHT were asked: the
/// DHT's count when it answered; else the trackers' zero when they
/// answered; else no data.
pub fn final_report(tracker: Option<u32>, dht: Option<u32>) -> (r: TorrentHealth)
    ensures
        match dht {
            Some(n) => r.peers_found == Some(n) && r.source@ == "dht"@,
            None => match tracker {
                Some(n) => r.peers_found == Some(n) && r.source@ == "tracker"@,
                None => r.peers_found is None && r.source@ == "sin datos"@,
            },
        },
{
    match dht {
        Some(n) => TorrentHealth { peers_found: Some(n), source: "dht" },
        None => match tracker {
            Some(n) => TorrentHealth { peers_found: Some(n), source: "tracker" },
            None => no_data(),
        },
    }
}

} // verus!
