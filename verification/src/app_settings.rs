//! Settings kept in the `app_settings` table: speed limits (stored in
//! KB/s, given to the engine in bytes/s) and the torrent engine in use.
use vstd::prelude::*;
use crate::engine::stream_server::{parse_u64, parse_u64_spec};
use crate::text::{chars_of, push_all, trim, trim_bounds};

verus! {

/// The speed limits as the interface shows them.
pub struct SpeedLimits {
    pub upload_kbps: Option<u32>,
    pub download_kbps: Option<u32>,
}

/// The torrent engine configuration as the interface shows it (the
/// password itself is never shown, only whether one is stored).
pub struct TorrentEngineConfig {
    pub kind: String,
    pub qbittorrent_base_url: Option<String>,
    pub qbittorrent_username: Option<String>,
    pub qbittorrent_has_password: bool,
}

/// A stored limit: the text read as a `u32`, `None` when it is not one.
pub fn parse_kbps(raw: Option<&str>) -> (r: Option<u32>)
    ensures
        r == match raw {
            Some(s) => match parse_u64_spec(s@) {
                Some(v) => if v <= u32::MAX {
                    Some(v as u32)
                } else {
                    None::<u32>
                },
                None => None::<u32>,
            },
            None => None::<u32>,
        },
{
    match raw {
        Some(s) => {
            let v = chars_of(s);
            match parse_u64(&v, 0, v.len()) {
                Some(x) => {
                    assert(v@.subrange(0, v@.len() as int) =~= s@);
                    if x <= u32::MAX as u64 {
                        Some(x as u32)
                    } else {
                        None
                    }
                },
                None => {
                    assert(v@.subrange(0, v@.len() as int) =~= s@);
                    None
                },
            }
        },
        None => None,
    }
}

/// A limit in KB/s as the engine takes it, in bytes/s.
pub fn kbps_to_bps(kbps: Option<u32>) -> (r: Option<u32>)
    requires
        kbps matches Some(k) ==> k * 1000 <= u32::MAX,
    ensures
        r == match kbps {
            Some(k) => Some((k * 1000) as u32),
            None => None::<u32>,
        },
{
    match kbps {
        Some(k) => Some(k * 1000),
        None => None,
    }
}

/// The engine used when none was chosen.
pub open spec fn default_engine_kind() -> Seq<char> {
    "embedded"@
}

/// The engine in use: the stored one, else the embedded engine.
pub fn engine_kind_or_default(stored: Option<String>) -> (r: String)
    ensures
        r@ == match stored {
            Some(s) => s@,
            None => default_engine_kind(),
        },
{
    match stored {
        Some(s) => s,
        None => "embedded".to_owned(),
    }
}

/// Checks the engine chosen: `embedded` or `qbittorrent`.
pub fn check_engine_kind(kind: &str) -> (r: Result<(), String>)
    ensures
        kind@ == "embedded"@ || kind@ == "qbittorrent"@ ==> r is Ok,
        kind@ != "embedded"@ && kind@ != "qbittorrent"@ ==> (r matches Err(e) && e@ == "motor inválido: "@ + kind@),
{
    let k = kind.to_owned();
    if k == "embedded".to_owned() || k == "qbittorrent".to_owned() {
        Ok(())
    } else {
        let mut e = "motor inválido: ".to_owned();
        push_all(&mut e, kind);
        Err(e)
    }
}

/// The WebUI URL of qBittorrent: required and not blank.
pub fn require_qbittorrent_url(stored: Option<String>) -> (r: Result<String, String>)
    ensures
        match stored {
            Some(u) if trim(u@).len() > 0 => r matches Ok(x) && x@ == u@,
            _ => r matches Err(e) && e@ == "falta la URL de la WebUI de qBittorrent en la configuración"@,
        },
{
    match stored {
        Some(u) => {
            let v = chars_of(u.as_str());
            let (a, b) = trim_bounds(&v, 0, v.len());
            assert(v@.subrange(a as int, b as int) == trim(u@));
            if a < b {
                Ok(u)
            } else {
                Err("falta la URL de la WebUI de qBittorrent en la configuración".to_owned())
            }
        },
        None => Err("falta la URL de la WebUI de qBittorrent en la configuración".to_owned()),
    }
}

/// Whether a password given with the engine settings replaces the stored
/// one: only a password that is not empty does (the interface never gets
/// the stored one back, so it cannot send it again).
pub fn password_to_store(password: Option<String>) -> (r: Option<String>)
    ensures
        match password {
            Some(p) if p@.len() > 0 => r == Some(p),
            _ => r is None,
        },
{
    match password {
        Some(p) => if p.as_str().is_empty() {
            None
        } else {
            Some(p)
        },
        None => None,
    }
}

} // verus!
