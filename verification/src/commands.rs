//! The user's collection (`media_items`) and how an item whose torrent the
//! engine lost is added again.
use vstd::prelude::*;
use crate::text::push_all;

verus! {

/// An item of the user's collection.
pub struct MediaItem {
    pub id: String,
    pub source_type: String,
    pub source_identifier: String,
    pub title: String,
    pub year: Option<i64>,
    pub license: Option<String>,
    pub engine_torrent_id: Option<String>,
    pub is_private: bool,
    pub added_at: String,
}

/// The warning shown when the configured engine could not start and the
/// embedded one took its place.
pub struct EngineFallbackWarning(pub Option<String>);

/// Upload limit of a dedicated seeding, in bytes per second (1 Mbit/s).
pub const DEFAULT_SEED_UPLOAD_BPS: u32 = 125_000;

/// Checks of `finished` after re-adding a torrent, and the pause between
/// them in milliseconds.
pub const HEAL_FINISHED_RECHECK_ATTEMPTS: u32 = 10;
pub const HEAL_FINISHED_RECHECK_INTERVAL_MS: u64 = 200;

/// How an item is added again to the engine, by its source type.
#[derive(PartialEq, Eq, Structural, Clone, Copy, Debug)]
pub enum HealRoute {
    /// Its `.torrent` from archive.org, seeding what is on disk, with the
    /// HTTP fallback when the file is not complete.
    ArchiveOrg,
    /// Its magnet, seeding what is on disk.
    Magnet,
    /// The `.torrent` its identifier points to.
    PublicDomainTorrents,
}

/// The route that re-adds an item of `source_type`; an item added from a
/// `.torrent` file cannot be re-added, its bytes were not kept.
pub fn heal_route(source_type: &str) -> (r: Result<HealRoute, String>)
    ensures
        source_type@ == "archive_org"@ ==> r == Ok::<HealRoute, String>(HealRoute::ArchiveOrg),
        source_type@ == "magnet"@ ==> r == Ok::<HealRoute, String>(HealRoute::Magnet),
        source_type@ == "public_domain_torrents"@ ==> r == Ok::<HealRoute, String>(HealRoute::PublicDomainTorrents),
        source_type@ != "archive_org"@ && source_type@ != "magnet"@ && source_type@ != "public_domain_torrents"@
            ==> (r matches Err(e) && e@ == "el ítem de tipo '"@ + source_type@
            + "' no se puede re-agregar automáticamente: no se guardaron los bytes originales del .torrent"@),
{
    proof {
        reveal_strlit("archive_org");
        reveal_strlit("magnet");
        reveal_strlit("public_domain_torrents");
        assert("archive_org"@.len() == 11);
        assert("magnet"@.len() == 6);
        assert("public_domain_torrents"@.len() == 22);
    }
    let t = source_type.to_owned();
    if t == "archive_org".to_owned() {
        Ok(HealRoute::ArchiveOrg)
    } else if t == "magnet".to_owned() {
        Ok(HealRoute::Magnet)
    } else if t == "public_domain_torrents".to_owned() {
        Ok(HealRoute::PublicDomainTorrents)
    } else {
        let mut e = "el ítem de tipo '".to_owned();
        push_all(&mut e, source_type);
        push_all(&mut e, "' no se puede re-agregar automáticamente: no se guardaron los bytes originales del .torrent");
        Err(e)
    }
}

/// What to do after the `checks`-th look at whether a re-added torrent
/// is complete on disk.
#[derive(PartialEq, Eq, Structural, Clone, Copy, Debug)]
pub enum RecheckStep {
    /// Complete: no HTTP fallback is needed.
    Complete,
    /// Wait and look again.
    Wait,
    /// Not complete within the checks: register the HTTP fallback.
    NeedsFallback,
}

/// The step after `checks` looks (the first look is the engine's answer to
/// the add itself) that found `finished`.
pub fn recheck_step(finished: bool, checks: u32) -> (r: RecheckStep)
    ensures
        finished ==> r == RecheckStep::Complete,
        !finished && checks <= HEAL_FINISHED_RECHECK_ATTEMPTS ==> r == RecheckStep::Wait,
        !finished && checks > HEAL_FINISHED_RECHECK_ATTEMPTS ==> r == RecheckStep::NeedsFallback,
{
    if finished {
        RecheckStep::Complete
    } else if checks <= HEAL_FINISHED_RECHECK_ATTEMPTS {
        RecheckStep::Wait
    } else {
        RecheckStep::NeedsFallback
    }
}

/// The file of a torrent that is played: the primary file found when the
/// item was just re-added, else the one stored for it, else the one asked
/// for.
pub fn effective_file_idx(healed: Option<usize>, stored: Option<i64>, requested: usize) -> (r: usize)
    ensures
        r == match healed {
            Some(h) => h,
            None => match stored {
                Some(s) => s as usize,
                None => requested,
            },
        },
{
    match healed {
        Some(h) => h,
        None => match stored {
            Some(s) => #[verifier::truncate] (s as usize),
            None => requested,
        },
    }
}

/// What playing a Matroska file needs.
#[derive(PartialEq, Eq, Structural, Clone, Copy, Debug)]
pub enum RemuxStep {
    /// Its MP4 copy is already cached: serve it.
    ServeCached,
    /// Remux the complete file into the cache, then serve it.
    Remux,
}

/// A Matroska file is played from its cached MP4 copy; without one, it is
/// remuxed only once its torrent finished downloading (a partial file
/// would give a broken MP4).
pub fn remux_step(cached: bool, finished: bool) -> (r: Result<RemuxStep, String>)
    ensures
        cached ==> r == Ok::<RemuxStep, String>(RemuxStep::ServeCached),
        !cached && finished ==> r == Ok::<RemuxStep, String>(RemuxStep::Remux),
        !cached && !finished ==> (r matches Err(e) && e@
            == "este formato (MKV) necesita terminar de descargar antes de poder reproducirse"@),
{
    if cached {
        Ok(RemuxStep::ServeCached)
    } else if finished {
        Ok(RemuxStep::Remux)
    } else {
        Err("este formato (MKV) necesita terminar de descargar antes de poder reproducirse".to_owned())
    }
}


/// The primary file index stored after an item is re-added: the one found
/// this time, else the one stored before (a heal that could not find it
/// keeps a good earlier value).
pub fn healed_file_idx(found: Option<usize>, stored: Option<i64>) -> (r: Option<i64>)
    ensures
        r == match found {
            Some(i) => Some(i as i64),
            None => stored,
        },
{
    match found {
        Some(i) => Some(#[verifier::truncate] (i as i64)),
        None => stored,
    }
}

/// What recording a seeded archive.org item does to the collection.
#[derive(PartialEq, Eq, Structural, Clone, Copy, Debug)]
pub enum SeedRowAction {
    /// An item of this identifier exists: it now points at the seeded
    /// torrent and its primary file.
    UpdateExisting,
    /// No item of this identifier exists: a new one is added.
    InsertNew,
}

/// A seeded archive.org item updates the item of its identifier when one
/// exists, and is added otherwise.
pub fn seed_row_action(already_exists: bool) -> (r: SeedRowAction)
    ensures
        r == (if already_exists {
            SeedRowAction::UpdateExisting
        } else {
            SeedRowAction::InsertNew
        }),
{
    if already_exists {
        SeedRowAction::UpdateExisting
    } else {
        SeedRowAction::InsertNew
    }
}

} // verus!
