//! The Online tab's unified items: films from archive.org (its general
//! catalog, the Blender Foundation films, the Prelinger and feature-film
//! collections) and from Public Domain Torrents, and how adding one is
//! dispatched by its kind.
use vstd::prelude::*;
use crate::iptv::opt_view;
use crate::sources::archive_org::ArchiveOrgItem;
use crate::sources::public_domain_torrents::PublicDomainMovie;
use crate::text::push_all;

verus! {

/// An item of the Online tab; `kind` names the catalog it comes from.
pub struct OnlineItem {
    pub kind: String,
    pub identifier: String,
    pub title: String,
    pub year: Option<i64>,
    pub license: Option<String>,
    pub thumbnail_url: Option<String>,
}

/// An archive.org item as an Online item of the given kind, with its
/// thumbnail.
pub fn online_item_from_archive_org(kind: &str, item: ArchiveOrgItem) -> (r: OnlineItem)
    ensures
        r.kind@ == kind@,
        r.identifier@ == item.identifier@,
        r.title@ == item.title@,
        r.year == item.year,
        opt_view(r.license) == opt_view(item.licenseurl),
        opt_view(r.thumbnail_url) == Some(item.thumbnail_url@),
{
    OnlineItem {
        kind: kind.to_owned(),
        identifier: item.identifier,
        title: item.title,
        year: item.year,
        license: item.licenseurl,
        thumbnail_url: Some(item.thumbnail_url),
    }
}

/// A Public Domain Torrents film as an Online item: no year, license or
/// thumbnail.
pub fn online_item_from_pdt(item: PublicDomainMovie) -> (r: OnlineItem)
    ensures
        r.kind@ == "public_domain_torrents"@,
        r.identifier@ == item.identifier@,
        r.title@ == item.title@,
        r.year is None,
        r.license is None,
        r.thumbnail_url is None,
{
    OnlineItem {
        kind: "public_domain_torrents".to_owned(),
        identifier: item.identifier,
        title: item.title,
        year: None,
        license: None,
        thumbnail_url: None,
    }
}

/// How an Online item is added.
#[derive(PartialEq, Eq, Structural, Clone, Copy, Debug)]
pub enum OnlineAddRoute {
    /// Through its archive.org identifier.
    ArchiveOrg,
    /// From the `.torrent` its identifier points to.
    PublicDomainTorrents,
}

pub open spec fn is_archive_org_kind(kind: Seq<char>) -> bool {
    kind == "archive_org"@ || kind == "blender_foundation"@ || kind == "prelinger"@ || kind == "feature_films"@
}

/// The route of an Online item by kind: the four archive.org catalogs
/// share one; any unknown kind is an error.
pub fn online_add_route(kind: &str) -> (r: Result<OnlineAddRoute, String>)
    ensures
        is_archive_org_kind(kind@) ==> r == Ok::<OnlineAddRoute, String>(OnlineAddRoute::ArchiveOrg),
        kind@ == "public_domain_torrents"@ ==> r == Ok::<OnlineAddRoute, String>(OnlineAddRoute::PublicDomainTorrents),
        !is_archive_org_kind(kind@) && kind@ != "public_domain_torrents"@ ==> (r matches Err(e) && e@
            == "kind de ítem Online desconocido: "@ + kind@),
{
    proof {
        reveal_strlit("archive_org");
        reveal_strlit("blender_foundation");
        reveal_strlit("prelinger");
        reveal_strlit("feature_films");
        reveal_strlit("public_domain_torrents");
        assert("public_domain_torrents"@.len() == 22);
        assert("archive_org"@.len() == 11);
        assert("blender_foundation"@.len() == 18);
        assert("prelinger"@.len() == 9);
        assert("feature_films"@.len() == 13);
        assert(!is_archive_org_kind("public_domain_torrents"@));
    }
    let k = kind.to_owned();
    if k == "archive_org".to_owned() || k == "blender_foundation".to_owned() || k == "prelinger".to_owned()
        || k == "feature_films".to_owned() {
        Ok(OnlineAddRoute::ArchiveOrg)
    } else if k == "public_domain_torrents".to_owned() {
        Ok(OnlineAddRoute::PublicDomainTorrents)
    } else {
        let mut e = "kind de ítem Online desconocido: ".to_owned();
        push_all(&mut e, kind);
        Err(e)
    }
}


/// The items of the catalogs that answered, in order (a catalog that
/// failed adds nothing).
pub open spec fn answered_items(sections: Seq<Option<Vec<OnlineItem>>>) -> Seq<OnlineItem>
    decreases sections.len(),
{
    if sections.len() == 0 {
        seq![]
    } else {
        answered_items(sections.drop_last()) + match sections.last() {
            Some(v) => v@,
            None => seq![],
        }
    }
}

/// The Online tab in its fixed order: the catalogs fetched together, in
/// the order given, each skipped when it failed, then the Blender
/// Foundation films.
pub fn online_tab(sections: Vec<Option<Vec<OnlineItem>>>, blender: Vec<OnlineItem>) -> (r: Vec<OnlineItem>)
    ensures
        r@ == answered_items(sections@) + blender@,
{
    let ghost secs = sections@;
    let n = sections.len();
    let mut sections = sections;
    let mut rev: Vec<Option<Vec<OnlineItem>>> = Vec::new();
    while sections.len() > 0
        invariant
            n == secs.len(),
            rev@.len() + sections@.len() == n,
            sections@ == secs.take(sections@.len() as int),
            forall|k: int| 0 <= k < rev@.len() ==> #[trigger] rev@[k] == secs[n - 1 - k],
        decreases sections@.len(),
    {
        let s = sections.pop().unwrap();
        rev.push(s);
        assert(sections@ =~= secs.take(sections@.len() as int));
    }
    let mut out: Vec<OnlineItem> = Vec::new();
    let mut i: usize = 0;
    while i < n
        invariant
            n == secs.len(),
            i <= n,
            rev@.len() == n - i,
            forall|k: int| 0 <= k < rev@.len() ==> #[trigger] rev@[k] == secs[n - 1 - k],
            out@ == answered_items(secs.take(i as int)),
        decreases n - i,
    {
        let s = rev.pop().unwrap();
        assert(s == secs[i as int]);
        proof {
            assert(secs.take(i + 1).drop_last() =~= secs.take(i as int));
            assert(secs.take(i + 1).last() == secs[i as int]);
        }
        match s {
            Some(mut v) => {
                out.append(&mut v);
            },
            None => {},
        }
        i += 1;
    }
    assert(secs.take(i as int) =~= secs);
    let mut blender = blender;
    out.append(&mut blender);
    out
}

} // verus!
