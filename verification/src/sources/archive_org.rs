//! archive.org as a catalog: the five Blender Foundation films kept by
//! hand, the search request, the URLs of an item's files, and which file
//! of an item is played.
use vstd::prelude::*;
use vstd::utf8::{decode_utf8, valid_utf8};
use crate::text::{lowercase, push_all, to_lower};
use crate::iptv::opt_view;
use crate::percent::{url_encode, url_encoded};

verus! {

/// An item of archive.org.
pub struct ArchiveOrgItem {
    pub identifier: String,
    pub title: String,
    pub year: Option<i64>,
    pub licenseurl: Option<String>,
    pub thumbnail_url: String,
}

/// A file of a downloaded torrent: where it lands on disk (its path
/// components) and its name on archive.org.
pub struct TorrentFileTarget {
    pub local_path: Vec<String>,
    pub archive_org_filename: String,
}

/// A file target as plain sequences.
pub struct TargetModel {
    pub local_path: Seq<Seq<char>>,
    pub archive_org_filename: Seq<char>,
}

pub open spec fn strings_view(v: Seq<String>) -> Seq<Seq<char>> {
    v.map_values(|s: String| s@)
}

impl View for TorrentFileTarget {
    type V = TargetModel;

    open spec fn view(&self) -> TargetModel {
        TargetModel { local_path: strings_view(self.local_path@), archive_org_filename: self.archive_org_filename@ }
    }
}

/// The thumbnail service URL of an item.
pub open spec fn thumbnail_of(identifier: Seq<char>) -> Seq<char> {
    "https://archive.org/services/img/"@ + identifier
}

/// The thumbnail URL of an item.
pub fn thumbnail_url(identifier: &str) -> (r: String)
    ensures
        r@ == thumbnail_of(identifier@),
{
    let mut u = "https://archive.org/services/img/".to_owned();
    push_all(&mut u, identifier);
    u
}

/// The URL a file of a torrent is downloaded from before seeding: its
/// archive.org name percent-encoded under the item.
pub fn seed_download_url(identifier: &str, archive_org_filename: &str) -> (r: String)
    ensures
        r@ == "https://archive.org/download/"@ + identifier@ + "/"@ + url_encoded(archive_org_filename@),
{
    let mut u = "https://archive.org/download/".to_owned();
    push_all(&mut u, identifier);
    push_all(&mut u, "/");
    let name = url_encode(archive_org_filename);
    push_all(&mut u, name.as_str());
    u
}

/// The URL of an item's `.torrent`.
pub fn torrent_url(identifier: &str) -> (r: String)
    ensures
        r@ == "https://archive.org/download/"@ + identifier@ + "/"@ + identifier@ + "_archive.torrent"@,
{
    let mut u = "https://archive.org/download/".to_owned();
    push_all(&mut u, identifier);
    push_all(&mut u, "/");
    push_all(&mut u, identifier);
    push_all(&mut u, "_archive.torrent");
    u
}

/// The URL of a file of an item.
pub fn download_url(identifier: &str, file_name: &str) -> (r: String)
    ensures
        r@ == "https://archive.org/download/"@ + identifier@ + "/"@ + file_name@,
{
    let mut u = "https://archive.org/download/".to_owned();
    push_all(&mut u, identifier);
    push_all(&mut u, "/");
    push_all(&mut u, file_name);
    u
}

fn item(identifier: &str, title: &str, year: Option<i64>, licenseurl: Option<&str>) -> (r: ArchiveOrgItem)
    ensures
        r.identifier@ == identifier@,
        r.title@ == title@,
        r.year == year,
        opt_view(r.licenseurl) == match licenseurl {
            Some(l) => Some(l@),
            None => None,
        },
        r.thumbnail_url@ == thumbnail_of(identifier@),
{
    ArchiveOrgItem {
        identifier: identifier.to_owned(),
        title: title.to_owned(),
        year,
        licenseurl: match licenseurl {
            Some(l) => Some(l.to_owned()),
            None => None,
        },
        thumbnail_url: thumbnail_url(identifier),
    }
}

/// The Blender Foundation open films, checked by hand to resolve to a
/// playable file on archive.org: Sintel, Big Buck Bunny, Elephants Dream,
/// Tears of Steel and Cosmos Laundromat, in that order.
pub fn blender_foundation_items() -> (r: Vec<ArchiveOrgItem>)
    ensures
        r@.len() == 5,
        r@[0].identifier@ == "Sintel"@ && r@[0].title@ == "Sintel"@ && r@[0].year == Some(2010i64)
            && opt_view(r@[0].licenseurl) == Some("http://creativecommons.org/licenses/by/3.0/"@),
        r@[1].identifier@ == "BigBuckBunny_124"@ && r@[1].title@ == "Big Buck Bunny"@ && r@[1].year
            == None::<i64> && opt_view(r@[1].licenseurl) == Some("http://creativecommons.org/licenses/by/3.0/"@),
        r@[2].identifier@ == "ElephantsDream"@ && r@[2].title@ == "Elephants Dream"@ && r@[2].year == Some(
            2006i64,
        ) && opt_view(r@[2].licenseurl) == Some("http://creativecommons.org/licenses/by/3.0/us/"@),
        r@[3].identifier@ == "tearsofsteelblendervfxopenmovie800p"@ && r@[3].title@ == "Tears of Steel"@
            && r@[3].year == Some(2012i64) && opt_view(r@[3].licenseurl) == None::<Seq<char>>,
        r@[4].identifier@ == "cosmos-laundromat"@ && r@[4].title@ == "Cosmos Laundromat"@ && r@[4].year
            == None::<i64> && opt_view(r@[4].licenseurl) == None::<Seq<char>>,
        forall|i: int| 0 <= i < 5 ==> #[trigger] r@[i].thumbnail_url@ == thumbnail_of(r@[i].identifier@),
{
    let mut v: Vec<ArchiveOrgItem> = Vec::new();
    v.push(item("Sintel", "Sintel", Some(2010), Some("http://creativecommons.org/licenses/by/3.0/")));
    v.push(item("BigBuckBunny_124", "Big Buck Bunny", None, Some("http://creativecommons.org/licenses/by/3.0/")));
    v.push(item("ElephantsDream", "Elephants Dream", Some(2006), Some("http://creativecommons.org/licenses/by/3.0/us/")));
    v.push(item("tearsofsteelblendervfxopenmovie800p", "Tears of Steel", Some(2012), None));
    v.push(item("cosmos-laundromat", "Cosmos Laundromat", None, None));
    v
}

/// The `q` parameter of a search: the query, restricted to a media type
/// when a filter that is not empty is set.
pub open spec fn search_q(query: Seq<char>, mediatype_filter: Option<Seq<char>>) -> Seq<char> {
    match mediatype_filter {
        Some(mt) if mt.len() > 0 => "("@ + query + ") AND mediatype:("@ + mt + ")"@,
        _ => query,
    }
}

/// The `q` parameter of a search.
pub fn search_query(query: &str, mediatype_filter: Option<&str>) -> (r: String)
    ensures
        r@ == search_q(query@, match mediatype_filter {
            Some(m) => Some(m@),
            None => None,
        }),
{
    match mediatype_filter {
        Some(mt) if !mt.is_empty() => {
            let mut q = "(".to_owned();
            push_all(&mut q, query);
            push_all(&mut q, ") AND mediatype:(");
            push_all(&mut q, mt);
            push_all(&mut q, ")");
            q
        },
        _ => query.to_owned(),
    }
}

/// The four sub-collections of `feature_films` that archive.org sorts by
/// genre (silent films, comedy, noir, science fiction and horror).
pub const FEATURE_FILMS_COLLECTIONS: &'static str = "silent_films OR Comedy_Films OR Film_Noir OR SciFi_Horror";

/// The query of a browse over collections: `collection:(…)`.
pub fn collection_query(collections: &str) -> (r: String)
    ensures
        r@ == "collection:("@ + collections@ + ")"@,
{
    let mut q = "collection:(".to_owned();
    push_all(&mut q, collections);
    push_all(&mut q, ")");
    q
}

/// The formats archive.org names for files the player can open.
pub open spec fn playable_format(f: Seq<char>) -> bool {
    f == "h.264"@ || f == "512kb mp4"@ || f == "mpeg4"@
}

/// A file of an item's metadata: its name and its declared format.
pub struct MetadataFile {
    pub name: String,
    pub format: Option<String>,
}

/// Whether a file's format, lower-cased, is a playable one.
pub open spec fn file_is_playable(f: MetadataFile) -> bool {
    match f.format {
        Some(fmt) => playable_format(lowercase(fmt@)),
        None => false,
    }
}

/// The first playable file of `files` from `i` on.
pub open spec fn first_playable(files: Seq<MetadataFile>, i: int) -> Option<int>
    decreases files.len() - i,
{
    if i < 0 || i >= files.len() {
        None
    } else if file_is_playable(files[i]) {
        Some(i)
    } else {
        first_playable(files, i + 1)
    }
}

/// The URL of the file of an item that is played: the first file whose
/// format (case aside) is `h.264`, `512kb mp4` or `mpeg4`.
pub fn primary_video_url(identifier: &str, files: &Vec<MetadataFile>) -> (r: Result<String, String>)
    ensures
        match r {
            Ok(u) => first_playable(files@, 0) matches Some(i) && u@ == "https://archive.org/download/"@ + identifier@
                + "/"@ + files@[i].name@,
            Err(e) => first_playable(files@, 0) is None
                && e@ == "no se encontró un archivo de video reproducible en el ítem"@,
        },
{
    let mut i: usize = 0;
    while i < files.len()
        invariant
            i <= files@.len(),
            first_playable(files@, 0) == first_playable(files@, i as int),
        decreases files@.len() - i,
    {
        let playable = match &files[i].format {
            Some(fmt) => {
                let l = to_lower(fmt.as_str());
                l == "h.264".to_owned() || l == "512kb mp4".to_owned() || l == "mpeg4".to_owned()
            },
            None => false,
        };
        if playable {
            return Ok(download_url(identifier, files[i].name.as_str()));
        }
        i += 1;
    }
    Err("no se encontró un archivo de video reproducible en el ítem".to_owned())
}

/// The files of a `.torrent` as its metadata lists them.
pub struct TorrentListing {
    /// The raw bytes of the torrent's `name`, if it has one.
    pub name: Option<Vec<u8>>,
    /// Each file's path components, decoded in the torrent's encoding.
    pub files: Vec<Vec<String>>,
}

/// A torrent listing as plain sequences.
pub struct ListingModel {
    pub name: Option<Seq<u8>>,
    pub files: Seq<Seq<Seq<char>>>,
}

impl View for TorrentListing {
    type V = ListingModel;

    open spec fn view(&self) -> ListingModel {
        ListingModel {
            name: match self.name {
                Some(n) => Some(n@),
                None => None,
            },
            files: self.files@.map_values(|f: Vec<String>| strings_view(f@)),
        }
    }
}

/// Why a `.torrent` could not be listed.
#[derive(PartialEq, Eq, Structural)]
pub enum TorrentReadError {
    /// The bytes are not a bencoded torrent.
    Unparsable,
    /// The torrent's file layout is invalid.
    BadLayout,
}

/// The layout numbers a `.torrent` declares in its info dictionary.
pub struct TorrentLayout {
    /// Its `piece length`.
    pub piece_length: u32,
    /// The `length` of a single-file torrent.
    pub length: Option<u64>,
    /// The `length` of each entry of `files`, in a multi-file torrent.
    pub file_lengths: Option<Vec<u64>>,
}

/// A torrent layout as plain values.
pub struct LayoutModel {
    pub piece_length: u32,
    pub length: Option<u64>,
    pub file_lengths: Option<Seq<u64>>,
}

impl View for TorrentLayout {
    type V = LayoutModel;

    open spec fn view(&self) -> LayoutModel {
        LayoutModel {
            piece_length: self.piece_length,
            length: self.length,
            file_lengths: match self.file_lengths {
                Some(v) => Some(v@),
                None => None,
            },
        }
    }
}

/// The layout `librqbit-core`'s `torrent_from_bytes` reads from some
/// bytes; none when they are not a torrent.
pub uninterp spec fn torrent_layout(bytes: Seq<u8>) -> Option<LayoutModel>;

/// Calls `torrent_from_bytes` and hands back the layout numbers of the
/// info dictionary it parsed, or `None` when it fails.
#[verifier::external_body]
fn read_layout(bytes: &[u8]) -> (r: Option<TorrentLayout>)
    ensures
        match r {
            Some(l) => torrent_layout(bytes@) == Some(l@),
            None => torrent_layout(bytes@) is None,
        },
{
    match librqbit_core::torrent_metainfo::torrent_from_bytes(bytes) {
        Ok(m) => Some(
            TorrentLayout {
                piece_length: m.info.data.piece_length,
                length: m.info.data.length,
                file_lengths: m.info.data.files.as_ref().map(|fs| fs.iter().map(|f| f.length).collect()),
            },
        ),
        Err(_) => None,
    }
}

/// The sum of some lengths.
pub open spec fn length_sum(s: Seq<u64>) -> int
    decreases s.len(),
{
    if s.len() == 0 {
        0
    } else {
        length_sum(s.drop_last()) + s.last()
    }
}

/// The total length of a layout, where it has one: the single file's
/// length, or the sum of the lengths of one file or more.
pub open spec fn layout_total(l: LayoutModel) -> Option<int> {
    match (l.length, l.file_lengths) {
        (Some(n), None) => Some(n as int),
        (None, Some(fs)) => if fs.len() > 0 {
            Some(length_sum(fs))
        } else {
            None
        },
        _ => None,
    }
}

/// `ceil(t / p)` for positive `p`.
pub open spec fn ceil_div(t: int, p: int) -> int {
    t / p + if t % p == 0 {
        0int
    } else {
        1int
    }
}

/// A layout on which `validate` returns: its total length, where it has
/// one, is zero or fits in 64 bits with a nonzero piece length, and its
/// number of pieces is not a multiple of 2^32 (the piece count is kept
/// in 32 bits and one is taken from it).
pub open spec fn layout_sound(l: LayoutModel) -> bool {
    match layout_total(l) {
        None => true,
        Some(t) => t == 0 || (t <= u64::MAX && l.piece_length > 0 && ceil_div(t, l.piece_length as int)
            % 0x1_0000_0000 != 0),
    }
}

proof fn lemma_length_sum_step(s: Seq<u64>, i: int)
    requires
        0 <= i < s.len(),
    ensures
        length_sum(s.take(i + 1)) == length_sum(s.take(i)) + s[i],
{
    assert(s.take(i + 1).drop_last() =~= s.take(i));
}

/// Whether a layout is sound (see `layout_sound`).
pub fn layout_is_sound(l: &TorrentLayout) -> (r: bool)
    ensures
        r == layout_sound(l@),
{
    let total: u128 = match (&l.length, &l.file_lengths) {
        (Some(n), None) => *n as u128,
        (None, Some(fs)) => {
            if fs.len() == 0 {
                return true;
            }
            let mut acc: u128 = 0;
            let mut i: usize = 0;
            while i < fs.len()
                invariant
                    i <= fs@.len(),
                    acc == length_sum(fs@.take(i as int)),
                    acc <= i * 0xFFFF_FFFF_FFFF_FFFFu128,
                decreases fs@.len() - i,
            {
                proof {
                    lemma_length_sum_step(fs@, i as int);
                }
                assert(acc + fs@[i as int] <= (i + 1) * 0xFFFF_FFFF_FFFF_FFFFu128) by (nonlinear_arith)
                    requires
                        acc <= i * 0xFFFF_FFFF_FFFF_FFFFu128,
                        fs@[i as int] <= 0xFFFF_FFFF_FFFF_FFFFu64,
                ;
                assert((i + 1) * 0xFFFF_FFFF_FFFF_FFFFu128 <= 0x1_0000_0000_0000_0000u128 * 0xFFFF_FFFF_FFFF_FFFFu128)
                    by (nonlinear_arith)
                    requires
                        i + 1 <= 0x1_0000_0000_0000_0000u128,
                ;
                acc = acc + fs[i] as u128;
                i += 1;
            }
            assert(fs@.take(i as int) =~= fs@);
            acc
        },
        _ => {
            return true;
        },
    };
    if total == 0 {
        return true;
    }
    if total > 0xFFFF_FFFF_FFFF_FFFFu128 || l.piece_length == 0 {
        return false;
    }
    let p: u128 = l.piece_length as u128;
    let q: u128 = total / p + if total % p == 0 {
        0u128
    } else {
        1u128
    };
    q % 0x1_0000_0000 != 0
}

/// The listing `librqbit-core` reads from the bytes of a `.torrent`
/// (`torrent_from_bytes`, then `validate` of its info dictionary, then its
/// files' path components).
pub uninterp spec fn torrent_listing(bytes: Seq<u8>) -> Result<ListingModel, TorrentReadError>;

/// Reads a `.torrent` with `librqbit-core`: `torrent_from_bytes` parses
/// the bencode (failing: `Unparsable`), `validate` checks the file layout
/// (failing: `BadLayout`), and `iter_file_details` lists each file's path
/// components. `validate` divides by the piece length and takes one from
/// the piece count, so it is only called on sound layouts. The contract
/// only names the result.
#[verifier::external_body]
fn read_torrent(bytes: &[u8]) -> (r: Result<TorrentListing, TorrentReadError>)
    requires
        torrent_layout(bytes@) matches Some(l) ==> layout_sound(l),
    ensures
        match r {
            Ok(l) => torrent_listing(bytes@) == Ok::<ListingModel, TorrentReadError>(l@),
            Err(e) => torrent_listing(bytes@) == Err::<ListingModel, TorrentReadError>(e),
        },
{
    let meta = match librqbit_core::torrent_metainfo::torrent_from_bytes(bytes) {
        Ok(m) => m,
        Err(_) => return Err(TorrentReadError::Unparsable),
    };
    let name = meta.info.data.name.as_ref().map(|n| n.as_ref().to_vec());
    let info = match meta.info.data.validate() {
        Ok(i) => i,
        Err(_) => return Err(TorrentReadError::BadLayout),
    };
    let files = info.iter_file_details().map(|f| f.filename.iter_components().map(|c| c.into_owned()).collect()).collect();
    Ok(TorrentListing { name, files })
}

/// `String::from_utf8_lossy` of some bytes.
pub uninterp spec fn lossy_utf8(b: Seq<u8>) -> Seq<char>;

/// Calls `String::from_utf8_lossy`, which decodes UTF-8 and replaces each
/// invalid sequence by U+FFFD: valid UTF-8 decodes as it is, and the text
/// is empty exactly when the bytes are.
#[verifier::external_body]
fn utf8_lossy(b: &[u8]) -> (r: String)
    ensures
        r@ == lossy_utf8(b@),
        valid_utf8(b@) ==> r@ == decode_utf8(b@),
        r@.len() == 0 <==> b@.len() == 0,
{
    String::from_utf8_lossy(b).into_owned()
}

/// The folder a torrent of two or more files is saved under: its name,
/// read as UTF-8, when it has one that is not empty.
pub open spec fn subfolder_of(l: ListingModel) -> Option<Seq<char>> {
    if l.files.len() >= 2 {
        match l.name {
            Some(n) => if lossy_utf8(n).len() > 0 {
                Some(lossy_utf8(n))
            } else {
                None
            },
            None => None,
        }
    } else {
        None
    }
}

/// The name `Path::file_name` gives for the path built by pushing these
/// components in order: its last component that is neither empty nor `.`
/// (those leave the path's name as it was), and none when that component
/// is `..` or there is no such component.
pub open spec fn file_name_of(comps: Seq<Seq<char>>) -> Option<Seq<char>>
    decreases comps.len(),
{
    if comps.len() == 0 {
        None
    } else if comps.last() == ""@ || comps.last() == "."@ {
        file_name_of(comps.drop_last())
    } else if comps.last() == ".."@ {
        None
    } else {
        Some(comps.last())
    }
}

/// Where a file with these path components lands, and its name on
/// archive.org (the name of its path); none when its path has no name.
pub open spec fn target_of(sub: Option<Seq<char>>, comps: Seq<Seq<char>>) -> Option<TargetModel> {
    match file_name_of(comps) {
        None => None,
        Some(n) => Some(
            TargetModel {
                local_path: match sub {
                    Some(s) => seq![s] + comps,
                    None => comps,
                },
                archive_org_filename: n,
            },
        ),
    }
}

/// The name of the path built from a file's components (see
/// `file_name_of`).
fn file_name_exec(comps: &Vec<String>) -> (r: Option<String>)
    ensures
        opt_view(r) == file_name_of(strings_view(comps@)),
{
    let ghost sv = strings_view(comps@);
    let mut j: usize = comps.len();
    assert(sv.take(j as int) =~= sv);
    while j > 0
        invariant
            j <= comps@.len(),
            sv == strings_view(comps@),
            file_name_of(sv) == file_name_of(sv.take(j as int)),
        decreases j,
    {
        let c = comps[j - 1].clone();
        assert(sv.take(j as int).last() == c@);
        assert(sv.take(j as int).drop_last() =~= sv.take(j - 1));
        if c == "".to_owned() || c == ".".to_owned() {
            j -= 1;
        } else if c == "..".to_owned() {
            return None;
        } else {
            return Some(c);
        }
    }
    assert(sv.take(0) =~= Seq::<Seq<char>>::empty());
    None
}

/// The targets of the first `n` files of a listing.
pub open spec fn targets_upto(l: ListingModel, n: int) -> Option<Seq<TargetModel>>
    decreases n,
{
    if n <= 0 {
        Some(seq![])
    } else {
        match (targets_upto(l, n - 1), target_of(subfolder_of(l), l.files[n - 1])) {
            (Some(ts), Some(t)) => Some(ts.push(t)),
            _ => None,
        }
    }
}

/// The targets of every file of a listing, in order; none if a file has
/// no name.
pub open spec fn targets_of(l: ListingModel) -> Option<Seq<TargetModel>> {
    targets_upto(l, l.files.len() as int)
}

/// Where each file of a listed `.torrent` must be placed before the
/// torrent is added (under the torrent's name when it holds two or more
/// files), with its name on archive.org; `None` when a file has no path.
pub fn torrent_file_targets(listing: &TorrentListing) -> (r: Option<Vec<TorrentFileTarget>>)
    ensures
        match r {
            Some(v) => targets_of(listing@) == Some(v@.map_values(|t: TorrentFileTarget| t@)),
            None => targets_of(listing@) is None,
        },
{
    let ghost l = listing@;
    let sub: Option<String> = if listing.files.len() >= 2 {
        match &listing.name {
            Some(n) => {
                let s = utf8_lossy(n.as_slice());
                if s.as_str().is_empty() {
                    None
                } else {
                    Some(s)
                }
            },
            None => None,
        }
    } else {
        None
    };
    assert(opt_view(sub) == subfolder_of(l));
    let mut out: Vec<TorrentFileTarget> = Vec::new();
    let mut i: usize = 0;
    while i < listing.files.len()
        invariant
            i <= listing.files@.len(),
            l == listing@,
            opt_view(sub) == subfolder_of(l),
            targets_upto(l, i as int) == Some(out@.map_values(|t: TorrentFileTarget| t@)),
        decreases listing.files@.len() - i,
    {
        let comps = &listing.files[i];
        assert(strings_view(comps@) == l.files[i as int]);
        let name = match file_name_exec(comps) {
            Some(n) => n,
            None => {
                assert(targets_upto(l, i + 1) is None);
                proof {
                    lemma_targets_stay_none(l, i + 1, l.files.len() as int);
                }
                return None;
            },
        };
        let mut path: Vec<String> = Vec::new();
        match &sub {
            Some(s) => path.push(s.clone()),
            None => {},
        }
        let ghost prefix = strings_view(path@);
        let mut k: usize = 0;
        while k < comps.len()
            invariant
                k <= comps@.len(),
                strings_view(path@) == prefix + strings_view(comps@).take(k as int),
            decreases comps@.len() - k,
        {
            let ghost before = strings_view(path@);
            path.push(comps[k].clone());
            assert(strings_view(path@) =~= before.push(comps@[k as int]@));
            assert(strings_view(comps@).take(k + 1) =~= strings_view(comps@).take(k as int).push(comps@[k as int]@));
            k += 1;
        }
        assert(strings_view(comps@).take(k as int) =~= strings_view(comps@));
        let t = TorrentFileTarget { local_path: path, archive_org_filename: name };
        proof {
            if sub is Some {
                assert(prefix =~= seq![sub->0@]);
            } else {
                assert(prefix =~= Seq::<Seq<char>>::empty());
            }
            assert(t@ == target_of(subfolder_of(l), l.files[i as int])->0);
        }
        let ghost before = out@.map_values(|x: TorrentFileTarget| x@);
        out.push(t);
        assert(out@.map_values(|x: TorrentFileTarget| x@) =~= before.push(t@));
        i += 1;
    }
    Some(out)
}

proof fn lemma_targets_stay_none(l: ListingModel, i: int, n: int)
    requires
        0 <= i <= n,
        targets_upto(l, i) is None,
    ensures
        targets_upto(l, n) is None,
    decreases n - i,
{
    if i < n {
        lemma_targets_stay_none(l, i + 1, n);
    }
}

/// The path a file with these components lands at, under `sub` if set.
pub open spec fn placed_path(sub: Option<Seq<char>>, comps: Seq<Seq<char>>) -> Seq<Seq<char>> {
    match sub {
        Some(s) => seq![s] + comps,
        None => comps,
    }
}

/// File `i` of a listed torrent has a name and lands at its path
/// components (under the torrent's folder when it has one), named on
/// archive.org by the name of its path.
pub open spec fn file_placed(l: ListingModel, ts: Seq<TargetModel>, i: int) -> bool {
    &&& file_name_of(l.files[i]) is Some
    &&& ts[i].archive_org_filename == file_name_of(l.files[i])->0
    &&& ts[i].local_path == placed_path(subfolder_of(l), l.files[i])
}

/// Every file of a listed torrent gets a target, in order: its path
/// components under the torrent's folder (the same for all files, and
/// only with two files or more), named on archive.org by the name of its
/// path.
pub proof fn every_torrent_file_gets_a_target(l: ListingModel)
    requires
        targets_of(l) is Some,
    ensures
        targets_of(l)->0.len() == l.files.len(),
        forall|i: int| 0 <= i < l.files.len() ==> #[trigger] file_placed(l, targets_of(l)->0, i),
        l.files.len() < 2 ==> subfolder_of(l) is None,
{
    lemma_targets_upto(l, l.files.len() as int);
    let ts = targets_of(l)->0;
    assert forall|i: int| 0 <= i < l.files.len() implies #[trigger] file_placed(l, ts, i) by {
        assert(ts[i] == target_of(subfolder_of(l), l.files[i])->0);
        assert(target_of(subfolder_of(l), l.files[i]) is Some);
    }
}

proof fn lemma_targets_upto(l: ListingModel, n: int)
    requires
        0 <= n <= l.files.len(),
        targets_upto(l, n) is Some,
    ensures
        targets_upto(l, n)->0.len() == n,
        forall|i: int|
            0 <= i < n ==> targets_upto(l, n)->0[i] == target_of(subfolder_of(l), l.files[i])->0 && target_of(
                subfolder_of(l),
                l.files[i],
            ) is Some,
    decreases n,
{
    if n > 0 {
        lemma_targets_upto(l, n - 1);
    }
}

/// What resolving the files of a `.torrent` gives: a layout that cannot
/// be validated is refused before the files are listed.
pub open spec fn resolved_targets(bytes: Seq<u8>) -> Result<Seq<TargetModel>, Seq<char>> {
    if torrent_layout(bytes) matches Some(l) && !layout_sound(l) {
        Err("estructura de archivos del .torrent inválida"@)
    } else {
        listed_targets(bytes)
    }
}

/// What listing the files of a `.torrent` gives.
pub open spec fn listed_targets(bytes: Seq<u8>) -> Result<Seq<TargetModel>, Seq<char>> {
    match torrent_listing(bytes) {
        Err(TorrentReadError::Unparsable) => Err("no se pudo parsear el .torrent"@),
        Err(TorrentReadError::BadLayout) => Err("estructura de archivos del .torrent inválida"@),
        Ok(l) => match targets_of(l) {
            Some(ts) => Ok(ts),
            None => Err("archivo sin nombre válido dentro del .torrent"@),
        },
    }
}

/// For every file of a `.torrent` (all of them, not only the played one),
/// where it must sit under the engine's download folder before the torrent
/// is added, and its name on archive.org.
pub fn resolve_torrent_files(torrent_bytes: &[u8]) -> (r: Result<Vec<TorrentFileTarget>, String>)
    ensures
        match r {
            Ok(v) => resolved_targets(torrent_bytes@) == Ok::<Seq<TargetModel>, Seq<char>>(
                v@.map_values(|t: TorrentFileTarget| t@),
            ),
            Err(e) => resolved_targets(torrent_bytes@) == Err::<Seq<TargetModel>, Seq<char>>(e@),
        },
{
    match read_layout(torrent_bytes) {
        Some(l) => {
            if !layout_is_sound(&l) {
                return Err("estructura de archivos del .torrent inválida".to_owned());
            }
        },
        None => {},
    }
    match read_torrent(torrent_bytes) {
        Err(TorrentReadError::Unparsable) => Err("no se pudo parsear el .torrent".to_owned()),
        Err(TorrentReadError::BadLayout) => Err("estructura de archivos del .torrent inválida".to_owned()),
        Ok(listing) => match torrent_file_targets(&listing) {
            Some(v) => Ok(v),
            None => Err("archivo sin nombre válido dentro del .torrent".to_owned()),
        },
    }
}


proof fn lemma_first_playable_at_least(files: Seq<MetadataFile>, m: int)
    ensures
        first_playable(files, m) matches Some(x) ==> m <= x,
    decreases files.len() - m,
{
    if 0 <= m < files.len() && !file_is_playable(files[m]) {
        lemma_first_playable_at_least(files, m + 1);
    }
}

proof fn lemma_first_playable(files: Seq<MetadataFile>, k: int, i: int)
    requires
        0 <= k <= i,
    ensures
        first_playable(files, k) == Some(i) <==> (i < files.len() && file_is_playable(files[i]) && forall|j: int|
            k <= j < i ==> !file_is_playable(#[trigger] files[j])),
    decreases i - k,
{
    lemma_first_playable_at_least(files, k + 1);
    if k < i && k < files.len() {
        if file_is_playable(files[k]) {
            assert(first_playable(files, k) == Some(k));
        } else {
            lemma_first_playable(files, k + 1, i);
            assert(first_playable(files, k) == first_playable(files, k + 1));
            if first_playable(files, k + 1) == Some(i) {
                assert forall|j: int| k <= j < i implies !file_is_playable(#[trigger] files[j]) by {
                    if j == k {
                    }
                }
            }
        }
    }
}

/// The file played is the first one whose format, lower-cased, is
/// `h.264`, `512kb mp4` or `mpeg4`: file `i` is played exactly when its
/// format is one of those and no earlier file's is.
pub proof fn the_first_file_in_a_video_format_is_played(files: Seq<MetadataFile>, i: int)
    requires
        0 <= i,
    ensures
        first_playable(files, 0) == Some(i) <==> (i < files.len() && (files[i].format matches Some(f) && (
        lowercase(f@) == "h.264"@ || lowercase(f@) == "512kb mp4"@ || lowercase(f@) == "mpeg4"@)) && forall|
            j: int,
        |
            0 <= j < i ==> !((#[trigger] files[j]).format matches Some(g) && (lowercase(g@) == "h.264"@
                || lowercase(g@) == "512kb mp4"@ || lowercase(g@) == "mpeg4"@))),
{
    lemma_first_playable(files, 0, i);
}

} // verus!
