//! Window-button glyphs taken from the active Aurorae decoration theme of
//! KDE: the `[org.kde.kdecoration2]` section of `kwinrc` says which theme
//! is active, and each glyph becomes a `data:` URI. Reading the files is
//! the caller's.
use vstd::prelude::*;
use vstd::utf8::encode_utf8;
use base64::Engine;
use crate::iptv::opt_view;
use crate::svg::{active_center_of, active_center_svg};
use crate::text::{
    chars_of, find_char, find_char_exec, line_at, line_at_exec, lemma_line_at, matches_at, matches_at_exec,
    push_all, string_of, trim_bounds, trim_hi, trim_lo, trimmed,
};

verus! {

/// The decoration library of Aurorae themes.
pub open spec fn aurorae_library() -> Seq<char> {
    "org.kde.kwin.aurorae"@
}

/// The prefix of an Aurorae theme's key in `kwinrc`.
pub open spec fn aurorae_theme_prefix() -> Seq<char> {
    "__aurorae__svg__"@
}

/// A trimmed line that is a section header `[name]`.
pub open spec fn is_header(t: Seq<char>) -> bool {
    t.len() >= 2 && t[0] == '[' && t.last() == ']'
}

/// The key/value pairs of a section (as a map, a later key wins).
pub open spec fn pairs_map(p: Seq<(Seq<char>, Seq<char>)>) -> Map<Seq<char>, Seq<char>>
    decreases p.len(),
{
    if p.len() == 0 {
        Map::empty()
    } else {
        pairs_map(p.drop_last()).insert(p.last().0, p.last().1)
    }
}

/// The pairs of section `name` read from the lines of `s` that start at
/// `pos` on, given whether the scan is inside the section and the pairs
/// read so far. Each line is trimmed to `[a, b)`; the scan stops at the
/// first header `[…]` after the section; inside it every line with `=`
/// gives the trimmed text on each side of its first `=`.
pub open spec fn ini_scan(
    s: Seq<char>,
    pos: int,
    inside: bool,
    acc: Seq<(Seq<char>, Seq<char>)>,
    name: Seq<char>,
) -> Seq<(Seq<char>, Seq<char>)>
    decreases s.len() - pos,
{
    if pos < 0 || pos >= s.len() {
        acc
    } else {
        let (lo, hi, next) = line_at(s, pos);
        proof {
            lemma_line_at(s, pos);
        }
        let a = trim_lo(s, lo, hi);
        let b = trim_hi(s, a, hi);
        if b - a >= 2 && s[a] == '[' && s[b - 1] == ']' {
            if inside {
                acc
            } else {
                ini_scan(s, next, s.subrange(a + 1, b - 1) == name, acc, name)
            }
        } else if inside && find_char(s, '=', a, b) < b {
            let e = find_char(s, '=', a, b);
            ini_scan(s, next, inside, acc.push((trimmed(s, a, e), trimmed(s, e + 1, b))), name)
        } else {
            ini_scan(s, next, inside, acc, name)
        }
    }
}

/// The key/value pairs of section `name` of an INI text, in order (a later
/// key overrides an earlier one); `None` when there are none.
pub open spec fn ini_section_of(contents: Seq<char>, name: Seq<char>) -> Option<Seq<(Seq<char>, Seq<char>)>> {
    let p = ini_scan(contents, 0, false, seq![], name);
    if p.len() == 0 {
        None
    } else {
        Some(p)
    }
}

pub open spec fn pair_views(p: Seq<(String, String)>) -> Seq<(Seq<char>, Seq<char>)> {
    p.map_values(|e: (String, String)| (e.0@, e.1@))
}

/// The flat `key=value` section `section_name` of an INI file (such as
/// `kwinrc`): its pairs in order, a later key overriding an earlier one;
/// `None` when the section is missing or empty.
pub fn ini_section(contents: &str, section_name: &str) -> (r: Option<Vec<(String, String)>>)
    ensures
        match r {
            Some(p) => ini_section_of(contents@, section_name@) == Some(pair_views(p@)),
            None => ini_section_of(contents@, section_name@) is None,
        },
{
    let v = chars_of(contents);
    let name = chars_of(section_name);
    let mut out: Vec<(String, String)> = Vec::new();
    let mut inside = false;
    let mut done = false;
    let mut pos: usize = 0;
    assert(pair_views(out@) =~= Seq::<(Seq<char>, Seq<char>)>::empty());
    while pos < v.len() && !done
        invariant
            v@ == contents@,
            name@ == section_name@,
            pos <= v@.len(),
            !done ==> ini_scan(v@, 0, false, seq![], name@) == ini_scan(v@, pos as int, inside, pair_views(out@), name@),
            done ==> ini_scan(v@, 0, false, seq![], name@) == pair_views(out@),
        decreases (v@.len() - pos) * 2 + (if done {
            0int
        } else {
            1int
        }),
    {
        let (lo, hi, next) = line_at_exec(&v, pos);
        let (a, b) = trim_bounds(&v, lo, hi);
        if b - a >= 2 && v[a] == '[' && v[b - 1] == ']' {
            if inside {
                done = true;
            } else {
                let mut same = b - a - 2 == name.len();
                if same {
                    let mut k: usize = 0;
                    while k < name.len()
                        invariant
                            b - a - 2 == name@.len(),
                            a + 1 + name@.len() < b <= v@.len(),
                            k <= name@.len(),
                            same <==> forall|j: int| 0 <= j < k ==> v@[a + 1 + j] == name@[j],
                        decreases name@.len() - k,
                    {
                        if v[a + 1 + k] != name[k] {
                            same = false;
                        }
                        k += 1;
                    }
                }
                assert(same <==> v@.subrange(a + 1, b - 1) =~= name@) by {
                    if v@.subrange(a + 1, b - 1) =~= name@ {
                        assert forall|j: int| 0 <= j < name@.len() implies v@[a + 1 + j] == name@[j] by {
                            assert(v@.subrange(a + 1, b - 1)[j] == v@[a + 1 + j]);
                        }
                    }
                }
                inside = same;
                pos = next;
            }
        } else {
            if inside {
                let eq = find_char_exec(&v, '=', a, b);
                if eq < b {
                    let (ka, kb) = trim_bounds(&v, a, eq);
                    let (va, vb) = trim_bounds(&v, eq + 1, b);
                    let ghost before = pair_views(out@);
                    out.push((string_of(&v, ka, kb), string_of(&v, va, vb)));
                    assert(pair_views(out@) =~= before.push(
                        (trimmed(v@, a as int, eq as int), trimmed(v@, eq + 1, b as int)),
                    ));
                }
            }
            pos = next;
        }
    }
    if out.len() == 0 {
        None
    } else {
        Some(out)
    }
}

/// The value of the last pair with key `key`.
pub fn ini_get(section: &Vec<(String, String)>, key: &str) -> (r: Option<String>)
    ensures
        match r {
            Some(v) => pairs_map(pair_views(section@)).contains_key(key@) && pairs_map(pair_views(section@))[key@] == v@,
            None => !pairs_map(pair_views(section@)).contains_key(key@),
        },
{
    let k = key.to_owned();
    let ghost p = pair_views(section@);
    let mut i = section.len();
    while i > 0
        invariant
            i <= section@.len(),
            p == pair_views(section@),
            k@ == key@,
            forall|j: int| i <= j < section@.len() ==> section@[j].0@ != key@,
        decreases i,
    {
        if section[i - 1].0 == k {
            proof {
                lemma_pairs_map_last(p, (i - 1) as int, key@);
            }
            return Some(section[i - 1].1.clone());
        }
        i -= 1;
    }
    proof {
        lemma_pairs_map_absent(p, key@);
    }
    None
}

/// The last pair with the key decides its value.
pub proof fn lemma_pairs_map_last(p: Seq<(Seq<char>, Seq<char>)>, i: int, key: Seq<char>)
    requires
        0 <= i < p.len(),
        p[i].0 == key,
        forall|j: int| i < j < p.len() ==> p[j].0 != key,
    ensures
        pairs_map(p).contains_key(key),
        pairs_map(p)[key] == p[i].1,
    decreases p.len(),
{
    if i < p.len() - 1 {
        lemma_pairs_map_last(p.drop_last(), i, key);
    }
}

pub proof fn lemma_pairs_map_absent(p: Seq<(Seq<char>, Seq<char>)>, key: Seq<char>)
    requires
        forall|j: int| 0 <= j < p.len() ==> p[j].0 != key,
    ensures
        !pairs_map(p).contains_key(key),
    decreases p.len(),
{
    if p.len() > 0 {
        lemma_pairs_map_absent(p.drop_last(), key);
    }
}

/// The Aurorae theme a decoration section names: when its `library` is
/// Aurorae's, the name after the prefix of its `theme`.
pub fn aurorae_theme_name(section: &Vec<(String, String)>) -> (r: Option<String>)
    ensures
        match r {
            Some(n) => {
                let m = pairs_map(pair_views(section@));
                &&& m.contains_key("library"@) && m["library"@] == aurorae_library()
                &&& m.contains_key("theme"@) && m["theme"@] == aurorae_theme_prefix() + n@
            },
            None => {
                let m = pairs_map(pair_views(section@));
                !(m.contains_key("library"@) && m["library"@] == aurorae_library() && m.contains_key("theme"@)
                    && matches_at(m["theme"@], 0, aurorae_theme_prefix()))
            },
        },
{
    let lib = match ini_get(section, "library") {
        Some(l) => l,
        None => {
            return None;
        },
    };
    if !(lib == "org.kde.kwin.aurorae".to_owned()) {
        return None;
    }
    let theme = match ini_get(section, "theme") {
        Some(t) => t,
        None => {
            return None;
        },
    };
    let tv = chars_of(theme.as_str());
    let prefix = chars_of("__aurorae__svg__");
    if !matches_at_exec(&tv, 0, &prefix) {
        return None;
    }
    let name = string_of(&tv, prefix.len(), tv.len());
    assert(tv@ =~= prefix@ + name@);
    Some(name)
}

/// The character of a 6-bit value in the standard Base64 alphabet
/// (`A`–`Z`, `a`–`z`, `0`–`9`, `+`, `/`).
pub open spec fn base64_char(x: int) -> char {
    if x < 26 {
        (65 + x) as char
    } else if x < 52 {
        (97 + x - 26) as char
    } else if x < 62 {
        (48 + x - 52) as char
    } else if x == 62 {
        '+'
    } else {
        '/'
    }
}

/// The standard Base64 encoding (RFC 4648, with `=` padding) of some
/// bytes: every group of three bytes becomes four characters, six bits
/// each; a last group of one or two bytes is padded with zero bits and
/// `=`.
pub open spec fn base64_standard(b: Seq<u8>) -> Seq<char>
    decreases b.len(),
{
    if b.len() == 0 {
        seq![]
    } else {
        let x0 = b[0] as int;
        let x1 = if b.len() > 1 { b[1] as int } else { 0 };
        let x2 = if b.len() > 2 { b[2] as int } else { 0 };
        let first = seq![base64_char(x0 / 4), base64_char((x0 % 4) * 16 + x1 / 16)];
        if b.len() == 1 {
            first + seq!['=', '=']
        } else if b.len() == 2 {
            first + seq![base64_char((x1 % 16) * 4), '=']
        } else {
            first + seq![base64_char((x1 % 16) * 4 + x2 / 64), base64_char(x2 % 64)] + base64_standard(
                b.subrange(3, b.len() as int),
            )
        }
    }
}

/// Calls `base64::engine::general_purpose::STANDARD.encode` on the UTF-8
/// bytes of `s`, which writes their standard Base64 encoding with padding.
#[verifier::external_body]
fn encode_base64(s: &str) -> (r: String)
    ensures
        r@ == base64_standard(encode_utf8(s@)),
{
    base64::engine::general_purpose::STANDARD.encode(s)
}

/// A standalone SVG document as a `data:` URI.
pub fn svg_data_uri(svg: &str) -> (r: String)
    ensures
        r@ == "data:image/svg+xml;base64,"@ + base64_standard(encode_utf8(svg@)),
{
    let mut u = "data:image/svg+xml;base64,".to_owned();
    let enc = encode_base64(svg);
    push_all(&mut u, enc.as_str());
    u
}

/// The glyphs found, keyed `close`, `minimize`, `maximize`, `restore` (in
/// that order, the missing ones left out); `None` when none was found.
fn glyph_list(
    close: Option<String>,
    minimize: Option<String>,
    maximize: Option<String>,
    restore: Option<String>,
) -> (r: Option<Vec<(String, String)>>)
    ensures
        r is None <==> close is None && minimize is None && maximize is None && restore is None,
        r matches Some(p) ==> pair_views(p@) == glyph_pairs(close, minimize, maximize, restore),
{
    let mut out: Vec<(String, String)> = Vec::new();
    if let Some(c) = close {
        out.push(("close".to_owned(), c));
    }
    if let Some(c) = minimize {
        out.push(("minimize".to_owned(), c));
    }
    if let Some(c) = maximize {
        out.push(("maximize".to_owned(), c));
    }
    if let Some(c) = restore {
        out.push(("restore".to_owned(), c));
    }
    assert(pair_views(out@) =~= glyph_pairs(close, minimize, maximize, restore));
    if out.len() == 0 {
        None
    } else {
        Some(out)
    }
}

pub open spec fn glyph(key: Seq<char>, v: Option<String>) -> Seq<(Seq<char>, Seq<char>)> {
    match v {
        Some(s) => seq![(key, s@)],
        None => seq![],
    }
}

pub open spec fn glyph_pairs(
    close: Option<String>,
    minimize: Option<String>,
    maximize: Option<String>,
    restore: Option<String>,
) -> Seq<(Seq<char>, Seq<char>)> {
    glyph("close"@, close) + glyph("minimize"@, minimize) + glyph("maximize"@, maximize) + glyph(
        "restore"@,
        restore,
    )
}


/// The prefix of every glyph's `data:` URI.
pub open spec fn svg_uri_prefix() -> Seq<char> {
    "data:image/svg+xml;base64,"@
}

/// The glyph an SVG file of the theme gives, as a `data:` URI: its
/// `active-center` element as a standalone SVG; none when the file could
/// not be read or has no such element.
pub open spec fn glyph_uri(contents: Option<Seq<char>>) -> Option<Seq<char>> {
    match contents {
        Some(c) => match active_center_of(c) {
            Some(svg) => Some(svg_uri_prefix() + base64_standard(encode_utf8(svg))),
            None => None,
        },
        None => None,
    }
}

pub open spec fn uri_glyph(key: Seq<char>, v: Option<Seq<char>>) -> Seq<(Seq<char>, Seq<char>)> {
    match v {
        Some(s) => seq![(key, s)],
        None => seq![],
    }
}

/// The glyphs of the four files, keyed `close`, `minimize`, `maximize`,
/// `restore` in that order, the missing ones left out.
pub open spec fn theme_glyph_pairs(
    close: Option<Seq<char>>,
    minimize: Option<Seq<char>>,
    maximize: Option<Seq<char>>,
    restore: Option<Seq<char>>,
) -> Seq<(Seq<char>, Seq<char>)> {
    uri_glyph("close"@, glyph_uri(close)) + uri_glyph("minimize"@, glyph_uri(minimize)) + uri_glyph(
        "maximize"@,
        glyph_uri(maximize),
    ) + uri_glyph("restore"@, glyph_uri(restore))
}

fn glyph_of(contents: Option<String>) -> (r: Option<String>)
    ensures
        opt_view(r) == glyph_uri(opt_view(contents)),
{
    match contents {
        Some(c) => match active_center_svg(c.as_str()) {
            Some(svg) => Some(svg_data_uri(svg.as_str())),
            None => None,
        },
        None => None,
    }
}

/// The window glyphs of the active Aurorae theme from the contents of its
/// `close.svg`, `minimize.svg`, `maximize.svg` and `restore.svg` (`None`
/// for a file that could not be read, or when the decoration is not an
/// Aurorae theme): each found glyph as a `data:image/svg+xml;base64,` URI
/// under its key, in that order; `None` when no file gives a glyph.
pub fn resolve_all(
    close_svg: Option<String>,
    minimize_svg: Option<String>,
    maximize_svg: Option<String>,
    restore_svg: Option<String>,
) -> (r: Option<Vec<(String, String)>>)
    ensures
        r is None <==> glyph_uri(opt_view(close_svg)) is None && glyph_uri(opt_view(minimize_svg)) is None
            && glyph_uri(opt_view(maximize_svg)) is None && glyph_uri(opt_view(restore_svg)) is None,
        r matches Some(p) ==> pair_views(p@) == theme_glyph_pairs(
            opt_view(close_svg),
            opt_view(minimize_svg),
            opt_view(maximize_svg),
            opt_view(restore_svg),
        ),
        r matches Some(p) ==> forall|i: int| 0 <= i < p@.len() ==> svg_uri_prefix().is_prefix_of(#[trigger] p@[i].1@),
{
    let ghost (c0, m0, x0, r0) = (opt_view(close_svg), opt_view(minimize_svg), opt_view(maximize_svg), opt_view(restore_svg));
    let c = glyph_of(close_svg);
    let m = glyph_of(minimize_svg);
    let x = glyph_of(maximize_svg);
    let s = glyph_of(restore_svg);
    let r = glyph_list(c, m, x, s);
    proof {
        assert(glyph_pairs(c, m, x, s) =~= theme_glyph_pairs(c0, m0, x0, r0));
        if r is Some {
            let p = r->0;
            assert forall|i: int| 0 <= i < p@.len() implies svg_uri_prefix().is_prefix_of(#[trigger] p@[i].1@) by {
                assert(pair_views(p@)[i] == (p@[i].0@, p@[i].1@));
                let tp = theme_glyph_pairs(c0, m0, x0, r0);
                assert(tp[i].1 == p@[i].1@);
                lemma_glyph_pairs_are_uris(c0, m0, x0, r0, i);
            }
        }
    }
    r
}

proof fn lemma_glyph_uri_prefix(v: Option<Seq<char>>)
    requires
        glyph_uri(v) is Some,
    ensures
        svg_uri_prefix().is_prefix_of(glyph_uri(v)->0),
{
    let u = glyph_uri(v)->0;
    assert(u.subrange(0, svg_uri_prefix().len() as int) =~= svg_uri_prefix());
}

proof fn lemma_glyph_pairs_are_uris(
    c: Option<Seq<char>>,
    m: Option<Seq<char>>,
    x: Option<Seq<char>>,
    r: Option<Seq<char>>,
    i: int,
)
    requires
        0 <= i < theme_glyph_pairs(c, m, x, r).len(),
    ensures
        svg_uri_prefix().is_prefix_of(theme_glyph_pairs(c, m, x, r)[i].1),
{
    let a = uri_glyph("close"@, glyph_uri(c));
    let b = uri_glyph("minimize"@, glyph_uri(m));
    let d = uri_glyph("maximize"@, glyph_uri(x));
    let e = uri_glyph("restore"@, glyph_uri(r));
    let all = a + b + d + e;
    assert(theme_glyph_pairs(c, m, x, r) == all);
    if glyph_uri(c) is Some { lemma_glyph_uri_prefix(c); }
    if glyph_uri(m) is Some { lemma_glyph_uri_prefix(m); }
    if glyph_uri(x) is Some { lemma_glyph_uri_prefix(x); }
    if glyph_uri(r) is Some { lemma_glyph_uri_prefix(r); }
    if i < a.len() {
        assert(all[i] == a[i]);
    } else if i < a.len() + b.len() {
        assert(all[i] == b[i - a.len()]);
    } else if i < a.len() + b.len() + d.len() {
        assert(all[i] == d[i - a.len() - b.len()]);
    } else {
        assert(all[i] == e[i - a.len() - b.len() - d.len()]);
    }
}

} // verus!
