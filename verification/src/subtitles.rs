//! Subtitles attached to a library item and the checks on a new one.
use vstd::prelude::*;
use crate::text::{chars_of, push_all, trim, trim_bounds};

verus! {

/// A stored subtitle.
pub struct Subtitle {
    pub id: String,
    pub media_item_id: String,
    pub language: String,
    pub origin: String,
    pub content: String,
    pub created_at: String,
}

/// Where a subtitle comes from.
pub open spec fn is_origin(o: Seq<char>) -> bool {
    o == "original"@ || o == "ai_translated"@ || o == "human_edited"@
}

/// Whether `origin` is `original`, `ai_translated` or `human_edited`.
pub fn valid_origin(origin: &str) -> (r: bool)
    ensures
        r == is_origin(origin@),
{
    let o = origin.to_owned();
    o == "original".to_owned() || o == "ai_translated".to_owned() || o == "human_edited".to_owned()
}

/// Checks a subtitle before it is stored: a known origin, then content
/// that is not blank.
pub fn check_subtitle_text(origin: &str, content: &str) -> (r: Result<(), String>)
    ensures
        !is_origin(origin@) ==> (r matches Err(e) && e@ == "origin inválido: "@ + origin@
            + " (debe ser original, ai_translated o human_edited)"@),
        is_origin(origin@) && trim(content@).len() == 0 ==> (r matches Err(e) && e@
            == "el subtítulo no puede estar vacío"@),
        is_origin(origin@) && trim(content@).len() > 0 ==> r is Ok,
{
    if !valid_origin(origin) {
        let mut e = "origin inválido: ".to_owned();
        push_all(&mut e, origin);
        push_all(&mut e, " (debe ser original, ai_translated o human_edited)");
        return Err(e);
    }
    let v = chars_of(content);
    let (a, b) = trim_bounds(&v, 0, v.len());
    assert(v@.subrange(a as int, b as int) == trim(content@));
    if a == b {
        return Err("el subtítulo no puede estar vacío".to_owned());
    }
    Ok(())
}


/// A subtitle's origin is accepted exactly when it is `original`,
/// `ai_translated` or `human_edited`.
pub proof fn the_three_origins_are_accepted(o: Seq<char>)
    ensures
        is_origin(o) <==> (o == "original"@ || o == "ai_translated"@ || o == "human_edited"@),
{
}

} // verus!
