//! OpenSubtitles: its search results and the application key the API
//! needs.
use vstd::prelude::*;

verus! {

/// A subtitle file found on OpenSubtitles.
pub struct OpenSubtitlesResult {
    pub file_id: i64,
    pub file_name: String,
}

/// The application key, or the error that explains that the application
/// has none registered yet.
pub fn require_application_key_from(key: &str) -> (r: Result<String, String>)
    ensures
        key@.len() == 0 ==> (r matches Err(e) && e@
            == "OpenSubtitles no está configurado todavía — falta que el mantenedor de Popcorn registre la aplicación en opensubtitles.com y agregue la Api-Key real."@),
        key@.len() > 0 ==> (r matches Ok(k) && k@ == key@),
{
    if key.is_empty() {
        return Err(
            "OpenSubtitles no está configurado todavía — falta que el mantenedor de Popcorn registre la aplicación en opensubtitles.com y agregue la Api-Key real.".to_owned(),
        );
    }
    Ok(key.to_owned())
}

} // verus!
