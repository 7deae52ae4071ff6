//! The local library: video files found under a folder the user chose.
use vstd::prelude::*;
use crate::text::{lowercase, to_lower};

verus! {

/// A video file on disk.
pub struct LocalFile {
    pub path: String,
    pub name: String,
}

/// The extensions of the video files listed.
pub open spec fn is_video_extension(ext: Seq<char>) -> bool {
    ext == "mp4"@ || ext == "mkv"@ || ext == "avi"@ || ext == "webm"@ || ext == "mov"@ || ext == "m4v"@
}

/// Whether a file with extension `ext` (case aside) is a video to list.
pub fn video_extension(ext: &str) -> (r: bool)
    ensures
        r == is_video_extension(lowercase(ext@)),
{
    let e = to_lower(ext);
    e == "mp4".to_owned() || e == "mkv".to_owned() || e == "avi".to_owned() || e == "webm".to_owned() || e
        == "mov".to_owned() || e == "m4v".to_owned()
}


/// The files listed are exactly those with extension `mp4`, `mkv`, `avi`,
/// `webm`, `mov` or `m4v`, whatever its case.
pub proof fn the_six_video_extensions_are_listed(ext: Seq<char>)
    ensures
        is_video_extension(lowercase(ext)) <==> (lowercase(ext) == "mp4"@ || lowercase(ext) == "mkv"@ || lowercase(
            ext,
        ) == "avi"@ || lowercase(ext) == "webm"@ || lowercase(ext) == "mov"@ || lowercase(ext) == "m4v"@),
{
}

} // verus!
