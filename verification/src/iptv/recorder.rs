//! Decisions of the recorder of a live channel: which segments of each
//! poll are downloaded (each only once over the whole recording), when a
//! recording stops, how long it waits between polls, and how it ends.
use vstd::prelude::*;
use crate::ai::views;
use crate::iptv::hls::{join_url, url_join};
use crate::text::push_all;

verus! {

/// A recording, as listed to the user.
pub struct RecordingInfo {
    pub id: String,
    pub source_id: Option<String>,
    pub channel_name: String,
    pub manifest_url: String,
    pub file_name: String,
    /// `recording`, `stopped` or `error`.
    pub status: String,
    pub error: Option<String>,
    pub bytes_written: i64,
    pub started_at: String,
    pub stopped_at: Option<String>,
}

/// Records `uri` among the segments already seen; `true` when it was not
/// there (the segment is new and is downloaded).
pub fn mark_seen(seen: &mut Vec<String>, uri: &str) -> (newly: bool)
    ensures
        newly == !views(old(seen)@).contains(uri@),
        views(final(seen)@) == if newly {
            views(old(seen)@).push(uri@)
        } else {
            views(old(seen)@)
        },
{
    let u = uri.to_owned();
    let ghost s = views(seen@);
    let mut i: usize = 0;
    while i < seen.len()
        invariant
            i <= seen@.len(),
            s == views(seen@),
            u@ == uri@,
            forall|j: int| 0 <= j < i ==> s[j] != uri@,
        decreases seen@.len() - i,
    {
        if seen[i] == u {
            assert(s[i as int] == uri@);
            return false;
        }
        i += 1;
    }
    seen.push(u);
    assert(views(seen@) =~= s.push(uri@));
    true
}

/// The URL of a segment: its URI resolved against the URL the playlist
/// was fetched from.
pub fn segment_url(playlist_url: &str, uri: &str) -> (r: Result<String, String>)
    ensures
        match url_join(playlist_url@, uri@) {
            Some(u) => r matches Ok(x) && x@ == u,
            None => r matches Err(e) && e@ == "URI de segmento inválida '"@ + uri@ + "'"@,
        },
{
    match join_url(playlist_url, uri) {
        Some(u) => Ok(u),
        None => {
            let mut e = "URI de segmento inválida '".to_owned();
            push_all(&mut e, uri);
            push_all(&mut e, "'");
            Err(e)
        },
    }
}

/// What happens to a segment of a poll.
#[derive(PartialEq, Eq, Structural, Clone, Copy, Debug)]
pub enum SegmentStep {
    /// A stop was requested: the poll ends before this segment.
    Stop,
    /// Seen in an earlier poll: skipped.
    Skip,
    /// New: downloaded and appended to the recording.
    Download,
}

/// The step for a segment and the seen set after it.
pub open spec fn step_spec(stop: bool, seen: Seq<Seq<char>>, uri: Seq<char>) -> (SegmentStep, Seq<Seq<char>>) {
    if stop {
        (SegmentStep::Stop, seen)
    } else if seen.contains(uri) {
        (SegmentStep::Skip, seen)
    } else {
        (SegmentStep::Download, seen.push(uri))
    }
}

/// The step for the next segment of a poll; a stop request is honoured
/// between segments, never in the middle of one.
pub fn segment_step(stop_requested: bool, seen: &mut Vec<String>, uri: &str) -> (r: SegmentStep)
    ensures
        (r, views(final(seen)@)) == step_spec(stop_requested, views(old(seen)@), uri@),
{
    if stop_requested {
        return SegmentStep::Stop;
    }
    if mark_seen(seen, uri) {
        SegmentStep::Download
    } else {
        SegmentStep::Skip
    }
}

/// A segment is downloaded at most once: after any step on a URI, a later
/// step on the same URI (without a stop) skips it.
pub proof fn seen_segments_are_not_downloaded_again(seen: Seq<Seq<char>>, uri: Seq<char>)
    ensures
        step_spec(false, step_spec(false, seen, uri).1, uri).0 == SegmentStep::Skip,
{
    if !seen.contains(uri) {
        assert(seen.push(uri)[seen.len() as int] == uri);
    }
}

/// What a poll leads to.
#[derive(PartialEq, Eq, Structural, Clone, Copy, Debug)]
pub enum PollOutcome {
    /// Poll again after a pause.
    Continue { target_duration: u64 },
    /// The playlist ended (`EXT-X-ENDLIST`).
    Done,
    /// A stop was requested.
    Stopped,
}

/// The outcome of a poll whose segments were all handled: a stop request
/// wins, then the end of the playlist.
pub fn poll_outcome(stop_requested: bool, end_list: bool, target_duration: u64) -> (r: PollOutcome)
    ensures
        r == (if stop_requested {
            PollOutcome::Stopped
        } else if end_list {
            PollOutcome::Done
        } else {
            PollOutcome::Continue { target_duration }
        }),
{
    if stop_requested {
        PollOutcome::Stopped
    } else if end_list {
        PollOutcome::Done
    } else {
        PollOutcome::Continue { target_duration }
    }
}

/// The pause between polls: the playlist's target duration, kept between
/// 1 and 5 seconds.
pub fn poll_backoff_secs(target_duration: u64) -> (r: u64)
    ensures
        1 <= r <= 5,
        1 <= target_duration <= 5 ==> r == target_duration,
        target_duration < 1 ==> r == 1,
        target_duration > 5 ==> r == 5,
{
    if target_duration < 1 {
        1
    } else if target_duration > 5 {
        5
    } else {
        target_duration
    }
}

/// The duration limit of a recording in seconds, when one was set in
/// minutes.
pub fn deadline_secs(max_duration_minutes: Option<u32>) -> (r: Option<u64>)
    ensures
        r == match max_duration_minutes {
            Some(m) => Some((m as int * 60) as u64),
            None => None::<u64>,
        },
{
    match max_duration_minutes {
        Some(m) => Some(m as u64 * 60),
        None => None,
    }
}

/// How a recording ended.
pub enum RecordingEnd {
    Stopped,
    Error(String),
}

/// The final status of a recording and its error message.
pub fn end_status(end: RecordingEnd) -> (r: (&'static str, Option<String>))
    ensures
        match end {
            RecordingEnd::Stopped => r.0@ == "stopped"@ && r.1 is None,
            RecordingEnd::Error(m) => r.0@ == "error"@ && r.1 == Some(m),
        },
{
    match end {
        RecordingEnd::Stopped => ("stopped", None),
        RecordingEnd::Error(m) => ("error", Some(m)),
    }
}


/// Each segment of a poll is handled once: a stop request stops before it
/// and leaves the seen set as it was; a segment not seen yet is downloaded
/// and joins the seen set (and nothing else does); a segment already seen
/// is skipped and the seen set does not change.
pub proof fn each_segment_is_handled_once(stop: bool, seen: Seq<Seq<char>>, uri: Seq<char>)
    ensures
        stop ==> step_spec(stop, seen, uri) == (SegmentStep::Stop, seen),
        !stop && !seen.contains(uri) ==> step_spec(stop, seen, uri).0 == SegmentStep::Download && step_spec(
            stop,
            seen,
            uri,
        ).1 == seen.push(uri),
        !stop && seen.contains(uri) ==> step_spec(stop, seen, uri) == (SegmentStep::Skip, seen),
        step_spec(stop, seen, uri).0 == SegmentStep::Download ==> !stop && !seen.contains(uri),
{
}

} // verus!
