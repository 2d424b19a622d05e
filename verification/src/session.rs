//! The one piece of per-session state the pipeline keeps: whether segments
//! are currently being read, used only to annotate logs with a track switch
//! when a manifest is fetched mid-segment-stream. The decision is a pure
//! function from the request's file type and the current flag to the log
//! action and the next flag; the surrounding pipeline owns the flag itself.

use vstd::prelude::*;

use crate::type_guesser::FileType;

verus! {

/// Given the kind of file just requested and whether segments were being
/// read, returns whether a track switch is to be logged and the new value of
/// the reading flag: a manifest fetched while reading segments is a track
/// switch and clears the flag, a segment sets it, anything else leaves it.
pub fn next_reading_state(file_type: Option<FileType>, reading_segments: bool) -> (r: (bool, bool))
    ensures
        r.0 == (file_type == Some(FileType::Manifest) && reading_segments),
        r.1 == (if file_type == Some(FileType::Segment) {
            true
        } else if file_type == Some(FileType::Manifest) {
            false
        } else {
            reading_segments
        }),
{
    match file_type {
        Some(FileType::Manifest) => (reading_segments, false),
        Some(FileType::Segment) => (false, true),
        None => (false, reading_segments),
    }
}

} // verus!
