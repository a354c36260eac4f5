//! What holds of the limits of a segment.

use crate::segment::{fresh_segment, progress_text, Progress, SegmentState};
use vstd::prelude::*;

verus! {

/// A limit is reached where the position has come as far as it says: the time since the start the
/// length, or the bytes the size. Without limits none is.
pub proof fn limits_are_reached_exactly(segment: SegmentState)
    ensures
        segment.reached() == ((segment.expected_time matches Some(limit) && (limit == 0
            || segment.current >= segment.start + limit)) || (
        segment.expected_size matches Some(limit) && segment.size >= limit)),
        segment.time_reached() == (segment.expected_time matches Some(limit) && (limit == 0
            || segment.current >= segment.start + limit)),
        segment.size_reached() == (segment.expected_size matches Some(limit) && segment.size
            >= limit),
        segment.expected_time is None && segment.expected_size is None ==> !segment.reached(),
        segment.current >= segment.start ==> segment.start + segment.elapsed() == segment.current,
        segment.current < segment.start ==> segment.elapsed() == 0,
{
}

/// Time and bytes that come on top never take a segment back below a limit.
pub proof fn limits_stay_reached(segment: SegmentState, time: nat, bytes: nat)
    requires
        segment.reached(),
    ensures
        (SegmentState {
            current: segment.current + time,
            size: segment.size + bytes,
            ..segment
        }).reached(),
{
}

/// A new segment is empty, at the beginning, under the limits given.
pub proof fn new_segments_are_empty(expected_time: Option<nat>, expected_size: Option<nat>)
    ensures
        ({
            let segment = fresh_segment(expected_time, expected_size);
            &&& segment.size == 0
            &&& segment.elapsed() == 0
            &&& segment.start == 0 && segment.current == 0
            &&& segment.expected_time == expected_time
            &&& segment.expected_size == expected_size
            &&& segment.threshold_ms == 5000
            &&& segment.reached() == (expected_time == Some(0nat) || expected_size == Some(0nat))
        }),
{
}

/// Progress is told as the position, the limit and the share, or as no limit.
pub proof fn progress_is_told(label: Seq<char>, progress: Progress, unit: Seq<char>)
    ensures
        progress_text(label, false, progress, unit) == label + ": No limit"@,
        progress_text(label, true, progress, unit) == label + ": "@ + progress.current@ + "/"@
            + progress.expected@ + " "@ + unit + " ("@ + progress.percentage@ + "%)"@,
{
}

/// The limits that have been reached are named: the time, the size, both or none.
pub proof fn reached_limits_are_named(segment: SegmentState)
    ensures
        ({
            let time = segment.expected_time matches Some(limit) && (limit == 0 || segment.current
                >= segment.start + limit);
            let size = segment.expected_size matches Some(limit) && segment.size >= limit;
            &&& time && size ==> segment.reason() == "Time and size limits reached"@
            &&& time && !size ==> segment.reason() == "Time limit reached"@
            &&& !time && size ==> segment.reason() == "Size limit reached"@
            &&& !time && !size ==> segment.reason() == "No segmentation needed"@
        }),
{
}

} // verus!
