//! Repairing the media time axis: what counts as a break, and how small
//! regressions and forward jumps are flattened on the way to the file.

use crate::flv::TagHeader;
use vstd::prelude::*;

verus! {

/// A forward step of at least this many milliseconds is a gap in the source.
pub const TIMESTAMP_JUMP_THRESHOLD_MS: u32 = 1000;

/// What is left of a gap after it has been absorbed, so that the output still increases.
pub const TIMESTAMP_FORWARD_KEEP_MS: u32 = 1;

/// Regressions of at least this many milliseconds start a new file. Zero disables the rule.
pub const DEFAULT_TIMESTAMP_ANOMALY_THRESHOLD_MS: u32 = 5000;

/// After a cut, anomalies are ignored for this many seconds.
pub const TIMESTAMP_ANOMALY_COOLDOWN_SECS: u64 = 5;

/// `n`, held to the range of `u32` from above.
pub open spec fn saturated(n: int) -> u32 {
    if n > u32::MAX {
        u32::MAX
    } else {
        n as u32
    }
}

/// A step back from `prev_ms` to `current_ms` that calls for a new file.
pub open spec fn timestamp_anomaly(prev_ms: u32, current_ms: u32, threshold_ms: u32) -> bool {
    threshold_ms != 0 && prev_ms != 0 && prev_ms - current_ms >= threshold_ms
}

/// Whether the step from `prev_ms` to `current_ms` is a regression large enough to start a new
/// file. A zero threshold disables the rule, and a zero `prev_ms` is the first point of a
/// segment, which never breaks it.
pub fn is_timestamp_anomaly(prev_ms: u32, current_ms: u32, threshold_ms: u32) -> (anomaly: bool)
    ensures
        anomaly == timestamp_anomaly(prev_ms, current_ms, threshold_ms),
{
    if threshold_ms == 0 || prev_ms == 0 || current_ms >= prev_ms {
        return false;
    }
    prev_ms - current_ms >= threshold_ms
}

/// What is written for the rebased time `raw`, given the offset gathered so far and the last
/// output: the shifted time itself, or one past the last output where it would not increase.
pub open spec fn clamped_output(raw: u32, offset: u32, last: Option<u32>) -> u32 {
    let shifted = saturated(raw + offset);
    match last {
        Some(prev) if shifted <= prev => saturated(prev + 1),
        _ => shifted,
    }
}

/// The offset after `raw` was written: it grows by exactly what the output was moved.
pub open spec fn clamped_offset(raw: u32, offset: u32, last: Option<u32>) -> u32 {
    let shifted = saturated(raw + offset);
    match last {
        Some(prev) if shifted <= prev => saturated(offset + (prev - shifted + 1)),
        _ => offset,
    }
}

/// Flattens a small regression so that the output strictly increases.
///
/// The shift is kept in `regression_offset`, so the frames that follow, on either track, keep
/// their distance from this one.
pub fn clamp_regression_monotonic(
    raw_rebased_ms: u32,
    regression_offset: &mut u32,
    last_output_ms: &mut Option<u32>,
) -> (output: u32)
    ensures
        output == clamped_output(raw_rebased_ms, *old(regression_offset), *old(last_output_ms)),
        *final(regression_offset) == clamped_offset(
            raw_rebased_ms,
            *old(regression_offset),
            *old(last_output_ms),
        ),
        *final(last_output_ms) == Some(output),
{
    let mut candidate: u32 = raw_rebased_ms.saturating_add(*regression_offset);
    if let Some(prev) = *last_output_ms {
        if candidate <= prev {
            let gap: u32 = prev.saturating_sub(candidate).saturating_add(1);
            *regression_offset = regression_offset.saturating_add(gap);
            candidate = candidate.saturating_add(gap);
        }
    }
    *last_output_ms = Some(candidate);
    candidate
}

/// What a forward step of `delta` milliseconds gives up when it is a gap.
pub open spec fn gap_absorbed(delta: int) -> int {
    delta - TIMESTAMP_FORWARD_KEEP_MS
}

/// A forward step from `prev_ms` to `current_ms` that is a gap in the source.
pub open spec fn forward_gap(prev_ms: u32, current_ms: u32) -> bool {
    current_ms - prev_ms >= TIMESTAMP_JUMP_THRESHOLD_MS
}

/// Whether a step between two source times is absorbed. One from a zero time is not.
pub open spec fn stepped_over(prev_ms: u32, current_ms: u32, base: Option<u32>) -> bool {
    base is Some && prev_ms != 0 && forward_gap(prev_ms, current_ms)
}

/// The output base after a step between two source times.
pub open spec fn stepped_base(prev_ms: u32, current_ms: u32, base: Option<u32>) -> Option<u32> {
    if stepped_over(prev_ms, current_ms, base) {
        Some(saturated(base->0 + gap_absorbed(current_ms - prev_ms)))
    } else {
        base
    }
}

/// Raises the output base over a gap between two source times, and returns what was absorbed.
///
/// Nothing happens without a base, below the threshold, or after a zero `prev_ms`.
pub fn absorb_forward_timestamp_jump(
    prev_ms: u32,
    current_ms: u32,
    output_timestamp_base: &mut Option<u32>,
) -> (absorbed: Option<u32>)
    ensures
        absorbed == if stepped_over(prev_ms, current_ms, *old(output_timestamp_base)) {
            Some(gap_absorbed(current_ms - prev_ms) as u32)
        } else {
            None
        },
        *final(output_timestamp_base) == stepped_base(
            prev_ms,
            current_ms,
            *old(output_timestamp_base),
        ),
{
    if prev_ms == 0 || current_ms <= prev_ms {
        return None;
    }
    let delta: u32 = current_ms - prev_ms;
    if delta < TIMESTAMP_JUMP_THRESHOLD_MS {
        return None;
    }
    let absorb: u32 = delta.saturating_sub(TIMESTAMP_FORWARD_KEEP_MS);
    match *output_timestamp_base {
        Some(base) => {
            *output_timestamp_base = Some(base.saturating_add(absorb));
            Some(absorb)
        },
        None => None,
    }
}

/// Whether a step beyond the largest media time seen so far is absorbed.
pub open spec fn jump_absorbed(current: u32, stream_max: Option<u32>, base: Option<u32>) -> bool {
    stream_max is Some && base is Some && forward_gap(stream_max->0, current)
}

/// The output base after `current` was seen.
pub open spec fn absorbed_base(
    current: u32,
    stream_max: Option<u32>,
    base: Option<u32>,
) -> Option<u32> {
    if jump_absorbed(current, stream_max, base) {
        Some(saturated(base->0 + gap_absorbed(current - stream_max->0)))
    } else {
        base
    }
}

/// The largest media time after `current` was seen. A gap that no base can absorb yet is not
/// recorded, so it is still a gap once there is one.
pub open spec fn absorbed_max(
    current: u32,
    stream_max: Option<u32>,
    base: Option<u32>,
) -> Option<u32> {
    match stream_max {
        None => Some(current),
        Some(max) => if current <= max || (forward_gap(max, current) && base is None) {
            Some(max)
        } else {
            Some(current)
        },
    }
}

/// Raises the output base over a gap beyond the largest media time of the stream.
///
/// Measuring from the maximum keeps interleaved tracks from counting as jumps, and absorbs a gap
/// once when both tracks cross it.
pub fn absorb_forward_timestamp_jump_with_max(
    current_ms: u32,
    stream_max_ms: &mut Option<u32>,
    output_timestamp_base: &mut Option<u32>,
) -> (absorbed: Option<u32>)
    ensures
        absorbed == if jump_absorbed(
            current_ms,
            *old(stream_max_ms),
            *old(output_timestamp_base),
        ) {
            Some(gap_absorbed(current_ms - (*old(stream_max_ms))->0) as u32)
        } else {
            None
        },
        *final(output_timestamp_base) == absorbed_base(
            current_ms,
            *old(stream_max_ms),
            *old(output_timestamp_base),
        ),
        *final(stream_max_ms) == absorbed_max(
            current_ms,
            *old(stream_max_ms),
            *old(output_timestamp_base),
        ),
{
    let prev_max: u32 = match *stream_max_ms {
        Some(max) => max,
        None => {
            *stream_max_ms = Some(current_ms);
            return None;
        },
    };
    if current_ms <= prev_max {
        return None;
    }
    let delta: u32 = current_ms - prev_max;
    if delta < TIMESTAMP_JUMP_THRESHOLD_MS {
        *stream_max_ms = Some(current_ms);
        return None;
    }
    let absorb: u32 = delta.saturating_sub(TIMESTAMP_FORWARD_KEEP_MS);
    match *output_timestamp_base {
        Some(base) => {
            *output_timestamp_base = Some(base.saturating_add(absorb));
            *stream_max_ms = Some(current_ms);
            Some(absorb)
        },
        None => None,
    }
}

/// The header of a tag with another timestamp.
pub fn retimestamp_tag_header(header: &TagHeader, timestamp: u32) -> (changed: TagHeader)
    ensures
        changed == (TagHeader { timestamp, ..*header }),
{
    let mut changed = *header;
    changed.timestamp = timestamp;
    changed
}

} // verus!
