//! What holds of the times that are written: how far they lie apart, and when a step of the
//! source is an anomaly or a gap.

use crate::httpflv::{clock_after, clock_output, fresh_clock, rebased, OutputClock};
use crate::segment::fresh_segment;
use crate::timestamp::{absorbed_base, absorbed_max, jump_absorbed, saturated, stepped_base, timestamp_anomaly};
use vstd::prelude::*;

verus! {

/// A step is an anomaly where it leads back by the threshold or more, from a time other than
/// zero. With a threshold of zero there is none.
pub proof fn anomalies_lead_back_by_the_threshold(prev: u32, current: u32, threshold: u32)
    ensures
        threshold > 0 && prev > 0 && current + threshold <= prev ==> timestamp_anomaly(
            prev,
            current,
            threshold,
        ),
        prev < current + threshold ==> !timestamp_anomaly(prev, current, threshold),
        !timestamp_anomaly(prev, current, 0),
        !timestamp_anomaly(0, current, threshold),
{
}

/// A segment cuts at steps back of five seconds, as long as nothing else is asked for.
pub proof fn five_seconds_back_cut(
    expected_time: Option<nat>,
    expected_size: Option<nat>,
    prev: u32,
    current: u32,
)
    requires
        prev > 0,
    ensures
        timestamp_anomaly(
            prev,
            current,
            fresh_segment(expected_time, expected_size).threshold_ms,
        ) == (prev - current >= 5000),
{
}

/// A time is written at its distance from the base, and one before the base at zero. The first
/// time is its own base.
pub proof fn times_are_distances(base: u32, time: u32)
    ensures
        rebased(time, None) == 0,
        base <= time ==> base + rebased(time, Some(base)) == time,
        time < base ==> rebased(time, Some(base)) == 0,
{
}

/// A time beyond the largest that can be written is written as the largest.
pub proof fn times_stop_at_the_largest(n: int)
    requires
        n >= 0,
    ensures
        n <= 0xffff_ffff ==> saturated(n) == n,
        n > 0xffff_ffff ==> saturated(n) == 0xffff_ffff,
{
}

/// A step beyond the newest time by a second or more is a gap, of which one millisecond is left;
/// a smaller one is none, and moves nothing. The first time is the newest, and a gap that no base
/// can absorb yet is not counted as seen.
pub proof fn gaps_are_a_second_or_more(newest: u32, time: u32, base: u32)
    requires
        base <= newest,
    ensures
        jump_absorbed(time, Some(newest), Some(base)) == (time - newest >= 1000),
        time - newest >= 1000 ==> absorbed_base(time, Some(newest), Some(base)) == Some(
            (base + (time - newest) - 1) as u32,
        ),
        time - newest < 1000 ==> absorbed_base(time, Some(newest), Some(base)) == Some(base),
        absorbed_max(time, Some(newest), Some(base)) == Some(
            if time > newest {
                time
            } else {
                newest
            },
        ),
        !jump_absorbed(time, None, Some(base)),
        !jump_absorbed(time, Some(newest), None),
        absorbed_base(time, Some(newest), None) is None,
        absorbed_max(time, None, Some(base)) == Some(time),
        absorbed_max(time, None, None) == Some(time),
        absorbed_max(time, Some(newest), None) == Some(
            if newest < time && time - newest < 1000 {
                time
            } else {
                newest
            },
        ),
{
}

/// Between two times of one track a gap is absorbed in the same way, but not behind a time of
/// zero, nor without a base.
pub proof fn gaps_of_one_track(prev: u32, time: u32, base: u32)
    requires
        base <= prev,
    ensures
        prev > 0 && time - prev >= 1000 ==> stepped_base(prev, time, Some(base)) == Some(
            (base + (time - prev) - 1) as u32,
        ),
        prev == 0 || time - prev < 1000 ==> stepped_base(prev, time, Some(base)) == Some(base),
        stepped_base(prev, time, None) is None,
{
}

/// The last time written stands at the distance of the newest source time from the base, moved by
/// what steps back have added.
pub open spec fn in_step(clock: OutputClock) -> bool {
    &&& clock.base is Some
    &&& clock.stream_max is Some
    &&& clock.base->0 <= clock.stream_max->0
    &&& clock.last == Some((clock.stream_max->0 - clock.base->0 + clock.offset) as u32)
    &&& clock.stream_max->0 - clock.base->0 + clock.offset <= u32::MAX
}

/// The first media sets the clock in step, at zero.
pub proof fn the_first_time_is_in_step(time: u32)
    ensures
        clock_output(fresh_clock(), time) == 0,
        in_step(clock_after(fresh_clock(), time)),
        clock_after(fresh_clock(), time).stream_max == Some(time),
{
}

/// A step forward of less than a second is written as it is; of a longer one, one millisecond is
/// left. The time has to fit.
pub proof fn steps_forward_are_kept(clock: OutputClock, time: u32)
    requires
        in_step(clock),
        time > clock.stream_max->0,
        clock.last->0 + (time - clock.stream_max->0) <= u32::MAX,
    ensures
        time - clock.stream_max->0 < 1000 ==> clock_output(clock, time) - clock.last->0 == time
            - clock.stream_max->0,
        time - clock.stream_max->0 >= 1000 ==> clock_output(clock, time) - clock.last->0 == 1,
        in_step(clock_after(clock, time)),
        clock_after(clock, time).stream_max == Some(time),
{
}

/// A step back is written one millisecond behind the last time, and what follows it keeps its
/// distance from it. The times have to fit.
pub proof fn steps_back_move_what_follows(clock: OutputClock, time: u32, next: u32)
    requires
        in_step(clock),
        clock.base->0 <= time <= clock.stream_max->0,
        time < next < clock.stream_max->0 + 1000,
        clock.last->0 + 1 + (next - time) <= u32::MAX,
        clock.offset + (clock.stream_max->0 - time) + 1 <= u32::MAX,
    ensures
        clock_output(clock, time) == clock.last->0 + 1,
        clock_output(clock_after(clock, time), next) == clock.last->0 + 1 + (next - time),
{
}

/// The clock after `times` of one file.
pub open spec fn clock_over(times: Seq<u32>) -> OutputClock
    decreases times.len(),
{
    if times.len() == 0 {
        fresh_clock()
    } else {
        clock_after(clock_over(times.drop_last()), times.last())
    }
}

/// Times that rise by less than a second at a time are written at their distance from the first
/// of the file.
pub proof fn rising_times_keep_their_distance(times: Seq<u32>)
    requires
        times.len() > 0,
        forall|i: int|
            0 <= i < times.len() - 1 ==> #[trigger] times[i] < times[i + 1] < times[i] + 1000,
    ensures
        clock_over(times).last == Some((times.last() - times[0]) as u32),
        times[0] <= times.last(),
        in_step(clock_over(times)),
        clock_over(times).offset == 0,
        clock_over(times).stream_max == Some(times.last()),
    decreases times.len(),
{
    let fewer = times.drop_last();
    if fewer.len() > 0 {
        assert forall|i: int| 0 <= i < fewer.len() - 1 implies #[trigger] fewer[i] < fewer[i + 1]
            < fewer[i] + 1000 by {
            assert(times[i] == fewer[i] && times[i + 1] == fewer[i + 1]);
        }
        rising_times_keep_their_distance(fewer);
        assert(times[fewer.len() - 1] == fewer.last());
        assert(fewer[0] == times[0]);
        steps_forward_are_kept(clock_over(fewer), times.last());
    } else {
        assert(clock_over(fewer) == fresh_clock());
    }
}

} // verus!
