//! Captions, and the two passes that retime them: a shift by a constant
//! offset, then a rescale of the spacing about an anchor.
//!
//! Every intermediate value is computed exactly in wide integers. A result
//! below zero saturates to zero and one above `255:59:59:999` saturates to
//! that bound; the division of the rescale truncates toward zero.
use vstd::prelude::*;
use crate::error::RetimeError;
use crate::parse::{parse_timestamp_spec, ts_arg_to_ms};
use crate::timestamp::{timestamp_of_ms, Timestamp, MAX_TIMESTAMP_MS};

verus! {

/// One subtitle cue. The text is carried along untouched.
#[derive(Clone, Debug)]
pub struct Caption {
    pub index: usize,
    pub start_time: Timestamp,
    pub end_time: Timestamp,
    pub text: String,
}

impl Caption {
    pub fn new(index: usize, start_time: Timestamp, end_time: Timestamp, text: String) -> (r:
        Caption)
        ensures
            r == (Caption { index, start_time, end_time, text }),
    {
        Caption { index, start_time, end_time, text }
    }
}

/// `x` saturated into the range a timestamp can hold.
pub open spec fn clamp_ms(x: int) -> int {
    if x < 0 {
        0
    } else if x > MAX_TIMESTAMP_MS {
        MAX_TIMESTAMP_MS as int
    } else {
        x
    }
}

/// Integer division that truncates toward zero.
pub open spec fn trunc_div(a: int, b: int) -> int {
    if a >= 0 {
        a / b
    } else {
        -((-a) / b)
    }
}

/// `t` moved away from `anchor` by the factor `target_duration / original_duration`.
pub open spec fn scale_about(
    t: int,
    anchor: int,
    original_duration: int,
    target_duration: int,
) -> int {
    anchor + trunc_div((t - anchor) * target_duration, original_duration)
}

/// `c` with new start and end times given in milliseconds.
pub open spec fn with_times(c: Caption, start_ms: int, end_ms: int) -> Caption {
    Caption {
        index: c.index,
        start_time: timestamp_of_ms(start_ms),
        end_time: timestamp_of_ms(end_ms),
        text: c.text,
    }
}

/// A caption after the offset pass.
pub open spec fn shifted_caption(c: Caption, offset_ms: int) -> Caption {
    with_times(c, clamp_ms(c.start_time.ms() + offset_ms), clamp_ms(c.end_time.ms() + offset_ms))
}

/// A caption after the ratio pass.
pub open spec fn scaled_caption(
    c: Caption,
    anchor_ms: int,
    original_duration_ms: int,
    target_duration_ms: int,
) -> Caption {
    with_times(
        c,
        clamp_ms(
            scale_about(c.start_time.ms(), anchor_ms, original_duration_ms, target_duration_ms),
        ),
        clamp_ms(
            scale_about(c.end_time.ms(), anchor_ms, original_duration_ms, target_duration_ms),
        ),
    )
}

/// Shifts `t` by `offset_ms`, saturating at both ends of the range.
fn shift_ms(t: u64, offset_ms: i64) -> (r: u64)
    ensures
        r == clamp_ms(t + offset_ms),
{
    let v = t as i128 + offset_ms as i128;
    if v < 0 {
        0
    } else if v > MAX_TIMESTAMP_MS as i128 {
        MAX_TIMESTAMP_MS
    } else {
        v as u64
    }
}

/// Rescales `t` about `anchor_ms`, saturating at both ends of the range.
fn scale_ms(t: i128, anchor_ms: u64, original_duration_ms: u64, target_duration_ms: u64) -> (r: u64)
    requires
        original_duration_ms > 0,
        -0x1_0000_0000_0000_0000 < t - anchor_ms < 0x1_0000_0000_0000_0000,
    ensures
        r == clamp_ms(
            scale_about(
                t as int,
                anchor_ms as int,
                original_duration_ms as int,
                target_duration_ms as int,
            ),
        ),
{
    let a = anchor_ms as i128;
    let up = t >= a;
    let m: u128 = if up { (t - a) as u128 } else { (a - t) as u128 };
    let td = target_duration_ms as u128;
    let od = original_duration_ms as u128;
    proof {
        assert(m * td <= 0xffff_ffff_ffff_ffff * 0xffff_ffff_ffff_ffff) by (nonlinear_arith)
            requires m <= 0xffff_ffff_ffff_ffff, td <= 0xffff_ffff_ffff_ffff;
    }
    let p = m * td;
    let q = p / od;
    proof {
        let d = t - a;
        if up {
            assert(d * td == p);
        } else {
            assert(d * td == -(m * td)) by (nonlinear_arith)
                requires d == -m;
            if p == 0 {
                assert(q == 0);
            }
        }
    }
    if up {
        if q > MAX_TIMESTAMP_MS as u128 {
            MAX_TIMESTAMP_MS
        } else {
            let v = a as u128 + q;
            if v > MAX_TIMESTAMP_MS as u128 {
                MAX_TIMESTAMP_MS
            } else {
                v as u64
            }
        }
    } else if q >= a as u128 {
        0
    } else {
        let v = a as u128 - q;
        if v > MAX_TIMESTAMP_MS as u128 {
            MAX_TIMESTAMP_MS
        } else {
            v as u64
        }
    }
}

/// Adds `offset_ms` (which may be negative) to the start and the end of every
/// caption, so that each keeps its length unless a bound is reached.
pub fn apply_offset(track: &mut Vec<Caption>, offset_ms: i64)
    ensures
        final(track)@.len() == old(track)@.len(),
        forall|i: int|
            0 <= i < old(track)@.len() ==> #[trigger] final(track)@[i] == shifted_caption(
                old(track)@[i],
                offset_ms as int,
            ),
{
    let n = track.len();
    let mut i: usize = 0;
    while i < n
        invariant
            n == old(track)@.len(),
            track@.len() == n,
            0 <= i <= n,
            forall|j: int|
                0 <= j < i ==> #[trigger] track@[j] == shifted_caption(
                    old(track)@[j],
                    offset_ms as int,
                ),
            forall|j: int| i <= j < n ==> #[trigger] track@[j] == old(track)@[j],
        decreases n - i,
    {
        let start = shift_ms(track[i].start_time.to_ms(), offset_ms);
        let end = shift_ms(track[i].end_time.to_ms(), offset_ms);
        track[i].start_time = Timestamp::from_ms(start);
        track[i].end_time = Timestamp::from_ms(end);
        i = i + 1;
    }
}

/// Rescales every caption's start and end about `anchor_ms`: each moves so
/// that its distance from the anchor is multiplied by
/// `target_duration_ms / original_duration_ms`. Run after the offset pass, the
/// anchor is the new start of the first caption.
pub fn apply_ratio(
    track: &mut Vec<Caption>,
    anchor_ms: u64,
    original_duration_ms: u64,
    target_duration_ms: u64,
)
    requires
        original_duration_ms > 0,
    ensures
        final(track)@.len() == old(track)@.len(),
        forall|i: int|
            0 <= i < old(track)@.len() ==> #[trigger] final(track)@[i] == scaled_caption(
                old(track)@[i],
                anchor_ms as int,
                original_duration_ms as int,
                target_duration_ms as int,
            ),
{
    let n = track.len();
    let mut i: usize = 0;
    while i < n
        invariant
            n == old(track)@.len(),
            track@.len() == n,
            0 <= i <= n,
            original_duration_ms > 0,
            forall|j: int|
                0 <= j < i ==> #[trigger] track@[j] == scaled_caption(
                    old(track)@[j],
                    anchor_ms as int,
                    original_duration_ms as int,
                    target_duration_ms as int,
                ),
            forall|j: int| i <= j < n ==> #[trigger] track@[j] == old(track)@[j],
        decreases n - i,
    {
        let start = scale_ms(
            track[i].start_time.to_ms() as i128,
            anchor_ms,
            original_duration_ms,
            target_duration_ms,
        );
        let end = scale_ms(
            track[i].end_time.to_ms() as i128,
            anchor_ms,
            original_duration_ms,
            target_duration_ms,
        );
        track[i].start_time = Timestamp::from_ms(start);
        track[i].end_time = Timestamp::from_ms(end);
        i = i + 1;
    }
}

/// The start of the first caption, in milliseconds.
pub open spec fn first_start_ms(track: Seq<Caption>) -> int {
    track[0].start_time.ms()
}

/// The start of the last caption, in milliseconds.
pub open spec fn last_start_ms(track: Seq<Caption>) -> int {
    track.last().start_time.ms()
}

/// No duration to rescale: the track is empty, or its last caption (by
/// position) does not start after its first.
pub open spec fn is_degenerate(track: Seq<Caption>) -> bool {
    track.len() == 0 || last_start_ms(track) <= first_start_ms(track)
}

/// Whether the track has a forward span to rescale.
pub fn has_span(track: &Vec<Caption>) -> (r: bool)
    ensures
        r == !is_degenerate(track@),
{
    let n = track.len();
    n > 0 && track[0].start_time.to_ms() < track[n - 1].start_time.to_ms()
}

/// Where retiming sends a time `t` of a track whose first and last captions
/// start at `first` and `last`: shifted by `target_first - first`, then
/// rescaled about `target_first` by `(target_last - target_first) / (last - first)`,
/// then saturated into range.
pub open spec fn retimed_ms(
    t: int,
    first: int,
    last: int,
    target_first: int,
    target_last: int,
) -> int {
    clamp_ms(unclamped_retimed_ms(t, first, last, target_first, target_last))
}

/// Where retiming sends `t` before the result is saturated into range.
pub open spec fn unclamped_retimed_ms(
    t: int,
    first: int,
    last: int,
    target_first: int,
    target_last: int,
) -> int {
    scale_about(t + (target_first - first), target_first, last - first, target_last - target_first)
}

/// A time that no timestamp can hold: below zero or past `255:59:59:999`.
pub open spec fn out_of_range(x: int) -> bool {
    x < 0 || x > MAX_TIMESTAMP_MS
}

/// Retiming would have to saturate the start or the end of `c`.
pub open spec fn caption_saturates(
    c: Caption,
    first: int,
    last: int,
    target_first: int,
    target_last: int,
) -> bool {
    out_of_range(unclamped_retimed_ms(c.start_time.ms(), first, last, target_first, target_last))
        || out_of_range(
        unclamped_retimed_ms(c.end_time.ms(), first, last, target_first, target_last),
    )
}

/// Retiming `track` would succeed but saturate at least one time.
pub open spec fn retime_saturates_spec(track: Seq<Caption>, target_first: int, target_last: int) -> bool {
    &&& !is_degenerate(track)
    &&& target_first <= target_last
    &&& exists|i: int|
        0 <= i < track.len() && #[trigger] caption_saturates(
            track[i],
            first_start_ms(track),
            last_start_ms(track),
            target_first,
            target_last,
        )
}

/// Where retiming sends `t`, before saturation, for a track whose first
/// caption starts at `first`: the shift and the rescale in one exact step.
fn unclamped_ms(
    t: u64,
    first: u64,
    target_first: u64,
    original_duration: u64,
    target_duration: u64,
) -> (r: i128)
    requires
        t <= 0xffff_ffff,
        first <= 0xffff_ffff,
        original_duration > 0,
    ensures
        r == scale_about(
            t + (target_first - first),
            target_first as int,
            original_duration as int,
            target_duration as int,
        ),
{
    let up = t >= first;
    let m: u128 = if up { (t - first) as u128 } else { (first - t) as u128 };
    let td = target_duration as u128;
    proof {
        assert(m * td <= 0xffff_ffff * 0xffff_ffff_ffff_ffff) by (nonlinear_arith)
            requires m <= 0xffff_ffff, td <= 0xffff_ffff_ffff_ffff;
    }
    let p = m * td;
    let q = p / (original_duration as u128);
    proof {
        let d = t - first;
        if up {
            assert(d * td == p);
        } else {
            assert(d * td == -(m * td)) by (nonlinear_arith)
                requires d == -m;
            if p == 0 {
                assert(q == 0);
            }
        }
    }
    if up {
        target_first as i128 + q as i128
    } else {
        target_first as i128 - q as i128
    }
}

/// Whether retiming `track` to these targets would succeed but have to
/// saturate some start or end time at zero or at `255:59:59:999`: the
/// out-of-range condition, for a caller who wants to report it.
pub fn retime_saturates(track: &Vec<Caption>, target_first_ms: u64, target_last_ms: u64) -> (r:
    bool)
    ensures
        r == retime_saturates_spec(track@, target_first_ms as int, target_last_ms as int),
{
    if !has_span(track) || target_last_ms < target_first_ms {
        return false;
    }
    let n = track.len();
    let first = track[0].start_time.to_ms();
    let last = track[n - 1].start_time.to_ms();
    let original_duration = last - first;
    let target_duration = target_last_ms - target_first_ms;
    let mut found = false;
    let mut i: usize = 0;
    while i < n
        invariant
            n == track@.len(),
            0 <= i <= n,
            first == first_start_ms(track@),
            last == last_start_ms(track@),
            first < last,
            first <= 0xffff_ffff,
            original_duration == last - first,
            target_duration == target_last_ms - target_first_ms,
            found == exists|j: int|
                0 <= j < i && #[trigger] caption_saturates(
                    track@[j],
                    first as int,
                    last as int,
                    target_first_ms as int,
                    target_last_ms as int,
                ),
        decreases n - i,
    {
        let start = unclamped_ms(
            track[i].start_time.to_ms(),
            first,
            target_first_ms,
            original_duration,
            target_duration,
        );
        let end = unclamped_ms(
            track[i].end_time.to_ms(),
            first,
            target_first_ms,
            original_duration,
            target_duration,
        );
        let max = MAX_TIMESTAMP_MS as i128;
        if start < 0 || start > max || end < 0 || end > max {
            found = true;
        }
        assert(caption_saturates(
            track@[i as int],
            first as int,
            last as int,
            target_first_ms as int,
            target_last_ms as int,
        ) == (start < 0 || start > max || end < 0 || end > max));
        i = i + 1;
    }
    found
}

/// A caption after retiming.
pub open spec fn retimed_caption(
    c: Caption,
    first: int,
    last: int,
    target_first: int,
    target_last: int,
) -> Caption {
    with_times(
        c,
        retimed_ms(c.start_time.ms(), first, last, target_first, target_last),
        retimed_ms(c.end_time.ms(), first, last, target_first, target_last),
    )
}

/// Retimes `track` so that its first caption starts at `target_first_ms` and
/// its last caption at `target_last_ms`, the captions between them spaced in
/// proportion. The offset is applied before the rescale, both exactly, and
/// the result is saturated only once, at the end.
///
/// On an error the track is left as it was.
pub fn retime(track: &mut Vec<Caption>, target_first_ms: u64, target_last_ms: u64) -> (r: Result<
    (),
    RetimeError,
>)
    ensures
        r == Err::<(), RetimeError>(RetimeError::DegenerateTrack) <==> is_degenerate(old(track)@),
        r == Err::<(), RetimeError>(RetimeError::ReversedTargets) <==> !is_degenerate(old(track)@)
            && target_last_ms < target_first_ms,
        r is Ok <==> !is_degenerate(old(track)@) && target_first_ms <= target_last_ms,
        r is Err ==> final(track)@ == old(track)@,
        r is Ok ==> final(track)@.len() == old(track)@.len(),
        r is Ok ==> forall|i: int|
            0 <= i < old(track)@.len() ==> #[trigger] final(track)@[i] == retimed_caption(
                old(track)@[i],
                first_start_ms(old(track)@),
                last_start_ms(old(track)@),
                target_first_ms as int,
                target_last_ms as int,
            ),
{
    if !has_span(track) {
        return Err(RetimeError::DegenerateTrack);
    }
    let n = track.len();
    let first = track[0].start_time.to_ms();
    let last = track[n - 1].start_time.to_ms();
    if target_last_ms < target_first_ms {
        return Err(RetimeError::ReversedTargets);
    }
    let original_duration = last - first;
    let target_duration = target_last_ms - target_first_ms;
    let offset = target_first_ms as i128 - first as i128;
    let ghost old_track = track@;
    let mut i: usize = 0;
    while i < n
        invariant
            n == old_track.len(),
            track@.len() == n,
            0 <= i <= n,
            first == first_start_ms(old_track),
            last == last_start_ms(old_track),
            first < last,
            original_duration == last - first,
            target_duration == target_last_ms - target_first_ms,
            offset == target_first_ms - first,
            first <= 933620535,
            forall|j: int|
                0 <= j < i ==> #[trigger] track@[j] == retimed_caption(
                    old_track[j],
                    first as int,
                    last as int,
                    target_first_ms as int,
                    target_last_ms as int,
                ),
            forall|j: int| i <= j < n ==> #[trigger] track@[j] == old_track[j],
        decreases n - i,
    {
        let start = track[i].start_time.to_ms();
        let end = track[i].end_time.to_ms();
        // The offset pass, then the ratio pass about the shifted first caption.
        let new_start = scale_ms(
            start as i128 + offset,
            target_first_ms,
            original_duration,
            target_duration,
        );
        let new_end = scale_ms(
            end as i128 + offset,
            target_first_ms,
            original_duration,
            target_duration,
        );
        track[i].start_time = Timestamp::from_ms(new_start);
        track[i].end_time = Timestamp::from_ms(new_end);
        i = i + 1;
    }
    Ok(())
}

/// Retimes `track` to targets written as `hh:mm:ss:ms`. A degenerate track
/// is reported first, then a malformed target (the first before the last),
/// then targets out of order.
///
/// On an error the track is left as it was.
pub fn retime_from_text(track: &mut Vec<Caption>, target_first: &str, target_last: &str) -> (r:
    Result<(), RetimeError>)
    ensures
        r is Err ==> final(track)@ == old(track)@,
        is_degenerate(old(track)@) ==> r == Err::<(), RetimeError>(RetimeError::DegenerateTrack),
        !is_degenerate(old(track)@) && (parse_timestamp_spec(target_first@) is None
            || parse_timestamp_spec(target_last@) is None) ==> r == Err::<(), RetimeError>(
            RetimeError::MalformedTimestamp,
        ),
        !is_degenerate(old(track)@) && parse_timestamp_spec(target_first@) is Some
            && parse_timestamp_spec(target_last@) is Some ==> ({
            let tf = parse_timestamp_spec(target_first@)->Some_0.ms();
            let tl = parse_timestamp_spec(target_last@)->Some_0.ms();
            &&& tl < tf ==> r == Err::<(), RetimeError>(RetimeError::ReversedTargets)
            &&& tf <= tl ==> r is Ok && final(track)@.len() == old(track)@.len()
            &&& tf <= tl ==> forall|i: int|
                0 <= i < old(track)@.len() ==> #[trigger] final(track)@[i] == retimed_caption(
                    old(track)@[i],
                    first_start_ms(old(track)@),
                    last_start_ms(old(track)@),
                    tf,
                    tl,
                )
        }),
{
    if !has_span(track) {
        return Err(RetimeError::DegenerateTrack);
    }
    let first_ms = match ts_arg_to_ms(target_first) {
        Ok(ms) => ms,
        Err(e) => return Err(e),
    };
    let last_ms = match ts_arg_to_ms(target_last) {
        Ok(ms) => ms,
        Err(e) => return Err(e),
    };
    retime(track, first_ms, last_ms)
}

/// Retiming puts the first caption's start exactly on the first target and
/// the last caption's start exactly on the last target, whenever the track is
/// not degenerate and the targets are in order and in range.
pub proof fn lemma_retime_anchors(track: Seq<Caption>, target_first: int, target_last: int)
    requires
        !is_degenerate(track),
        0 <= target_first <= target_last <= MAX_TIMESTAMP_MS,
    ensures
        retimed_caption(
            track[0],
            first_start_ms(track),
            last_start_ms(track),
            target_first,
            target_last,
        ).start_time.ms() == target_first,
        retimed_caption(
            track.last(),
            first_start_ms(track),
            last_start_ms(track),
            target_first,
            target_last,
        ).start_time.ms() == target_last,
{
    let first = first_start_ms(track);
    let last = last_start_ms(track);
    let od = last - first;
    let td = target_last - target_first;
    assert(trunc_div(0 * td, od) == 0);
    assert(retimed_ms(first, first, last, target_first, target_last) == target_first);
    assert((od * td) / od == td) by (nonlinear_arith)
        requires od > 0, td >= 0;
    assert(retimed_ms(last, first, last, target_first, target_last) == target_last);
    crate::timestamp::lemma_ms_round_trip(target_first);
    crate::timestamp::lemma_ms_round_trip(target_last);
}

/// A gap of `gap` became `new_gap` under the factor
/// `target_duration / original_duration`, up to truncation: the new gap
/// times the original duration is within one original duration of the old
/// gap times the target duration. So a longer target never shrinks a gap and
/// widens it once the stretch adds a whole millisecond, a shorter one never
/// widens a gap, and an empty gap stays empty.
pub open spec fn scaled_gap(gap: int, new_gap: int, original_duration: int, target_duration: int) -> bool {
    let od = original_duration;
    let td = target_duration;
    &&& gap * td - od < new_gap * od < gap * td + od
    &&& td >= od ==> new_gap >= gap
    &&& td <= od ==> new_gap <= gap
    &&& gap * (td - od) >= od ==> new_gap > gap
    &&& gap == 0 ==> new_gap == 0
}

/// Rescaling two times at or after the anchor keeps them in order, and their
/// gap obeys `scaled_gap`, as long as the later one stays in range.
proof fn lemma_scale_gap(anchor: int, od: int, td: int, a: int, b: int)
    requires
        0 <= anchor <= a <= b,
        od > 0,
        td >= 0,
        scale_about(b, anchor, od, td) <= MAX_TIMESTAMP_MS,
    ensures
        anchor <= scale_about(a, anchor, od, td) <= scale_about(b, anchor, od, td),
        scaled_gap(b - a, scale_about(b, anchor, od, td) - scale_about(a, anchor, od, td), od, td),
{
    let gap = b - a;
    let x = (a - anchor) * td;
    let y = (b - anchor) * td;
    assert(0 <= x <= y && y - x == gap * td) by (nonlinear_arith)
        requires
            x == (a - anchor) * td,
            y == (b - anchor) * td,
            0 <= a - anchor <= b - anchor,
            td >= 0,
            gap == b - a,
    ;
    let qx = x / od;
    let qy = y / od;
    assert(0 <= qx <= qy) by (nonlinear_arith)
        requires 0 <= x <= y, od > 0, qx == x / od, qy == y / od;
    let new_gap = qy - qx;
    assert(gap * td - od < new_gap * od < gap * td + od) by (nonlinear_arith)
        requires
            qx == x / od,
            qy == y / od,
            od > 0,
            x >= 0,
            y >= 0,
            y - x == gap * td,
            new_gap == qy - qx,
    ;
    if td >= od {
        assert(new_gap >= gap) by (nonlinear_arith)
            requires gap * td - od < new_gap * od, td >= od, od > 0, gap >= 0;
    }
    if td <= od {
        assert(new_gap <= gap) by (nonlinear_arith)
            requires new_gap * od < gap * td + od, td <= od, od > 0, gap >= 0;
    }
    if gap * (td - od) >= od {
        assert(new_gap > gap) by (nonlinear_arith)
            requires gap * td - od < new_gap * od, gap * (td - od) >= od, od > 0;
    }
    if gap == 0 {
        assert(new_gap == 0) by (nonlinear_arith)
            requires -od < new_gap * od < od, od > 0;
    }
}

/// The ratio pass keeps the anchor where it is and sends a caption that
/// starts `original_duration` after the anchor to `target_duration` after
/// it, whenever that stays in range.
pub proof fn lemma_ratio_anchors(
    first: Caption,
    last: Caption,
    anchor_ms: int,
    original_duration_ms: int,
    target_duration_ms: int,
)
    requires
        first.start_time.ms() == anchor_ms,
        last.start_time.ms() == anchor_ms + original_duration_ms,
        0 <= anchor_ms,
        original_duration_ms > 0,
        target_duration_ms >= 0,
        anchor_ms + target_duration_ms <= MAX_TIMESTAMP_MS,
    ensures
        scaled_caption(first, anchor_ms, original_duration_ms, target_duration_ms).start_time.ms()
            == anchor_ms,
        scaled_caption(last, anchor_ms, original_duration_ms, target_duration_ms).start_time.ms()
            == anchor_ms + target_duration_ms,
{
    let od = original_duration_ms;
    let td = target_duration_ms;
    assert(trunc_div(0 * td, od) == 0);
    assert((od * td) / od == td) by (nonlinear_arith)
        requires od > 0, td >= 0;
    crate::timestamp::lemma_ms_round_trip(anchor_ms);
    crate::timestamp::lemma_ms_round_trip(anchor_ms + td);
}

/// Between two captions that start at or after the anchor, the ratio pass
/// scales the gap of their starts as `scaled_gap` says, as long as the later
/// one stays in range.
pub proof fn lemma_ratio_gap_scaling(
    a: Caption,
    b: Caption,
    anchor_ms: int,
    original_duration_ms: int,
    target_duration_ms: int,
)
    requires
        0 <= anchor_ms <= a.start_time.ms() <= b.start_time.ms(),
        original_duration_ms > 0,
        target_duration_ms >= 0,
        scale_about(b.start_time.ms(), anchor_ms, original_duration_ms, target_duration_ms)
            <= MAX_TIMESTAMP_MS,
    ensures
        scaled_gap(
            b.start_time.ms() - a.start_time.ms(),
            scaled_caption(b, anchor_ms, original_duration_ms, target_duration_ms).start_time.ms()
                - scaled_caption(a, anchor_ms, original_duration_ms, target_duration_ms).start_time.ms(),
            original_duration_ms,
            target_duration_ms,
        ),
{
    let od = original_duration_ms;
    let td = target_duration_ms;
    lemma_scale_gap(anchor_ms, od, td, a.start_time.ms(), b.start_time.ms());
    crate::timestamp::lemma_ms_round_trip(scale_about(a.start_time.ms(), anchor_ms, od, td));
    crate::timestamp::lemma_ms_round_trip(scale_about(b.start_time.ms(), anchor_ms, od, td));
}

/// Between the first and last captions, retiming scales each gap by
/// `(target_last - target_first) / (last - first)` as `scaled_gap` says.
pub proof fn lemma_gap_scaling(
    first: int,
    last: int,
    target_first: int,
    target_last: int,
    a: int,
    b: int,
)
    requires
        0 <= first <= a <= b <= last,
        first < last,
        0 <= target_first <= target_last <= MAX_TIMESTAMP_MS,
    ensures
        scaled_gap(
            b - a,
            retimed_ms(b, first, last, target_first, target_last) - retimed_ms(
                a,
                first,
                last,
                target_first,
                target_last,
            ),
            last - first,
            target_last - target_first,
        ),
{
    let od = last - first;
    let td = target_last - target_first;
    let y = (b - first) * td;
    assert(y / od <= td) by (nonlinear_arith)
        requires y == (b - first) * td, 0 <= b - first <= od, od > 0, td >= 0;
    lemma_scale_gap(
        target_first,
        od,
        td,
        a + (target_first - first),
        b + (target_first - first),
    );
}

} // verus!
