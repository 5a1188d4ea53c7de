//! Which frames playback shows next.

use crate::protocol::truncated;
use std::collections::HashSet;
use vstd::prelude::*;

verus! {

/// Where a step of playback leads to.
#[derive(Clone, Copy, Debug, Eq, PartialEq, Structural)]
pub enum PlaybackStep {
    /// There is no timeline: the time stands still.
    Hold,
    /// The time goes on around the loop boundary.
    Wrap,
    /// Playback stops at the last frame.
    StopAtEnd,
    /// Playback stops at the first frame.
    StopAtStart,
    Advance,
}

impl PlaybackStep {
    /// Playback goes on after the step.
    pub open spec fn goes_on(self) -> bool {
        self != PlaybackStep::StopAtEnd && self != PlaybackStep::StopAtStart
    }

    pub fn keeps_playing(self) -> (playing: bool)
        ensures
            playing == self.goes_on(),
    {
        match self {
            PlaybackStep::StopAtEnd | PlaybackStep::StopAtStart => false,
            _ => true,
        }
    }
}

/// Where a step of playback leads to, where the next time lies at or behind the last
/// frame (`reaches_end`), or at or before the first one (`reaches_start`).
pub fn playback_step(
    total_frames: u32,
    framerate: u32,
    looping: bool,
    reaches_end: bool,
    reaches_start: bool,
) -> (step: PlaybackStep)
    ensures
        step == PlaybackStep::Hold <==> total_frames == 0 || framerate == 0,
        step == PlaybackStep::Wrap <==> total_frames > 0 && framerate > 0 && looping,
        step == PlaybackStep::StopAtEnd <==> total_frames > 0 && framerate > 0 && !looping
            && reaches_end,
        step == PlaybackStep::StopAtStart <==> total_frames > 0 && framerate > 0 && !looping
            && !reaches_end && reaches_start,
        step == PlaybackStep::Advance <==> total_frames > 0 && framerate > 0 && !looping
            && !reaches_end && !reaches_start,
        step.goes_on() <==> total_frames == 0 || framerate == 0 || looping || !(reaches_end
            || reaches_start),
{
    if total_frames == 0 || framerate == 0 {
        PlaybackStep::Hold
    } else if looping {
        PlaybackStep::Wrap
    } else if reaches_end {
        PlaybackStep::StopAtEnd
    } else if reaches_start {
        PlaybackStep::StopAtStart
    } else {
        PlaybackStep::Advance
    }
}

/// The frame that playback shows `step` frames after `desired`, around the loop
/// boundary where it comes to one.
pub open spec fn window_frame(desired: u32, total_frames: u32, forward: bool, step: int) -> int {
    if forward {
        (desired + step) % (total_frames as int)
    } else if step <= desired {
        desired - step
    } else {
        (desired - step) % (total_frames as int)
    }
}

/// How many frames playback shows from `desired` on before it stops at an end of
/// the timeline, comes to a frame for the second time, or counts past the
/// largest frame number.
pub open spec fn window_reach(desired: u32, total_frames: u32, forward: bool, looping: bool) -> int {
    if total_frames == 0 {
        0
    } else if forward && looping {
        if u32::MAX - desired + 1 < total_frames {
            u32::MAX - desired + 1
        } else {
            total_frames as int
        }
    } else if forward {
        if desired < total_frames {
            total_frames - desired
        } else {
            0
        }
    } else if looping && desired + 1 < total_frames {
        total_frames as int
    } else {
        desired + 1
    }
}

/// The frames from `desired` on, in the order in which playback shows them, at
/// most `limit` of them.
pub open spec fn window_of(
    desired: u32,
    total_frames: u32,
    forward: bool,
    looping: bool,
    limit: u32,
) -> Seq<u32> {
    let reach = window_reach(desired, total_frames, forward, looping);
    Seq::new(
        (if reach < limit {
            reach
        } else {
            limit as int
        }) as nat,
        |step: int| window_frame(desired, total_frames, forward, step) as u32,
    )
}

/// Numbers that lie less than `m` apart are congruent modulo `m` only where they
/// are equal.
proof fn close_numbers_are_not_congruent(a: int, b: int, m: int)
    requires
        m > 0,
        a < b < a + m,
    ensures
        a % m != b % m,
{
    if a % m == b % m {
        vstd::arithmetic::div_mod::lemma_fundamental_div_mod(a, m);
        vstd::arithmetic::div_mod::lemma_fundamental_div_mod(b, m);
        let d = b / m - a / m;
        assert(b - a == m * d) by (nonlinear_arith)
            requires
                a == m * (a / m) + a % m,
                b == m * (b / m) + b % m,
                a % m == b % m,
                d == b / m - a / m,
        ;
        assert(d == 0 || m * d >= m || m * d <= -m) by (nonlinear_arith)
            requires
                m > 0,
        ;
    }
}

/// A multiple of `m` does not change what is left modulo `m`.
proof fn whole_turns_vanish(a: int, m: int)
    requires
        m > 0,
    ensures
        (a + m) % m == a % m,
        (a - m) % m == a % m,
{
    vstd::arithmetic::div_mod::lemma_mod_add_multiples_vanish(a, m);
    vstd::arithmetic::div_mod::lemma_mod_sub_multiples_vanish(a, m);
}

/// A window frame is a frame number, and one of the timeline where `desired` is.
proof fn window_frame_is_a_frame(desired: u32, total_frames: u32, forward: bool, step: int)
    requires
        total_frames > 0,
        step >= 0,
    ensures
        0 <= window_frame(desired, total_frames, forward, step) <= u32::MAX,
        forward || desired < total_frames ==> window_frame(desired, total_frames, forward, step)
            < total_frames,
        desired < total_frames ==> window_frame(desired, total_frames, forward, 0) == desired,
        !forward ==> window_frame(desired, total_frames, forward, 0) == desired,
{
    vstd::arithmetic::div_mod::lemma_mod_bound(desired + step, total_frames as int);
    vstd::arithmetic::div_mod::lemma_mod_bound(desired - step, total_frames as int);
    if desired < total_frames {
        vstd::arithmetic::div_mod::lemma_small_mod(desired as nat, total_frames as nat);
    }
}

/// Within its reach the window shows no frame twice.
proof fn window_frames_differ(
    desired: u32,
    total_frames: u32,
    forward: bool,
    looping: bool,
    a: int,
    b: int,
)
    requires
        0 <= a < b < window_reach(desired, total_frames, forward, looping),
    ensures
        window_frame(desired, total_frames, forward, a) != window_frame(
            desired,
            total_frames,
            forward,
            b,
        ),
{
    let m = total_frames as int;
    if forward {
        close_numbers_are_not_congruent(desired + a, desired + b, m);
    } else if b > desired {
        close_numbers_are_not_congruent(desired - b, desired - a, m);
        if a <= desired {
            vstd::arithmetic::div_mod::lemma_small_mod((desired - a) as nat, m as nat);
        }
    }
}

/// At the end of its reach the window goes no further: the next frame does not
/// exist, or it has been shown.
proof fn window_ends_at_its_reach(desired: u32, total_frames: u32, forward: bool) -> (shown: int)
    requires
        total_frames > 0,
        window_reach(desired, total_frames, forward, true) + desired <= u32::MAX || !forward,
    ensures
        0 <= shown < window_reach(desired, total_frames, forward, true),
        window_frame(desired, total_frames, forward, shown) == window_frame(
            desired,
            total_frames,
            forward,
            window_reach(desired, total_frames, forward, true),
        ),
{
    let m = total_frames as int;
    if forward {
        whole_turns_vanish(desired as int, m);
        0
    } else if desired + 1 < total_frames {
        whole_turns_vanish(desired as int, m);
        vstd::arithmetic::div_mod::lemma_small_mod(desired as nat, m as nat);
        0
    } else {
        whole_turns_vanish(-1, m);
        vstd::arithmetic::div_mod::lemma_small_mod((m - 1) as nat, m as nat);
        desired - (m - 1)
    }
}

pub fn directional_window(
    desired: u32,
    total_frames: u32,
    forward: bool,
    looping: bool,
    limit: usize,
) -> (frames: Vec<u32>)
    ensures
        frames@ == window_of(
            desired,
            total_frames,
            forward,
            looping,
            crate::protocol::low_word(limit as u64),
        ),
{
    if total_frames == 0 {
        assert(Seq::<u32>::empty() =~= window_of(
            desired,
            total_frames,
            forward,
            looping,
            crate::protocol::low_word(limit as u64),
        ));
        return Vec::new();
    }
    let expected: usize = if limit < total_frames as usize {
        limit
    } else {
        total_frames as usize
    };
    let mut frames: Vec<u32> = Vec::with_capacity(expected);
    let mut seen: HashSet<u32> = HashSet::with_capacity(expected);
    let steps: u32 = truncated(limit as u64);
    let mut offset: u32 = 0;
    let ghost reach = window_reach(desired, total_frames, forward, looping);
    let ghost m = total_frames as int;
    while offset < steps
        invariant
            total_frames > 0,
            m == total_frames,
            offset <= steps,
            reach == window_reach(desired, total_frames, forward, looping),
            offset <= reach,
            frames@ == Seq::new(
                offset as nat,
                |step: int| window_frame(desired, total_frames, forward, step) as u32,
            ),
            forall|frame: u32| #[trigger] seen@.contains(frame) <==> frames@.contains(frame),
        ensures
            frames@ == window_of(desired, total_frames, forward, looping, steps),
        decreases steps - offset,
    {
        proof {
            window_frame_is_a_frame(desired, total_frames, forward, offset as int);
            vstd::arithmetic::div_mod::lemma_mod_bound(desired + offset, m);
            vstd::arithmetic::div_mod::lemma_mod_bound(desired - offset, m);
        }
        let next: Option<u32> = if forward {
            match desired.checked_add(offset) {
                Some(frame) => if frame < total_frames {
                    proof {
                        vstd::arithmetic::div_mod::lemma_small_mod(frame as nat, m as nat);
                    }
                    Some(frame)
                } else if looping {
                    Some(frame % total_frames)
                } else {
                    None
                },
                None => None,
            }
        } else if offset <= desired {
            Some(desired - offset)
        } else if looping {
            let wrapped: u32 = (offset - desired) % total_frames;
            proof {
                backward_wrap((offset - desired) as int, m);
            }
            Some((total_frames - wrapped) % total_frames)
        } else {
            None
        };
        let frame = match next {
            Some(frame) => frame,
            None => {
                assert(offset == reach);
                break;
            },
        };
        assert(frame == window_frame(desired, total_frames, forward, offset as int));
        if !seen.insert(frame) {
            proof {
                if offset < reach {
                    let shown = choose|shown: int| 0 <= shown < frames@.len() && frames@[shown] == frame;
                    assert(frames@.contains(frame));
                    window_frame_is_a_frame(desired, total_frames, forward, shown);
                    window_frames_differ(
                        desired,
                        total_frames,
                        forward,
                        looping,
                        shown,
                        offset as int,
                    );
                }
            }
            break;
        }
        proof {
            if offset == reach {
                let shown = window_ends_at_its_reach(desired, total_frames, forward);
                window_frame_is_a_frame(desired, total_frames, forward, shown);
                assert(frames@[shown] == frame);
                assert(frames@.contains(frame));
                assert(false);
            }
        }
        let ghost before = frames@;
        frames.push(frame);
        offset = offset + 1;
        proof {
            assert(frames@ =~= Seq::new(
                offset as nat,
                |step: int| window_frame(desired, total_frames, forward, step) as u32,
            ));
            assert forall|other: u32| #[trigger] seen@.contains(other) <==> frames@.contains(other) by {
                if frames@.contains(other) && other != frame {
                    let i = choose|i: int| 0 <= i < frames@.len() && frames@[i] == other;
                    assert(before[i] == other);
                    assert(before.contains(other));
                }
                if other == frame {
                    assert(frames@[before.len() as int] == other);
                } else if before.contains(other) {
                    let i = choose|i: int| 0 <= i < before.len() && before[i] == other;
                    assert(frames@[i] == other);
                }
            }
        }
    }
    frames
}

/// Counting backwards over the loop boundary with unsigned numbers.
proof fn backward_wrap(past: int, m: int)
    requires
        m > 0,
        past > 0,
    ensures
        0 <= past % m < m,
        (m - past % m) % m == (-past) % m,
{
    vstd::arithmetic::div_mod::lemma_mod_bound(past, m);
    vstd::arithmetic::div_mod::lemma_fundamental_div_mod(past, m);
    let q = past / m;
    let r = past % m;
    if r == 0 {
        assert(-past == m * (-q) + 0) by (nonlinear_arith)
            requires
                past == m * q + r,
                r == 0,
        ;
        vstd::arithmetic::div_mod::lemma_fundamental_div_mod_converse(-past, m, -q, 0);
        whole_turns_vanish(0, m);
    } else {
        assert(-past == m * (-q - 1) + (m - r)) by (nonlinear_arith)
            requires
                past == m * q + r,
        ;
        vstd::arithmetic::div_mod::lemma_fundamental_div_mod_converse(-past, m, -q - 1, m - r);
        vstd::arithmetic::div_mod::lemma_small_mod((m - r) as nat, m as nat);
    }
}

/// Within its reach the window shows no frame twice, and each is a frame number.
pub proof fn window_frames_are_distinct(
    desired: u32,
    total_frames: u32,
    forward: bool,
    looping: bool,
    a: int,
    b: int,
)
    requires
        0 <= a < window_reach(desired, total_frames, forward, looping),
        0 <= b < window_reach(desired, total_frames, forward, looping),
        window_frame(desired, total_frames, forward, a) as u32 == window_frame(
            desired,
            total_frames,
            forward,
            b,
        ) as u32,
    ensures
        a == b,
        0 <= window_frame(desired, total_frames, forward, a) <= u32::MAX,
{
    window_frame_is_a_frame(desired, total_frames, forward, a);
    window_frame_is_a_frame(desired, total_frames, forward, b);
    if a < b {
        window_frames_differ(desired, total_frames, forward, looping, a, b);
    } else if b < a {
        window_frames_differ(desired, total_frames, forward, looping, b, a);
    }
}

/// A window holds no frame twice. From a frame of the timeline it begins with that
/// frame and stays on the timeline.
pub proof fn window_stays_on_the_timeline(
    desired: u32,
    total_frames: u32,
    forward: bool,
    looping: bool,
    limit: u32,
)
    ensures
        window_of(desired, total_frames, forward, looping, limit).no_duplicates(),
        window_of(desired, total_frames, forward, looping, limit).len() <= limit,
        desired < total_frames ==> forall|i: int|
            0 <= i < window_of(desired, total_frames, forward, looping, limit).len()
                ==> #[trigger] window_of(desired, total_frames, forward, looping, limit)[i]
                < total_frames,
        desired < total_frames && limit > 0 ==> window_of(
            desired,
            total_frames,
            forward,
            looping,
            limit,
        ).len() > 0 && window_of(desired, total_frames, forward, looping, limit)[0] == desired,
{
    let window = window_of(desired, total_frames, forward, looping, limit);
    assert forall|a: int, b: int| 0 <= a < window.len() && 0 <= b < window.len() && a
        != b implies window[a] != window[b] by {
        if window[a] == window[b] {
            window_frames_are_distinct(desired, total_frames, forward, looping, a, b);
        }
    }
    if total_frames > 0 {
        assert forall|i: int| 0 <= i < window.len() && desired < total_frames implies
            #[trigger] window[i] < total_frames by {
            window_frame_is_a_frame(desired, total_frames, forward, i);
        }
        window_frame_is_a_frame(desired, total_frames, forward, 0);
    }
}

/// A looping window that is long enough shows the whole timeline.
pub proof fn long_looping_window_shows_every_frame(
    desired: u32,
    total_frames: u32,
    forward: bool,
    limit: u32,
    frame: u32,
)
    requires
        desired < total_frames,
        frame < total_frames,
        limit >= total_frames,
        forward ==> desired + total_frames <= u32::MAX + 1,
    ensures
        window_of(desired, total_frames, forward, true, limit).contains(frame),
{
    let d = crate::cache::playback_distance(frame, desired, total_frames, forward);
    crate::cache::distance_counts_playback_steps(frame, desired, total_frames, forward);
    assert(window_of(desired, total_frames, forward, true, limit)[d] == frame);
}

/// The number behind `a`, and the one before it, modulo `m`.
proof fn neighbours_modulo(a: int, m: int)
    requires
        m > 0,
    ensures
        (a + 1) % m == if a % m == m - 1 {
            0
        } else {
            a % m + 1
        },
        (a - 1) % m == if a % m == 0 {
            m - 1
        } else {
            a % m - 1
        },
{
    let q = a / m;
    let r = a % m;
    vstd::arithmetic::div_mod::lemma_fundamental_div_mod(a, m);
    vstd::arithmetic::div_mod::lemma_mod_bound(a, m);
    assert((q + 1) * m == q * m + m && (q - 1) * m == q * m - m && m * q == q * m)
        by (nonlinear_arith);
    if r == m - 1 {
        vstd::arithmetic::div_mod::lemma_fundamental_div_mod_converse(a + 1, m, q + 1, 0);
    } else {
        vstd::arithmetic::div_mod::lemma_fundamental_div_mod_converse(a + 1, m, q, r + 1);
    }
    if r == 0 {
        vstd::arithmetic::div_mod::lemma_fundamental_div_mod_converse(a - 1, m, q - 1, m - 1);
    } else {
        vstd::arithmetic::div_mod::lemma_fundamental_div_mod_converse(a - 1, m, q, r - 1);
    }
}

/// Without a loop, playback from a frame of the timeline shows every frame up to the
/// end in its direction, one by one, until the limit is reached. From behind the
/// timeline nothing follows forward, and backward every frame number does.
pub proof fn window_without_a_loop_runs_to_the_end(
    desired: u32,
    total_frames: u32,
    limit: u32,
    frame: u32,
)
    requires
        total_frames > 0,
    ensures
        ({
            let ahead = window_of(desired, total_frames, true, false, limit);
            let back = window_of(desired, total_frames, false, false, limit);
            &&& ahead.contains(frame) <==> desired <= frame < total_frames && frame - desired
                < limit
            &&& forall|k: int| 0 <= k < ahead.len() ==> #[trigger] ahead[k] == desired + k
            &&& desired >= total_frames ==> ahead.len() == 0
            &&& desired < total_frames && total_frames - desired <= limit ==> ahead.len()
                == total_frames - desired
            &&& desired < total_frames && total_frames - desired > limit ==> ahead.len() == limit
            &&& back.contains(frame) <==> frame <= desired && desired - frame < limit
            &&& forall|k: int| 0 <= k < back.len() ==> #[trigger] back[k] == desired - k
            &&& desired < limit ==> back.len() == desired + 1
            &&& desired >= limit ==> back.len() == limit
        }),
{
    let ahead = window_of(desired, total_frames, true, false, limit);
    let back = window_of(desired, total_frames, false, false, limit);
    assert forall|k: int| 0 <= k < ahead.len() implies #[trigger] ahead[k] == desired + k by {
        vstd::arithmetic::div_mod::lemma_small_mod((desired + k) as nat, total_frames as nat);
    }
    if desired <= frame < total_frames && frame - desired < limit {
        assert(ahead[frame - desired] == frame);
    }
    if frame <= desired && desired - frame < limit {
        assert(back[desired - frame] == frame);
    }
}

/// In a loop, playback begins with the desired frame and goes from each frame to the
/// next one in its direction, from the one end of the timeline to the other, until it
/// has shown every frame or the limit is reached. Forward, frame numbers end at the
/// largest one.
pub proof fn looping_window_goes_around(
    desired: u32,
    total_frames: u32,
    forward: bool,
    limit: u32,
)
    requires
        desired < total_frames,
    ensures
        ({
            let window = window_of(desired, total_frames, forward, true, limit);
            let last = total_frames - 1;
            &&& limit > 0 ==> window.len() > 0 && window[0] == desired
            &&& window.len() <= limit && window.len() <= total_frames
            &&& window.len() == limit || window.len() == total_frames || forward && window.len()
                == u32::MAX - desired + 1
            &&& forall|k: int, next: int|
                0 <= k < window.len() && next == k + 1 && next < window.len() ==> #[trigger] window[next]
                    == if forward && #[trigger] window[k] == last {
                    0
                } else if forward {
                    window[k] + 1
                } else if window[k] == 0 {
                    last
                } else {
                    window[k] - 1
                }
        }),
{
    let window = window_of(desired, total_frames, forward, true, limit);
    let m = total_frames as int;
    let d = desired as int;
    window_stays_on_the_timeline(desired, total_frames, forward, true, limit);
    assert forall|k: int, next: int|
        0 <= k < window.len() && next == k + 1 && next < window.len() implies #[trigger] window[next]
        == if forward && #[trigger] window[k] == m - 1 {
        0
    } else if forward {
        window[k] + 1
    } else if window[k] == 0 {
        m - 1
    } else {
        window[k] - 1
    } by {
        window_frame_is_a_frame(desired, total_frames, forward, k);
        window_frame_is_a_frame(desired, total_frames, forward, k + 1);
        if forward {
            neighbours_modulo(d + k, m);
        } else {
            neighbours_modulo(d - k, m);
            if k <= d {
                vstd::arithmetic::div_mod::lemma_small_mod((d - k) as nat, m as nat);
            }
        }
    }
}

/// In a loop, from behind the timeline, playback goes on forward as if from the frame
/// that the loop puts there, and backward it counts down to the first frame before it
/// stops.
pub proof fn looping_window_from_behind_the_timeline(
    desired: u32,
    total_frames: u32,
    limit: u32,
    k: int,
)
    requires
        0 < total_frames <= desired,
    ensures
        ({
            let ahead = window_of(desired, total_frames, true, true, limit);
            let back = window_of(desired, total_frames, false, true, limit);
            &&& 0 <= k < ahead.len() ==> ahead[k] == (desired + k) % (total_frames as int)
            &&& ahead.len() == limit && limit <= total_frames || ahead.len() == total_frames
                || ahead.len() == u32::MAX - desired + 1
            &&& ahead.len() <= limit && desired + ahead.len() <= u32::MAX + 1
            &&& 0 <= k < back.len() ==> back[k] == desired - k
            &&& back.len() == limit && limit <= desired || back.len() == desired + 1
        }),
{
    let ahead = window_of(desired, total_frames, true, true, limit);
    if 0 <= k < ahead.len() {
        window_frame_is_a_frame(desired, total_frames, true, k);
    }
}

/// Without a timeline, or with no room, nothing is shown.
pub proof fn empty_windows(
    desired: u32,
    total_frames: u32,
    forward: bool,
    looping: bool,
    limit: u32,
)
    ensures
        total_frames == 0 || limit == 0 ==> window_of(
            desired,
            total_frames,
            forward,
            looping,
            limit,
        ).len() == 0,
{
}

/// A smaller limit only cuts the window off.
pub proof fn limit_cuts_the_window_off(
    desired: u32,
    total_frames: u32,
    forward: bool,
    looping: bool,
    small: u32,
    large: u32,
)
    requires
        small <= large,
    ensures
        ({
            let short = window_of(desired, total_frames, forward, looping, small);
            let long = window_of(desired, total_frames, forward, looping, large);
            &&& short.len() <= long.len()
            &&& short == long.take(short.len() as int)
            &&& short.len() == small || short == long
        }),
{
    let short = window_of(desired, total_frames, forward, looping, small);
    let long = window_of(desired, total_frames, forward, looping, large);
    assert(short =~= long.take(short.len() as int));
    if short.len() != small {
        assert(short =~= long);
    }
}

} // verus!
