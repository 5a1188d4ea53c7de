//! What the preview schedule knows, and what each step does to it.

use crate::cache::{CacheView, EvictionContext};
use crate::protocol::{EditorCommand, PREVIEW_SLOT_COUNT};
use std::sync::Arc;
use vstd::prelude::*;

verus! {

/// How many frames playback looks ahead.
pub const PREVIEW_BUFFER_HIGH_WATER: usize = 48;

/// Playback with fewer buffered frames than this uses every slot to recover.
/// While it is paused, this many frames to each side of the shown one are asked
/// for.
pub const PREVIEW_BUFFER_RECOVERY_WATER: usize = 16;

/// How many bytes of pictures the cache may hold.
pub const PREVIEW_CACHE_BUDGET_BYTES: usize = 536_870_912;

/// How many frames are cached however large they are.
pub const PREVIEW_CACHE_MIN_FRAMES: usize = 16;

/// How many frames are cached at most, however small they are.
pub const PREVIEW_CACHE_MAX_FRAMES: usize = 256;

pub const PREVIEW_STEADY_IN_FLIGHT_MIN: usize = 2;

pub const PREVIEW_STEADY_IN_FLIGHT_MAX: usize = 8;

/// A frame that the renderer was asked for. `created_at` counts nanoseconds on
/// the editor's clock.
#[derive(Clone, Copy, Debug)]
pub struct PreviewRequest {
    pub id: u64,
    pub frame: u32,
    pub slot: u32,
    pub created_at: u64,
}

/// What the schedule knows.
pub struct ScheduleView {
    /// The rendered frames, once a preview was prepared.
    pub cache: Option<CacheView>,
    /// The renderer can be asked for frames.
    pub ready: bool,
    /// The frame on the screen.
    pub displayed: Option<u32>,
    /// The frame that belongs on the screen.
    pub desired: u32,
    /// How many frames the timeline has.
    pub total: u32,
    /// The requests that were not answered yet, by their ids.
    pub requests: Map<u64, PreviewRequest>,
    /// The slots that no request uses, the next one to use first.
    pub free_slots: Seq<u32>,
    /// The id of the next request.
    pub next_id: u64,
    /// The frames to ask for, in this order.
    pub queue: Seq<u32>,
    /// The whole window ahead was buffered at some time.
    pub primed: bool,
    /// How many frames of the window ahead were buffered without a gap.
    pub buffered: nat,
    pub playing: bool,
    pub looping: bool,
}

/// The slots `0, 1, ..`, up to `count`.
pub open spec fn slots_up_to(count: u32) -> Seq<u32> {
    Seq::new(count as nat, |slot: int| slot as u32)
}

/// The frames of a timeline around `desired`, up to `distance` away, the closer
/// ones first and of two as close the later one first.
pub open spec fn frames_around(desired: u32, total: u32, distance: nat) -> Seq<u32>
    decreases distance,
{
    let after = if desired + distance < total {
        seq![(desired + distance) as u32]
    } else {
        seq![]
    };
    let before = if distance <= desired && desired - distance < total {
        seq![(desired - distance) as u32]
    } else {
        seq![]
    };
    if distance == 0 {
        after
    } else {
        frames_around(desired, total, (distance - 1) as nat) + after + before
    }
}

/// How many frames of a size are cached: as many as fit in the budget, within
/// bounds.
pub open spec fn cache_capacity_of(width: u32, height: u32) -> nat {
    let frame_bytes = width * height * 4;
    let fitting = PREVIEW_CACHE_BUDGET_BYTES as int / (if frame_bytes < 1 {
        1
    } else {
        frame_bytes
    });
    if fitting < PREVIEW_CACHE_MIN_FRAMES {
        PREVIEW_CACHE_MIN_FRAMES as nat
    } else if fitting > PREVIEW_CACHE_MAX_FRAMES {
        PREVIEW_CACHE_MAX_FRAMES as nat
    } else {
        fitting as nat
    }
}

/// The id behind `id`. No request has the id 0.
pub open spec fn following_id(id: u64) -> u64 {
    if id == u64::MAX {
        1
    } else {
        (id + 1) as u64
    }
}

/// How many requests steady playback keeps open where it needs `needed`.
pub open spec fn steady_limit(needed: usize) -> usize {
    if needed < PREVIEW_STEADY_IN_FLIGHT_MIN {
        PREVIEW_STEADY_IN_FLIGHT_MIN
    } else if needed > PREVIEW_STEADY_IN_FLIGHT_MAX {
        PREVIEW_STEADY_IN_FLIGHT_MAX
    } else {
        needed
    }
}

impl ScheduleView {
    /// The frame was rendered and is kept.
    pub open spec fn cached(self, frame: u32) -> bool {
        self.cache matches Some(cache) && cache.contains(frame)
    }

    /// The renderer was asked for the frame and has not answered.
    pub open spec fn requested(self, frame: u32) -> bool {
        exists|id: u64| #[trigger]
            self.requests.contains_key(id) && self.requests[id].frame == frame
    }

    /// Nobody needs to ask for the frame.
    pub open spec fn holds(self, frame: u32) -> bool {
        self.cached(frame) || self.requested(frame)
    }

    /// Those of the frames that have to be asked for.
    pub open spec fn missing(self, frames: Seq<u32>) -> Seq<u32> {
        frames.filter(|frame: u32| !self.holds(frame))
    }

    /// How many of the first frames need not be asked for.
    pub open spec fn buffered_prefix(self, frames: Seq<u32>) -> nat
        decreases frames.len(),
    {
        if frames.len() == 0 || !self.holds(frames[0]) {
            0
        } else {
            1 + self.buffered_prefix(frames.drop_first())
        }
    }

    /// The frames that playback shows next.
    pub open spec fn window(self, forward: bool) -> Seq<u32> {
        crate::playback::window_of(
            self.desired,
            self.total,
            forward,
            self.looping,
            PREVIEW_BUFFER_HIGH_WATER as u32,
        )
    }

    /// The schedule once the queue was filled anew.
    pub open spec fn refilled(self, forward: bool) -> ScheduleView {
        if self.cache is None {
            self
        } else if !self.playing {
            ScheduleView {
                queue: self.missing(
                    frames_around(self.desired, self.total, PREVIEW_BUFFER_RECOVERY_WATER as nat),
                ),
                ..self
            }
        } else {
            let window = self.window(forward);
            let buffered = self.buffered_prefix(window);
            ScheduleView {
                buffered,
                primed: self.primed || buffered >= window.len(),
                queue: self.missing(window),
                ..self
            }
        }
    }

    /// How many requests may be open at once. Warm-up, seeks while paused, and
    /// recovery from an underrun may use every slot; steady playback, which needs
    /// `needed` open requests to keep up, stays shallow.
    pub open spec fn in_flight_limit(self, needed: usize) -> usize {
        if !self.playing || !self.primed || self.buffered < PREVIEW_BUFFER_RECOVERY_WATER {
            PREVIEW_SLOT_COUNT as usize
        } else {
            steady_limit(needed)
        }
    }

    /// A slot is free for the next frame of the queue, and the limit allows one
    /// more request.
    pub open spec fn can_ask(self, limit: usize) -> bool {
        &&& self.requests.len() < limit
        &&& self.free_slots.len() > 0
        &&& self.queue.len() > 0
    }

    /// The schedule without the frames at the front of the queue that need not be
    /// asked for any more.
    pub open spec fn settled(self, limit: usize) -> ScheduleView
        decreases self.queue.len(),
    {
        if self.can_ask(limit) && self.holds(self.queue[0]) {
            (ScheduleView { queue: self.queue.drop_first(), ..self }).settled(limit)
        } else {
            self
        }
    }

    /// The command that asks for the frame at the front of the queue.
    pub open spec fn next_command(self) -> EditorCommand {
        EditorCommand::RenderFrame {
            request_id: self.next_id,
            frame: self.queue[0],
            slot: self.free_slots[0],
        }
    }

    /// The command could not be sent: the frame and the id are used up, the slot
    /// stays free.
    pub open spec fn refused(self) -> ScheduleView {
        ScheduleView {
            queue: self.queue.drop_first(),
            next_id: following_id(self.next_id),
            ..self
        }
    }

    /// The command was sent.
    pub open spec fn asked(self, created_at: u64) -> ScheduleView {
        let request = PreviewRequest {
            id: self.next_id,
            frame: self.queue[0],
            slot: self.free_slots[0],
            created_at,
        };
        ScheduleView {
            queue: self.queue.drop_first(),
            next_id: following_id(self.next_id),
            free_slots: self.free_slots.drop_first(),
            requests: self.requests.insert(self.next_id, request),
            ..self
        }
    }

    /// The schedule after a round of requests, of which each was sent at the given
    /// time or could not be sent.
    pub open spec fn dispatched(self, limit: usize, outcomes: Seq<Option<u64>>) -> ScheduleView
        decreases outcomes.len(),
    {
        let settled = self.settled(limit);
        if !settled.can_ask(limit) || outcomes.len() == 0 {
            settled
        } else {
            match outcomes[0] {
                Some(created_at) => settled.asked(created_at).dispatched(
                    limit,
                    outcomes.drop_first(),
                ),
                None => settled.refused(),
            }
        }
    }

    /// The outcomes make up a whole round: it goes on until nothing more can be asked
    /// for or a command could not be sent.
    pub open spec fn is_round(self, limit: usize, outcomes: Seq<Option<u64>>) -> bool
        decreases outcomes.len(),
    {
        let settled = self.settled(limit);
        if !settled.can_ask(limit) {
            outcomes.len() == 0
        } else {
            &&& outcomes.len() > 0
            &&& match outcomes[0] {
                Some(created_at) => settled.asked(created_at).is_round(
                    limit,
                    outcomes.drop_first(),
                ),
                None => outcomes.len() == 1,
            }
        }
    }

    /// The commands of a round, one for each outcome.
    pub open spec fn commands(self, limit: usize, outcomes: Seq<Option<u64>>) -> Seq<EditorCommand>
        decreases outcomes.len(),
    {
        let settled = self.settled(limit);
        if !settled.can_ask(limit) || outcomes.len() == 0 {
            seq![]
        } else {
            seq![settled.next_command()] + match outcomes[0] {
                Some(created_at) => settled.asked(created_at).commands(
                    limit,
                    outcomes.drop_first(),
                ),
                None => seq![],
            }
        }
    }

    /// The round in which the renderer is asked for what is queued has these outcomes
    /// and leads to `after`. `send` was called once for each command of the round, in
    /// order, and for nothing else: each call got the link that the call before gave
    /// back.
    pub open spec fn is_dispatch<Link, F: Fn(Link, EditorCommand) -> (Link, Option<u64>)>(
        self,
        needed: usize,
        send: F,
        links: Seq<Link>,
        outcomes: Seq<Option<u64>>,
        after: ScheduleView,
    ) -> bool {
        let limit = self.in_flight_limit(needed);
        &&& links.len() == outcomes.len() + 1
        &&& if !self.ready || self.total == 0 {
            outcomes.len() == 0 && after == self
        } else {
            &&& self.is_round(limit, outcomes)
            &&& after == self.dispatched(limit, outcomes)
            &&& forall|k: int|
                0 <= k < outcomes.len() ==> send.ensures(
                    (links[k], self.commands(limit, outcomes)[k]),
                    (links[k + 1], #[trigger] outcomes[k]),
                )
        }
    }

    /// `after` is the schedule once the renderer was asked for what is queued, and
    /// `last` what became of the link to it.
    pub open spec fn dispatches<Link, F: Fn(Link, EditorCommand) -> (Link, Option<u64>)>(
        self,
        needed: usize,
        send: F,
        link: Link,
        after: ScheduleView,
        last: Link,
    ) -> bool {
        exists|links: Seq<Link>, outcomes: Seq<Option<u64>>|
            {
                &&& #[trigger] self.is_dispatch(needed, send, links, outcomes, after)
                &&& links.first() == link
                &&& links.last() == last
            }
    }

    /// The open request that a rendered frame answers.
    pub open spec fn answered(self, request_id: u64, frame: u32, slot: u32) -> Option<
        PreviewRequest,
    > {
        if self.requests.contains_key(request_id) && self.requests[request_id].frame == frame
            && self.requests[request_id].slot == slot {
            Some(self.requests[request_id])
        } else {
            None
        }
    }

    /// What must not be evicted now.
    pub open spec fn eviction(self, forward: bool) -> EvictionContext {
        EvictionContext {
            playhead: self.desired,
            total_frames: self.total,
            forward,
            horizon: PREVIEW_BUFFER_HIGH_WATER as u32,
        }
    }

    /// Why a rendered frame is not taken.
    pub open spec fn refusal(self, request_id: u64, frame: u32, slot: u32) -> Option<Seq<char>> {
        if self.answered(request_id, frame, slot) is None {
            Some("preview completion does not match the in-flight request"@)
        } else if self.cache is None {
            Some("preview cache is unavailable"@)
        } else {
            None
        }
    }

    /// The schedule with a rendered frame taken: its picture is cached, its request
    /// is done and its slot free.
    pub open spec fn accepted(
        self,
        request_id: u64,
        frame: u32,
        slot: u32,
        image: Arc<egui::ColorImage>,
        forward: bool,
    ) -> ScheduleView {
        ScheduleView {
            cache: match self.cache {
                Some(cache) => Some(cache.inserted(frame, image, self.eviction(forward))),
                None => None,
            },
            requests: self.requests.remove(request_id),
            free_slots: self.free_slots.push(slot),
            ..self
        }
    }

    /// The schedule with another frame on its way to the screen.
    pub open spec fn targeted(self, frame: u32) -> ScheduleView {
        let last: u32 = if self.total == 0 {
            0
        } else {
            (self.total - 1) as u32
        };
        ScheduleView {
            desired: if frame < last {
                frame
            } else {
                last
            },
            ..self
        }
    }

    /// The frame to show: the desired one where it is there, and else, while
    /// playback runs, the closest one on its way.
    pub open spec fn shown_frame(self, forward: bool) -> Option<u32> {
        match self.cache {
            Some(cache) => if cache.contains(self.desired) {
                Some(self.desired)
            } else if self.playing {
                crate::cache::playback_choice(
                    cache.frames.dom(),
                    self.desired,
                    self.displayed,
                    forward,
                    self.looping,
                )
            } else {
                None
            },
            None => None,
        }
    }

    /// The schedule once `frame` is on the screen.
    pub open spec fn displaying(self, frame: u32) -> ScheduleView {
        ScheduleView {
            cache: match self.cache {
                Some(cache) => Some(
                    CacheView { order: crate::cache::touched(cache.order, frame), ..cache },
                ),
                None => None,
            },
            displayed: Some(frame),
            ..self
        }
    }

    /// The schedule without a preview. What playback was set to stays.
    pub open spec fn cleared(self) -> ScheduleView {
        ScheduleView {
            cache: None,
            ready: false,
            displayed: None,
            desired: 0,
            total: 0,
            requests: Map::empty(),
            free_slots: slots_up_to(PREVIEW_SLOT_COUNT),
            queue: seq![],
            primed: false,
            buffered: 0,
            ..self
        }
    }

    /// The schedule of a new preview that starts at `frame`.
    pub open spec fn prepared(self, total: u32, capacity: nat, frame: u32) -> ScheduleView {
        let empty = CacheView { frames: Map::empty(), order: seq![], capacity };
        (ScheduleView { cache: Some(empty), total, ..self.cleared() }).targeted(frame)
    }

    /// The cache is well-formed, and everything that was rendered, asked for or
    /// is to be asked for lies on the timeline.
    pub open spec fn wf(self) -> bool {
        &&& self.cache matches Some(cache) ==> cache.wf()
        &&& forall|frame: u32| #[trigger] self.cached(frame) ==> frame < self.total
        &&& forall|id: u64| #[trigger]
            self.requests.contains_key(id) ==> {
                &&& self.requests[id].id == id
                &&& self.requests[id].frame < self.total
            }
        &&& forall|i: int| 0 <= i < self.queue.len() ==> #[trigger] self.queue[i] < self.total
        &&& self.desired < self.total || self.desired == 0
        &&& self.requests.dom().finite()
    }
}

/// What is left of some frames once those that are held were taken out.
pub proof fn missing_frames_are_those_not_held(schedule: ScheduleView, frames: Seq<u32>)
    ensures
        forall|frame: u32| #[trigger]
            schedule.missing(frames).contains(frame) <==> frames.contains(frame)
                && !schedule.holds(frame),
    decreases frames.len(),
{
    reveal(Seq::filter);
    if frames.len() > 0 {
        missing_frames_are_those_not_held(schedule, frames.drop_last());
        let rest = schedule.missing(frames.drop_last());
        let last = frames.last();
        assert forall|frame: u32| #[trigger]
            schedule.missing(frames).contains(frame) <==> frames.contains(frame)
                && !schedule.holds(frame) by {
            assert(frames.contains(frame) <==> frames.drop_last().contains(frame) || frame == last)
                by {
                assert(frames =~= frames.drop_last().push(last));
                pushed_contains(frames.drop_last(), last, frame);
            }
            pushed_contains(rest, last, frame);
        }
    }
}

/// A sequence with one more element contains that one besides its own.
proof fn pushed_contains(frames: Seq<u32>, last: u32, frame: u32)
    ensures
        frames.push(last).contains(frame) <==> frames.contains(frame) || frame == last,
{
    let all = frames.push(last);
    if frames.contains(frame) {
        let i = choose|i: int| 0 <= i < frames.len() && frames[i] == frame;
        assert(all[i] == frame);
    }
    if frame == last {
        assert(all[frames.len() as int] == frame);
    }
}

/// The frames around a frame are those of the timeline that are not further away.
pub proof fn frames_around_are_the_near_ones(desired: u32, total: u32, distance: nat, frame: u32)
    ensures
        frames_around(desired, total, distance).contains(frame) <==> frame < total && -distance
            <= frame - desired <= distance,
    decreases distance,
{
    let around = frames_around(desired, total, distance);
    if distance == 0 {
        if desired < total {
            assert(around == Seq::<u32>::empty().push(desired));
            pushed_contains(Seq::<u32>::empty(), desired, frame);
        } else {
            assert(around.len() == 0);
        }
    } else {
        let closer = frames_around(desired, total, (distance - 1) as nat);
        frames_around_are_the_near_ones(desired, total, (distance - 1) as nat, frame);
        let after = (desired + distance) as u32;
        let before = (desired - distance) as u32;
        let with_after = if desired + distance < total {
            closer.push(after)
        } else {
            closer
        };
        let with_both = if distance <= desired && desired - distance < total {
            with_after.push(before)
        } else {
            with_after
        };
        assert(around =~= with_both);
        pushed_contains(closer, after, frame);
        pushed_contains(with_after, before, frame);
    }
}

/// Refilling asks for frames of the timeline only.
pub proof fn refill_stays_on_the_timeline(schedule: ScheduleView, forward: bool)
    requires
        schedule.wf(),
    ensures
        schedule.refilled(forward).wf(),
{
    let after = schedule.refilled(forward);
    if schedule.cache is Some {
        assert forall|i: int| 0 <= i < after.queue.len() implies #[trigger] after.queue[i]
            < schedule.total by {
            let frame = after.queue[i];
            assert(after.queue.contains(frame));
            if schedule.playing {
                missing_frames_are_those_not_held(schedule, schedule.window(forward));
                assert(schedule.window(forward).contains(frame));
                crate::playback::window_stays_on_the_timeline(
                    schedule.desired,
                    schedule.total,
                    forward,
                    schedule.looping,
                    PREVIEW_BUFFER_HIGH_WATER as u32,
                );
            } else {
                let around = frames_around(
                    schedule.desired,
                    schedule.total,
                    PREVIEW_BUFFER_RECOVERY_WATER as nat,
                );
                missing_frames_are_those_not_held(schedule, around);
                frames_around_are_the_near_ones(
                    schedule.desired,
                    schedule.total,
                    PREVIEW_BUFFER_RECOVERY_WATER as nat,
                    frame,
                );
            }
        }
        same_pictures_lie_on_the_timeline(schedule, after);
    }
}

/// Whatever becomes of the frame at the front of the queue, the schedule stays
/// well-formed.
pub proof fn dispatch_keeps_the_schedule_well_formed(schedule: ScheduleView)
    requires
        schedule.wf(),
        schedule.queue.len() > 0,
    ensures
        (ScheduleView { queue: schedule.queue.drop_first(), ..schedule }).wf(),
        schedule.refused().wf(),
        forall|created_at: u64| #[trigger] schedule.asked(created_at).wf(),
{
    let dropped = ScheduleView { queue: schedule.queue.drop_first(), ..schedule };
    assert forall|i: int| 0 <= i < dropped.queue.len() implies #[trigger] dropped.queue[i]
        < schedule.total by {
        assert(dropped.queue[i] == schedule.queue[i + 1]);
    }
    same_pictures_lie_on_the_timeline(schedule, dropped);
    same_pictures_lie_on_the_timeline(schedule, schedule.refused());
    assert forall|created_at: u64| #[trigger] schedule.asked(created_at).wf() by {
        same_pictures_lie_on_the_timeline(schedule, schedule.asked(created_at));
    }
}

/// A schedule that takes a rendered frame stays well-formed.
pub proof fn accepting_keeps_the_schedule_well_formed(
    schedule: ScheduleView,
    request_id: u64,
    frame: u32,
    slot: u32,
    image: Arc<egui::ColorImage>,
    forward: bool,
)
    requires
        schedule.wf(),
        schedule.refusal(request_id, frame, slot) is None,
    ensures
        schedule.accepted(request_id, frame, slot, image, forward).wf(),
{
    let after = schedule.accepted(request_id, frame, slot, image, forward);
    let cache = schedule.cache->0;
    crate::cache::insertion_evicts_at_most_one_frame(
        cache,
        frame,
        image,
        schedule.eviction(forward),
    );
    assert forall|other: u32| #[trigger] after.cached(other) implies other < schedule.total by {
        if other != frame {
            assert(schedule.cached(other));
        }
    }
}

/// Only a frame that is there is shown.
pub proof fn shown_frame_is_cached(schedule: ScheduleView, forward: bool)
    requires
        schedule.wf(),
    ensures
        schedule.shown_frame(forward) matches Some(frame) ==> schedule.cached(frame),
{
    if let Some(cache) = schedule.cache {
        crate::cache::highest_up_to_is_closest(cache.frames.dom(), schedule.desired);
        crate::cache::lowest_from_is_closest(cache.frames.dom(), schedule.desired);
    }
}

/// While the desired frame is not there, playback does not go back behind the frame
/// on the screen, unless it went over the loop boundary.
pub proof fn screen_does_not_go_back(schedule: ScheduleView, forward: bool)
    requires
        schedule.wf(),
    ensures
        match (schedule.shown_frame(forward), schedule.displayed) {
            (Some(frame), Some(displayed)) => {
                ||| frame == schedule.desired
                ||| forward && frame >= displayed
                ||| !forward && frame <= displayed
                ||| schedule.looping && forward && schedule.desired < displayed
                ||| schedule.looping && !forward && schedule.desired > displayed
            },
            _ => true,
        },
{
    if let Some(cache) = schedule.cache {
        crate::cache::playback_never_regresses(
            cache.frames.dom(),
            schedule.desired,
            schedule.displayed,
            forward,
            schedule.looping,
        );
    }
}

/// A refilled queue holds no frame twice. While playback is paused it holds every
/// missing frame near the desired one and nothing else, and else every missing
/// frame of the window ahead and nothing else.
pub proof fn queue_holds_the_missing_frames(schedule: ScheduleView, forward: bool, frame: u32)
    requires
        schedule.cache is Some,
    ensures
        schedule.refilled(forward).queue.no_duplicates(),
        !schedule.playing ==> (schedule.refilled(forward).queue.contains(frame) <==> {
            &&& frame < schedule.total
            &&& -PREVIEW_BUFFER_RECOVERY_WATER <= frame - schedule.desired
                <= PREVIEW_BUFFER_RECOVERY_WATER
            &&& !schedule.holds(frame)
        }),
        schedule.playing ==> (schedule.refilled(forward).queue.contains(frame) <==> {
            &&& schedule.window(forward).contains(frame)
            &&& !schedule.holds(frame)
        }),
{
    if schedule.playing {
        let window = schedule.window(forward);
        crate::playback::window_stays_on_the_timeline(
            schedule.desired,
            schedule.total,
            forward,
            schedule.looping,
            PREVIEW_BUFFER_HIGH_WATER as u32,
        );
        missing_frames_are_those_not_held(schedule, window);
        missing_frames_are_distinct(schedule, window);
    } else {
        let distance = PREVIEW_BUFFER_RECOVERY_WATER as nat;
        let around = frames_around(schedule.desired, schedule.total, distance);
        frames_around_are_the_near_ones(schedule.desired, schedule.total, distance, frame);
        frames_around_are_distinct(schedule.desired, schedule.total, distance);
        missing_frames_are_those_not_held(schedule, around);
        missing_frames_are_distinct(schedule, around);
    }
}

/// What is left of distinct frames is distinct.
proof fn missing_frames_are_distinct(schedule: ScheduleView, frames: Seq<u32>)
    requires
        frames.no_duplicates(),
    ensures
        schedule.missing(frames).no_duplicates(),
    decreases frames.len(),
{
    reveal(Seq::filter);
    if frames.len() > 0 {
        let rest = frames.drop_last();
        missing_frames_are_distinct(schedule, rest);
        missing_frames_are_those_not_held(schedule, rest);
        assert(!rest.contains(frames.last()));
        assert(!schedule.missing(rest).contains(frames.last()));
    }
}

/// No frame comes twice among those around a frame.
proof fn frames_around_are_distinct(desired: u32, total: u32, distance: nat)
    ensures
        frames_around(desired, total, distance).no_duplicates(),
    decreases distance,
{
    if distance > 0 {
        let closer = frames_around(desired, total, (distance - 1) as nat);
        frames_around_are_distinct(desired, total, (distance - 1) as nat);
        let around = frames_around(desired, total, distance);
        assert forall|i: int| 0 <= i < closer.len() implies -distance < (#[trigger] closer[i])
            - desired < distance by {
            assert(closer.contains(closer[i]));
            frames_around_are_the_near_ones(desired, total, (distance - 1) as nat, closer[i]);
        }
        assert forall|a: int, b: int| 0 <= a < b < around.len() implies around[a] != around[b] by {
            if a < closer.len() {
                assert(around[a] == closer[a]);
            }
            if b < closer.len() {
                assert(around[b] == closer[b]);
            }
        }
    }
}

/// While playback runs, the queue is empty exactly where the whole window ahead is
/// buffered.
pub proof fn nothing_is_queued_once_the_window_is_buffered(schedule: ScheduleView, forward: bool)
    requires
        schedule.cache is Some,
        schedule.playing,
    ensures
        schedule.refilled(forward).buffered <= schedule.window(forward).len(),
        schedule.refilled(forward).queue.len() == 0 <==> schedule.refilled(forward).buffered
            == schedule.window(forward).len(),
        schedule.refilled(forward).queue.len() == 0 ==> schedule.refilled(forward).primed,
{
    let window = schedule.window(forward);
    buffered_prefix_ends_at_a_gap(schedule, window);
    missing_frames_are_those_not_held(schedule, window);
    let count = schedule.buffered_prefix(window);
    let queue = schedule.missing(window);
    if queue.len() > 0 {
        assert(queue.contains(queue[0]));
        assert(window.contains(queue[0]));
    } else if count < window.len() {
        assert(window.contains(window[count as int]));
        assert(queue.contains(window[count as int]));
    }
}

/// The buffered frames at the front are held, and the one behind them is not.
pub proof fn buffered_prefix_ends_at_a_gap(schedule: ScheduleView, frames: Seq<u32>)
    ensures
        schedule.buffered_prefix(frames) <= frames.len(),
        forall|i: int|
            0 <= i < schedule.buffered_prefix(frames) ==> schedule.holds(#[trigger] frames[i]),
        schedule.buffered_prefix(frames) < frames.len() ==> !schedule.holds(
            frames[schedule.buffered_prefix(frames) as int],
        ),
    decreases frames.len(),
{
    if frames.len() > 0 && schedule.holds(frames[0]) {
        let rest = frames.drop_first();
        buffered_prefix_ends_at_a_gap(schedule, rest);
        assert forall|i: int| 0 <= i < schedule.buffered_prefix(frames) implies schedule.holds(
            #[trigger] frames[i],
        ) by {
            if i > 0 {
                assert(frames[i] == rest[i - 1]);
            }
        }
    }
}

/// The desired frame is shown as soon as it was rendered and taken, and no later
/// frame pushes it out before the target moves.
pub proof fn desired_frame_is_shown_once_it_is_there(
    schedule: ScheduleView,
    request_id: u64,
    frame: u32,
    slot: u32,
    image: Arc<egui::ColorImage>,
    forward: bool,
)
    requires
        schedule.wf(),
        schedule.cache matches Some(cache) && cache.capacity > 0,
        schedule.refusal(request_id, frame, slot) is None,
        frame == schedule.desired || schedule.cached(schedule.desired),
    ensures
        schedule.accepted(request_id, frame, slot, image, forward).shown_frame(forward) == Some(
            schedule.desired,
        ),
{
    let cache = schedule.cache->0;
    assert forall|cached: u32| #[trigger] cache.contains(cached) implies cached
        < schedule.total by {
        assert(schedule.cached(cached));
    }
    crate::cache::frame_under_the_playhead_is_not_evicted(
        cache,
        frame,
        image,
        schedule.eviction(forward),
    );
}

/// A cache with room for the whole window ahead keeps what it has of the window,
/// whatever frame comes in: the frames that playback shows next are not rendered
/// twice.
pub proof fn window_ahead_stays_cached(
    schedule: ScheduleView,
    request_id: u64,
    frame: u32,
    slot: u32,
    image: Arc<egui::ColorImage>,
    forward: bool,
    kept: u32,
)
    requires
        schedule.wf(),
        schedule.cache matches Some(cache) && cache.capacity >= PREVIEW_BUFFER_HIGH_WATER,
        schedule.refusal(request_id, frame, slot) is None,
        schedule.window(forward).contains(kept),
        kept == frame || schedule.cached(kept),
    ensures
        schedule.accepted(request_id, frame, slot, image, forward).cached(kept),
{
    let cache = schedule.cache->0;
    let eviction = schedule.eviction(forward);
    let window = schedule.window(forward);
    let step = choose|step: int| 0 <= step < window.len() && window[step] == kept;
    assert forall|cached: u32| #[trigger] cache.contains(cached) implies cached
        < schedule.total by {
        assert(schedule.cached(cached));
    }
    crate::cache::window_frames_are_protected(eviction, schedule.looping, step);
    crate::cache::large_cache_keeps_the_prefetch_window(cache, frame, image, eviction, kept);
}

/// A cache of more frames than it must have room for stays within its budget.
pub proof fn cache_stays_within_its_budget(width: u32, height: u32)
    ensures
        cache_capacity_of(width, height) > PREVIEW_CACHE_MIN_FRAMES ==> cache_capacity_of(
            width,
            height,
        ) * (width * height * 4) <= PREVIEW_CACHE_BUDGET_BYTES,
{
    let bytes = width * height * 4;
    let capacity = cache_capacity_of(width, height) as int;
    assert(bytes >= 0) by (nonlinear_arith)
        requires
            bytes == width * height * 4,
    ;
    if bytes > 0 {
        let fitting = PREVIEW_CACHE_BUDGET_BYTES as int / bytes;
        vstd::arithmetic::div_mod::lemma_fundamental_div_mod(
            PREVIEW_CACHE_BUDGET_BYTES as int,
            bytes,
        );
        if capacity > PREVIEW_CACHE_MIN_FRAMES {
            assert(capacity * bytes <= bytes * fitting) by (nonlinear_arith)
                requires
                    capacity <= fitting,
                    bytes > 0,
            ;
        }
    } else {
        assert(capacity * bytes == 0) by (nonlinear_arith)
            requires
                bytes == 0,
        ;
    }
}

/// A prepared preview has room for as many frames as there are slots, and asks for
/// nothing before it is filled.
pub proof fn prepared_preview_is_empty(
    schedule: ScheduleView,
    total: u32,
    width: u32,
    height: u32,
    frame: u32,
    any: u32,
)
    ensures
        ({
            let prepared = schedule.prepared(total, cache_capacity_of(width, height), frame);
            &&& prepared.wf()
            &&& !prepared.holds(any)
            &&& prepared.cache matches Some(cache) && PREVIEW_SLOT_COUNT <= cache.capacity
                <= PREVIEW_CACHE_MAX_FRAMES
        }),
{
}

/// What is asked for depends on the requests alone.
pub proof fn same_requests(a: ScheduleView, b: ScheduleView, frame: u32)
    requires
        a.requests == b.requests,
    ensures
        a.requested(frame) == b.requested(frame),
{
    if a.requested(frame) {
        let id = choose|id: u64| #[trigger]
            a.requests.contains_key(id) && a.requests[id].frame == frame;
        assert(b.requests.contains_key(id));
    }
    if b.requested(frame) {
        let id = choose|id: u64| #[trigger]
            b.requests.contains_key(id) && b.requests[id].frame == frame;
        assert(a.requests.contains_key(id));
    }
}

/// A round goes on after a request that was sent.
pub proof fn round_goes_on(
    schedule: ScheduleView,
    limit: usize,
    created_at: u64,
    rest: Seq<Option<u64>>,
)
    requires
        schedule.settled(limit).can_ask(limit),
    ensures
        schedule.dispatched(limit, seq![Some(created_at)] + rest) == schedule.settled(limit).asked(
            created_at,
        ).dispatched(limit, rest),
        schedule.is_round(limit, seq![Some(created_at)] + rest) == schedule.settled(limit).asked(
            created_at,
        ).is_round(limit, rest),
        schedule.commands(limit, seq![Some(created_at)] + rest) == seq![
            schedule.settled(limit).next_command(),
        ] + schedule.settled(limit).asked(created_at).commands(limit, rest),
{
    let outcomes = seq![Some(created_at)] + rest;
    assert(outcomes.drop_first() =~= rest);
}

/// Two schedules with the same pictures and the same timeline: what is cached lies on
/// the timeline of the one where it does on that of the other.
pub proof fn same_pictures_lie_on_the_timeline(before: ScheduleView, after: ScheduleView)
    requires
        before.wf(),
        after.total == before.total,
        after.cache matches Some(cache) ==> before.cache is Some && before.cache->0.frames
            == cache.frames,
    ensures
        forall|frame: u32| #[trigger] after.cached(frame) ==> frame < after.total,
{
    assert forall|frame: u32| #[trigger] after.cached(frame) implies frame < after.total by {
        assert(before.cached(frame));
    }
}

/// How many requests may be open. A schedule that is paused, was never buffered
/// whole, or has fewer than 16 frames buffered may use all 16 slots, however few
/// requests steady playback needs. Else as many may be open as steady playback needs,
/// but not fewer than 2 and not more than 8.
pub proof fn every_slot_is_used_to_recover(schedule: ScheduleView, needed: usize)
    ensures
        schedule.buffered < 16 ==> schedule.in_flight_limit(needed) == 16,
        !schedule.playing ==> schedule.in_flight_limit(needed) == 16,
        !schedule.primed ==> schedule.in_flight_limit(needed) == 16,
        schedule.playing && schedule.primed && schedule.buffered >= 16 ==> {
            let limit = schedule.in_flight_limit(needed);
            &&& 2 <= limit <= 8
            &&& limit == needed || limit == 2 && needed < 2 || limit == 8 && needed > 8
        },
        PREVIEW_SLOT_COUNT == 16,
        PREVIEW_BUFFER_RECOVERY_WATER == 16,
        PREVIEW_STEADY_IN_FLIGHT_MIN == 2,
        PREVIEW_STEADY_IN_FLIGHT_MAX == 8,
{
}

/// The cache is as large as its budget of 512 MiB allows, between 16 and 256 frames:
/// one more frame would not fit, unless there are 256 of them already, and those
/// beyond the first 16 fit.
pub proof fn cache_is_as_large_as_its_budget(width: u32, height: u32)
    ensures
        ({
            let capacity = cache_capacity_of(width, height);
            let frame_bytes = width * height * 4;
            &&& 16 <= capacity <= 256
            &&& capacity > 16 ==> capacity * frame_bytes <= 512 * 1024 * 1024
            &&& capacity < 256 ==> (capacity + 1) * frame_bytes > 512 * 1024 * 1024
        }),
{
    let bytes = width * height * 4;
    let capacity = cache_capacity_of(width, height) as int;
    cache_stays_within_its_budget(width, height);
    assert(bytes >= 0) by (nonlinear_arith)
        requires
            bytes == width * height * 4,
    ;
    if bytes > 0 {
        let budget = PREVIEW_CACHE_BUDGET_BYTES as int;
        let fitting = budget / bytes;
        vstd::arithmetic::div_mod::lemma_fundamental_div_mod(budget, bytes);
        vstd::arithmetic::div_mod::lemma_mod_bound(budget, bytes);
        if capacity < 256 {
            assert((capacity + 1) * bytes >= (fitting + 1) * bytes) by (nonlinear_arith)
                requires
                    capacity >= fitting,
                    bytes > 0,
            ;
            assert((fitting + 1) * bytes == bytes * fitting + bytes) by (nonlinear_arith);
        }
    }
}

/// A new id is never 0, and it is one more than the id before, or 1 behind the largest.
pub proof fn ids_count_up(id: u64)
    ensures
        following_id(id) != 0,
        following_id(id) == id + 1 || id == u64::MAX && following_id(id) == 1,
{
}

/// A target on the timeline is taken as it is, one behind it becomes the last frame,
/// and without a timeline there is only frame 0. Nothing else changes.
pub proof fn targets_are_moved_onto_the_timeline(schedule: ScheduleView, frame: u32)
    ensures
        ({
            let after = schedule.targeted(frame);
            &&& frame < schedule.total ==> after.desired == frame
            &&& frame >= schedule.total > 0 ==> after.desired == schedule.total - 1
            &&& schedule.total == 0 ==> after.desired == 0
            &&& after == (ScheduleView { desired: after.desired, ..schedule })
        }),
{
}

/// A frame needs not be asked for exactly where its picture is cached or an open
/// request is for it.
pub proof fn held_frames_are_cached_or_on_their_way(schedule: ScheduleView, frame: u32)
    ensures
        schedule.holds(frame) <==> (schedule.cache matches Some(cache)
            && cache.frames.contains_key(frame)) || (exists|id: u64| #[trigger]
            schedule.requests.contains_key(id) && schedule.requests[id].frame == frame),
{
}

/// What is missing of some frames comes in the order in which they do.
pub proof fn missing_frames_keep_their_order(
    schedule: ScheduleView,
    frames: Seq<u32>,
    i: int,
    j: int,
)
    requires
        0 <= i < j < schedule.missing(frames).len(),
    ensures
        exists|a: int, b: int|
            0 <= a < b < frames.len() && #[trigger] frames[a] == schedule.missing(frames)[i]
                && #[trigger] frames[b] == schedule.missing(frames)[j],
    decreases frames.len(),
{
    reveal(Seq::filter);
    if frames.len() > 0 {
        let rest = frames.drop_last();
        let missing = schedule.missing(frames);
        let missing_rest = schedule.missing(rest);
        if j < missing_rest.len() {
            missing_frames_keep_their_order(schedule, rest, i, j);
            let (a, b) = choose|a: int, b: int|
                0 <= a < b < rest.len() && #[trigger] rest[a] == missing_rest[i]
                    && #[trigger] rest[b] == missing_rest[j];
            assert(frames[a] == missing[i] && frames[b] == missing[j]);
        } else {
            assert(missing == missing_rest.push(frames.last()));
            missing_frames_are_those_not_held(schedule, rest);
            assert(missing_rest.contains(missing_rest[i]));
            let a = choose|a: int| 0 <= a < rest.len() && rest[a] == missing_rest[i];
            let b = frames.len() - 1;
            assert(frames[a] == missing[i] && frames[b] == missing[j]);
        }
    }
}

/// Of the frames around a frame, the closer ones come first, and of two as close the
/// later one.
proof fn frames_around_come_closest_first(
    desired: u32,
    total: u32,
    distance: nat,
    i: int,
    j: int,
)
    requires
        0 <= i < j < frames_around(desired, total, distance).len(),
    ensures
        ({
            let a = frames_around(desired, total, distance)[i] - desired;
            let b = frames_around(desired, total, distance)[j] - desired;
            &&& -distance <= a <= distance && -distance <= b <= distance
            &&& (-b < a < b || b < a < -b || a == -b && a > 0)
        }),
    decreases distance,
{
    let around = frames_around(desired, total, distance);
    if distance > 0 {
        let closer = frames_around(desired, total, (distance - 1) as nat);
        if j < closer.len() {
            frames_around_come_closest_first(desired, total, (distance - 1) as nat, i, j);
            assert(around[i] == closer[i] && around[j] == closer[j]);
        } else if i < closer.len() {
            assert(closer.contains(closer[i]));
            frames_around_are_the_near_ones(desired, total, (distance - 1) as nat, closer[i]);
            assert(around[i] == closer[i]);
        }
    }
}

/// While playback is paused, the queue comes to the frames near the desired one, the
/// closer ones first and of two as close the later one: every frame of the timeline
/// up to 16 away that is neither cached nor on its way. Nothing else changes.
pub proof fn paused_queue_spreads_from_the_desired_frame(
    schedule: ScheduleView,
    forward: bool,
    frame: u32,
    i: int,
    j: int,
)
    requires
        schedule.cache is Some,
        !schedule.playing,
    ensures
        ({
            let after = schedule.refilled(forward);
            let queue = after.queue;
            &&& queue.no_duplicates()
            &&& queue.contains(frame) <==> frame < schedule.total && -16 <= frame - schedule.desired
                <= 16 && !schedule.holds(frame)
            &&& 0 <= i < j < queue.len() ==> {
                let a = queue[i] - schedule.desired;
                let b = queue[j] - schedule.desired;
                -b < a < b || b < a < -b || a == -b && a > 0
            }
            &&& after == (ScheduleView { queue, ..schedule })
        }),
{
    queue_holds_the_missing_frames(schedule, forward, frame);
    let around = frames_around(
        schedule.desired,
        schedule.total,
        PREVIEW_BUFFER_RECOVERY_WATER as nat,
    );
    let queue = schedule.refilled(forward).queue;
    if 0 <= i < j < queue.len() {
        missing_frames_keep_their_order(schedule, around, i, j);
        let (a, b) = choose|a: int, b: int|
            0 <= a < b < around.len() && #[trigger] around[a] == queue[i] && #[trigger] around[b]
                == queue[j];
        frames_around_come_closest_first(
            schedule.desired,
            schedule.total,
            PREVIEW_BUFFER_RECOVERY_WATER as nat,
            a,
            b,
        );
    }
}

/// While playback runs on the timeline, the queue comes to the 48 frames that it
/// shows next, in that order: those of them that are neither cached nor on their way.
/// As many frames count as buffered as lie before the first of them, and once all
/// were buffered the schedule stays primed. Nothing else changes. Frame numbers must
/// not run over in the window of a loop.
pub proof fn playing_queue_looks_48_frames_ahead(
    schedule: ScheduleView,
    forward: bool,
    frame: u32,
    i: int,
    j: int,
)
    requires
        schedule.cache is Some,
        schedule.playing,
        schedule.desired < schedule.total,
        schedule.looping && forward ==> schedule.desired + schedule.total <= u32::MAX + 1
            || schedule.desired + 48 <= u32::MAX + 1,
        frame < schedule.total,
    ensures
        ({
            let after = schedule.refilled(forward);
            let queue = after.queue;
            let ahead = if forward {
                frame - schedule.desired
            } else {
                schedule.desired - frame
            };
            let steps = ahead % (schedule.total as int);
            let in_window = if schedule.looping {
                steps < 48
            } else {
                0 <= ahead < 48
            };
            let steps_of = |other: u32|
                if forward {
                    (other - schedule.desired) % (schedule.total as int)
                } else {
                    (schedule.desired - other) % (schedule.total as int)
                };
            &&& queue.no_duplicates()
            &&& queue.contains(frame) <==> in_window && !schedule.holds(frame)
            &&& 0 <= i < j < queue.len() ==> steps_of(queue[i]) < steps_of(queue[j])
            &&& in_window && steps < after.buffered ==> schedule.holds(frame)
            &&& in_window && steps == after.buffered ==> !schedule.holds(frame)
            &&& after.buffered <= 48 && after.buffered <= schedule.total
            &&& !schedule.looping && forward ==> after.buffered <= schedule.total - schedule.desired
            &&& !schedule.looping && !forward ==> after.buffered <= schedule.desired + 1
            &&& after.primed <==> schedule.primed || queue.len() == 0
            &&& after == (ScheduleView {
                queue,
                buffered: after.buffered,
                primed: after.primed,
                ..schedule
            })
        }),
{
    let window = schedule.window(forward);
    let after = schedule.refilled(forward);
    let queue = after.queue;
    let m = schedule.total as int;
    let context = EvictionContext {
        playhead: schedule.desired,
        total_frames: schedule.total,
        forward,
        horizon: 48,
    };
    queue_holds_the_missing_frames(schedule, forward, frame);
    buffered_prefix_ends_at_a_gap(schedule, window);
    nothing_is_queued_once_the_window_is_buffered(schedule, forward);
    crate::cache::distance_is_taken_modulo_the_timeline(
        frame,
        schedule.desired,
        schedule.total,
        forward,
    );
    crate::cache::distance_counts_playback_steps(frame, schedule.desired, schedule.total, forward);
    let steps = crate::cache::steps_to(context, frame);
    let reach = crate::playback::window_reach(
        schedule.desired,
        schedule.total,
        forward,
        schedule.looping,
    );
    assert forall|k: int| 0 <= k < window.len() implies crate::cache::steps_to(
        context,
        #[trigger] window[k],
    ) == k && window[k] < schedule.total by {
        crate::cache::window_frames_are_protected(context, schedule.looping, k);
        crate::cache::distance_is_taken_modulo_the_timeline(
            window[k],
            schedule.desired,
            schedule.total,
            forward,
        );
    }
    if steps < window.len() {
        assert(window[steps] == frame);
    }
    if window.contains(frame) {
        let k = choose|k: int| 0 <= k < window.len() && window[k] == frame;
        assert(steps == k);
    }
    assert(window.contains(frame) <==> steps < window.len());
    if 0 <= i < j < queue.len() {
        missing_frames_keep_their_order(schedule, window, i, j);
        let (a, b) = choose|a: int, b: int|
            0 <= a < b < window.len() && #[trigger] window[a] == queue[i] && #[trigger] window[b]
                == queue[j];
        assert(crate::cache::steps_to(context, window[a]) == a);
        assert(crate::cache::steps_to(context, window[b]) == b);
    }
}

/// What is shown. The desired frame as soon as it is cached; else, while paused,
/// nothing new; else what is closest on the way from the displayed frame to the
/// desired one, or, after the loop boundary or with nothing displayed, closest to the
/// desired one. Behind the desired frame without a loop, the displayed one stays.
pub proof fn shown_frame_is_the_closest(schedule: ScheduleView, forward: bool)
    requires
        schedule.cache is Some,
    ensures
        ({
            let frames = schedule.cache->0.frames.dom();
            let shown = schedule.shown_frame(forward);
            if frames.contains(schedule.desired) {
                shown == Some(schedule.desired)
            } else if !schedule.playing {
                shown is None
            } else if !schedule.looping && schedule.displayed is Some && frames.contains(
                schedule.displayed->0,
            ) && !crate::cache::not_after(schedule.displayed->0, schedule.desired, forward) && (
            exists|other: u32| #[trigger]
                frames.contains(other) && crate::cache::not_after(
                    other,
                    schedule.desired,
                    forward,
                )) {
                shown == schedule.displayed
            } else {
                let fresh = match schedule.displayed {
                    None => true,
                    Some(displayed) => schedule.looping && !crate::cache::not_after(
                        displayed,
                        schedule.desired,
                        forward,
                    ),
                };
                match shown {
                    Some(frame) => crate::cache::closest_before(
                        frames,
                        frame,
                        schedule.desired,
                        forward,
                    ) && (fresh || crate::cache::not_after(schedule.displayed->0, frame, forward)),
                    None => forall|other: u32| #[trigger]
                        frames.contains(other) && crate::cache::not_after(
                            other,
                            schedule.desired,
                            forward,
                        ) ==> !fresh && !(crate::cache::not_after(
                            schedule.displayed->0,
                            other,
                            forward,
                        )),
                }
            }
        }),
{
    crate::cache::waiting_playback_shows_the_closest_frame(
        schedule.cache->0.frames.dom(),
        schedule.desired,
        schedule.displayed,
        forward,
        schedule.looping,
    );
}

/// A frame is taken exactly where an open request with its id is for that frame and
/// that slot and there is a cache. The request is done, its slot comes last among the
/// free ones, every picture that is cached then is the one that was there before or,
/// for this frame, the new one, and nothing else changes.
pub proof fn taken_frame_ends_its_request(
    schedule: ScheduleView,
    request_id: u64,
    frame: u32,
    slot: u32,
    image: Arc<egui::ColorImage>,
    forward: bool,
    cached: u32,
)
    requires
        schedule.wf(),
    ensures
        schedule.refusal(request_id, frame, slot) is None <==> {
            &&& schedule.requests.contains_key(request_id)
            &&& schedule.requests[request_id].frame == frame
            &&& schedule.requests[request_id].slot == slot
            &&& schedule.cache is Some
        },
        schedule.refusal(request_id, frame, slot) is None ==> {
            let after = schedule.accepted(request_id, frame, slot, image, forward);
            &&& after == (ScheduleView {
                cache: after.cache,
                requests: schedule.requests.remove(request_id),
                free_slots: schedule.free_slots.push(slot),
                ..schedule
            })
            &&& after.cache is Some
            &&& after.cache->0.frames.contains_key(cached) ==> {
                ||| cached == frame && after.cache->0.frames[cached] == image
                ||| cached != frame && schedule.cache->0.frames.contains_key(cached)
                    && after.cache->0.frames[cached] == schedule.cache->0.frames[cached]
            }
        },
{
    if let Some(cache) = schedule.cache {
        crate::cache::insertion_evicts_at_most_one_frame(
            cache,
            frame,
            image,
            schedule.eviction(forward),
        );
    }
}

/// A frame that comes in pushes another one out only where the cache is full, and
/// then never one of the 48 frames ahead while there are others, nor, of those others,
/// one that was used later; else the one that is the most steps ahead.
pub proof fn taken_frame_spares_the_frames_ahead(
    schedule: ScheduleView,
    request_id: u64,
    frame: u32,
    slot: u32,
    image: Arc<egui::ColorImage>,
    forward: bool,
)
    requires
        schedule.wf(),
        schedule.refusal(request_id, frame, slot) is None,
    ensures
        ({
            let before = schedule.cache->0;
            let after = schedule.accepted(request_id, frame, slot, image, forward).cache->0;
            let order = crate::cache::touched(before.order, frame);
            let context = EvictionContext {
                playhead: schedule.desired,
                total_frames: schedule.total,
                forward,
                horizon: 48,
            };
            &&& after.capacity == before.capacity
            &&& order.len() <= before.capacity ==> after.order == order
            &&& order.len() > before.capacity ==> exists|k: int|
                {
                    &&& 0 <= k < order.len()
                    &&& after.frames == before.frames.insert(frame, image).remove(
                        #[trigger] order[k],
                    )
                    &&& {
                        ||| crate::cache::steps_to(context, order[k]) >= 48 && forall|j: int|
                            0 <= j < k ==> crate::cache::steps_to(context, #[trigger] order[j]) < 48
                        ||| forall|j: int|
                            0 <= j < order.len() ==> crate::cache::steps_to(
                                context,
                                #[trigger] order[j],
                            ) <= crate::cache::steps_to(context, order[k])
                                && crate::cache::steps_to(context, order[j]) < 48
                    }
                }
        }),
{
    let cache = schedule.cache->0;
    assert forall|cached: u32| #[trigger] cache.frames.contains_key(cached) implies cached
        < schedule.total by {
        assert(schedule.cached(cached));
    }
    crate::cache::insertion_evicts_the_right_frame(
        cache,
        frame,
        image,
        schedule.eviction(forward),
    );
}

/// A preview that is given up or prepared anew starts from nothing: no picture, no
/// request, an empty queue, all slots free in their order, nothing on the screen, not
/// ready, not primed. How playback is set and which id comes next stays.
pub proof fn previews_start_from_nothing(
    schedule: ScheduleView,
    total: u32,
    capacity: nat,
    frame: u32,
)
    ensures
        ({
            let cleared = schedule.cleared();
            let prepared = schedule.prepared(total, capacity, frame);
            &&& forall|after: ScheduleView|
                after == cleared || after == prepared ==> {
                    &&& #[trigger] after.requests.dom() == Set::<u64>::empty()
                    &&& after.queue.len() == 0
                    &&& after.free_slots.len() == 16
                    &&& forall|k: int| 0 <= k < 16 ==> #[trigger] after.free_slots[k] == k
                    &&& after.displayed is None
                    &&& !after.ready && !after.primed && after.buffered == 0
                    &&& after.next_id == schedule.next_id
                    &&& after.playing == schedule.playing
                    &&& after.looping == schedule.looping
                }
            &&& cleared.cache is None && cleared.total == 0 && cleared.desired == 0
            &&& prepared.cache matches Some(cache) && cache.frames.dom() == Set::<u32>::empty()
                && cache.order.len() == 0 && cache.capacity == capacity
            &&& prepared.total == total
            &&& frame < total ==> prepared.desired == frame
            &&& frame >= total > 0 ==> prepared.desired == total - 1
            &&& total == 0 ==> prepared.desired == 0
        }),
{
    assert(Map::<u64, PreviewRequest>::empty().dom() =~= Set::<u64>::empty());
    assert(Map::<u32, Arc<egui::ColorImage>>::empty().dom() =~= Set::<u32>::empty());
}

/// A picture on the screen is the one of its frame, which was used last then. No
/// picture comes or goes.
pub proof fn displayed_frame_was_used_last(schedule: ScheduleView, frame: u32)
    requires
        schedule.cache is Some,
    ensures
        ({
            let after = schedule.displaying(frame);
            &&& after.displayed == Some(frame)
            &&& after.cache is Some
            &&& after.cache->0.frames == schedule.cache->0.frames
            &&& after.cache->0.capacity == schedule.cache->0.capacity
            &&& after.cache->0.order.last() == frame
            &&& forall|i: int|
                0 <= i < schedule.cache->0.order.len() && schedule.cache->0.order.no_duplicates()
                    && #[trigger] schedule.cache->0.order[i] == frame ==> after.cache->0.order
                    == schedule.cache->0.order.remove(i).push(frame)
            &&& after == (ScheduleView {
                cache: after.cache,
                displayed: Some(frame),
                ..schedule
            })
        }),
{
    let order = schedule.cache->0.order;
    assert forall|i: int|
        0 <= i < order.len() && order.no_duplicates() && #[trigger] order[i]
            == frame implies schedule.displaying(frame).cache->0.order == order.remove(i).push(
        frame,
    ) by {
        crate::cache::touched_frame_goes_last(order, frame, i);
    }
}

/// Without a cache nothing is queued anew or shown. Without a timeline the queue comes
/// to nothing, and playback, which waits for nothing then, is primed.
pub proof fn nothing_to_ask_for(schedule: ScheduleView, forward: bool)
    ensures
        schedule.cache is None ==> schedule.refilled(forward) == schedule
            && schedule.shown_frame(forward) is None,
        schedule.cache is Some && schedule.total == 0 ==> {
            let after = schedule.refilled(forward);
            &&& after.queue.len() == 0
            &&& schedule.playing ==> after.primed && after.buffered == 0
            &&& !schedule.playing ==> after.primed == schedule.primed && after.buffered
                == schedule.buffered
        },
{
    if schedule.cache is Some && schedule.total == 0 {
        let queue = schedule.refilled(forward).queue;
        if queue.len() > 0 {
            assert(queue.contains(queue[0]));
            queue_holds_the_missing_frames(schedule, forward, queue[0]);
            crate::playback::empty_windows(
                schedule.desired,
                schedule.total,
                forward,
                schedule.looping,
                PREVIEW_BUFFER_HIGH_WATER as u32,
            );
        }
    }
}

} // verus!
