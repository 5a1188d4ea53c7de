//! Which frames are asked of the renderer, and when.

use crate::cache::{EvictionContext, PreviewFrameCache};
use crate::plan::{
    PreviewRequest, ScheduleView, PREVIEW_BUFFER_HIGH_WATER, PREVIEW_BUFFER_RECOVERY_WATER,
    PREVIEW_CACHE_BUDGET_BYTES, PREVIEW_CACHE_MAX_FRAMES, PREVIEW_CACHE_MIN_FRAMES,
    PREVIEW_STEADY_IN_FLIGHT_MAX, PREVIEW_STEADY_IN_FLIGHT_MIN,
};
use crate::playback::directional_window;
use crate::protocol::{EditorCommand, PREVIEW_SLOT_COUNT};
use std::collections::{HashMap, HashSet, VecDeque};
use std::sync::Arc;
use vstd::prelude::*;

verus! {

/// The production schedule of the preview.
pub struct PreviewSchedule {
    preview_cache: Option<PreviewFrameCache>,
    preview_ready: bool,
    displayed_frame: Option<u32>,
    desired_frame: u32,
    total_frames: u32,
    in_flight_requests: HashMap<u64, PreviewRequest>,
    free_preview_slots: VecDeque<u32>,
    next_request_id: u64,
    prefetch_queue: VecDeque<u32>,
    preview_buffer_primed: bool,
    last_buffered: usize,
    is_playing: bool,
    is_looping: bool,
}

impl View for PreviewSchedule {
    type V = ScheduleView;

    closed spec fn view(&self) -> ScheduleView {
        ScheduleView {
            cache: match self.preview_cache {
                Some(cache) => Some(cache@),
                None => None,
            },
            ready: self.preview_ready,
            displayed: self.displayed_frame,
            desired: self.desired_frame,
            total: self.total_frames,
            requests: self.in_flight_requests@,
            free_slots: self.free_preview_slots@,
            next_id: self.next_request_id,
            queue: self.prefetch_queue@,
            primed: self.preview_buffer_primed,
            buffered: self.last_buffered as nat,
            playing: self.is_playing,
            looping: self.is_looping,
        }
    }
}

/// All slots, none of them in use.
fn all_slots() -> (slots: VecDeque<u32>)
    ensures
        slots@ == crate::plan::slots_up_to(PREVIEW_SLOT_COUNT),
{
    let mut slots: VecDeque<u32> = VecDeque::new();
    let mut slot: u32 = 0;
    while slot < PREVIEW_SLOT_COUNT
        invariant
            slot <= PREVIEW_SLOT_COUNT,
            slots@ == crate::plan::slots_up_to(slot),
        decreases PREVIEW_SLOT_COUNT - slot,
    {
        slots.push_back(slot);
        slot = slot + 1;
        assert(slots@ =~= crate::plan::slots_up_to(slot));
    }
    slots
}

/// The frames of the timeline around `desired`.
fn neighbours(desired: u32, total: u32, distance: u32) -> (frames: Vec<u32>)
    ensures
        frames@ == crate::plan::frames_around(desired, total, distance as nat),
{
    let mut frames: Vec<u32> = Vec::new();
    if desired < total {
        frames.push(desired);
    }
    let mut step: u32 = 0;
    assert(frames@ =~= crate::plan::frames_around(desired, total, 0));
    while step < distance
        invariant
            step <= distance,
            frames@ == crate::plan::frames_around(desired, total, step as nat),
        decreases distance - step,
    {
        step = step + 1;
        if let Some(candidate) = desired.checked_add(step) {
            if candidate < total {
                frames.push(candidate);
            }
        }
        if let Some(candidate) = desired.checked_sub(step) {
            if candidate < total {
                frames.push(candidate);
            }
        }
        assert(frames@ =~= crate::plan::frames_around(desired, total, step as nat));
    }
    frames
}

impl PreviewSchedule {
    /// The frames that the renderer works on.
    fn in_flight_frames(&self) -> (frames: HashSet<u32>)
        ensures
            forall|frame: u32| #[trigger] frames@.contains(frame) <==> self@.requested(frame),
    {
        broadcast use vstd::std_specs::hash::group_hash_axioms;

        let mut frames: HashSet<u32> = HashSet::new();
        let requests = self.in_flight_requests.values();
        let ghost all = vstd::std_specs::iter::IteratorSpec::remaining(&requests).unref();
        for request in it: requests
            invariant
                it.seq().unref() == all,
                forall|frame: u32| #[trigger]
                    frames@.contains(frame) <==> exists|k: int|
                        0 <= k < it.index() && (#[trigger] all[k]).frame == frame,
        {
            assert(*request == all[it.index() as int]);
            frames.insert(request.frame);
        }
        proof {
            let requests = self.in_flight_requests@;
            assert(all.to_set() == requests.values());
            assert forall|frame: u32| #[trigger] frames@.contains(frame) implies self@.requested(
                frame,
            ) by {
                let k = choose|k: int| 0 <= k < all.len() && (#[trigger] all[k]).frame == frame;
                assert(all.to_set().contains(all[k]));
                let id = choose|id: u64| #[trigger]
                    requests.contains_key(id) && requests[id] == all[k];
                assert(self@.requests.contains_key(id));
            }
            assert forall|frame: u32| self@.requested(frame) implies #[trigger] frames@.contains(
                frame,
            ) by {
                let id = choose|id: u64| #[trigger]
                    requests.contains_key(id) && requests[id].frame == frame;
                assert(requests.values().contains(requests[id]));
                assert(all.to_set().contains(requests[id]));
                let k = choose|k: int| 0 <= k < all.len() && all[k] == requests[id];
                assert(all[k].frame == frame);
            }
        }
        frames
    }

    /// Those of the frames that are neither cached nor being rendered.
    fn missing_frames(&self, frames: &Vec<u32>) -> (missing: VecDeque<u32>)
        ensures
            missing@ == self@.missing(frames@),
    {
        let in_flight = self.in_flight_frames();
        let mut missing: VecDeque<u32> = VecDeque::new();
        let mut i: usize = 0;
        assert(missing@ =~= self@.missing(frames@.take(0))) by {
            reveal(Seq::filter);
        }
        while i < frames.len()
            invariant
                i <= frames@.len(),
                forall|frame: u32| #[trigger]
                    in_flight@.contains(frame) <==> self@.requested(frame),
                missing@ == self@.missing(frames@.take(i as int)),
            decreases frames@.len() - i,
        {
            let frame: u32 = frames[i];
            proof {
                reveal(Seq::filter);
                assert(frames@.take(i + 1).drop_last() =~= frames@.take(i as int));
            }
            if !self.is_cached(frame) && !in_flight.contains(&frame) {
                missing.push_back(frame);
            }
            i = i + 1;
        }
        assert(frames@.take(i as int) =~= frames@);
        missing
    }

    fn is_cached(&self, frame: u32) -> (cached: bool)
        ensures
            cached == self@.cached(frame),
    {
        match &self.preview_cache {
            Some(cache) => cache.contains(frame),
            None => false,
        }
    }

    /// How many of the first frames are cached or being rendered.
    fn buffered_frames(&self, frames: &Vec<u32>) -> (count: usize)
        ensures
            count == self@.buffered_prefix(frames@),
    {
        let in_flight = self.in_flight_frames();
        let mut count: usize = 0;
        assert(frames@.skip(0) =~= frames@);
        while count < frames.len() && (self.is_cached(frames[count]) || in_flight.contains(
            &frames[count],
        ))
            invariant
                count <= frames@.len(),
                forall|frame: u32| #[trigger]
                    in_flight@.contains(frame) <==> self@.requested(frame),
                self@.buffered_prefix(frames@) == count + self@.buffered_prefix(
                    frames@.skip(count as int),
                ),
            decreases frames@.len() - count,
        {
            assert(frames@.skip(count as int).drop_first() =~= frames@.skip(count + 1));
            assert(self@.holds(frames@.skip(count as int)[0]));
            count = count + 1;
        }
        count
    }

    /// The frames that playback shows next, at most `limit` of them.
    pub fn playback_window(&self, forward: bool, limit: usize) -> (frames: Vec<u32>)
        ensures
            frames@ == crate::playback::window_of(
                self@.desired,
                self@.total,
                forward,
                self@.looping,
                crate::protocol::low_word(limit as u64),
            ),
    {
        directional_window(self.desired_frame, self.total_frames, forward, self.is_looping, limit)
    }

    /// Fills the queue anew: around the shown frame while playback is paused, else
    /// with the window ahead.
    pub fn refill_preview_buffer(&mut self, forward: bool)
        requires
            old(self)@.wf(),
        ensures
            final(self)@ == old(self)@.refilled(forward),
            final(self)@.wf(),
    {
        proof {
            crate::plan::refill_stays_on_the_timeline(self@, forward);
        }
        if self.preview_cache.is_none() {
            return;
        }
        if !self.is_playing {
            let frames = neighbours(
                self.desired_frame,
                self.total_frames,
                PREVIEW_BUFFER_RECOVERY_WATER as u32,
            );
            self.prefetch_queue = self.missing_frames(&frames);
            return;
        }
        let window = self.playback_window(forward, PREVIEW_BUFFER_HIGH_WATER);
        let buffered: usize = self.buffered_frames(&window);
        let queue = self.missing_frames(&window);
        self.last_buffered = buffered;
        if buffered >= window.len() {
            self.preview_buffer_primed = true;
        }
        self.prefetch_queue = queue;
    }

    /// How many requests may be open at once.
    pub fn in_flight_cap(&self, needed: usize) -> (cap: usize)
        ensures
            cap == self@.in_flight_limit(needed),
    {
        if !self.is_playing || !self.preview_buffer_primed || self.last_buffered
            < PREVIEW_BUFFER_RECOVERY_WATER {
            PREVIEW_SLOT_COUNT as usize
        } else {
            steady_in_flight_cap(needed)
        }
    }

    fn is_requested(&self, frame: u32) -> (requested: bool)
        ensures
            requested == self@.requested(frame),
    {
        let in_flight = self.in_flight_frames();
        in_flight.contains(&frame)
    }

    /// The command to send next, if a frame has to be asked for and can be. Frames at
    /// the front of the queue that are held by now are dropped. What became of the
    /// command is told to `request_sent` or `request_refused`.
    pub fn next_request(&mut self, needed: usize) -> (command: Option<EditorCommand>)
        requires
            old(self)@.wf(),
        ensures
            ({
                let limit = old(self)@.in_flight_limit(needed);
                if !old(self)@.ready || old(self)@.total == 0 {
                    &&& final(self)@ == old(self)@
                    &&& command is None
                } else {
                    &&& final(self)@ == old(self)@.settled(limit)
                    &&& command == if final(self)@.can_ask(limit) {
                        Some(final(self)@.next_command())
                    } else {
                        None
                    }
                }
            }),
            final(self)@.wf(),
    {
        if !self.preview_ready || self.total_frames == 0 {
            return None;
        }
        let limit: usize = self.in_flight_cap(needed);
        while self.in_flight_requests.len() < limit && self.free_preview_slots.len() > 0
            && self.prefetch_queue.len() > 0
            invariant
                self@.wf(),
                old(self)@.ready && old(self)@.total > 0,
                limit == old(self)@.in_flight_limit(needed),
                self@.settled(limit) == old(self)@.settled(limit),
            ensures
                !self@.can_ask(limit),
            decreases self@.queue.len(),
        {
            let frame: u32 = self.prefetch_queue[0];
            if !self.is_cached(frame) && !self.is_requested(frame) {
                return Some(
                    EditorCommand::RenderFrame {
                        request_id: self.next_request_id,
                        frame,
                        slot: self.free_preview_slots[0],
                    },
                );
            }
            proof {
                crate::plan::dispatch_keeps_the_schedule_well_formed(self@);
            }
            self.prefetch_queue.pop_front();
        }
        None
    }

    /// The command that `next_request` gave was sent.
    pub fn request_sent(&mut self, created_at: u64)
        requires
            old(self)@.wf(),
            old(self)@.queue.len() > 0,
            old(self)@.free_slots.len() > 0,
        ensures
            final(self)@ == old(self)@.asked(created_at),
            final(self)@.wf(),
    {
        proof {
            crate::plan::dispatch_keeps_the_schedule_well_formed(self@);
        }
        let ghost before = self@;
        let id: u64 = self.next_request_id;
        if let Some(slot) = self.free_preview_slots.pop_front() {
            if let Some(frame) = self.prefetch_queue.pop_front() {
                let request = PreviewRequest { id, frame, slot, created_at };
                self.in_flight_requests.insert(id, request);
            }
        }
        self.next_request_id = next_id(id);
        assert(self@ == before.asked(created_at));
    }

    /// The command that `next_request` gave could not be sent.
    pub fn request_refused(&mut self)
        requires
            old(self)@.wf(),
            old(self)@.queue.len() > 0,
        ensures
            final(self)@ == old(self)@.refused(),
            final(self)@.wf(),
    {
        proof {
            crate::plan::dispatch_keeps_the_schedule_well_formed(self@);
        }
        self.prefetch_queue.pop_front();
        self.next_request_id = next_id(self.next_request_id);
    }

    /// Asks the renderer for the frames of the queue, as far as slots are free.
    /// `send` hands a command over a link to the renderer and gives the link back,
    /// with the time of the request, or with `None` where the command could not be
    /// sent. What is left of the link is given back.
    pub fn dispatch_preview_requests<Link, F: Fn(Link, EditorCommand) -> (Link, Option<u64>)>(
        &mut self,
        needed: usize,
        link: Link,
        send: F,
    ) -> (last: Link)
        requires
            old(self)@.wf(),
            forall|link: Link, command: EditorCommand| send.requires((link, command)),
        ensures
            old(self)@.dispatches(needed, send, link, final(self)@, last),
            final(self)@.wf(),
    {
        let ghost before = self@;
        let ghost limit = before.in_flight_limit(needed);
        let ghost done: Seq<Option<u64>> = seq![];
        let ghost sent: Seq<EditorCommand> = seq![];
        let ghost links: Seq<Link> = seq![link];
        let mut open_link = link;
        proof {
            assert forall|rest: Seq<Option<u64>>| #[trigger] (done + rest) == rest by {
                assert(done + rest =~= rest);
            }
            assert forall|rest: Seq<Option<u64>>|
                before.commands(limit, #[trigger] (done + rest)) == sent + self@.commands(
                    limit,
                    rest,
                ) by {
                assert(sent + self@.commands(limit, rest) =~= self@.commands(limit, rest));
            }
        }
        loop
            invariant
                self@.wf(),
                forall|link: Link, command: EditorCommand| send.requires((link, command)),
                before == old(self)@,
                self@.ready == before.ready,
                self@.total == before.total,
                limit == before.in_flight_limit(needed),
                self@.in_flight_limit(needed) == limit,
                !before.ready || before.total == 0 ==> self@ == before && done.len() == 0,
                sent.len() == done.len(),
                links.len() == done.len() + 1,
                links.first() == link,
                links.last() == open_link,
                forall|k: int|
                    0 <= k < done.len() ==> send.ensures(
                        (links[k], sent[k]),
                        (links[k + 1], #[trigger] done[k]),
                    ),
                forall|rest: Seq<Option<u64>>|
                    before.dispatched(limit, #[trigger] (done + rest)) == self@.dispatched(
                        limit,
                        rest,
                    ),
                forall|rest: Seq<Option<u64>>|
                    before.is_round(limit, #[trigger] (done + rest)) == self@.is_round(limit, rest),
                forall|rest: Seq<Option<u64>>|
                    before.commands(limit, #[trigger] (done + rest)) == sent + self@.commands(
                        limit,
                        rest,
                    ),
            decreases self@.queue.len(),
        {
            let ghost current = self@;
            let command = match self.next_request(needed) {
                Some(command) => command,
                None => {
                    proof {
                        let last: Seq<Option<u64>> = seq![];
                        assert(done + last =~= done);
                        if before.ready && before.total > 0 {
                            assert(current.is_round(limit, last));
                            assert(current.dispatched(limit, last) == self@);
                            assert(before.commands(limit, done + last) =~= sent);
                        }
                        assert(before.is_dispatch(needed, send, links, done, self@));
                    }
                    return open_link;
                },
            };
            proof {
                crate::slots::settling_drops_held_frames_only(current, limit);
            }
            let ghost asked_for = command;
            let (next_link, outcome) = send(open_link, command);
            open_link = next_link;
            proof {
                links = links.push(next_link);
            }
            match outcome {
                Some(created_at) => {
                    self.request_sent(created_at);
                    proof {
                        let so_far = done;
                        let sent_before = sent;
                        done = done.push(Some(created_at));
                        sent = sent.push(asked_for);
                        assert forall|rest: Seq<Option<u64>>|
                            before.dispatched(limit, #[trigger] (done + rest)) == self@.dispatched(
                                limit,
                                rest,
                            ) && before.is_round(limit, done + rest) == self@.is_round(limit, rest)
                                && before.commands(limit, done + rest) == sent + self@.commands(
                                limit,
                                rest,
                            ) by {
                            crate::plan::round_goes_on(current, limit, created_at, rest);
                            assert(done + rest =~= so_far + (seq![Some(created_at)] + rest));
                            assert(sent + self@.commands(limit, rest) =~= sent_before + (
                            seq![asked_for] + self@.commands(limit, rest)));
                        }
                    }
                },
                None => {
                    self.request_refused();
                    proof {
                        let last: Seq<Option<u64>> = seq![None];
                        let outcomes = done + last;
                        assert(current.commands(limit, last) =~= seq![asked_for]);
                        assert(current.is_round(limit, last));
                        assert(current.dispatched(limit, last) == self@);
                        assert(before.commands(limit, outcomes) =~= sent.push(asked_for));
                        assert forall|k: int| 0 <= k < outcomes.len() implies send.ensures(
                            (links[k], before.commands(limit, outcomes)[k]),
                            (links[k + 1], #[trigger] outcomes[k]),
                        ) by {
                            if k < done.len() {
                                assert(outcomes[k] == done[k]);
                            }
                        }
                        assert(before.is_dispatch(needed, send, links, outcomes, self@));
                    }
                    return open_link;
                },
            }
        }
    }

    /// Sets the frame that belongs on the screen and asks for what it needs.
    pub fn set_preview_target<Link, F: Fn(Link, EditorCommand) -> (Link, Option<u64>)>(
        &mut self,
        frame: u32,
        forward: bool,
        needed: usize,
        link: Link,
        send: F,
    ) -> (last: Link)
        requires
            old(self)@.wf(),
            forall|link: Link, command: EditorCommand| send.requires((link, command)),
        ensures
            old(self)@.targeted(frame).refilled(forward).dispatches(
                needed,
                send,
                link,
                final(self)@,
                last,
            ),
            final(self)@.wf(),
    {
        let last: u32 = self.total_frames.saturating_sub(1);
        let ghost before = self@;
        self.desired_frame = if frame < last {
            frame
        } else {
            last
        };
        proof {
            assert(self@ == before.targeted(frame));
            crate::plan::same_pictures_lie_on_the_timeline(before, self@);
        }
        self.refill_preview_buffer(forward);
        self.dispatch_preview_requests(needed, link, send)
    }

    /// How long the renderer took, up to the time `now`, for a frame that answers
    /// an open request.
    pub fn round_trip(&self, request_id: u64, frame: u32, slot: u32, now: u64) -> (nanos: Option<
        u64,
    >)
        ensures
            nanos == match self@.answered(request_id, frame, slot) {
                Some(request) => Some(
                    if request.created_at <= now {
                        (now - request.created_at) as u64
                    } else {
                        0
                    },
                ),
                None => None,
            },
    {
        match self.answered_request(request_id, frame, slot) {
            Some(request) => Some(now.saturating_sub(request.created_at)),
            None => None,
        }
    }

    fn answered_request(&self, request_id: u64, frame: u32, slot: u32) -> (request: Option<
        PreviewRequest,
    >)
        ensures
            request == self@.answered(request_id, frame, slot),
    {
        match self.in_flight_requests.get(&request_id) {
            Some(request) => if request.frame == frame && request.slot == slot {
                Some(*request)
            } else {
                None
            },
            None => None,
        }
    }

    /// Takes a rendered frame.
    pub fn accept_preview_frame(
        &mut self,
        request_id: u64,
        frame: u32,
        slot: u32,
        image: Arc<egui::ColorImage>,
        forward: bool,
    ) -> (result: Result<(), String>)
        requires
            old(self)@.wf(),
        ensures
            match (result, old(self)@.refusal(request_id, frame, slot)) {
                (Ok(_), None) => final(self)@ == old(self)@.accepted(
                    request_id,
                    frame,
                    slot,
                    image,
                    forward,
                ),
                (Err(message), Some(expected)) => {
                    &&& message@ == expected
                    &&& final(self)@ == old(self)@
                },
                _ => false,
            },
            final(self)@.wf(),
    {
        let ghost before = self@;
        if self.answered_request(request_id, frame, slot).is_none() {
            return Err("preview completion does not match the in-flight request".to_owned());
        }
        let eviction = EvictionContext {
            playhead: self.desired_frame,
            total_frames: self.total_frames,
            forward,
            horizon: PREVIEW_BUFFER_HIGH_WATER as u32,
        };
        match &mut self.preview_cache {
            Some(cache) => {
                proof {
                    assert forall|cached: u32| #[trigger] cache@.contains(cached) implies cached
                        < eviction.total_frames by {
                        assert(before.cached(cached));
                    }
                    crate::cache::frames_of_a_timeline_can_be_searched(cache@, frame, eviction);
                }
                cache.insert(frame, image, eviction);
            },
            None => return Err("preview cache is unavailable".to_owned()),
        }
        self.in_flight_requests.remove(&request_id);
        self.free_preview_slots.push_back(slot);
        proof {
            crate::plan::accepting_keeps_the_schedule_well_formed(
                before,
                request_id,
                frame,
                slot,
                image,
                forward,
            );
            assert(self@ == before.accepted(request_id, frame, slot, image, forward));
        }
        Ok(())
    }

    /// A schedule without a preview, set to play in a loop.
    pub fn new() -> (schedule: Self)
        ensures
            schedule@ == (ScheduleView { next_id: 1, playing: true, looping: true, ..schedule@ })
                .cleared(),
            schedule@.wf(),
    {
        let schedule = PreviewSchedule {
            preview_cache: None,
            preview_ready: false,
            displayed_frame: None,
            desired_frame: 0,
            total_frames: 0,
            in_flight_requests: HashMap::new(),
            free_preview_slots: all_slots(),
            next_request_id: 1,
            prefetch_queue: VecDeque::new(),
            preview_buffer_primed: false,
            last_buffered: 0,
            is_playing: true,
            is_looping: true,
        };
        assert(schedule@ == schedule@.cleared());
        schedule
    }

    /// Gives the preview up.
    pub fn clear(&mut self)
        ensures
            final(self)@ == old(self)@.cleared(),
            final(self)@.wf(),
    {
        let ghost before = self@;
        self.preview_cache = None;
        self.preview_ready = false;
        self.displayed_frame = None;
        self.desired_frame = 0;
        self.total_frames = 0;
        self.in_flight_requests.clear();
        self.free_preview_slots = all_slots();
        self.prefetch_queue.clear();
        self.preview_buffer_primed = false;
        self.last_buffered = 0;
        assert(self@ == before.cleared());
    }

    /// Prepares a preview of frames of the given size, from `frame` on.
    pub fn prepare(&mut self, total_frames: u32, width: u32, height: u32, frame: u32)
        requires
            width * height * 4 <= usize::MAX,
        ensures
            final(self)@ == old(self)@.prepared(
                total_frames,
                crate::plan::cache_capacity_of(width, height),
                frame,
            ),
            final(self)@.wf(),
    {
        let ghost before = self@;
        self.clear();
        self.preview_cache = Some(PreviewFrameCache::new(cache_capacity(width, height)));
        self.total_frames = total_frames;
        let last: u32 = total_frames.saturating_sub(1);
        self.desired_frame = if frame < last {
            frame
        } else {
            last
        };
        assert(self@ == before.prepared(total_frames, crate::plan::cache_capacity_of(width, height), frame));
    }

    /// The renderer can be asked for frames from now on.
    pub fn set_ready(&mut self)
        requires
            old(self)@.wf(),
        ensures
            final(self)@ == (ScheduleView { ready: true, ..old(self)@ }),
            final(self)@.wf(),
    {
        let ghost before = self@;
        self.preview_ready = true;
        proof {
            crate::plan::same_pictures_lie_on_the_timeline(before, self@);
        }
    }

    pub fn set_playing(&mut self, playing: bool)
        requires
            old(self)@.wf(),
        ensures
            final(self)@ == (ScheduleView { playing, ..old(self)@ }),
            final(self)@.wf(),
    {
        let ghost before = self@;
        self.is_playing = playing;
        proof {
            crate::plan::same_pictures_lie_on_the_timeline(before, self@);
        }
    }

    pub fn set_looping(&mut self, looping: bool)
        requires
            old(self)@.wf(),
        ensures
            final(self)@ == (ScheduleView { looping, ..old(self)@ }),
            final(self)@.wf(),
    {
        let ghost before = self@;
        self.is_looping = looping;
        proof {
            crate::plan::same_pictures_lie_on_the_timeline(before, self@);
        }
    }

    /// Pauses playback or lets it go on. Gives whether playback starts over, which it
    /// does where it goes on at the end of the timeline.
    pub fn toggle_playing(&mut self, at_end: bool) -> (restarts: bool)
        requires
            old(self)@.wf(),
        ensures
            final(self)@ == (ScheduleView { playing: !old(self)@.playing, ..old(self)@ }),
            final(self)@.wf(),
            restarts == (!old(self)@.playing && at_end),
    {
        let playing = !self.is_playing;
        self.set_playing(playing);
        playing && at_end
    }

    /// The play button: pauses playback that runs at its normal speed, and else plays
    /// at that speed. Gives `None` for a pause, or whether playback starts over.
    pub fn press_play(&mut self, normal_speed: bool, at_end: bool) -> (restarts: Option<bool>)
        requires
            old(self)@.wf(),
        ensures
            final(self)@ == (ScheduleView {
                playing: !(old(self)@.playing && normal_speed),
                ..old(self)@
            }),
            final(self)@.wf(),
            restarts == if old(self)@.playing && normal_speed {
                None
            } else {
                Some(at_end)
            },
    {
        if self.is_playing && normal_speed {
            self.set_playing(false);
            None
        } else {
            self.set_playing(true);
            Some(at_end)
        }
    }

    /// The frame that belongs on the screen now.
    pub fn frame_to_display(&self, forward: bool) -> (frame: Option<u32>)
        requires
            self@.wf(),
        ensures
            frame == self@.shown_frame(forward),
    {
        match &self.preview_cache {
            Some(cache) => if cache.contains(self.desired_frame) {
                Some(self.desired_frame)
            } else if self.is_playing {
                cache.playback_frame(
                    self.desired_frame,
                    self.displayed_frame,
                    forward,
                    self.is_looping,
                )
            } else {
                None
            },
            None => None,
        }
    }

    /// The picture to put on the screen in place of the one that is there.
    pub fn next_image(&mut self, forward: bool) -> (image: Option<Arc<egui::ColorImage>>)
        requires
            old(self)@.wf(),
        ensures
            final(self)@.wf(),
            match old(self)@.shown_frame(forward) {
                Some(frame) if old(self)@.displayed != Some(frame) => {
                    &&& image == Some(old(self)@.cache->0.frames[frame])
                    &&& final(self)@ == old(self)@.displaying(frame)
                },
                _ => {
                    &&& image is None
                    &&& final(self)@ == old(self)@
                },
            },
    {
        let ghost before = self@;
        let frame: u32 = match self.frame_to_display(forward) {
            Some(frame) => frame,
            None => return None,
        };
        if let Some(displayed) = self.displayed_frame {
            if displayed == frame {
                return None;
            }
        }
        proof {
            crate::plan::shown_frame_is_cached(before, forward);
        }
        let image = match &mut self.preview_cache {
            Some(cache) => cache.load_image(frame),
            None => None,
        };
        if image.is_some() {
            self.displayed_frame = Some(frame);
        }
        proof {
            assert(self@ == before.displaying(frame));
            crate::plan::same_pictures_lie_on_the_timeline(before, self@);
        }
        image
    }

    pub fn is_playing(&self) -> (playing: bool)
        ensures
            playing == self@.playing,
    {
        self.is_playing
    }

    pub fn is_looping(&self) -> (looping: bool)
        ensures
            looping == self@.looping,
    {
        self.is_looping
    }

    /// How many frames the timeline has.
    pub fn total_frames(&self) -> (total: u32)
        ensures
            total == self@.total,
    {
        self.total_frames
    }

    pub fn desired_frame(&self) -> (frame: u32)
        ensures
            frame == self@.desired,
    {
        self.desired_frame
    }
}

/// The id behind `id`.
fn next_id(id: u64) -> (next: u64)
    ensures
        next == crate::plan::following_id(id),
{
    if id == u64::MAX {
        1
    } else {
        id + 1
    }
}

/// How many frames of a size are cached.
pub fn cache_capacity(width: u32, height: u32) -> (capacity: usize)
    requires
        width * height * 4 <= usize::MAX,
    ensures
        capacity == crate::plan::cache_capacity_of(width, height),
{
    proof {
        assert(0 <= width * height <= width * height * 4) by (nonlinear_arith);
    }
    let frame_bytes: usize = width as usize * height as usize * 4;
    let fitting: usize = PREVIEW_CACHE_BUDGET_BYTES / (if frame_bytes < 1 {
        1
    } else {
        frame_bytes
    });
    if fitting < PREVIEW_CACHE_MIN_FRAMES {
        PREVIEW_CACHE_MIN_FRAMES
    } else if fitting > PREVIEW_CACHE_MAX_FRAMES {
        PREVIEW_CACHE_MAX_FRAMES
    } else {
        fitting
    }
}

/// How many requests steady playback keeps open where it needs `needed`.
pub fn steady_in_flight_cap(needed: usize) -> (cap: usize)
    ensures
        cap == crate::plan::steady_limit(needed),
{
    if needed < PREVIEW_STEADY_IN_FLIGHT_MIN {
        PREVIEW_STEADY_IN_FLIGHT_MIN
    } else if needed > PREVIEW_STEADY_IN_FLIGHT_MAX {
        PREVIEW_STEADY_IN_FLIGHT_MAX
    } else {
        needed
    }
}

} // verus!
