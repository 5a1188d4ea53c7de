//! The books of the slots: each is free, or one open request uses it.

use crate::plan::{PreviewRequest, ScheduleView};
use crate::protocol::{EditorCommand, PREVIEW_SLOT_COUNT};
use std::sync::Arc;
use vstd::prelude::*;

verus! {

impl ScheduleView {
    /// An open request uses the slot.
    pub open spec fn uses_slot(self, slot: u32) -> bool {
        exists|id: u64| #[trigger] self.requests.contains_key(id) && self.requests[id].slot == slot
    }

    /// Every slot is either free or used by one open request, and no two open
    /// requests are for the same frame, nor is any for a frame that is cached.
    pub open spec fn balanced(self) -> bool {
        &&& self.free_slots.no_duplicates()
        &&& forall|slot: u32|
            slot < PREVIEW_SLOT_COUNT <==> #[trigger] self.free_slots.contains(slot)
                || self.uses_slot(slot)
        &&& forall|slot: u32|
            !(#[trigger] self.free_slots.contains(slot) && self.uses_slot(slot))
        &&& forall|a: u64, b: u64|
            #![trigger self.requests.contains_key(a), self.requests.contains_key(b)]
            self.requests.contains_key(a) && self.requests.contains_key(b) && a != b ==> {
                &&& self.requests[a].slot != self.requests[b].slot
                &&& self.requests[a].frame != self.requests[b].frame
            }
        &&& forall|id: u64| #[trigger]
            self.requests.contains_key(id) ==> !self.cached(self.requests[id].frame)
    }

    /// The ids of the open requests that use the slot.
    pub open spec fn users_of(self, slot: u32) -> Set<u64> {
        self.requests.dom().filter(|id: u64| self.requests[id].slot == slot)
    }

    /// How often the slot stands among the free ones and those of open requests taken
    /// together.
    pub open spec fn slot_count(self, slot: u32) -> nat {
        self.free_slots.to_multiset().count(slot) + self.users_of(slot).len()
    }

    /// The ids of the open requests all came before the next one.
    pub open spec fn ids_lie_behind(self) -> bool {
        forall|id: u64| #[trigger] self.requests.contains_key(id) ==> 0 < id < self.next_id
    }

    /// None of the next ids is that of an open request.
    pub open spec fn next_ids_are_free(self, count: nat) -> bool {
        forall|k: nat|
            k < count ==> !self.requests.contains_key(#[trigger] id_after(self.next_id, k))
    }
}

/// The id `k` places behind `id`. Behind the largest id comes 1.
pub open spec fn id_after(id: u64, k: nat) -> u64 {
    ((id - 1 + k) % (u64::MAX as int) + 1) as u64
}

/// The ids come one behind the other, and none twice before all others were used.
proof fn ids_come_in_a_circle(id: u64, k: nat)
    requires
        0 < id,
    ensures
        id_after(id, 0) == id,
        0 < crate::plan::following_id(id),
        id_after(crate::plan::following_id(id), k) == id_after(id, k + 1),
        0 < k < u64::MAX ==> id_after(id, k) != id,
{
    let m = u64::MAX as int;
    let a = id - 1;
    vstd::arithmetic::div_mod::lemma_small_mod(a as nat, m as nat);
    if id == u64::MAX {
        vstd::arithmetic::div_mod::lemma_mod_add_multiples_vanish(k as int, m);
    }
    if 0 < k < m {
        if a + k < m {
            vstd::arithmetic::div_mod::lemma_small_mod((a + k) as nat, m as nat);
        } else {
            vstd::arithmetic::div_mod::lemma_mod_sub_multiples_vanish(a + k, m);
            vstd::arithmetic::div_mod::lemma_small_mod((a + k - m) as nat, m as nat);
        }
    }
}

/// Once a request is sent the ids behind its own are still free.
proof fn later_ids_stay_free(schedule: ScheduleView, created_at: u64, count: nat)
    requires
        0 < schedule.next_id,
        schedule.next_ids_are_free(count),
        0 < count < u64::MAX,
    ensures
        !schedule.requests.contains_key(schedule.next_id),
        schedule.asked(created_at).next_ids_are_free((count - 1) as nat),
{
    let next = schedule.asked(created_at);
    ids_come_in_a_circle(schedule.next_id, 0);
    assert(!schedule.requests.contains_key(id_after(schedule.next_id, 0)));
    assert forall|k: nat| k < count - 1 implies !next.requests.contains_key(
        #[trigger] id_after(next.next_id, k),
    ) by {
        ids_come_in_a_circle(schedule.next_id, k);
        ids_come_in_a_circle(schedule.next_id, k + 1);
        assert(!schedule.requests.contains_key(id_after(schedule.next_id, k + 1)));
    }
}

/// As long as the ids do not start over, the next ones are free.
pub proof fn ids_ahead_are_free(schedule: ScheduleView, count: nat)
    requires
        schedule.ids_lie_behind(),
        0 < schedule.next_id,
        schedule.next_id + count <= u64::MAX + 1,
    ensures
        schedule.next_ids_are_free(count),
{
    assert forall|k: nat| k < count implies !schedule.requests.contains_key(
        #[trigger] id_after(schedule.next_id, k),
    ) by {
        vstd::arithmetic::div_mod::lemma_small_mod(
            (schedule.next_id - 1 + k) as nat,
            u64::MAX as nat,
        );
    }
}

/// Without open requests and with all slots free the books are balanced.
proof fn fresh_books_are_balanced(schedule: ScheduleView)
    requires
        schedule.requests == Map::<u64, PreviewRequest>::empty(),
        schedule.free_slots == crate::plan::slots_up_to(PREVIEW_SLOT_COUNT),
    ensures
        schedule.balanced(),
        schedule.ids_lie_behind(),
{
    assert forall|slot: u32| slot < PREVIEW_SLOT_COUNT <==> #[trigger] schedule.free_slots.contains(
        slot,
    ) || schedule.uses_slot(slot) by {
        if slot < PREVIEW_SLOT_COUNT {
            assert(schedule.free_slots[slot as int] == slot);
        }
    }
}

/// Whether a preview is given up or a new one prepared, the books are balanced.
pub proof fn new_preview_has_balanced_books(
    schedule: ScheduleView,
    total: u32,
    capacity: nat,
    frame: u32,
)
    ensures
        schedule.cleared().balanced(),
        schedule.cleared().ids_lie_behind(),
        schedule.prepared(total, capacity, frame).balanced(),
        schedule.prepared(total, capacity, frame).ids_lie_behind(),
{
    fresh_books_are_balanced(schedule.cleared());
    fresh_books_are_balanced(schedule.prepared(total, capacity, frame));
}

/// The books depend on the cached frames, the requests and the free slots alone.
proof fn books_of_the_same_requests(before: ScheduleView, after: ScheduleView)
    requires
        before.balanced(),
        after.requests == before.requests,
        after.free_slots == before.free_slots,
        forall|frame: u32| #[trigger] after.cached(frame) ==> before.cached(frame),
    ensures
        after.balanced(),
{
    assert forall|slot: u32| #[trigger] after.uses_slot(slot) == before.uses_slot(slot) by {
        if after.uses_slot(slot) {
            let id = choose|id: u64| #[trigger]
                after.requests.contains_key(id) && after.requests[id].slot == slot;
            assert(before.requests.contains_key(id));
        }
        if before.uses_slot(slot) {
            let id = choose|id: u64| #[trigger]
                before.requests.contains_key(id) && before.requests[id].slot == slot;
            assert(after.requests.contains_key(id));
        }
    }
    assert forall|slot: u32| slot < PREVIEW_SLOT_COUNT <==> #[trigger] after.free_slots.contains(
        slot,
    ) || after.uses_slot(slot) by {
        assert(slot < PREVIEW_SLOT_COUNT <==> before.free_slots.contains(slot) || before.uses_slot(
            slot,
        ));
    }
    assert forall|slot: u32| !(#[trigger] after.free_slots.contains(slot) && after.uses_slot(
        slot,
    )) by {
        assert(!(before.free_slots.contains(slot) && before.uses_slot(slot)));
    }
    assert forall|id: u64| #[trigger] after.requests.contains_key(id) implies !after.cached(
        after.requests[id].frame,
    ) by {
        assert(before.requests.contains_key(id));
    }
}

/// Another target, a refilled queue, a frame on the screen and other settings of
/// playback leave the books balanced.
pub proof fn only_requests_move_slots(
    schedule: ScheduleView,
    frame: u32,
    forward: bool,
    ready: bool,
    playing: bool,
    looping: bool,
)
    requires
        schedule.balanced(),
    ensures
        schedule.targeted(frame).balanced(),
        schedule.refilled(forward).balanced(),
        schedule.displaying(frame).balanced(),
        (ScheduleView { ready, playing, looping, ..schedule }).balanced(),
{
    books_of_the_same_requests(schedule, schedule.targeted(frame));
    books_of_the_same_requests(schedule, schedule.refilled(forward));
    books_of_the_same_requests(schedule, schedule.displaying(frame));
    books_of_the_same_requests(schedule, ScheduleView { ready, playing, looping, ..schedule });
}

/// A request with a new id for a frame that is not held takes its slot out of the
/// free ones.
pub proof fn request_takes_a_free_slot(schedule: ScheduleView, created_at: u64)
    requires
        schedule.balanced(),
        schedule.free_slots.len() > 0,
        schedule.queue.len() > 0,
        !schedule.holds(schedule.queue[0]),
        !schedule.requests.contains_key(schedule.next_id),
    ensures
        schedule.asked(created_at).balanced(),
{
    let after = schedule.asked(created_at);
    let taken = schedule.free_slots[0];
    let frame = schedule.queue[0];
    let new = schedule.next_id;
    assert(schedule.free_slots.contains(taken));
    assert(after.requests.contains_key(new));
    assert forall|slot: u32| #[trigger]
        after.free_slots.contains(slot) <==> schedule.free_slots.contains(slot) && slot
            != taken by {
        if after.free_slots.contains(slot) {
            let i = choose|i: int| 0 <= i < after.free_slots.len() && after.free_slots[i] == slot;
            assert(schedule.free_slots[i + 1] == slot);
        }
        if schedule.free_slots.contains(slot) && slot != taken {
            let i = choose|i: int|
                0 <= i < schedule.free_slots.len() && schedule.free_slots[i] == slot;
            assert(after.free_slots[i - 1] == slot);
        }
    }
    assert forall|slot: u32| #[trigger]
        after.uses_slot(slot) <==> schedule.uses_slot(slot) || slot == taken by {
        if after.uses_slot(slot) {
            let id = choose|id: u64| #[trigger]
                after.requests.contains_key(id) && after.requests[id].slot == slot;
            if id != new {
                assert(schedule.requests.contains_key(id));
            }
        }
        if schedule.uses_slot(slot) {
            let id = choose|id: u64| #[trigger]
                schedule.requests.contains_key(id) && schedule.requests[id].slot == slot;
            assert(after.requests.contains_key(id));
        }
    }
    assert forall|slot: u32| slot < PREVIEW_SLOT_COUNT <==> #[trigger] after.free_slots.contains(
        slot,
    ) || after.uses_slot(slot) by {
        assert(slot < PREVIEW_SLOT_COUNT <==> schedule.free_slots.contains(slot)
            || schedule.uses_slot(slot));
    }
    assert forall|slot: u32| !(#[trigger] after.free_slots.contains(slot) && after.uses_slot(
        slot,
    )) by {
        assert(!(schedule.free_slots.contains(slot) && schedule.uses_slot(slot)));
    }
    assert forall|id: u64| #[trigger] schedule.requests.contains_key(id) implies {
        &&& schedule.requests[id].slot != taken
        &&& schedule.requests[id].frame != frame
    } by {
        assert(schedule.uses_slot(schedule.requests[id].slot));
        assert(schedule.requested(schedule.requests[id].frame));
    }
    assert(after.cached(frame) == schedule.cached(frame));
    assert forall|id: u64| #[trigger] after.requests.contains_key(id) implies !after.cached(
        after.requests[id].frame,
    ) by {
        if id != new {
            assert(schedule.requests.contains_key(id));
            assert(!schedule.cached(schedule.requests[id].frame));
        }
    }
}

/// A frame that is taken frees its slot.
pub proof fn accepted_frame_frees_its_slot(
    schedule: ScheduleView,
    request_id: u64,
    frame: u32,
    slot: u32,
    image: Arc<egui::ColorImage>,
    forward: bool,
)
    requires
        schedule.wf(),
        schedule.balanced(),
        schedule.refusal(request_id, frame, slot) is None,
    ensures
        schedule.accepted(request_id, frame, slot, image, forward).balanced(),
        schedule.accepted(request_id, frame, slot, image, forward).free_slots.last() == slot,
        !schedule.accepted(request_id, frame, slot, image, forward).requested(frame),
        schedule.ids_lie_behind() ==> schedule.accepted(
            request_id,
            frame,
            slot,
            image,
            forward,
        ).ids_lie_behind(),
{
    let after = schedule.accepted(request_id, frame, slot, image, forward);
    crate::cache::insertion_evicts_at_most_one_frame(
        schedule.cache->0,
        frame,
        image,
        schedule.eviction(forward),
    );
    assert(schedule.requests.contains_key(request_id));
    assert(schedule.uses_slot(slot));
    assert forall|other: u32| #[trigger]
        after.free_slots.contains(other) <==> schedule.free_slots.contains(other) || other
            == slot by {
        if schedule.free_slots.contains(other) {
            let i = choose|i: int|
                0 <= i < schedule.free_slots.len() && schedule.free_slots[i] == other;
            assert(after.free_slots[i] == other);
        }
        if other == slot {
            assert(after.free_slots[schedule.free_slots.len() as int] == other);
        }
    }
    assert(!schedule.free_slots.contains(slot));
    assert forall|a: int, b: int| 0 <= a < b < after.free_slots.len() implies after.free_slots[a]
        != after.free_slots[b] by {
        if b == schedule.free_slots.len() {
            assert(schedule.free_slots.contains(schedule.free_slots[a]));
        }
    }
    assert forall|other: u32| #[trigger]
        after.uses_slot(other) <==> schedule.uses_slot(other) && other != slot by {
        if after.uses_slot(other) {
            let id = choose|id: u64| #[trigger]
                after.requests.contains_key(id) && after.requests[id].slot == other;
            assert(schedule.requests.contains_key(id));
        }
        if schedule.uses_slot(other) && other != slot {
            let id = choose|id: u64| #[trigger]
                schedule.requests.contains_key(id) && schedule.requests[id].slot == other;
            assert(after.requests.contains_key(id));
        }
    }
    assert forall|other: u32| other < PREVIEW_SLOT_COUNT <==> #[trigger] after.free_slots.contains(
        other,
    ) || after.uses_slot(other) by {
        assert(other < PREVIEW_SLOT_COUNT <==> schedule.free_slots.contains(other)
            || schedule.uses_slot(other));
    }
    assert forall|other: u32| !(#[trigger] after.free_slots.contains(other) && after.uses_slot(
        other,
    )) by {
        assert(!(schedule.free_slots.contains(other) && schedule.uses_slot(other)));
    }
    assert forall|id: u64| #[trigger] after.requests.contains_key(id) implies {
        &&& !after.cached(after.requests[id].frame)
        &&& after.requests[id].frame != frame
    } by {
        assert(schedule.requests.contains_key(id));
        assert(!schedule.cached(schedule.requests[id].frame));
        assert(schedule.requests[id].frame != schedule.requests[request_id].frame);
    }
    assert forall|a: u64, b: u64|
        #![trigger after.requests.contains_key(a), after.requests.contains_key(b)]
        after.requests.contains_key(a) && after.requests.contains_key(b) && a != b implies {
        &&& after.requests[a].slot != after.requests[b].slot
        &&& after.requests[a].frame != after.requests[b].frame
    } by {
        assert(schedule.requests.contains_key(a));
        assert(schedule.requests.contains_key(b));
    }
    assert forall|id: u64| schedule.ids_lie_behind() && #[trigger] after.requests.contains_key(
        id,
    ) implies 0 < id < after.next_id by {
        assert(schedule.requests.contains_key(id));
    }
}

/// What is left of the queue once the frames at its front that are held were
/// dropped.
pub proof fn settling_drops_held_frames_only(schedule: ScheduleView, limit: usize)
    ensures
        schedule.settled(limit) == (ScheduleView {
            queue: schedule.settled(limit).queue,
            ..schedule
        }),
        schedule.settled(limit).queue.len() <= schedule.queue.len(),
        schedule.settled(limit).queue == schedule.queue.skip(
            schedule.queue.len() - schedule.settled(limit).queue.len(),
        ),
        schedule.settled(limit).can_ask(limit) ==> !schedule.holds(
            schedule.settled(limit).queue[0],
        ),
        forall|i: int|
            0 <= i < schedule.queue.len() - schedule.settled(limit).queue.len() ==> schedule.holds(
                #[trigger] schedule.queue[i],
            ),
    decreases schedule.queue.len(),
{
    if schedule.can_ask(limit) && schedule.holds(schedule.queue[0]) {
        let next = ScheduleView { queue: schedule.queue.drop_first(), ..schedule };
        settling_drops_held_frames_only(next, limit);
        let left = schedule.settled(limit).queue;
        same_holdings(schedule, next);
        assert(next.queue.skip(next.queue.len() - left.len()) =~= schedule.queue.skip(
            schedule.queue.len() - left.len(),
        ));
        assert forall|i: int|
            0 <= i < schedule.queue.len() - left.len() implies schedule.holds(
            #[trigger] schedule.queue[i],
        ) by {
            if i > 0 {
                assert(next.queue[i - 1] == schedule.queue[i]);
                assert(next.holds(next.queue[i - 1]));
            }
        }
    } else {
        assert(schedule.queue.skip(0) =~= schedule.queue);
    }
}

/// What is held depends on the cache and the requests alone.
proof fn same_holdings(a: ScheduleView, b: ScheduleView)
    requires
        a.cache == b.cache,
        a.requests == b.requests,
    ensures
        forall|frame: u32| #[trigger] a.holds(frame) == b.holds(frame),
{
    assert forall|frame: u32| #[trigger] a.holds(frame) == b.holds(frame) by {
        assert(a.cached(frame) == b.cached(frame));
        crate::plan::same_requests(a, b, frame);
    }
}

/// A round of requests leaves the books balanced, whatever became of each request,
/// and does not open more of them than the limit allows. What was asked for before
/// stays open, and nothing else changes but the queue, of which a part at the
/// front is used up. None of the ids that the round uses may be that of an open
/// request.
pub proof fn round_keeps_the_books(
    schedule: ScheduleView,
    limit: usize,
    outcomes: Seq<Option<u64>>,
)
    requires
        schedule.wf(),
        schedule.balanced(),
        0 < schedule.next_id,
        outcomes.len() < u64::MAX,
        schedule.next_ids_are_free(outcomes.len()),
    ensures
        schedule.dispatched(limit, outcomes).balanced(),
        0 < schedule.dispatched(limit, outcomes).next_id,
        schedule.requests.submap_of(schedule.dispatched(limit, outcomes).requests),
        schedule.dispatched(limit, outcomes).requests.len() <= if schedule.requests.len() < limit {
            limit as nat
        } else {
            schedule.requests.len()
        },
        schedule.dispatched(limit, outcomes).queue.len() <= schedule.queue.len(),
        schedule.dispatched(limit, outcomes).queue == schedule.queue.skip(
            schedule.queue.len() - schedule.dispatched(limit, outcomes).queue.len(),
        ),
        schedule.dispatched(limit, outcomes) == (ScheduleView {
            requests: schedule.dispatched(limit, outcomes).requests,
            free_slots: schedule.dispatched(limit, outcomes).free_slots,
            queue: schedule.dispatched(limit, outcomes).queue,
            next_id: schedule.dispatched(limit, outcomes).next_id,
            ..schedule
        }),
    decreases outcomes.len(),
{
    let settled = schedule.settled(limit);
    let after = schedule.dispatched(limit, outcomes);
    settling_drops_held_frames_only(schedule, limit);
    same_holdings(schedule, settled);
    assert forall|frame: u32| #[trigger] settled.cached(frame) implies schedule.cached(frame) by {}
    books_of_the_same_requests(schedule, settled);
    if settled.can_ask(limit) && outcomes.len() > 0 {
        match outcomes[0] {
            Some(created_at) => {
                let next = settled.asked(created_at);
                assert(settled.next_ids_are_free(outcomes.len()));
                later_ids_stay_free(settled, created_at, outcomes.len());
                ids_come_in_a_circle(settled.next_id, 0);
                request_takes_a_free_slot(settled, created_at);
                assert(next.wf()) by {
                    well_formed_once_asked(schedule, settled, created_at);
                }
                round_keeps_the_books(next, limit, outcomes.drop_first());
                assert(after.queue =~= schedule.queue.skip(
                    schedule.queue.len() - after.queue.len(),
                ));
                assert forall|id: u64| #[trigger]
                    schedule.requests.contains_key(id) implies after.requests.contains_key(id)
                    && after.requests[id] == schedule.requests[id] by {
                    assert(settled.next_id != id);
                    assert(next.requests.contains_key(id));
                }
            },
            None => {
                let next = settled.refused();
                ids_come_in_a_circle(settled.next_id, 0);
                books_of_the_same_requests(settled, next);
                assert(after.queue =~= schedule.queue.skip(
                    schedule.queue.len() - after.queue.len(),
                ));
            },
        }
    }
}

/// A schedule that dropped frames of its queue and asked for one stays well-formed.
proof fn well_formed_once_asked(schedule: ScheduleView, settled: ScheduleView, created_at: u64)
    requires
        schedule.wf(),
        settled.queue.len() > 0,
        settled.queue.len() <= schedule.queue.len(),
        settled.queue == schedule.queue.skip(schedule.queue.len() - settled.queue.len()),
        settled == (ScheduleView { queue: settled.queue, ..schedule }),
    ensures
        settled.asked(created_at).wf(),
{
    let next = settled.asked(created_at);
    let dropped = schedule.queue.len() - settled.queue.len();
    assert forall|i: int| 0 <= i < settled.queue.len() implies #[trigger] settled.queue[i]
        < schedule.total by {
        assert(settled.queue[i] == schedule.queue[dropped + i]);
    }
    assert forall|i: int| 0 <= i < next.queue.len() implies #[trigger] next.queue[i]
        < schedule.total by {
        assert(next.queue[i] == settled.queue[i + 1]);
    }
    crate::plan::same_pictures_lie_on_the_timeline(schedule, next);
    assert forall|id: u64| #[trigger] next.requests.contains_key(id) implies {
        &&& next.requests[id].id == id
        &&& next.requests[id].frame < schedule.total
    } by {
        if id != settled.next_id {
            assert(schedule.requests.contains_key(id));
        }
    }
}

/// A round of requests that were all sent ends only where nothing more can be asked
/// for: the queue is empty, no slot is free, or the limit is reached.
pub proof fn round_goes_as_far_as_it_can(
    schedule: ScheduleView,
    limit: usize,
    outcomes: Seq<Option<u64>>,
)
    requires
        schedule.is_round(limit, outcomes),
        forall|i: int| 0 <= i < outcomes.len() ==> (#[trigger] outcomes[i]) is Some,
    ensures
        !schedule.dispatched(limit, outcomes).can_ask(limit),
        ({
            let after = schedule.dispatched(limit, outcomes);
            after.queue.len() == 0 || after.free_slots.len() == 0 || after.requests.len() >= limit
        }),
    decreases outcomes.len(),
{
    let settled = schedule.settled(limit);
    if settled.can_ask(limit) {
        let rest = outcomes.drop_first();
        assert forall|i: int| 0 <= i < rest.len() implies (#[trigger] rest[i]) is Some by {
            assert(rest[i] == outcomes[i + 1]);
        }
        assert(outcomes[0] is Some);
        round_goes_as_far_as_it_can(settled.asked(outcomes[0]->0), limit, rest);
    }
}

/// Every command of a round asks for a frame of the queue that is not held, into a
/// slot that is free, with one id behind the other, and there is one command for
/// each outcome. None of the ids that the round uses may be that of an open request.
pub proof fn commands_ask_for_missing_frames(
    schedule: ScheduleView,
    limit: usize,
    outcomes: Seq<Option<u64>>,
)
    requires
        schedule.is_round(limit, outcomes),
        0 < schedule.next_id,
        outcomes.len() < u64::MAX,
        schedule.next_ids_are_free(outcomes.len()),
    ensures
        schedule.commands(limit, outcomes).len() == outcomes.len(),
        forall|k: int|
            0 <= k < outcomes.len() ==> {
                &&& #[trigger] schedule.commands(limit, outcomes)[k] matches
                    EditorCommand::RenderFrame { request_id, frame, slot }
                    && request_id == id_after(schedule.next_id, k as nat)
                    && schedule.queue.contains(frame) && !schedule.holds(frame)
                    && schedule.free_slots.contains(slot)
            },
    decreases outcomes.len(),
{
    let settled = schedule.settled(limit);
    settling_drops_held_frames_only(schedule, limit);
    same_holdings(schedule, settled);
    if settled.can_ask(limit) {
        let dropped = schedule.queue.len() - settled.queue.len();
        assert(settled.queue[0] == schedule.queue[dropped]);
        ids_come_in_a_circle(schedule.next_id, 0);
        if let Some(created_at) = outcomes[0] {
            let next = settled.asked(created_at);
            let rest = outcomes.drop_first();
            let commands = schedule.commands(limit, outcomes);
            assert(settled.next_ids_are_free(outcomes.len()));
            later_ids_stay_free(settled, created_at, outcomes.len());
            ids_come_in_a_circle(settled.next_id, 0);
            commands_ask_for_missing_frames(next, limit, rest);
            assert forall|k: int| 0 <= k < outcomes.len() implies {
                &&& #[trigger] commands[k] matches EditorCommand::RenderFrame {
                    request_id,
                    frame,
                    slot,
                } && request_id == id_after(schedule.next_id, k as nat)
                    && schedule.queue.contains(frame) && !schedule.holds(frame)
                    && schedule.free_slots.contains(slot)
            } by {
                if k > 0 {
                    ids_come_in_a_circle(schedule.next_id, (k - 1) as nat);
                    assert(commands[k] == next.commands(limit, rest)[k - 1]);
                    if let EditorCommand::RenderFrame { request_id, frame, slot } = commands[k] {
                        let i = choose|i: int|
                            0 <= i < next.queue.len() && next.queue[i] == frame;
                        assert(schedule.queue[dropped + i + 1] == frame);
                        let j = choose|j: int|
                            0 <= j < next.free_slots.len() && next.free_slots[j] == slot;
                        assert(schedule.free_slots[j + 1] == slot);
                        more_is_held_once_asked(settled, created_at, frame);
                    }
                }
            }
        }
    }
}

/// Two of the next ids differ.
proof fn next_ids_differ(id: u64, a: nat, b: nat)
    requires
        0 < id,
        a < b < u64::MAX,
    ensures
        id_after(id, a) != id_after(id, b),
{
    let m = u64::MAX as int;
    let x = id - 1 + a;
    let y = id - 1 + b;
    vstd::arithmetic::div_mod::lemma_fundamental_div_mod(x, m);
    vstd::arithmetic::div_mod::lemma_fundamental_div_mod(y, m);
    vstd::arithmetic::div_mod::lemma_mod_bound(x, m);
    vstd::arithmetic::div_mod::lemma_mod_bound(y, m);
}

/// A request with a new id moves one slot from the free ones to its own.
proof fn request_moves_a_slot(schedule: ScheduleView, created_at: u64, slot: u32)
    requires
        schedule.requests.dom().finite(),
        schedule.free_slots.len() > 0,
        !schedule.requests.contains_key(schedule.next_id),
    ensures
        schedule.asked(created_at).slot_count(slot) == schedule.slot_count(slot),
{
    broadcast use vstd::seq_lib::group_to_multiset_ensures;

    let after = schedule.asked(created_at);
    let new = schedule.next_id;
    let taken = schedule.free_slots[0];
    assert(schedule.free_slots =~= seq![taken] + after.free_slots);
    vstd::seq_lib::lemma_multiset_commutative(seq![taken], after.free_slots);
    assert(seq![taken].to_multiset().count(slot) == if slot == taken {
        1nat
    } else {
        0nat
    }) by {
        assert(seq![taken] =~= Seq::<u32>::empty().push(taken));
    }
    if slot == taken {
        assert(after.users_of(slot) =~= schedule.users_of(slot).insert(new));
    } else {
        assert(after.users_of(slot) =~= schedule.users_of(slot));
    }
}

/// A command was sent and is an open request now, with the id, the frame and the slot
/// of the command.
pub open spec fn is_request(
    command: EditorCommand,
    outcome: Option<u64>,
    requests: Map<u64, PreviewRequest>,
) -> bool {
    match (command, outcome) {
        (EditorCommand::RenderFrame { request_id, frame, slot }, Some(created_at)) => {
            &&& requests.contains_key(request_id)
            &&& requests[request_id] == (PreviewRequest { id: request_id, frame, slot, created_at })
        },
        _ => false,
    }
}

/// What is held stays held when another request is sent with a new id.
proof fn more_is_held_once_asked(schedule: ScheduleView, created_at: u64, frame: u32)
    requires
        !schedule.asked(created_at).holds(frame),
        !schedule.requests.contains_key(schedule.next_id),
    ensures
        !schedule.holds(frame),
{
    let next = schedule.asked(created_at);
    assert(next.cached(frame) == schedule.cached(frame));
    if schedule.requested(frame) {
        let id = choose|id: u64| #[trigger]
            schedule.requests.contains_key(id) && schedule.requests[id].frame == frame;
        assert(next.requests.contains_key(id));
    }
}

/// Command `k`, and no other, asks with this id, and it is an open request now.
pub open spec fn opens(
    commands: Seq<EditorCommand>,
    outcomes: Seq<Option<u64>>,
    requests: Map<u64, PreviewRequest>,
    id: u64,
    k: int,
) -> bool {
    &&& 0 <= k < commands.len()
    &&& is_request(commands[k], outcomes[k], requests)
    &&& forall|j: int|
        0 <= j < commands.len() ==> (j == k <==> (#[trigger] commands[j] matches
            EditorCommand::RenderFrame { request_id, .. } && request_id == id))
}

/// A round opens a request for each command that was sent and no other, and moves its
/// slot from the free ones to the request.
proof fn round_opens_what_it_sends(
    schedule: ScheduleView,
    limit: usize,
    outcomes: Seq<Option<u64>>,
)
    requires
        schedule.is_round(limit, outcomes),
        schedule.requests.dom().finite(),
        0 < schedule.next_id,
        outcomes.len() < u64::MAX,
        schedule.next_ids_are_free(outcomes.len()),
    ensures
        ({
            let after = schedule.dispatched(limit, outcomes);
            let commands = schedule.commands(limit, outcomes);
            &&& commands.len() == outcomes.len()
            &&& schedule.requests.submap_of(after.requests)
            &&& forall|k: int|
                0 <= k < outcomes.len() && (#[trigger] outcomes[k]) is Some ==> is_request(
                    commands[k],
                    outcomes[k],
                    after.requests,
                )
            &&& forall|id: u64| #[trigger]
                after.requests.contains_key(id) ==> schedule.requests.contains_key(id) || exists|
                    k: nat,
                |
                    k < outcomes.len() && outcomes[k as int] is Some && #[trigger] id_after(
                        schedule.next_id,
                        k,
                    ) == id
            &&& forall|slot: u32| #[trigger]
                after.slot_count(slot) == schedule.slot_count(slot)
            &&& after.requests.dom().finite()
            &&& after.requests.len() <= if schedule.requests.len() < limit {
                limit as nat
            } else {
                schedule.requests.len()
            }
        }),
    decreases outcomes.len(),
{
    let settled = schedule.settled(limit);
    let after = schedule.dispatched(limit, outcomes);
    let commands = schedule.commands(limit, outcomes);
    settling_drops_held_frames_only(schedule, limit);
    assert forall|slot: u32| #[trigger] settled.slot_count(slot) == schedule.slot_count(slot) by {
        assert(settled.users_of(slot) =~= schedule.users_of(slot));
    }
    if settled.can_ask(limit) {
        if let Some(created_at) = outcomes[0] {
            let next = settled.asked(created_at);
            let rest = outcomes.drop_first();
            let next_commands = next.commands(limit, rest);
            assert(settled.next_ids_are_free(outcomes.len()));
            later_ids_stay_free(settled, created_at, outcomes.len());
            ids_come_in_a_circle(settled.next_id, 0);
            round_opens_what_it_sends(next, limit, rest);
            assert(after == next.dispatched(limit, rest));
            assert(commands =~= seq![settled.next_command()] + next_commands);
            assert(next.requests.contains_key(settled.next_id));
            assert(is_request(commands[0], outcomes[0], next.requests));
            assert forall|k: int| 0 <= k < outcomes.len() && (#[trigger] outcomes[k])
                is Some implies is_request(commands[k], outcomes[k], after.requests) by {
                if k > 0 {
                    assert(rest[k - 1] == outcomes[k]);
                    assert(next_commands[k - 1] == commands[k]);
                }
            }
            assert forall|id: u64| #[trigger]
                after.requests.contains_key(id) implies schedule.requests.contains_key(id)
                || exists|k: nat|
                k < outcomes.len() && outcomes[k as int] is Some && #[trigger] id_after(
                    schedule.next_id,
                    k,
                ) == id by {
                if !next.requests.contains_key(id) {
                    let k = choose|k: nat|
                        k < rest.len() && rest[k as int] is Some && #[trigger] id_after(
                            next.next_id,
                            k,
                        ) == id;
                    ids_come_in_a_circle(schedule.next_id, k);
                    assert(outcomes[(k + 1) as int] == rest[k as int]);
                    assert(id_after(schedule.next_id, k + 1) == id);
                } else if id == schedule.next_id {
                    assert(id_after(schedule.next_id, 0) == id);
                }
            }
            assert forall|slot: u32| #[trigger]
                after.slot_count(slot) == schedule.slot_count(slot) by {
                request_moves_a_slot(settled, created_at, slot);
                assert(next.slot_count(slot) == settled.slot_count(slot));
            }
            assert forall|id: u64| #[trigger]
                schedule.requests.contains_key(id) implies after.requests.contains_key(id)
                && after.requests[id] == schedule.requests[id] by {
                assert(next.requests.contains_key(id));
            }
        } else {
            assert forall|slot: u32| #[trigger]
                after.slot_count(slot) == schedule.slot_count(slot) by {
                assert(after.users_of(slot) =~= schedule.users_of(slot));
            }
        }
    }
}

/// What a dispatch does, where none of the ids that it uses is that of an open
/// request: a schedule that is not ready or has no frames stays as it is. Else every
/// request that is open afterwards and was not before was sent in one command, with
/// its id, its frame and its slot, and no other command has its id. Each command asks
/// for a frame of the queue that was neither cached nor asked for. The requests that
/// were open stay open, the free slots and those of open requests taken together are
/// the same as before, each as often, and the limit on open requests is kept.
pub proof fn dispatch_sends_each_request_once<
    Link,
    F: Fn(Link, EditorCommand) -> (Link, Option<u64>),
>(
    schedule: ScheduleView,
    needed: usize,
    send: F,
    links: Seq<Link>,
    outcomes: Seq<Option<u64>>,
    after: ScheduleView,
)
    requires
        schedule.wf(),
        schedule.is_dispatch(needed, send, links, outcomes, after),
        0 < schedule.next_id,
        outcomes.len() < u64::MAX,
        schedule.next_ids_are_free(outcomes.len()),
    ensures
        ({
            let limit = schedule.in_flight_limit(needed);
            let commands = schedule.commands(limit, outcomes);
            &&& !schedule.ready || schedule.total == 0 ==> after == schedule && links.first()
                == links.last()
            &&& commands.len() == outcomes.len()
            &&& forall|k: int|
                0 <= k < outcomes.len() ==> send.ensures(
                    (links[k], commands[k]),
                    (links[k + 1], #[trigger] outcomes[k]),
                )
            &&& forall|k: int|
                0 <= k < outcomes.len() ==> {
                    &&& #[trigger] commands[k] matches EditorCommand::RenderFrame {
                        request_id,
                        frame,
                        slot,
                    } && schedule.queue.contains(frame) && !schedule.cached(frame)
                        && !schedule.requested(frame)
                }
            &&& forall|id: u64| #[trigger]
                after.requests.contains_key(id) && !schedule.requests.contains_key(id) ==> exists|
                    k: int,
                | #[trigger]
                    opens(commands, outcomes, after.requests, id, k)
            &&& forall|k: int|
                0 <= k < outcomes.len() && (#[trigger] outcomes[k]) is Some ==> is_request(
                    commands[k],
                    outcomes[k],
                    after.requests,
                )
            &&& schedule.requests.submap_of(after.requests)
            &&& forall|slot: u32| #[trigger]
                after.slot_count(slot) == schedule.slot_count(slot)
            &&& after.requests.len() <= if schedule.requests.len() < limit {
                limit as nat
            } else {
                schedule.requests.len()
            }
        }),
{
    let limit = schedule.in_flight_limit(needed);
    let commands = schedule.commands(limit, outcomes);
    if schedule.ready && schedule.total > 0 {
        round_opens_what_it_sends(schedule, limit, outcomes);
        commands_ask_for_missing_frames(schedule, limit, outcomes);
        assert forall|id: u64| #[trigger]
            after.requests.contains_key(id) && !schedule.requests.contains_key(id) implies exists|
            k: int,
        | #[trigger] opens(commands, outcomes, after.requests, id, k) by {
            let k = choose|k: nat|
                k < outcomes.len() && outcomes[k as int] is Some && #[trigger] id_after(
                    schedule.next_id,
                    k,
                ) == id;
            assert forall|j: int| 0 <= j < commands.len() implies (j == k <==> (
            #[trigger] commands[j] matches EditorCommand::RenderFrame { request_id, .. }
                && request_id == id)) by {
                if j < k {
                    next_ids_differ(schedule.next_id, j as nat, k);
                } else if k < j {
                    next_ids_differ(schedule.next_id, k, j as nat);
                }
            }
            assert(opens(commands, outcomes, after.requests, id, k as int));
        }
    }
}

/// How many requests a schedule has room for: as many as frames are queued, slots are
/// free and the limit leaves.
pub open spec fn room(schedule: ScheduleView, limit: usize) -> int {
    let left = if schedule.requests.len() < limit {
        limit - schedule.requests.len()
    } else {
        0
    };
    let queued = schedule.queue.len() as int;
    let free = schedule.free_slots.len() as int;
    if left <= queued && left <= free {
        left
    } else if queued <= free {
        queued
    } else {
        free
    }
}

/// A round over a queue of distinct frames that are not held asks for them one by one
/// in their order, into the free slots in their order, with one id behind the other.
/// It makes as many requests as there is room for, or stops at the first that cannot
/// be sent. That one has used up its frame and its id, but no slot.
pub proof fn round_follows_the_queue(
    schedule: ScheduleView,
    limit: usize,
    outcomes: Seq<Option<u64>>,
)
    requires
        schedule.is_round(limit, outcomes),
        schedule.requests.dom().finite(),
        schedule.queue.no_duplicates(),
        forall|k: int| 0 <= k < schedule.queue.len() ==> !schedule.holds(#[trigger] schedule.queue[k]),
        0 < schedule.next_id,
        outcomes.len() < u64::MAX,
        schedule.next_ids_are_free(outcomes.len()),
    ensures
        ({
            let commands = schedule.commands(limit, outcomes);
            let after = schedule.dispatched(limit, outcomes);
            let n = outcomes.len() as int;
            let stopped = n > 0 && outcomes[n - 1] is None;
            let sent = if stopped {
                n - 1
            } else {
                n
            };
            &&& commands.len() == n
            &&& forall|k: int|
                0 <= k < n ==> #[trigger] commands[k] == (EditorCommand::RenderFrame {
                    request_id: id_after(schedule.next_id, k as nat),
                    frame: schedule.queue[k],
                    slot: schedule.free_slots[k],
                })
            &&& forall|k: int| 0 <= k < n - 1 ==> (#[trigger] outcomes[k]) is Some
            &&& n <= room(schedule, limit)
            &&& !stopped ==> n == room(schedule, limit)
            &&& after.queue == schedule.queue.skip(n)
            &&& after.free_slots == schedule.free_slots.skip(sent)
            &&& after.requests.len() == schedule.requests.len() + sent
            &&& after.next_id == id_after(schedule.next_id, n as nat)
        }),
    decreases outcomes.len(),
{
    let commands = schedule.commands(limit, outcomes);
    let after = schedule.dispatched(limit, outcomes);
    let n = outcomes.len() as int;
    assert(schedule.settled(limit) == schedule);
    ids_come_in_a_circle(schedule.next_id, 0);
    if schedule.can_ask(limit) {
        if let Some(created_at) = outcomes[0] {
            let next = schedule.asked(created_at);
            let rest = outcomes.drop_first();
            later_ids_stay_free(schedule, created_at, outcomes.len());
            assert(next.requests.len() == schedule.requests.len() + 1);
            assert forall|k: int| 0 <= k < next.queue.len() implies !next.holds(
                #[trigger] next.queue[k],
            ) by {
                let frame = next.queue[k];
                assert(frame == schedule.queue[k + 1]);
                assert(frame != schedule.queue[0]);
                assert(!schedule.holds(schedule.queue[k + 1]));
                assert(next.cached(frame) == schedule.cached(frame));
                if next.requested(frame) {
                    let id = choose|id: u64| #[trigger]
                        next.requests.contains_key(id) && next.requests[id].frame == frame;
                    assert(schedule.requests.contains_key(id));
                }
            }
            round_follows_the_queue(next, limit, rest);
            let next_commands = next.commands(limit, rest);
            assert(commands =~= seq![schedule.next_command()] + next_commands);
            assert forall|k: int| 0 <= k < n implies #[trigger] commands[k] == (
            EditorCommand::RenderFrame {
                request_id: id_after(schedule.next_id, k as nat),
                frame: schedule.queue[k],
                slot: schedule.free_slots[k],
            }) by {
                if k > 0 {
                    ids_come_in_a_circle(schedule.next_id, (k - 1) as nat);
                    assert(commands[k] == next_commands[k - 1]);
                }
            }
            ids_come_in_a_circle(schedule.next_id, rest.len());
            assert forall|k: int| 0 <= k < n - 1 implies (#[trigger] outcomes[k]) is Some by {
                if k > 0 {
                    assert(rest[k - 1] == outcomes[k]);
                }
            }
            if rest.len() > 0 {
                assert(rest[rest.len() - 1] == outcomes[n - 1]);
            }
            assert(after.queue =~= schedule.queue.skip(n));
            let stopped = outcomes[n - 1] is None;
            let sent = if stopped {
                n - 1
            } else {
                n
            };
            assert(after.free_slots =~= schedule.free_slots.skip(sent));
        } else {
            assert(after.queue =~= schedule.queue.skip(1));
            assert(after.free_slots =~= schedule.free_slots.skip(0));
        }
    } else {
        assert(after.queue =~= schedule.queue.skip(0));
        assert(after.free_slots =~= schedule.free_slots.skip(0));
    }
}

/// Once the queue was filled anew, what is asked for follows it: each frame of the
/// queue in turn, as far as there is room, or up to the first request that cannot be
/// sent. With fewer than 16 frames buffered, or paused, or not yet primed, there is
/// room in all 16 slots.
pub proof fn refilled_schedule_asks_in_order<
    Link,
    F: Fn(Link, EditorCommand) -> (Link, Option<u64>),
>(
    schedule: ScheduleView,
    forward: bool,
    needed: usize,
    send: F,
    links: Seq<Link>,
    outcomes: Seq<Option<u64>>,
    after: ScheduleView,
)
    requires
        schedule.wf(),
        schedule.cache is Some,
        schedule.ready,
        schedule.total > 0,
        schedule.refilled(forward).is_dispatch(needed, send, links, outcomes, after),
        0 < schedule.next_id,
        outcomes.len() < u64::MAX,
        schedule.next_ids_are_free(outcomes.len()),
    ensures
        ({
            let refilled = schedule.refilled(forward);
            let limit = refilled.in_flight_limit(needed);
            let commands = refilled.commands(limit, outcomes);
            let n = outcomes.len() as int;
            let stopped = n > 0 && outcomes[n - 1] is None;
            &&& !refilled.playing || !refilled.primed || refilled.buffered < 16 ==> limit == 16
            &&& commands.len() == n
            &&& forall|k: int|
                0 <= k < n ==> {
                    &&& #[trigger] commands[k] == (EditorCommand::RenderFrame {
                        request_id: id_after(schedule.next_id, k as nat),
                        frame: refilled.queue[k],
                        slot: schedule.free_slots[k],
                    })
                    &&& send.ensures((links[k], commands[k]), (links[k + 1], outcomes[k]))
                }
            &&& n <= room(refilled, limit)
            &&& !stopped ==> n == room(refilled, limit)
        }),
{
    let refilled = schedule.refilled(forward);
    let limit = refilled.in_flight_limit(needed);
    crate::plan::every_slot_is_used_to_recover(refilled, needed);
    crate::plan::queue_holds_the_missing_frames(schedule, forward, 0);
    same_holdings(schedule, refilled);
    assert forall|k: int| 0 <= k < refilled.queue.len() implies !refilled.holds(
        #[trigger] refilled.queue[k],
    ) by {
        assert(refilled.queue.contains(refilled.queue[k]));
        crate::plan::queue_holds_the_missing_frames(schedule, forward, refilled.queue[k]);
    }
    assert(refilled.next_ids_are_free(outcomes.len()));
    round_follows_the_queue(refilled, limit, outcomes);
    assert forall|k: int| 0 <= k < outcomes.len() implies send.ensures(
        (links[k], #[trigger] refilled.commands(limit, outcomes)[k]),
        (links[k + 1], outcomes[k]),
    ) by {
        let outcome = outcomes[k];
        assert(outcome is Some || outcome is None);
    }
}

/// There are as many slots as the books say: those that are free and those of the
/// open requests make up all of them.
pub proof fn free_and_used_slots_make_up_all(schedule: ScheduleView)
    requires
        schedule.wf(),
        schedule.balanced(),
    ensures
        schedule.free_slots.len() + schedule.requests.len() == PREVIEW_SLOT_COUNT,
{
    let ids = schedule.requests.dom();
    let slot_of = |id: u64| schedule.requests[id].slot;
    let used = ids.map(slot_of);
    let free = schedule.free_slots.to_set();
    let all = crate::plan::slots_up_to(PREVIEW_SLOT_COUNT);
    schedule.free_slots.unique_seq_to_set();
    all.unique_seq_to_set();
    assert(used.finite() && used.len() == ids.len()) by {
        assert forall|a: u64, b: u64|
            ids.contains(a) && ids.contains(b) && #[trigger] slot_of(a) == #[trigger] slot_of(
                b,
            ) implies a == b by {
            assert(schedule.requests.contains_key(a));
            assert(schedule.requests.contains_key(b));
        }
        vstd::set_lib::lemma_map_size(ids, used, slot_of);
    }
    assert forall|slot: u32| #[trigger] used.contains(slot) <==> schedule.uses_slot(slot) by {
        if used.contains(slot) {
            let id = choose|id: u64| ids.contains(id) && slot_of(id) == slot;
            assert(schedule.requests.contains_key(id));
        }
        if schedule.uses_slot(slot) {
            let id = choose|id: u64| #[trigger]
                schedule.requests.contains_key(id) && schedule.requests[id].slot == slot;
            assert(ids.contains(id) && slot_of(id) == slot);
        }
    }
    assert(all.to_set() =~= free + used) by {
        assert forall|slot: u32| #[trigger]
            all.to_set().contains(slot) <==> (free + used).contains(slot) by {
            assert(slot < PREVIEW_SLOT_COUNT <==> schedule.free_slots.contains(slot)
                || schedule.uses_slot(slot));
            if slot < PREVIEW_SLOT_COUNT {
                assert(all[slot as int] == slot);
            }
        }
    }
    assert(free.disjoint(used)) by {
        assert forall|slot: u32| free.contains(slot) implies !used.contains(slot) by {
            assert(!(schedule.free_slots.contains(slot) && schedule.uses_slot(slot)));
        }
    }
    vstd::set_lib::lemma_set_disjoint_lens(free, used);
}

/// A round makes no more requests than there were free slots.
proof fn round_is_as_long_as_slots_are_free(
    schedule: ScheduleView,
    limit: usize,
    outcomes: Seq<Option<u64>>,
)
    requires
        schedule.is_round(limit, outcomes),
    ensures
        outcomes.len() <= schedule.free_slots.len(),
    decreases outcomes.len(),
{
    let settled = schedule.settled(limit);
    settling_drops_held_frames_only(schedule, limit);
    if settled.can_ask(limit) {
        if let Some(created_at) = outcomes[0] {
            round_is_as_long_as_slots_are_free(
                settled.asked(created_at),
                limit,
                outcomes.drop_first(),
            );
        }
    }
}

/// To ask for what is queued leaves the books balanced, as long as none of the next
/// ids is that of an open request. There are never more open requests than slots.
pub proof fn dispatch_keeps_the_books<Link, F: Fn(Link, EditorCommand) -> (Link, Option<u64>)>(
    schedule: ScheduleView,
    needed: usize,
    send: F,
    link: Link,
    after: ScheduleView,
    last: Link,
)
    requires
        schedule.wf(),
        schedule.balanced(),
        0 < schedule.next_id,
        schedule.next_ids_are_free(PREVIEW_SLOT_COUNT as nat),
        schedule.dispatches(needed, send, link, after, last),
        after.wf(),
    ensures
        after.balanced(),
        0 < after.next_id,
        schedule.requests.submap_of(after.requests),
        after.requests.len() <= PREVIEW_SLOT_COUNT,
{
    if schedule.ready && schedule.total > 0 {
        let limit = schedule.in_flight_limit(needed);
        let (links, outcomes) = choose|links: Seq<Link>, outcomes: Seq<Option<u64>>| #[trigger]
            schedule.is_dispatch(needed, send, links, outcomes, after);
        free_and_used_slots_make_up_all(schedule);
        round_is_as_long_as_slots_are_free(schedule, limit, outcomes);
        round_keeps_the_books(schedule, limit, outcomes);
    }
    free_and_used_slots_make_up_all(after);
}

/// However the target moves, the books stay balanced, as long as none of the next ids
/// is that of an open request.
pub proof fn moving_the_target_keeps_the_books<Link, F: Fn(Link, EditorCommand) -> (Link, Option<u64>)>(
    schedule: ScheduleView,
    frame: u32,
    forward: bool,
    needed: usize,
    send: F,
    link: Link,
    after: ScheduleView,
    last: Link,
)
    requires
        schedule.wf(),
        schedule.balanced(),
        0 < schedule.next_id,
        schedule.next_ids_are_free(PREVIEW_SLOT_COUNT as nat),
        schedule.targeted(frame).refilled(forward).dispatches(needed, send, link, after, last),
        after.wf(),
    ensures
        after.balanced(),
        0 < after.next_id,
        after.free_slots.len() + after.requests.len() == PREVIEW_SLOT_COUNT,
{
    let targeted = schedule.targeted(frame);
    let refilled = targeted.refilled(forward);
    books_of_the_same_requests(schedule, targeted);
    books_of_the_same_requests(targeted, refilled);
    crate::plan::same_pictures_lie_on_the_timeline(schedule, targeted);
    crate::plan::refill_stays_on_the_timeline(targeted, forward);
    assert(refilled.next_ids_are_free(PREVIEW_SLOT_COUNT as nat));
    dispatch_keeps_the_books(refilled, needed, send, link, after, last);
    free_and_used_slots_make_up_all(after);
}

/// As long as the ids do not start over, those of the open requests stay behind the
/// next one.
pub proof fn ids_stay_behind(schedule: ScheduleView, limit: usize, outcomes: Seq<Option<u64>>)
    requires
        schedule.ids_lie_behind(),
        0 < schedule.next_id,
        schedule.next_id + outcomes.len() <= u64::MAX,
    ensures
        schedule.dispatched(limit, outcomes).ids_lie_behind(),
        schedule.next_id <= schedule.dispatched(limit, outcomes).next_id <= schedule.next_id
            + outcomes.len(),
    decreases outcomes.len(),
{
    let settled = schedule.settled(limit);
    settling_drops_held_frames_only(schedule, limit);
    if settled.can_ask(limit) && outcomes.len() > 0 {
        if let Some(created_at) = outcomes[0] {
            let next = settled.asked(created_at);
            assert forall|id: u64| #[trigger] next.requests.contains_key(id) implies 0 < id
                < next.next_id by {
                if id != schedule.next_id {
                    assert(schedule.requests.contains_key(id));
                }
            }
            ids_stay_behind(next, limit, outcomes.drop_first());
        }
    }
}

} // verus!
