//! The cache of rendered preview frames.

use std::collections::{HashMap, VecDeque};
use std::sync::Arc;
use vstd::prelude::*;

verus! {

/// Direction-aware eviction context. Frames within `horizon` of the playhead in
/// playback order belong to the prefetch window and must never be evicted, no
/// matter how long ago they were last touched. The steady-state in-flight cap is
/// deliberately shallow, so a plain LRU would otherwise keep evicting the very
/// next frame to be displayed.
#[derive(Clone, Copy, Debug)]
pub struct EvictionContext {
    pub playhead: u32,
    pub total_frames: u32,
    pub forward: bool,
    pub horizon: u32,
}

/// How many frames playback is away from `frame`, around the loop boundary where
/// `frame` lies behind the playhead. It is negative where the timeline is too
/// short for that.
pub open spec fn playback_distance(
    frame: u32,
    playhead: u32,
    total_frames: u32,
    forward: bool,
) -> int {
    let ahead = if forward {
        frame - playhead
    } else {
        playhead - frame
    };
    if ahead >= 0 {
        ahead
    } else {
        total_frames + ahead
    }
}

/// Distance from the playhead to `frame` in playback order, wrapping around the
/// loop boundary.
pub fn forward_distance(frame: u32, playhead: u32, total_frames: u32, forward: bool) -> (distance:
    u32)
    requires
        playback_distance(frame, playhead, total_frames, forward) >= 0,
    ensures
        distance == playback_distance(frame, playhead, total_frames, forward),
{
    if forward {
        if frame >= playhead {
            frame - playhead
        } else {
            total_frames - (playhead - frame)
        }
    } else if playhead >= frame {
        playhead - frame
    } else {
        total_frames - (frame - playhead)
    }
}

impl EvictionContext {
    /// The distance of a frame from the playhead.
    pub open spec fn distance(self, frame: u32) -> int {
        playback_distance(frame, self.playhead, self.total_frames, self.forward)
    }

    /// The frame belongs to the prefetch window.
    pub open spec fn protects(self, frame: u32) -> bool {
        self.distance(frame) < self.horizon
    }

    /// Position `k` is the first in `order` that holds a frame outside of the
    /// prefetch window.
    pub open spec fn is_first_unprotected(self, order: Seq<u32>, k: int) -> bool {
        &&& 0 <= k < order.len()
        &&& !self.protects(order[k])
        &&& forall|j: int| 0 <= j < k ==> self.protects(#[trigger] order[j])
    }

    /// Position `k` is the last in `order` among those whose frames are furthest
    /// from the playhead.
    pub open spec fn is_last_furthest(self, order: Seq<u32>, k: int) -> bool {
        &&& 0 <= k < order.len()
        &&& forall|j: int|
            0 <= j < order.len() ==> self.distance(#[trigger] order[j]) <= self.distance(order[k])
        &&& forall|j: int|
            k < j < order.len() ==> self.distance(#[trigger] order[j]) < self.distance(order[k])
    }

    /// Every frame is in the prefetch window.
    pub open spec fn protects_all(self, order: Seq<u32>) -> bool {
        forall|j: int| 0 <= j < order.len() ==> self.protects(#[trigger] order[j])
    }

    /// Position `k` of the frames in `order`, the longest untouched first, holds
    /// the one to evict: the oldest outside of the prefetch window, or, where all
    /// are inside, the furthest from the playhead. Without a timeline it is the
    /// oldest.
    pub open spec fn evicts(self, order: Seq<u32>, k: int) -> bool {
        if self.total_frames == 0 {
            k == 0 && order.len() > 0
        } else if self.protects_all(order) {
            self.is_last_furthest(order, k)
        } else {
            self.is_first_unprotected(order, k)
        }
    }

    /// The position of the frame to evict.
    pub open spec fn victim(self, order: Seq<u32>) -> int {
        choose|k: int| self.evicts(order, k)
    }

    /// Every frame that the search for the one to evict looks at has a distance.
    pub open spec fn can_search(self, order: Seq<u32>) -> bool {
        self.total_frames > 0 ==> forall|k: int|
            0 <= k < order.len() && (forall|j: int| 0 <= j < k ==> self.protects(order[j]))
                ==> self.distance(#[trigger] order[k]) >= 0
    }
}

/// At most one position holds the frame to evict.
pub proof fn one_frame_is_evicted(context: EvictionContext, order: Seq<u32>, a: int, b: int)
    requires
        context.evicts(order, a),
        context.evicts(order, b),
    ensures
        a == b,
{
    if context.total_frames > 0 {
        assert(context.protects(order[a]) || !context.protects(order[a]));
        assert(context.distance(order[a]) <= context.distance(order[b])
            || !context.protects_all(order));
        assert(context.distance(order[b]) <= context.distance(order[a])
            || !context.protects_all(order));
    }
}

/// What the cache holds.
pub struct CacheView {
    /// The picture of each cached frame.
    pub frames: Map<u32, Arc<egui::ColorImage>>,
    /// The cached frames, the longest untouched first.
    pub order: Seq<u32>,
    /// How many frames are kept.
    pub capacity: nat,
}

impl CacheView {
    /// Every cached frame stands once in the order, and there are not more of
    /// them than the capacity.
    pub open spec fn wf(self) -> bool {
        &&& self.order.no_duplicates()
        &&& forall|frame: u32| #[trigger]
            self.order.contains(frame) <==> self.frames.contains_key(frame)
        &&& self.order.len() <= self.capacity
    }

    pub open spec fn contains(self, frame: u32) -> bool {
        self.frames.contains_key(frame)
    }
}

/// The order without `frame`.
pub open spec fn without(order: Seq<u32>, frame: u32) -> Seq<u32> {
    order.filter(|cached: u32| cached != frame)
}

/// The order after `frame` was used: it stands last, the others as before.
pub open spec fn touched(order: Seq<u32>, frame: u32) -> Seq<u32> {
    without(order, frame).push(frame)
}

impl CacheView {
    /// The order once `frame` is in, before anything is evicted.
    pub open spec fn order_with(self, frame: u32) -> Seq<u32> {
        touched(self.order, frame)
    }

    /// The cache after an insertion.
    pub open spec fn inserted(
        self,
        frame: u32,
        image: Arc<egui::ColorImage>,
        eviction: EvictionContext,
    ) -> CacheView {
        let order = self.order_with(frame);
        let frames = self.frames.insert(frame, image);
        if order.len() > self.capacity {
            let k = eviction.victim(order);
            CacheView { frames: frames.remove(order[k]), order: order.remove(k), ..self }
        } else {
            CacheView { frames, order, ..self }
        }
    }
}

/// The highest cached frame that does not lie above `frame`.
pub open spec fn highest_up_to(frames: Set<u32>, frame: u32) -> Option<u32>
    decreases frame,
{
    if frames.contains(frame) {
        Some(frame)
    } else if frame == 0 {
        None
    } else {
        highest_up_to(frames, (frame - 1) as u32)
    }
}

/// The lowest cached frame that does not lie below `frame`.
pub open spec fn lowest_from(frames: Set<u32>, frame: u32) -> Option<u32>
    decreases u32::MAX - frame,
{
    if frames.contains(frame) {
        Some(frame)
    } else if frame == u32::MAX {
        None
    } else {
        lowest_from(frames, (frame + 1) as u32)
    }
}

pub proof fn highest_up_to_is_closest(frames: Set<u32>, frame: u32)
    ensures
        match highest_up_to(frames, frame) {
            Some(found) => {
                &&& frames.contains(found)
                &&& found <= frame
                &&& forall|other: u32| #[trigger]
                    frames.contains(other) && other <= frame ==> other <= found
            },
            None => forall|other: u32| #[trigger] frames.contains(other) ==> other > frame,
        },
    decreases frame,
{
    if !frames.contains(frame) && frame > 0 {
        highest_up_to_is_closest(frames, (frame - 1) as u32);
    }
}

pub proof fn lowest_from_is_closest(frames: Set<u32>, frame: u32)
    ensures
        match lowest_from(frames, frame) {
            Some(found) => {
                &&& frames.contains(found)
                &&& found >= frame
                &&& forall|other: u32| #[trigger]
                    frames.contains(other) && other >= frame ==> other >= found
            },
            None => forall|other: u32| #[trigger] frames.contains(other) ==> other < frame,
        },
    decreases u32::MAX - frame,
{
    if !frames.contains(frame) && frame < u32::MAX {
        lowest_from_is_closest(frames, (frame + 1) as u32);
    }
}

/// Which frame playback shows while it waits for `desired`: the closest cached one
/// on its way, but none that it has passed, unless it went over the loop boundary.
pub open spec fn playback_choice(
    frames: Set<u32>,
    desired: u32,
    displayed: Option<u32>,
    forward: bool,
    looping: bool,
) -> Option<u32> {
    let closest = if forward {
        highest_up_to(frames, desired)
    } else {
        lowest_from(frames, desired)
    };
    match (closest, displayed) {
        (None, _) => None,
        (Some(candidate), None) => Some(candidate),
        (Some(candidate), Some(shown)) => {
            let crossed = looping && if forward {
                desired < shown
            } else {
                desired > shown
            };
            let passed = if forward {
                candidate < shown
            } else {
                candidate > shown
            };
            if crossed || !passed {
                Some(candidate)
            } else if frames.contains(shown) {
                Some(shown)
            } else {
                None
            }
        },
    }
}

pub struct PreviewFrameCache {
    frames: HashMap<u32, Arc<egui::ColorImage>>,
    lru: VecDeque<u32>,
    capacity: usize,
}

impl View for PreviewFrameCache {
    type V = CacheView;

    closed spec fn view(&self) -> CacheView {
        CacheView { frames: self.frames@, order: self.lru@, capacity: self.capacity as nat }
    }
}

impl PreviewFrameCache {
    pub fn new(capacity: usize) -> (cache: Self)
        ensures
            cache@.wf(),
            cache@.frames == Map::<u32, Arc<egui::ColorImage>>::empty(),
            cache@.order == Seq::<u32>::empty(),
            cache@.capacity == capacity,
    {
        PreviewFrameCache { frames: HashMap::new(), lru: VecDeque::new(), capacity }
    }

    pub fn contains(&self, frame: u32) -> (found: bool)
        ensures
            found == self@.contains(frame),
    {
        self.frames.contains_key(&frame)
    }

    pub fn len(&self) -> (len: usize)
        requires
            self@.wf(),
        ensures
            len == self@.frames.dom().len(),
            len == self@.order.len(),
    {
        proof {
            self.lru@.unique_seq_to_set();
            assert(self.lru@.to_set() =~= self.frames@.dom());
        }
        self.frames.len()
    }

    pub fn closest_not_after(&self, frame: u32) -> (closest: Option<u32>)
        requires
            self@.wf(),
        ensures
            closest == highest_up_to(self@.frames.dom(), frame),
    {
        let mut closest: Option<u32> = None;
        let mut i: usize = 0;
        while i < self.lru.len()
            invariant
                i <= self.lru@.len(),
                self@.wf(),
                match closest {
                    Some(found) => {
                        &&& self@.frames.contains_key(found)
                        &&& found <= frame
                        &&& forall|j: int| 0 <= j < i && #[trigger] self.lru@[j] <= frame ==> self.lru@[j] <= found
                    },
                    None => forall|j: int| 0 <= j < i ==> #[trigger] self.lru@[j] > frame,
                },
            decreases self.lru@.len() - i,
        {
            let cached: u32 = self.lru[i];
            assert(self.lru@.contains(cached));
            if cached <= frame {
                closest = match closest {
                    Some(found) => if found < cached {
                        Some(cached)
                    } else {
                        Some(found)
                    },
                    None => Some(cached),
                };
            }
            i = i + 1;
        }
        proof {
            highest_up_to_is_closest(self@.frames.dom(), frame);
            assert forall|other: u32| self@.frames.contains_key(other) implies exists|j: int|
                0 <= j < self.lru@.len() && #[trigger] self.lru@[j] == other by {
                assert(self.lru@.contains(other));
            }
        }
        closest
    }

    pub fn closest_not_before(&self, frame: u32) -> (closest: Option<u32>)
        requires
            self@.wf(),
        ensures
            closest == lowest_from(self@.frames.dom(), frame),
    {
        let mut closest: Option<u32> = None;
        let mut i: usize = 0;
        while i < self.lru.len()
            invariant
                i <= self.lru@.len(),
                self@.wf(),
                match closest {
                    Some(found) => {
                        &&& self@.frames.contains_key(found)
                        &&& found >= frame
                        &&& forall|j: int| 0 <= j < i && #[trigger] self.lru@[j] >= frame ==> self.lru@[j] >= found
                    },
                    None => forall|j: int| 0 <= j < i ==> #[trigger] self.lru@[j] < frame,
                },
            decreases self.lru@.len() - i,
        {
            let cached: u32 = self.lru[i];
            assert(self.lru@.contains(cached));
            if cached >= frame {
                closest = match closest {
                    Some(found) => if found > cached {
                        Some(cached)
                    } else {
                        Some(found)
                    },
                    None => Some(cached),
                };
            }
            i = i + 1;
        }
        proof {
            lowest_from_is_closest(self@.frames.dom(), frame);
            assert forall|other: u32| self@.frames.contains_key(other) implies exists|j: int|
                0 <= j < self.lru@.len() && #[trigger] self.lru@[j] == other by {
                assert(self.lru@.contains(other));
            }
        }
        closest
    }

    pub fn playback_frame(
        &self,
        desired: u32,
        displayed: Option<u32>,
        forward: bool,
        looping: bool,
    ) -> (choice: Option<u32>)
        requires
            self@.wf(),
        ensures
            choice == playback_choice(self@.frames.dom(), desired, displayed, forward, looping),
    {
        let closest = if forward {
            self.closest_not_after(desired)
        } else {
            self.closest_not_before(desired)
        };
        let candidate = match closest {
            Some(candidate) => candidate,
            None => return None,
        };
        let displayed = match displayed {
            Some(displayed) => displayed,
            None => return Some(candidate),
        };
        let crossed_loop_boundary = looping && ((forward && desired < displayed) || (!forward
            && desired > displayed));
        if crossed_loop_boundary || (forward && candidate >= displayed) || (!forward && candidate
            <= displayed) {
            Some(candidate)
        } else if self.contains(displayed) {
            Some(displayed)
        } else {
            None
        }
    }

    pub fn insert(&mut self, frame: u32, image: Arc<egui::ColorImage>, eviction: EvictionContext)
        requires
            old(self)@.wf(),
            old(self)@.order_with(frame).len() > old(self)@.capacity ==> eviction.can_search(
                old(self)@.order_with(frame),
            ),
        ensures
            final(self)@.wf(),
            final(self)@ == old(self)@.inserted(frame, image, eviction),
    {
        let ghost before = self@;
        if self.frames.insert(frame, image).is_none() {
            self.lru.push_back(frame);
        }
        proof {
            pushed_frame_is_touched(before.order, frame);
            touched_order(before.order, frame);
        }
        self.touch(frame);
        let ghost order = self.lru@;
        proof {
            self.lru@.unique_seq_to_set();
            assert(self.lru@.to_set() =~= self.frames@.dom());
        }
        if self.frames.len() > self.capacity {
            let k: usize = self.victim_position(eviction);
            proof {
                one_frame_is_evicted(eviction, order, eviction.victim(order), k as int);
            }
            let evicted: u32 = self.lru[k];
            self.lru.remove(k);
            self.frames.remove(&evicted);
            proof {
                removed_position(order, k as int);
            }
        }
        assert(self@ == before.inserted(frame, image, eviction));
    }

    /// Where the frame to evict stands in the order.
    fn victim_position(&self, eviction: EvictionContext) -> (k: usize)
        requires
            self@.order.len() > 0,
            eviction.can_search(self@.order),
        ensures
            eviction.evicts(self@.order, k as int),
    {
        if eviction.total_frames == 0 {
            return 0;
        }
        // The oldest frame outside of the protected window...
        let mut furthest: usize = 0;
        let mut furthest_distance: u32 = 0;
        let mut i: usize = 0;
        while i < self.lru.len()
            invariant
                eviction.total_frames > 0,
                eviction.can_search(self.lru@),
                i <= self.lru@.len(),
                forall|j: int| 0 <= j < i ==> eviction.protects(#[trigger] self.lru@[j]),
                i == 0 ==> furthest_distance == 0,
                i > 0 ==> furthest < i && furthest_distance == eviction.distance(
                    self.lru@[furthest as int],
                ),
                forall|j: int|
                    0 <= j < i ==> eviction.distance(#[trigger] self.lru@[j]) <= furthest_distance,
                forall|j: int|
                    furthest < j < i ==> eviction.distance(#[trigger] self.lru@[j])
                        < furthest_distance,
            decreases self.lru@.len() - i,
        {
            assert(eviction.distance(self.lru@[i as int]) >= 0);
            let distance: u32 = forward_distance(
                self.lru[i],
                eviction.playhead,
                eviction.total_frames,
                eviction.forward,
            );
            if distance >= eviction.horizon {
                assert(!eviction.protects(self.lru@[i as int]));
                return i;
            }
            if distance >= furthest_distance {
                furthest = i;
                furthest_distance = distance;
            }
            i = i + 1;
        }
        // ...or, when everything is protected (tiny scene or a cache smaller than
        // the window), the frame furthest from the playhead.
        furthest
    }

    pub fn load_image(&mut self, frame: u32) -> (image: Option<Arc<egui::ColorImage>>)
        requires
            old(self)@.wf(),
        ensures
            final(self)@.wf(),
            final(self)@.frames == old(self)@.frames,
            final(self)@.capacity == old(self)@.capacity,
            match image {
                Some(image) => {
                    &&& old(self)@.contains(frame)
                    &&& image == old(self)@.frames[frame]
                    &&& final(self)@.order == touched(old(self)@.order, frame)
                },
                None => {
                    &&& !old(self)@.contains(frame)
                    &&& final(self)@.order == old(self)@.order
                },
            },
    {
        if !self.frames.contains_key(&frame) {
            return None;
        }
        proof {
            touched_order(self.lru@, frame);
        }
        self.touch(frame);
        match self.frames.get(&frame) {
            Some(image) => Some(image.clone()),
            None => None,
        }
    }

    fn touch(&mut self, frame: u32)
        requires
            old(self)@.order.no_duplicates(),
        ensures
            final(self)@.frames == old(self)@.frames,
            final(self)@.capacity == old(self)@.capacity,
            final(self)@.order == touched(old(self)@.order, frame),
    {
        let ghost order = self.lru@;
        let mut i: usize = 0;
        while i < self.lru.len() && self.lru[i] != frame
            invariant
                i <= self.lru@.len(),
                self.lru@ == order,
                forall|j: int| 0 <= j < i ==> #[trigger] self.lru@[j] != frame,
            decreases self.lru@.len() - i,
        {
            i = i + 1;
        }
        proof {
            if i < order.len() {
                filter_drops_the_frame(order, frame, i as int);
            } else {
                filter_keeps_the_others(order, frame);
            }
        }
        self.lru.remove(i);
        self.lru.push_back(frame);
    }
}

/// Without a frame that is not there, an order is what it was.
proof fn filter_keeps_the_others(order: Seq<u32>, frame: u32)
    requires
        !order.contains(frame),
    ensures
        without(order, frame) == order,
    decreases order.len(),
{
    reveal(Seq::filter);
    if order.len() > 0 {
        assert(order.last() == order[order.len() - 1]);
        assert forall|j: int| 0 <= j < order.len() - 1 implies order.drop_last()[j] != frame by {
            assert(order[j] != frame);
        }
        filter_keeps_the_others(order.drop_last(), frame);
        assert(order.drop_last().push(order.last()) =~= order);
    }
}

/// Without a frame that stands at one position, an order is what it was without
/// that position.
proof fn filter_drops_the_frame(order: Seq<u32>, frame: u32, i: int)
    requires
        order.no_duplicates(),
        0 <= i < order.len(),
        order[i] == frame,
    ensures
        without(order, frame) == order.remove(i),
    decreases order.len(),
{
    reveal(Seq::filter);
    if i == order.len() - 1 {
        assert(!order.drop_last().contains(frame));
        filter_keeps_the_others(order.drop_last(), frame);
        assert(order.remove(i) =~= order.drop_last());
    } else {
        filter_drops_the_frame(order.drop_last(), frame, i);
        assert(order.remove(i) =~= order.drop_last().remove(i).push(order.last()));
    }
}

/// To add a frame at the end and to touch it is to touch it.
proof fn pushed_frame_is_touched(order: Seq<u32>, frame: u32)
    ensures
        touched(order.push(frame), frame) == touched(order, frame),
{
    reveal(Seq::filter);
    assert(order.push(frame).drop_last() =~= order);
}

/// A touched order holds each frame once, and `frame` besides those it held.
proof fn touched_order(order: Seq<u32>, frame: u32)
    requires
        order.no_duplicates(),
    ensures
        touched(order, frame).no_duplicates(),
        forall|cached: u32| #[trigger]
            touched(order, frame).contains(cached) <==> cached == frame || order.contains(cached),
        touched(order, frame).len() == order.len() + if order.contains(frame) {
            0int
        } else {
            1int
        },
        !order.contains(frame) ==> touched(order, frame) == order.push(frame),
{
    let after = touched(order, frame);
    if order.contains(frame) {
        let i = choose|i: int| 0 <= i < order.len() && order[i] == frame;
        filter_drops_the_frame(order, frame, i);
        removed_position(order, i);
        let rest = order.remove(i);
        assert(after =~= rest.push(frame));
        assert forall|cached: u32| #[trigger] after.contains(cached) <==> cached == frame
            || order.contains(cached) by {
            if rest.contains(cached) {
                let j = choose|j: int| 0 <= j < rest.len() && rest[j] == cached;
                assert(after[j] == cached);
            }
            if cached == frame {
                assert(after[rest.len() as int] == cached);
            }
            if after.contains(cached) && cached != frame {
                let j = choose|j: int| 0 <= j < after.len() && after[j] == cached;
                assert(rest[j] == cached);
                assert(rest.contains(cached));
            }
        }
        assert(!rest.contains(frame));
        assert(after.no_duplicates()) by {
            assert forall|a: int, b: int| 0 <= a < b < after.len() implies after[a] != after[b] by {
                if b == rest.len() {
                    assert(rest.contains(rest[a]));
                }
            }
        }
    } else {
        filter_keeps_the_others(order, frame);
        assert(after =~= order.push(frame));
        assert forall|cached: u32| #[trigger] after.contains(cached) <==> cached == frame
            || order.contains(cached) by {
            if order.contains(cached) {
                let j = choose|j: int| 0 <= j < order.len() && order[j] == cached;
                assert(after[j] == cached);
            }
            if cached == frame {
                assert(after[order.len() as int] == cached);
            }
            if after.contains(cached) && cached != frame {
                let j = choose|j: int| 0 <= j < after.len() && after[j] == cached;
                assert(order[j] == cached);
            }
        }
        assert(after.no_duplicates()) by {
            assert forall|a: int, b: int| 0 <= a < b < after.len() implies after[a] != after[b] by {
                if b == order.len() {
                    assert(order.contains(order[a]));
                }
            }
        }
    }
}

/// An order without one position holds the other frames, each once.
proof fn removed_position(order: Seq<u32>, k: int)
    requires
        order.no_duplicates(),
        0 <= k < order.len(),
    ensures
        order.remove(k).no_duplicates(),
        forall|cached: u32| #[trigger]
            order.remove(k).contains(cached) <==> cached != order[k] && order.contains(cached),
{
    let rest = order.remove(k);
    assert forall|cached: u32| #[trigger] rest.contains(cached) <==> cached != order[k]
        && order.contains(cached) by {
        if rest.contains(cached) {
            let j = choose|j: int| 0 <= j < rest.len() && rest[j] == cached;
            if j < k {
                assert(order[j] == cached);
            } else {
                assert(order[j + 1] == cached);
            }
        }
        if order.contains(cached) && cached != order[k] {
            let j = choose|j: int| 0 <= j < order.len() && order[j] == cached;
            if j < k {
                assert(rest[j] == cached);
            } else {
                assert(rest[j - 1] == cached);
            }
        }
    }
}

/// Whenever a frame has to go, there is one to evict.
pub proof fn some_frame_is_evicted(context: EvictionContext, order: Seq<u32>)
    requires
        order.len() > 0,
    ensures
        context.evicts(order, context.victim(order)),
{
    if context.total_frames == 0 {
        assert(context.evicts(order, 0));
    } else if context.protects_all(order) {
        let k = last_furthest(context, order, order.len() as int);
        assert(context.evicts(order, k));
    } else {
        let j = choose|j: int| 0 <= j < order.len() && !context.protects(#[trigger] order[j]);
        let k = first_unprotected(context, order, j);
        assert(context.evicts(order, k));
    }
}

proof fn first_unprotected(context: EvictionContext, order: Seq<u32>, j: int) -> (k: int)
    requires
        0 <= j < order.len(),
        !context.protects(order[j]),
    ensures
        context.is_first_unprotected(order, k),
    decreases j,
{
    if exists|i: int| 0 <= i < j && !context.protects(#[trigger] order[i]) {
        let i = choose|i: int| 0 <= i < j && !context.protects(#[trigger] order[i]);
        first_unprotected(context, order, i)
    } else {
        j
    }
}

proof fn last_furthest(context: EvictionContext, order: Seq<u32>, n: int) -> (k: int)
    requires
        0 < n <= order.len(),
    ensures
        context.is_last_furthest(order.take(n), k),
        n == order.len() ==> context.is_last_furthest(order, k),
    decreases n,
{
    assert(order.take(order.len() as int) =~= order);
    if n == 1 {
        0
    } else {
        let k = last_furthest(context, order, n - 1);
        assert(order.take(n - 1)[k] == order[k]);
        assert forall|j: int| 0 <= j < n - 1 implies context.distance(#[trigger] order.take(n)[j])
            <= context.distance(order[k]) && (k < j ==> context.distance(order.take(n)[j])
            < context.distance(order[k])) by {
            assert(order.take(n - 1)[j] == order[j]);
        }
        if context.distance(order[n - 1]) >= context.distance(order[k]) {
            n - 1
        } else {
            k
        }
    }
}

/// An insertion evicts at most one frame. Every other frame keeps its picture, and
/// the inserted one, unless it is the one to go, has the picture that was put in.
pub proof fn insertion_evicts_at_most_one_frame(
    cache: CacheView,
    frame: u32,
    image: Arc<egui::ColorImage>,
    eviction: EvictionContext,
)
    requires
        cache.wf(),
    ensures
        cache.inserted(frame, image, eviction).wf(),
        cache.order_with(frame).len() <= cache.capacity ==> cache.inserted(
            frame,
            image,
            eviction,
        ).frames == cache.frames.insert(frame, image),
        cache.order_with(frame).len() > cache.capacity ==> {
            let order = cache.order_with(frame);
            let evicted = order[eviction.victim(order)];
            &&& evicted == frame || cache.contains(evicted)
            &&& cache.inserted(frame, image, eviction).frames == cache.frames.insert(
                frame,
                image,
            ).remove(evicted)
        },
{
    touched_order(cache.order, frame);
    let order = cache.order_with(frame);
    if order.len() > cache.capacity {
        some_frame_is_evicted(eviction, order);
        let k = eviction.victim(order);
        removed_position(order, k);
        assert(order.contains(order[k]));
    }
}

/// On a timeline that holds the playhead and every frame, the frame to evict can
/// always be found.
pub proof fn frames_of_a_timeline_can_be_searched(
    cache: CacheView,
    frame: u32,
    eviction: EvictionContext,
)
    requires
        cache.wf(),
        eviction.playhead < eviction.total_frames,
        frame < eviction.total_frames,
        forall|cached: u32| #[trigger] cache.contains(cached) ==> cached < eviction.total_frames,
    ensures
        eviction.can_search(cache.order_with(frame)),
{
    touched_order(cache.order, frame);
    let order = cache.order_with(frame);
    assert forall|j: int| 0 <= j < order.len() implies eviction.distance(#[trigger] order[j])
        >= 0 by {
        assert(order.contains(order[j]));
        if order[j] != frame {
            assert(cache.contains(order[j]));
        }
    }
}

/// A frame of the prefetch window is not evicted as long as any frame lies outside
/// of it.
pub proof fn prefetch_window_is_not_evicted(
    cache: CacheView,
    frame: u32,
    image: Arc<egui::ColorImage>,
    eviction: EvictionContext,
    kept: u32,
)
    requires
        cache.wf(),
        eviction.total_frames > 0,
        !eviction.protects_all(cache.order_with(frame)),
        kept == frame || cache.contains(kept),
        eviction.protects(kept),
    ensures
        cache.inserted(frame, image, eviction).contains(kept),
{
    touched_order(cache.order, frame);
    let order = cache.order_with(frame);
    if order.len() > cache.capacity {
        some_frame_is_evicted(eviction, order);
    }
}

/// A cache that has room for the whole prefetch window never evicts a frame of it.
pub proof fn large_cache_keeps_the_prefetch_window(
    cache: CacheView,
    frame: u32,
    image: Arc<egui::ColorImage>,
    eviction: EvictionContext,
    kept: u32,
)
    requires
        cache.wf(),
        cache.capacity >= eviction.horizon,
        eviction.playhead < eviction.total_frames,
        frame < eviction.total_frames,
        forall|cached: u32| #[trigger] cache.contains(cached) ==> cached < eviction.total_frames,
        kept == frame || cache.contains(kept),
        eviction.protects(kept),
    ensures
        cache.inserted(frame, image, eviction).contains(kept),
{
    touched_order(cache.order, frame);
    let order = cache.order_with(frame);
    if order.len() > cache.capacity {
        assert forall|j: int| 0 <= j < order.len() implies #[trigger] order[j]
            < eviction.total_frames by {
            assert(order.contains(order[j]));
            if order[j] != frame {
                assert(cache.contains(order[j]));
            }
        }
        if eviction.protects_all(order) {
            protected_frames_fit_in_the_horizon(eviction, order);
        }
        prefetch_window_is_not_evicted(cache, frame, image, eviction, kept);
    }
}

/// A cache with room for a frame never evicts the one under the playhead.
pub proof fn frame_under_the_playhead_is_not_evicted(
    cache: CacheView,
    frame: u32,
    image: Arc<egui::ColorImage>,
    eviction: EvictionContext,
)
    requires
        cache.wf(),
        cache.capacity > 0,
        eviction.horizon > 0,
        eviction.playhead < eviction.total_frames,
        frame < eviction.total_frames,
        forall|cached: u32| #[trigger] cache.contains(cached) ==> cached < eviction.total_frames,
        eviction.playhead == frame || cache.contains(eviction.playhead),
    ensures
        cache.inserted(frame, image, eviction).contains(eviction.playhead),
{
    touched_order(cache.order, frame);
    let order = cache.order_with(frame);
    if order.len() > cache.capacity {
        some_frame_is_evicted(eviction, order);
        let k = eviction.victim(order);
        if order[k] == eviction.playhead {
            assert(eviction.protects(order[k]));
            let j: int = if k == 0 {
                1
            } else {
                0
            };
            assert(order[j] != order[k]);
            assert(order.contains(order[j]));
            assert(order[j] == frame || cache.contains(order[j]));
            assert(eviction.distance(order[j]) <= eviction.distance(order[k]));
        }
    }
}

/// There are not more frames in the prefetch window than the horizon is long.
proof fn protected_frames_fit_in_the_horizon(context: EvictionContext, order: Seq<u32>)
    requires
        context.playhead < context.total_frames,
        order.no_duplicates(),
        forall|j: int| 0 <= j < order.len() ==> #[trigger] order[j] < context.total_frames,
        context.protects_all(order),
    ensures
        order.len() <= context.horizon,
{
    let horizon = context.horizon as int;
    let distances = Seq::new(order.len(), |j: int| context.distance(order[j]));
    assert(distances.no_duplicates()) by {
        assert forall|a: int, b: int|
            0 <= a < distances.len() && 0 <= b < distances.len() && a != b implies distances[a]
            != distances[b] by {
            assert(order[a] != order[b]);
        }
    }
    distances.unique_seq_to_set();
    vstd::set_lib::lemma_int_range(0, horizon);
    assert forall|d: int| distances.to_set().contains(d) implies vstd::set_lib::set_int_range(
        0,
        horizon,
    ).contains(d) by {
        let j = choose|j: int| 0 <= j < distances.len() && distances[j] == d;
        assert(context.protects(order[j]));
        assert(order[j] < context.total_frames);
    }
    assert(distances.to_set().subset_of(vstd::set_lib::set_int_range(0, horizon)));
    vstd::set_lib::lemma_len_subset(distances.to_set(), vstd::set_lib::set_int_range(0, horizon));
}

/// A picture that was put in and is still there is the one that is loaded, and
/// loading it makes it the last to go.
pub proof fn inserted_picture_is_loaded(
    cache: CacheView,
    frame: u32,
    image: Arc<egui::ColorImage>,
    eviction: EvictionContext,
)
    requires
        cache.wf(),
        cache.inserted(frame, image, eviction).contains(frame),
    ensures
        cache.inserted(frame, image, eviction).frames[frame] == image,
        touched(cache.inserted(frame, image, eviction).order, frame).last() == frame,
{
    insertion_evicts_at_most_one_frame(cache, frame, image, eviction);
}

/// Playback only shows cached frames, and outside of a loop boundary it never goes
/// back behind the frame that is displayed.
pub proof fn playback_never_regresses(
    frames: Set<u32>,
    desired: u32,
    displayed: Option<u32>,
    forward: bool,
    looping: bool,
)
    ensures
        playback_choice(frames, desired, displayed, forward, looping) matches Some(choice) ==> {
            &&& frames.contains(choice)
            &&& displayed matches Some(shown) ==> {
                ||| looping && forward && desired < shown
                ||| looping && !forward && desired > shown
                ||| forward && choice >= shown
                ||| !forward && choice <= shown
            }
        },
        frames.contains(desired) && (displayed matches Some(shown) ==> (forward && desired >= shown)
            || (!forward && desired <= shown) || looping) ==> playback_choice(
            frames,
            desired,
            displayed,
            forward,
            looping,
        ) == Some(desired),
{
    highest_up_to_is_closest(frames, desired);
    lowest_from_is_closest(frames, desired);
}

/// The distance of a frame counts the steps that playback takes to it.
pub proof fn distance_counts_playback_steps(
    frame: u32,
    playhead: u32,
    total_frames: u32,
    forward: bool,
)
    requires
        frame < total_frames,
        playhead < total_frames,
    ensures
        0 <= playback_distance(frame, playhead, total_frames, forward) < total_frames,
        crate::playback::window_frame(
            playhead,
            total_frames,
            forward,
            playback_distance(frame, playhead, total_frames, forward),
        ) == frame,
{
    let m = total_frames as int;
    let f = frame as int;
    vstd::arithmetic::div_mod::lemma_small_mod(frame as nat, m as nat);
    vstd::arithmetic::div_mod::lemma_mod_add_multiples_vanish(f, m);
    vstd::arithmetic::div_mod::lemma_mod_sub_multiples_vanish(f, m);
    if forward {
        let d = playback_distance(frame, playhead, total_frames, forward);
        assert(playhead + d == f || playhead + d == f + m);
    } else {
        let d = playback_distance(frame, playhead, total_frames, forward);
        assert(playhead - d == f || playhead - d == f - m);
    }
}

/// The frames that are protected from eviction are those of the prefetch window
/// of a looping playback, as long as the frame numbers of the window do not run
/// over.
pub proof fn protected_frames_are_the_prefetch_window(context: EvictionContext, frame: u32)
    requires
        frame < context.total_frames,
        context.playhead < context.total_frames,
        context.forward ==> context.playhead + context.total_frames <= u32::MAX + 1,
    ensures
        context.protects(frame) <==> crate::playback::window_of(
            context.playhead,
            context.total_frames,
            context.forward,
            true,
            context.horizon,
        ).contains(frame),
{
    let window = crate::playback::window_of(
        context.playhead,
        context.total_frames,
        context.forward,
        true,
        context.horizon,
    );
    let d = context.distance(frame);
    distance_counts_playback_steps(
        frame,
        context.playhead,
        context.total_frames,
        context.forward,
    );
    if context.protects(frame) {
        assert(window[d] == frame);
    }
    if window.contains(frame) {
        let step = choose|step: int| 0 <= step < window.len() && window[step] == frame;
        crate::playback::window_frames_are_distinct(
            context.playhead,
            context.total_frames,
            context.forward,
            true,
            step,
            d,
        );
    }
}

/// Every frame that playback shows within the horizon, whether it loops or not, is
/// protected from eviction.
pub proof fn window_frames_are_protected(context: EvictionContext, looping: bool, step: int)
    requires
        context.playhead < context.total_frames,
        0 <= step < crate::playback::window_reach(
            context.playhead,
            context.total_frames,
            context.forward,
            looping,
        ),
        step < context.horizon,
    ensures
        ({
            let frame = crate::playback::window_frame(
                context.playhead,
                context.total_frames,
                context.forward,
                step,
            );
            &&& 0 <= frame < context.total_frames
            &&& context.distance(frame as u32) == step
            &&& context.protects(frame as u32)
        }),
{
    let m = context.total_frames as int;
    let p = context.playhead as int;
    if context.forward {
        if p + step < m {
            vstd::arithmetic::div_mod::lemma_small_mod((p + step) as nat, m as nat);
        } else {
            vstd::arithmetic::div_mod::lemma_mod_sub_multiples_vanish(p + step, m);
            vstd::arithmetic::div_mod::lemma_small_mod((p + step - m) as nat, m as nat);
        }
    } else if step > p {
        vstd::arithmetic::div_mod::lemma_mod_add_multiples_vanish(p - step, m);
        vstd::arithmetic::div_mod::lemma_small_mod((p - step + m) as nat, m as nat);
    }
}

/// Playback does not come to `a` after `b`.
pub open spec fn not_after(a: u32, b: u32, forward: bool) -> bool {
    if forward {
        a <= b
    } else {
        a >= b
    }
}

/// `frame` is cached, lies not after `desired`, and nothing that is cached comes
/// between the two.
pub open spec fn closest_before(
    frames: Set<u32>,
    frame: u32,
    desired: u32,
    forward: bool,
) -> bool {
    &&& frames.contains(frame)
    &&& not_after(frame, desired, forward)
    &&& forall|other: u32| #[trigger]
        frames.contains(other) && not_after(other, desired, forward) ==> not_after(
            other,
            frame,
            forward,
        )
}

/// What playback shows while it waits. On its way from the displayed frame to the
/// desired one it shows the cached frame that has come closest to the desired one,
/// and where none lies on the way it shows nothing new. The same holds of any way to
/// the desired frame where nothing is displayed, or where playback went over the loop
/// boundary. Where the desired frame lies behind the displayed one without a loop,
/// the displayed frame stays as long as it is cached and anything lies before the
/// desired one.
pub proof fn waiting_playback_shows_the_closest_frame(
    frames: Set<u32>,
    desired: u32,
    displayed: Option<u32>,
    forward: bool,
    looping: bool,
)
    ensures
        ({
            let choice = playback_choice(frames, desired, displayed, forward, looping);
            match displayed {
                None => {
                    &&& choice matches Some(frame) ==> closest_before(
                        frames,
                        frame,
                        desired,
                        forward,
                    )
                    &&& choice is None ==> forall|other: u32| #[trigger]
                        frames.contains(other) ==> !not_after(other, desired, forward)
                },
                Some(shown) => if not_after(shown, desired, forward) {
                    &&& choice matches Some(frame) ==> closest_before(
                        frames,
                        frame,
                        desired,
                        forward,
                    ) && not_after(shown, frame, forward)
                    &&& choice is None ==> forall|other: u32| #[trigger]
                        frames.contains(other) ==> !(not_after(shown, other, forward) && not_after(
                            other,
                            desired,
                            forward,
                        ))
                } else if looping {
                    &&& choice matches Some(frame) ==> closest_before(
                        frames,
                        frame,
                        desired,
                        forward,
                    )
                    &&& choice is None ==> forall|other: u32| #[trigger]
                        frames.contains(other) ==> !not_after(other, desired, forward)
                } else {
                    choice == if frames.contains(shown) && (exists|other: u32| #[trigger]
                        frames.contains(other) && not_after(other, desired, forward)) {
                        Some(shown)
                    } else {
                        None
                    }
                },
            }
        }),
{
    highest_up_to_is_closest(frames, desired);
    lowest_from_is_closest(frames, desired);
    let closest = if forward {
        highest_up_to(frames, desired)
    } else {
        lowest_from(frames, desired)
    };
    if let Some(candidate) = closest {
        assert(frames.contains(candidate) && not_after(candidate, desired, forward));
    }
}

/// The distance of a frame is the number of steps to it, modulo the length of the
/// timeline.
pub proof fn distance_is_taken_modulo_the_timeline(
    frame: u32,
    playhead: u32,
    total_frames: u32,
    forward: bool,
)
    requires
        frame < total_frames,
        playhead < total_frames,
    ensures
        forward ==> playback_distance(frame, playhead, total_frames, forward) == (frame - playhead)
            % (total_frames as int),
        !forward ==> playback_distance(frame, playhead, total_frames, forward) == (playhead - frame)
            % (total_frames as int),
        playback_distance(frame, playhead, total_frames, forward) == playback_distance(
            playhead,
            frame,
            total_frames,
            !forward,
        ),
{
    let m = total_frames as int;
    let ahead = if forward {
        frame - playhead
    } else {
        playhead - frame
    };
    if ahead >= 0 {
        vstd::arithmetic::div_mod::lemma_small_mod(ahead as nat, m as nat);
    } else {
        vstd::arithmetic::div_mod::lemma_small_mod((ahead + m) as nat, m as nat);
        vstd::arithmetic::div_mod::lemma_mod_add_multiples_vanish(ahead, m);
    }
}

/// The steps from the playhead to a frame, in the direction of playback and around
/// the loop boundary.
pub open spec fn steps_to(eviction: EvictionContext, frame: u32) -> int {
    if eviction.forward {
        (frame - eviction.playhead) % (eviction.total_frames as int)
    } else {
        (eviction.playhead - frame) % (eviction.total_frames as int)
    }
}

/// A frame that is touched goes to the end of the order, and the others keep their
/// order.
pub proof fn touched_frame_goes_last(order: Seq<u32>, frame: u32, i: int)
    requires
        order.no_duplicates(),
    ensures
        !order.contains(frame) ==> touched(order, frame) == order.push(frame),
        0 <= i < order.len() && order[i] == frame ==> touched(order, frame) == order.remove(i).push(
            frame,
        ),
{
    touched_order(order, frame);
    if 0 <= i < order.len() && order[i] == frame {
        filter_drops_the_frame(order, frame, i);
    }
}

/// The cache after an insertion. With room, it has the new picture besides what it
/// had. Else one frame goes: as long as any frame lies a horizon or more ahead of the
/// playhead, one of those, and none of them was touched longer ago; else the one that
/// is the most steps ahead. Without a timeline the one goes that was touched longest
/// ago.
pub proof fn insertion_evicts_the_right_frame(
    cache: CacheView,
    frame: u32,
    image: Arc<egui::ColorImage>,
    eviction: EvictionContext,
)
    requires
        cache.wf(),
        eviction.total_frames == 0 || eviction.playhead < eviction.total_frames,
        eviction.total_frames == 0 || frame < eviction.total_frames,
        eviction.total_frames == 0 || forall|cached: u32| #[trigger]
            cache.frames.contains_key(cached) ==> cached < eviction.total_frames,
    ensures
        ({
            let after = cache.inserted(frame, image, eviction);
            let all = cache.frames.insert(frame, image);
            let order = touched(cache.order, frame);
            if order.len() <= cache.capacity {
                after.frames == all && after.order == order
            } else {
                exists|k: int|
                    {
                        &&& 0 <= k < order.len()
                        &&& after.frames == all.remove(#[trigger] order[k])
                        &&& after.order == order.remove(k)
                        &&& eviction.total_frames == 0 ==> k == 0
                        &&& eviction.total_frames > 0 ==> {
                            ||| {
                                &&& steps_to(eviction, order[k]) >= eviction.horizon
                                &&& forall|j: int|
                                    0 <= j < k ==> steps_to(eviction, #[trigger] order[j])
                                        < eviction.horizon
                            }
                            ||| forall|j: int|
                                0 <= j < order.len() ==> steps_to(eviction, #[trigger] order[j])
                                    <= steps_to(eviction, order[k]) && steps_to(eviction, order[j])
                                    < eviction.horizon
                        }
                    }
            }
        }),
        cache.inserted(frame, image, eviction).capacity == cache.capacity,
{
    touched_order(cache.order, frame);
    let order = cache.order_with(frame);
    if order.len() > cache.capacity {
        some_frame_is_evicted(eviction, order);
        let k = eviction.victim(order);
        if eviction.total_frames > 0 {
            assert forall|j: int| 0 <= j < order.len() implies eviction.distance(
                #[trigger] order[j],
            ) == steps_to(eviction, order[j]) by {
                assert(order.contains(order[j]));
                if order[j] != frame {
                    assert(cache.frames.contains_key(order[j]));
                }
                distance_is_taken_modulo_the_timeline(
                    order[j],
                    eviction.playhead,
                    eviction.total_frames,
                    eviction.forward,
                );
            }
            if eviction.protects_all(order) {
                assert forall|j: int| 0 <= j < order.len() implies steps_to(
                    eviction,
                    #[trigger] order[j],
                ) <= steps_to(eviction, order[k]) && steps_to(eviction, order[j])
                    < eviction.horizon by {
                    assert(eviction.protects(order[j]));
                }
            } else {
                assert forall|j: int| 0 <= j < k implies steps_to(eviction, #[trigger] order[j])
                    < eviction.horizon by {
                    assert(eviction.protects(order[j]));
                }
            }
        }
        assert(cache.inserted(frame, image, eviction).order == order.remove(k));
    }
}

} // verus!
