//! The registry of live animations.
//!
//! Animations are kept in the order in which their handles were issued, which
//! is also the increasing order of the handles: a handle is found by binary
//! search, and nothing can be stored twice under one handle.

use crate::animations::animation::evaluator_total;
use crate::animations::animation::{
    Animation, AnimationError, AnimationType, AnimationView, Operation,
};
use std::time::Instant;
use vstd::prelude::*;

verus! {

/// The live handles below `h`.
pub open spec fn handles_below<A>(animations: Map<u32, A>, h: u32) -> Set<u32> {
    animations.dom().filter(|k: u32| k < h)
}

/// Mathematical state of an [`AnimationsManager`].
pub struct ManagerView<V, P> {
    /// The live animations by handle.
    pub animations: Map<u32, AnimationView<V, P>>,
    /// The handle issued last; `0` before the first.
    pub last_id: u32,
}

impl<V, P: Fn(&[V]) -> bool> ManagerView<V, P> {
    /// What holds of every registry: finitely many animations, each sound and
    /// under a handle that was issued, and no more of them than handles
    /// issued since the last renumbering.
    pub open spec fn valid(self) -> bool {
        &&& self.animations.dom().finite()
        &&& self.animations.dom().len() <= self.last_id
        &&& forall|h: u32| #[trigger]
            self.animations.contains_key(h) ==> h <= self.last_id && self.animations[h].valid()
    }

    /// The number of live handles below `h`: the place of `h` among the live
    /// handles in increasing order, counted from zero.
    pub open spec fn rank(self, h: u32) -> nat {
        handles_below(self.animations, h).len()
    }

    /// The live handle of rank `r`.
    pub open spec fn handle_at(self, r: nat) -> u32 {
        choose|h: u32| self.animations.contains_key(h) && self.rank(h) == r
    }

    /// The live animations renumbered densely from zero in the order of their
    /// handles: each is found under the rank of its former handle.
    pub open spec fn compacted(self) -> Map<u32, AnimationView<V, P>> {
        Map::new(
            |k: u32| k < self.animations.dom().len(),
            |k: u32| self.animations[self.handle_at(k as nat)],
        )
    }

    /// The counter of handles has reached its last value: the next handle can
    /// only be issued after renumbering.
    pub open spec fn exhausted(self) -> bool {
        self.last_id == u32::MAX
    }

    /// The animations as the next `add` finds them before it inserts its
    /// own: renumbered if the counter is exhausted, untouched otherwise.
    pub open spec fn survivors(self) -> Map<u32, AnimationView<V, P>> {
        if self.exhausted() {
            self.compacted()
        } else {
            self.animations
        }
    }

    /// The handle that the next successful `add` issues. After a renumbering
    /// of `n` survivors onto `0..n` it is `n + 1`.
    pub open spec fn next_handle(self) -> int {
        if self.exhausted() {
            self.animations.dom().len() as int + 1
        } else {
            self.last_id as int + 1
        }
    }

    /// Why `animation_type` cannot be added, if it cannot: a fault of the
    /// description comes first; the registry is full when the counter is
    /// exhausted and renumbering would free no handle.
    pub open spec fn add_error(self, animation_type: AnimationType<V, P>) -> Option<
        AnimationError,
    > {
        if animation_type.config_error() is Some {
            animation_type.config_error()
        } else if self.exhausted() && self.animations.dom().len() >= u32::MAX {
            Some(AnimationError::RegistryFull)
        } else {
            None
        }
    }

    /// `post` and `r` are what adding `animation_type` at clock reading
    /// `now_ms` makes of `self`.
    pub open spec fn adds(
        self,
        animation_type: AnimationType<V, P>,
        now_ms: u128,
        r: Result<u32, AnimationError>,
        post: Self,
    ) -> bool {
        match r {
            Err(e) => self.add_error(animation_type) == Some(e) && post == self,
            Ok(h) => {
                &&& self.add_error(animation_type) is None
                &&& h == self.next_handle()
                &&& post.last_id == h
                &&& post.animations == self.survivors().insert(
                    h,
                    AnimationView::fresh(animation_type, now_ms),
                )
            },
        }
    }

    /// `post` is what removing handle `id` makes of `self`.
    pub open spec fn removes(self, id: u32, post: Self) -> bool {
        &&& post.last_id == self.last_id
        &&& post.animations == self.animations.remove(id)
    }

    /// `post` is a state that one tick of the registry at clock reading
    /// `now_ms`, computing with `eval`, may lead to from `self`: the
    /// animations that had ended before are gone, every other one has ticked
    /// once and is still there.
    pub open spec fn ticks_to<E: Fn(Operation<V>) -> V>(
        self,
        post: Self,
        now_ms: u128,
        eval: E,
    ) -> bool {
        &&& post.last_id == self.last_id
        &&& post.animations.dom() =~= self.animations.dom().filter(
            |h: u32| !self.animations[h].ended,
        )
        &&& forall|h: u32| #[trigger]
            post.animations.contains_key(h) ==> self.animations[h].ticks_to(
                post.animations[h],
                now_ms,
                eval,
            )
    }
}

/// An animation stored under its handle.
struct Slot<V, P> {
    id: u32,
    animation: Animation<V, P>,
}

/// Owns every live animation, gives each a handle and advances all of them
/// once per frame.
pub struct AnimationsManager<V, P> {
    slots: Vec<Slot<V, P>>,
    cur_id: u32,
    epoch: Instant,
}

/// Handles grow strictly along `slots`.
spec fn increasing<V, P>(slots: Seq<Slot<V, P>>) -> bool {
    forall|i: int, j: int| 0 <= i < j < slots.len() ==> slots[i].id < slots[j].id
}

/// Some slot of `slots` holds handle `h`.
spec fn holds<V, P>(slots: Seq<Slot<V, P>>, h: u32) -> bool {
    exists|i: int| 0 <= i < slots.len() && slots[i].id == h
}

/// An index at which `slots` holds handle `h`, if any does.
spec fn slot_index<V, P>(slots: Seq<Slot<V, P>>, h: u32) -> int {
    choose|i: int| 0 <= i < slots.len() && slots[i].id == h
}

/// The animations of `slots` by handle.
spec fn slots_map<V, P>(slots: Seq<Slot<V, P>>) -> Map<u32, AnimationView<V, P>> {
    Map::new(|h: u32| holds(slots, h), |h: u32| slots[slot_index(slots, h)].animation@)
}

/// The handles of `slots` in storage order.
spec fn slot_ids<V, P>(slots: Seq<Slot<V, P>>) -> Seq<u32> {
    Seq::new(slots.len(), |i: int| slots[i].id)
}

/// In increasing slots every slot is found under its own handle, and under
/// no other index.
proof fn lemma_slot_lookup<V, P>(slots: Seq<Slot<V, P>>, i: int)
    requires
        increasing(slots),
        0 <= i < slots.len(),
    ensures
        slots_map(slots).contains_key(slots[i].id),
        slot_index(slots, slots[i].id) == i,
        slots_map(slots)[slots[i].id] == slots[i].animation@,
{
    let j = slot_index(slots, slots[i].id);
    if j < i {
        assert(slots[j].id < slots[i].id);
    } else if i < j {
        assert(slots[i].id < slots[j].id);
    }
}

/// Handles that grow strictly are pairwise different.
proof fn lemma_ids_differ<V, P>(slots: Seq<Slot<V, P>>, n: int)
    requires
        increasing(slots),
        0 <= n <= slots.len(),
    ensures
        slot_ids(slots).take(n).no_duplicates(),
{
    let ids = slot_ids(slots).take(n);
    assert forall|i: int, j: int| 0 <= i < ids.len() && 0 <= j < ids.len() && i != j implies ids[i]
        != ids[j] by {
        if i < j {
            assert(slots[i].id < slots[j].id);
        } else {
            assert(slots[j].id < slots[i].id);
        }
    }
}

/// Increasing slots hold as many handles as there are slots.
proof fn lemma_slots_count<V, P>(slots: Seq<Slot<V, P>>)
    requires
        increasing(slots),
    ensures
        slots_map(slots).dom().finite(),
        slots_map(slots).dom().len() == slots.len(),
{
    let ids = slot_ids(slots);
    assert(ids.take(slots.len() as int) == ids);
    lemma_ids_differ(slots, slots.len() as int);
    ids.unique_seq_to_set();
    vstd::seq_lib::seq_to_set_is_finite(ids);
    assert forall|h: u32| slots_map(slots).dom().contains(h) implies ids.to_set().contains(h) by {
        assert(ids[slot_index(slots, h)] == h);
    }
    assert forall|h: u32| ids.to_set().contains(h) implies slots_map(slots).dom().contains(h) by {
        let i = choose|i: int| 0 <= i < ids.len() && ids[i] == h;
        assert(slots[i].id == h);
    }
    assert(slots_map(slots).dom() =~= ids.to_set());
}

/// In increasing slots the handle at index `i` has `i` handles below it.
proof fn lemma_slot_rank<V, P>(slots: Seq<Slot<V, P>>, i: int)
    requires
        increasing(slots),
        0 <= i < slots.len(),
    ensures
        handles_below(slots_map(slots), slots[i].id).len() == i,
{
    let below = slot_ids(slots).take(i);
    let smaller = handles_below(slots_map(slots), slots[i].id);
    lemma_ids_differ(slots, i);
    below.unique_seq_to_set();
    assert forall|h: u32| smaller.contains(h) implies below.to_set().contains(h) by {
        let j = slot_index(slots, h);
        if j > i {
            assert(slots[i].id < slots[j].id);
        }
        assert(below[j] == h);
    }
    assert forall|h: u32| below.to_set().contains(h) implies smaller.contains(h) by {
        let j = choose|j: int| 0 <= j < below.len() && below[j] == h;
        assert(slots[j].id == h);
        assert(slots[j].id < slots[i].id);
    }
    assert(smaller =~= below.to_set());
}

/// Taking slot `i` out of increasing slots takes its handle out of the map
/// and leaves the rest as it was.
proof fn lemma_slot_removed<V, P>(slots: Seq<Slot<V, P>>, i: int)
    requires
        increasing(slots),
        0 <= i < slots.len(),
    ensures
        increasing(slots.remove(i)),
        slots_map(slots.remove(i)) == slots_map(slots).remove(slots[i].id),
{
    let rest = slots.remove(i);
    let expected = slots_map(slots).remove(slots[i].id);
    assert(increasing(rest));
    assert forall|h: u32| slots_map(rest).contains_key(h) implies expected.contains_key(h)
        && slots_map(rest)[h] == expected[h] by {
        let j = slot_index(rest, h);
        let k = if j < i {
            j
        } else {
            j + 1
        };
        lemma_slot_lookup(rest, j);
        lemma_slot_lookup(slots, k);
        lemma_slot_lookup(slots, i);
    }
    assert forall|h: u32| expected.contains_key(h) implies slots_map(rest).contains_key(h) by {
        let k = slot_index(slots, h);
        let j = if k < i {
            k
        } else {
            k - 1
        };
        assert(rest[j].id == h);
    }
    assert(slots_map(rest) =~= expected);
}

/// Appending a slot whose handle is above all others adds it to the map and
/// leaves the rest as it was.
proof fn lemma_slot_pushed<V, P>(slots: Seq<Slot<V, P>>, slot: Slot<V, P>)
    requires
        increasing(slots),
        forall|i: int| 0 <= i < slots.len() ==> (#[trigger] slots[i]).id < slot.id,
    ensures
        increasing(slots.push(slot)),
        slots_map(slots.push(slot)) == slots_map(slots).insert(slot.id, slot.animation@),
{
    let grown = slots.push(slot);
    let expected = slots_map(slots).insert(slot.id, slot.animation@);
    assert(increasing(grown));
    assert forall|h: u32| slots_map(grown).contains_key(h) implies expected.contains_key(h)
        && slots_map(grown)[h] == expected[h] by {
        let i = slot_index(grown, h);
        lemma_slot_lookup(grown, i);
        if i < slots.len() {
            assert(slots[i].id == h);
            lemma_slot_lookup(slots, i);
        }
    }
    assert forall|h: u32| expected.contains_key(h) implies slots_map(grown).contains_key(h) by {
        if h == slot.id {
            assert(grown[slots.len() as int].id == h);
        } else {
            assert(grown[slot_index(slots, h)].id == h);
        }
    }
    assert(slots_map(grown) =~= expected);
}

/// Numbering increasing slots `0, 1, 2, ...` in storage order is the
/// renumbering of their map by rank.
proof fn lemma_slots_renumbered<V, P: Fn(&[V]) -> bool>(
    before: Seq<Slot<V, P>>,
    after: Seq<Slot<V, P>>,
    last_id: u32,
)
    requires
        increasing(before),
        after.len() == before.len(),
        forall|i: int|
            0 <= i < after.len() ==> (#[trigger] after[i]).id == i && after[i].animation
                == before[i].animation,
    ensures
        increasing(after),
        slots_map(after) == (ManagerView { animations: slots_map(before), last_id }).compacted(),
{
    let pre = ManagerView { animations: slots_map(before), last_id };
    lemma_slots_count(before);
    assert(increasing(after));
    assert forall|k: u32| slots_map(after).contains_key(k) implies pre.compacted().contains_key(k)
        && slots_map(after)[k] == pre.compacted()[k] by {
        let i = slot_index(after, k);
        lemma_slot_lookup(after, i);
        lemma_slot_lookup(before, i);
        lemma_slot_rank(before, i);
        assert(pre.animations.contains_key(before[i].id) && pre.rank(before[i].id) == k as nat);
        let j = slot_index(before, pre.handle_at(k as nat));
        lemma_slot_rank(before, j);
    }
    assert forall|k: u32| pre.compacted().contains_key(k) implies slots_map(after).contains_key(
        k,
    ) by {
        assert(after[k as int].id == k);
    }
    assert(slots_map(after) =~= pre.compacted());
}

/// What a tick leaves of `before` is `after`, where `origin[j]` is the index
/// in `before` of the slot that became `after[j]`: the slots that had not
/// ended, each ticked once, in their old order.
spec fn ticked_from<V, P: Fn(&[V]) -> bool, E: Fn(Operation<V>) -> V>(
    before: Seq<Slot<V, P>>,
    after: Seq<Slot<V, P>>,
    origin: Seq<int>,
    done: int,
    now_ms: u128,
    eval: E,
) -> bool {
    &&& origin.len() == after.len()
    &&& forall|j: int, k: int| 0 <= j < k < origin.len() ==> origin[j] < origin[k]
    &&& forall|j: int|
        0 <= j < after.len() ==> {
            &&& 0 <= #[trigger] origin[j] < done
            &&& after[j].id == before[origin[j]].id
            &&& !before[origin[j]].animation@.ended
            &&& before[origin[j]].animation@.ticks_to(after[j].animation@, now_ms, eval)
        }
    &&& forall|i: int|
        0 <= i < done && !(#[trigger] before[i]).animation@.ended ==> origin.contains(i)
}

/// Ticking one more slot keeps the account of [`ticked_from`].
proof fn lemma_ticked_one_more<V, P: Fn(&[V]) -> bool, E: Fn(Operation<V>) -> V>(
    before: Seq<Slot<V, P>>,
    after: Seq<Slot<V, P>>,
    origin: Seq<int>,
    done: int,
    now_ms: u128,
    eval: E,
    slot: Slot<V, P>,
)
    requires
        0 <= done < before.len(),
        ticked_from(before, after, origin, done, now_ms, eval),
        !before[done].animation@.ended,
        slot.id == before[done].id,
        before[done].animation@.ticks_to(slot.animation@, now_ms, eval),
    ensures
        ticked_from(before, after.push(slot), origin.push(done), done + 1, now_ms, eval),
{
    let grown = origin.push(done);
    assert forall|i: int|
        0 <= i < done + 1 && !(#[trigger] before[i]).animation@.ended implies grown.contains(
        i,
    ) by {
        if i < done {
            let j = choose|j: int| 0 <= j < origin.len() && origin[j] == i;
            assert(grown[j] == i);
        } else {
            assert(grown[origin.len() as int] == i);
        }
    }
}

/// The account of [`ticked_from`] over all slots is a tick of the map.
proof fn lemma_slots_ticked<V, P: Fn(&[V]) -> bool, E: Fn(Operation<V>) -> V>(
    before: Seq<Slot<V, P>>,
    after: Seq<Slot<V, P>>,
    origin: Seq<int>,
    last_id: u32,
    now_ms: u128,
    eval: E,
)
    requires
        increasing(before),
        ticked_from(before, after, origin, before.len() as int, now_ms, eval),
    ensures
        increasing(after),
        after.len() <= before.len(),
        (ManagerView { animations: slots_map(before), last_id }).ticks_to(
            ManagerView { animations: slots_map(after), last_id },
            now_ms,
            eval,
        ),
{
    let pre = ManagerView { animations: slots_map(before), last_id };
    let post = ManagerView { animations: slots_map(after), last_id };
    let alive = pre.animations.dom().filter(|h: u32| !pre.animations[h].ended);
    assert forall|j: int, k: int| 0 <= j < k < after.len() implies after[j].id < after[k].id by {
        assert(origin[j] < origin[k]);
    }
    assert forall|h: u32| #[trigger] post.animations.contains_key(h) implies alive.contains(h)
        && pre.animations[h].ticks_to(post.animations[h], now_ms, eval) by {
        let j = slot_index(after, h);
        lemma_slot_lookup(after, j);
        lemma_slot_lookup(before, origin[j]);
    }
    assert forall|h: u32| alive.contains(h) implies post.animations.contains_key(h) by {
        let i = slot_index(before, h);
        lemma_slot_lookup(before, i);
        let j = choose|j: int| 0 <= j < origin.len() && origin[j] == i;
        assert(after[j].id == h);
    }
    assert(post.animations.dom() =~= alive);
    lemma_slots_count(before);
    lemma_slots_count(after);
    vstd::set_lib::lemma_len_subset(post.animations.dom(), pre.animations.dom());
}

impl<V, P> View for AnimationsManager<V, P> {
    type V = ManagerView<V, P>;

    closed spec fn view(&self) -> ManagerView<V, P> {
        ManagerView { animations: slots_map(self.slots@), last_id: self.cur_id }
    }
}

impl<V: Copy, P: Fn(&[V]) -> bool> AnimationsManager<V, P> {
    /// The registry's invariant: handles are stored in strictly increasing
    /// order, none exceeds the last one issued, there are no more animations
    /// than handles issued since the last renumbering, and every animation is
    /// sound.
    pub closed spec fn wf(&self) -> bool {
        &&& increasing(self.slots@)
        &&& self.slots@.len() <= self.cur_id
        &&& forall|i: int|
            0 <= i < self.slots@.len() ==> (#[trigger] self.slots@[i]).id <= self.cur_id
        &&& forall|i: int|
            0 <= i < self.slots@.len() ==> (#[trigger] self.slots@[i]).animation@.valid()
    }

    /// The invariant of the registry gives the validity of its view.
    pub proof fn lemma_wf_valid(&self)
        requires
            self.wf(),
        ensures
            self@.valid(),
    {
        lemma_slots_count(self.slots@);
        assert forall|h: u32| #[trigger] self@.animations.contains_key(h) implies h
            <= self@.last_id && self@.animations[h].valid() by {
            lemma_slot_lookup(self.slots@, slot_index(self.slots@, h));
        }
    }

    /// A registry without animations whose clock starts now.
    pub fn new() -> (manager: Self)
        ensures
            manager.wf(),
            manager@.animations == Map::<u32, AnimationView<V, P>>::empty(),
            manager@.last_id == 0,
    {
        Self::with_last_id(0)
    }

    /// A registry without animations that has already issued the handles up
    /// to `last_id`, so that the next one is `last_id + 1` or, if the counter
    /// is exhausted, comes from renumbering.
    pub fn with_last_id(last_id: u32) -> (manager: Self)
        ensures
            manager.wf(),
            manager@.animations == Map::<u32, AnimationView<V, P>>::empty(),
            manager@.last_id == last_id,
    {
        let manager = Self { slots: Vec::new(), cur_id: last_id, epoch: Instant::now() };
        assert(manager@.animations =~= Map::<u32, AnimationView<V, P>>::empty());
        manager
    }

    /// Milliseconds that have passed on the registry's clock.
    fn now_ms(&self) -> u128 {
        self.epoch.elapsed().as_millis()
    }

    /// The number of live animations.
    pub fn len(&self) -> (n: usize)
        requires
            self.wf(),
        ensures
            n == self@.animations.dom().len(),
    {
        proof {
            lemma_slots_count(self.slots@);
        }
        self.slots.len()
    }

    /// Position of handle `id` among the slots, by binary search.
    fn find(&self, id: u32) -> (r: Option<usize>)
        requires
            self.wf(),
        ensures
            match r {
                Some(i) => i < self.slots@.len() && self.slots@[i as int].id == id,
                None => !holds(self.slots@, id),
            },
    {
        let mut low: usize = 0;
        let mut high: usize = self.slots.len();
        while low < high
            invariant
                low <= high <= self.slots@.len(),
                increasing(self.slots@),
                forall|i: int| 0 <= i < low ==> self.slots@[i].id < id,
                forall|i: int| high <= i < self.slots@.len() ==> self.slots@[i].id > id,
            decreases high - low,
        {
            let mid: usize = low + (high - low) / 2;
            let found: u32 = self.slots[mid].id;
            if found == id {
                return Some(mid);
            } else if found < id {
                low = mid + 1;
            } else {
                high = mid;
            }
        }
        None
    }

    /// Gives the slots the handles `0, 1, 2, ...` in storage order and sets
    /// the counter to their number.
    fn renumber(&mut self)
        requires
            old(self).wf(),
            old(self).slots@.len() < u32::MAX,
        ensures
            final(self).wf(),
            final(self).cur_id == old(self).slots@.len(),
            final(self)@.animations == old(self)@.compacted(),
            final(self).slots@.len() == old(self).slots@.len(),
            forall|i: int|
                0 <= i < final(self).slots@.len() ==> (#[trigger] final(self).slots@[i]).id < old(
                    self,
                ).slots@.len(),
    {
        let n: usize = self.slots.len();
        let mut i: usize = 0;
        while i < n
            invariant
                i <= n,
                n == self.slots@.len(),
                n == old(self).slots@.len(),
                n < u32::MAX,
                forall|j: int|
                    0 <= j < n ==> (#[trigger] self.slots@[j]).animation == old(
                        self,
                    ).slots@[j].animation,
                forall|j: int| 0 <= j < i ==> (#[trigger] self.slots@[j]).id == j,
            decreases n - i,
        {
            self.slots[i].id = i as u32;
            i += 1;
        }
        self.cur_id = n as u32;
        proof {
            lemma_slots_renumbered(old(self).slots@, self.slots@, old(self).cur_id);
        }
    }

    /// Adds an animation that starts at clock reading `now_ms` and returns
    /// its handle, or says why it cannot be added and leaves the registry as
    /// it was.
    ///
    /// When the counter of handles is exhausted, the live animations are
    /// first renumbered densely from zero in the order of their handles;
    /// handles issued before are then void.
    pub fn add_at(&mut self, animation_type: AnimationType<V, P>, now_ms: u128) -> (r: Result<
        u32,
        AnimationError,
    >)
        requires
            old(self).wf(),
            animation_type.condition_total(),
        ensures
            final(self).wf(),
            old(self)@.adds(animation_type, now_ms, r, final(self)@),
    {
        proof {
            lemma_slots_count(self.slots@);
        }
        let animation = match Animation::new(animation_type, now_ms) {
            Ok(animation) => animation,
            Err(e) => {
                return Err(e);
            },
        };
        if self.cur_id == u32::MAX {
            if self.slots.len() >= u32::MAX as usize {
                return Err(AnimationError::RegistryFull);
            }
            self.renumber();
        }
        let id: u32 = self.cur_id + 1;
        let slot = Slot { id, animation };
        proof {
            lemma_slot_pushed(self.slots@, slot);
        }
        self.cur_id = id;
        self.slots.push(slot);
        Ok(id)
    }

    /// Adds an animation that starts now on the registry's clock. See
    /// [`Self::add_at`].
    pub fn add(&mut self, animation_type: AnimationType<V, P>) -> (r: Result<u32, AnimationError>)
        requires
            old(self).wf(),
            animation_type.condition_total(),
        ensures
            final(self).wf(),
            exists|now_ms: u128| #[trigger]
                old(self)@.adds(animation_type, now_ms, r, final(self)@),
    {
        let now_ms: u128 = self.now_ms();
        self.add_at(animation_type, now_ms)
    }

    /// Removes the animation behind `id`; a handle that is not live is
    /// ignored.
    pub fn remove(&mut self, id: u32)
        requires
            old(self).wf(),
        ensures
            final(self).wf(),
            old(self)@.removes(id, final(self)@),
    {
        match self.find(id) {
            Some(i) => {
                proof {
                    lemma_slot_removed(self.slots@, i as int);
                }
                let _ = self.slots.remove(i);
            },
            None => {
                assert(self@.animations =~= self@.animations.remove(id));
            },
        }
    }

    /// Drops the animations that had ended by the previous tick, then
    /// advances every other one by one tick taken at clock reading `now_ms`.
    ///
    /// An animation that ends in this tick stays for one more: its last
    /// values can be read until the next tick.
    pub fn tick_at<E: Fn(Operation<V>) -> V>(&mut self, now_ms: u128, eval: &E)
        requires
            old(self).wf(),
            evaluator_total(*eval),
        ensures
            final(self).wf(),
            old(self)@.ticks_to(final(self)@, now_ms, *eval),
    {
        let cur_id: u32 = self.cur_id;
        let mut pending: Vec<Slot<V, P>> = Vec::new();
        std::mem::swap(&mut self.slots, &mut pending);
        let ghost before = pending@;
        let ghost mut origin: Seq<int> = Seq::empty();
        let mut kept: Vec<Slot<V, P>> = Vec::with_capacity(pending.len());
        for slot in it: pending
            invariant
                it.seq() == before,
                evaluator_total(*eval),
                forall|i: int| 0 <= i < before.len() ==> (#[trigger] before[i]).id <= cur_id,
                forall|i: int| 0 <= i < before.len() ==> (#[trigger] before[i]).animation@.valid(),
                forall|j: int| 0 <= j < kept@.len() ==> (#[trigger] kept@[j]).id <= cur_id,
                forall|j: int| 0 <= j < kept@.len() ==> (#[trigger] kept@[j]).animation@.valid(),
                ticked_from(before, kept@, origin, it.index() as int, now_ms, *eval),
        {
            let mut slot = slot;
            if !slot.animation.has_ended() {
                slot.animation.tick(now_ms, eval);
                proof {
                    lemma_ticked_one_more(
                        before,
                        kept@,
                        origin,
                        it.index() as int,
                        now_ms,
                        *eval,
                        slot,
                    );
                    origin = origin.push(it.index() as int);
                }
                kept.push(slot);
            }
        }
        proof {
            lemma_slots_ticked(before, kept@, origin, cur_id, now_ms, *eval);
        }
        self.slots = kept;
    }

    /// One tick of the registry, taken now on its clock. See
    /// [`Self::tick_at`].
    pub fn tick<E: Fn(Operation<V>) -> V>(&mut self, eval: &E)
        requires
            old(self).wf(),
            evaluator_total(*eval),
        ensures
            final(self).wf(),
            exists|now_ms: u128| #[trigger] old(self)@.ticks_to(final(self)@, now_ms, *eval),
    {
        let now_ms: u128 = self.now_ms();
        self.tick_at(now_ms, eval)
    }

    /// The current values of the animation behind `id`, if it is live.
    pub fn get(&self, id: u32) -> (r: Option<&[V]>)
        requires
            self.wf(),
        ensures
            match r {
                Some(values) => self@.animations.contains_key(id) && values@
                    == self@.animations[id].values,
                None => !self@.animations.contains_key(id),
            },
    {
        match self.find(id) {
            Some(i) => {
                proof {
                    lemma_slot_lookup(self.slots@, i as int);
                }
                Some(self.slots[i].animation.get_current_values())
            },
            None => None,
        }
    }
}

} // verus!
