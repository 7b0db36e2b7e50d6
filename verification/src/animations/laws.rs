//! What follows from the contracts of the registry, stated over its
//! mathematical state and proved once and for all.

use crate::animations::animation::{AnimationType, AnimationView, Operation};
use crate::animations::manager::{handles_below, ManagerView};
use vstd::prelude::*;
use vstd::set_lib::lemma_len_subset;

verus! {

/// The handles `0, 1, ..., n - 1`.
pub open spec fn first_handles(n: nat) -> Set<u32> {
    Set::new(|k: u32| k < n)
}

/// There are `n` handles below `n`.
pub proof fn lemma_first_handles_len(n: nat)
    requires
        n <= u32::MAX + 1,
    ensures
        first_handles(n).finite(),
        first_handles(n).len() == n,
    decreases n,
{
    if n == 0 {
        assert(first_handles(n) =~= Set::<u32>::empty());
    } else {
        lemma_first_handles_len((n - 1) as nat);
        assert(first_handles(n) =~= first_handles((n - 1) as nat).insert((n - 1) as u32));
    }
}

/// An animation that has ended stays ended, whatever tick follows.
pub proof fn lemma_ended_is_terminal<V, P: Fn(&[V]) -> bool, E: Fn(Operation<V>) -> V>(
    pre: AnimationView<V, P>,
    post: AnimationView<V, P>,
    now_ms: u128,
    eval: E,
)
    requires
        pre.ticks_to(post, now_ms, eval),
        pre.ended,
    ensures
        post.ended,
{
}

/// A timed animation whose time is up shows exactly its end values and has
/// ended, whatever the evaluator computes.
pub proof fn lemma_timed_lands_on_end<V, P: Fn(&[V]) -> bool, E: Fn(Operation<V>) -> V>(
    pre: AnimationView<V, P>,
    post: AnimationView<V, P>,
    now_ms: u128,
    eval: E,
)
    requires
        pre.ticks_to(post, now_ms, eval),
        pre.animation_type is Timed,
        now_ms - pre.start_ms > pre.animation_type->duration_ms,
    ensures
        post.values == pre.animation_type->end_values@,
        post.ended,
{
}

/// A live handle has fewer live handles below it than there are live handles.
pub proof fn lemma_rank_in_range<V, P: Fn(&[V]) -> bool>(m: ManagerView<V, P>, h: u32)
    requires
        m.animations.dom().finite(),
        m.animations.contains_key(h),
    ensures
        m.rank(h) < m.animations.dom().len(),
{
    lemma_len_subset(handles_below(m.animations, h), m.animations.dom().remove(h));
}

/// Ranks follow the order of the handles: of two live handles the smaller
/// has the smaller rank. So no two live handles share a rank.
pub proof fn lemma_rank_increases<V, P: Fn(&[V]) -> bool>(m: ManagerView<V, P>, a: u32, b: u32)
    requires
        m.animations.dom().finite(),
        m.animations.contains_key(a),
        m.animations.contains_key(b),
        a < b,
    ensures
        m.rank(a) < m.rank(b),
{
    m.animations.dom().lemma_len_filter(|k: u32| k < b);
    lemma_len_subset(handles_below(m.animations, a), handles_below(m.animations, b).remove(a));
}

/// The live handle of a given rank is the one that has this rank.
pub proof fn lemma_handle_at_rank<V, P: Fn(&[V]) -> bool>(m: ManagerView<V, P>, h: u32)
    requires
        m.animations.dom().finite(),
        m.animations.contains_key(h),
    ensures
        m.handle_at(m.rank(h)) == h,
{
    let found = m.handle_at(m.rank(h));
    assert(m.animations.contains_key(found) && m.rank(found) == m.rank(h));
    if found < h {
        lemma_rank_increases(m, found, h);
    } else if h < found {
        lemma_rank_increases(m, h, found);
    }
}

/// Every renumbered handle stands for a live animation.
proof fn lemma_compacted_range<V, P: Fn(&[V]) -> bool>(m: ManagerView<V, P>, k: u32)
    requires
        m.valid(),
        k < m.animations.dom().len(),
    ensures
        m.animations.contains_key(m.handle_at(k as nat)),
        m.rank(m.handle_at(k as nat)) == k,
{
    // The ranks of the live handles are pairwise different numbers below the
    // number of live handles, so they take every such value.
    let n = m.animations.dom().len();
    let ranks = m.animations.dom().map(|h: u32| m.rank(h) as u32);
    lemma_first_handles_len(n);
    assert(ranks.subset_of(first_handles(n))) by {
        assert forall|r: u32| ranks.contains(r) implies first_handles(n).contains(r) by {
            let h = choose|h: u32| m.animations.dom().contains(h) && r == m.rank(h) as u32;
            lemma_rank_in_range(m, h);
        }
    }
    assert(vstd::relations::injective_on(|h: u32| m.rank(h) as u32, m.animations.dom())) by {
        assert forall|a: u32, b: u32|
            m.animations.dom().contains(a) && m.animations.dom().contains(b) && m.rank(a) as u32
                == m.rank(b) as u32 implies a == b by {
            lemma_rank_in_range(m, a);
            lemma_rank_in_range(m, b);
            if a < b {
                lemma_rank_increases(m, a, b);
            } else if b < a {
                lemma_rank_increases(m, b, a);
            }
        }
    }
    vstd::set_lib::lemma_map_size(m.animations.dom(), ranks, |h: u32| m.rank(h) as u32);
    vstd::set_lib::lemma_subset_equality(ranks, first_handles(n));
    assert(ranks.contains(k));
    let h = choose|h: u32| m.animations.dom().contains(h) && k == m.rank(h) as u32;
    lemma_rank_in_range(m, h);
    assert(m.animations.contains_key(h) && m.rank(h) == k as nat);
}

/// Renumbering loses and doubles nothing: every live animation is found
/// again, unchanged, under the rank of its former handle, and the renumbered
/// handles are exactly `0, 1, ..., n - 1` for `n` live animations.
pub proof fn lemma_compacted_keeps_animations<V, P: Fn(&[V]) -> bool>(m: ManagerView<V, P>)
    requires
        m.valid(),
    ensures
        m.compacted().dom() == first_handles(m.animations.dom().len()),
        m.compacted().dom().finite(),
        m.compacted().dom().len() == m.animations.dom().len(),
        forall|h: u32| #[trigger]
            m.animations.contains_key(h) ==> {
                &&& m.rank(h) < m.animations.dom().len()
                &&& m.compacted().contains_key(m.rank(h) as u32)
                &&& m.compacted()[m.rank(h) as u32] == m.animations[h]
            },
{
    let n = m.animations.dom().len();
    lemma_first_handles_len(n);
    assert(m.compacted().dom() =~= first_handles(n));
    assert forall|h: u32| #[trigger] m.animations.contains_key(h) implies {
        &&& m.rank(h) < n
        &&& m.compacted().contains_key(m.rank(h) as u32)
        &&& m.compacted()[m.rank(h) as u32] == m.animations[h]
    } by {
        lemma_rank_in_range(m, h);
        lemma_handle_at_rank(m, h);
    }
}

/// The handle that `add` issues was not live before: no animation is
/// overwritten, and the registry holds one animation more than survived.
pub proof fn lemma_added_handle_is_new<V, P: Fn(&[V]) -> bool>(
    m: ManagerView<V, P>,
    animation_type: AnimationType<V, P>,
    now_ms: u128,
    h: u32,
    post: ManagerView<V, P>,
)
    requires
        m.valid(),
        animation_type.condition_total(),
        m.adds(animation_type, now_ms, Ok(h), post),
    ensures
        !m.survivors().contains_key(h),
        post.animations.dom().len() == m.animations.dom().len() + 1,
        post.animations[h] == AnimationView::fresh(animation_type, now_ms),
        post.valid(),
{
    lemma_compacted_keeps_animations(m);
    assert forall|k: u32| #[trigger] post.animations.contains_key(k) implies k <= post.last_id
        && post.animations[k].valid() by {
        if k != h {
            assert(m.survivors().contains_key(k));
            if m.exhausted() {
                lemma_compacted_range(m, k);
            }
        }
    }
}

/// When the counter is exhausted, `add` renumbers: afterwards every
/// animation that was live is found, unchanged, under the rank of its former
/// handle, no two of them under the same handle, and the new animation under
/// a handle of its own.
pub proof fn lemma_renumbering_add<V, P: Fn(&[V]) -> bool>(
    m: ManagerView<V, P>,
    animation_type: AnimationType<V, P>,
    now_ms: u128,
    h: u32,
    post: ManagerView<V, P>,
)
    requires
        m.valid(),
        m.exhausted(),
        animation_type.condition_total(),
        m.adds(animation_type, now_ms, Ok(h), post),
    ensures
        h == m.animations.dom().len() + 1,
        post.animations[h] == AnimationView::fresh(animation_type, now_ms),
        post.animations.dom().len() == m.animations.dom().len() + 1,
        forall|k: u32| #[trigger]
            m.animations.contains_key(k) ==> {
                &&& m.rank(k) < h
                &&& post.animations.contains_key(m.rank(k) as u32)
                &&& post.animations[m.rank(k) as u32] == m.animations[k]
            },
        forall|a: u32, b: u32|
            m.animations.contains_key(a) && m.animations.contains_key(b) && a != b ==> m.rank(a)
                != m.rank(b),
{
    lemma_compacted_keeps_animations(m);
    lemma_added_handle_is_new(m, animation_type, now_ms, h, post);
    assert forall|a: u32, b: u32|
        m.animations.contains_key(a) && m.animations.contains_key(b) && a != b implies m.rank(a)
        != m.rank(b) by {
        if a < b {
            lemma_rank_increases(m, a, b);
        } else {
            lemma_rank_increases(m, b, a);
        }
    }
}

/// A handle that is removed right after it was issued is gone, and no later
/// tick brings it back.
pub proof fn lemma_add_remove_tick<V, P: Fn(&[V]) -> bool, E: Fn(Operation<V>) -> V>(
    m: ManagerView<V, P>,
    animation_type: AnimationType<V, P>,
    add_ms: u128,
    h: u32,
    added: ManagerView<V, P>,
    removed: ManagerView<V, P>,
    tick_ms: u128,
    eval: E,
    ticked: ManagerView<V, P>,
)
    requires
        m.adds(animation_type, add_ms, Ok(h), added),
        added.removes(h, removed),
        removed.ticks_to(ticked, tick_ms, eval),
    ensures
        !removed.animations.contains_key(h),
        !ticked.animations.contains_key(h),
{
}

/// Removing a handle that is not live changes nothing.
pub proof fn lemma_remove_of_stale_handle<V, P: Fn(&[V]) -> bool>(
    m: ManagerView<V, P>,
    id: u32,
    post: ManagerView<V, P>,
)
    requires
        !m.animations.contains_key(id),
        m.removes(id, post),
    ensures
        post == m,
{
    assert(post.animations =~= m.animations);
}

/// Handles count up from one: the animations added one after another to a
/// registry that has issued no handle yet get the handles `1, 2, 3, ...`
/// without any renumbering, and after the last possible one the counter is
/// exhausted.
pub proof fn lemma_handles_count_up<V, P: Fn(&[V]) -> bool>(
    states: Seq<ManagerView<V, P>>,
    animation_types: Seq<AnimationType<V, P>>,
    clock: Seq<u128>,
    handles: Seq<u32>,
)
    requires
        states.len() == handles.len() + 1,
        animation_types.len() == handles.len(),
        clock.len() == handles.len(),
        handles.len() <= u32::MAX,
        states[0].last_id == 0,
        forall|i: int|
            0 <= i < handles.len() ==> (#[trigger] states[i]).adds(
                animation_types[i],
                clock[i],
                Ok(handles[i]),
                states[i + 1],
            ),
    ensures
        forall|i: int| 0 <= i < handles.len() ==> !(#[trigger] states[i]).exhausted(),
        forall|i: int| 0 <= i < handles.len() ==> (#[trigger] handles[i]) == i + 1,
        states.last().last_id == handles.len(),
        handles.len() == u32::MAX ==> states.last().exhausted(),
    decreases handles.len(),
{
    if handles.len() > 0 {
        let n = handles.len() - 1;
        lemma_handles_count_up(
            states.take(n + 1),
            animation_types.take(n),
            clock.take(n),
            handles.take(n),
        );
        assert(states.take(n + 1).last() == states[n]);
        assert(states[n].adds(animation_types[n], clock[n], Ok(handles[n]), states[n + 1]));
        assert forall|i: int| 0 <= i < handles.len() implies !(#[trigger] states[i]).exhausted() by {
            if i < n {
                assert(states.take(n + 1)[i] == states[i]);
            }
        }
        assert forall|i: int| 0 <= i < handles.len() implies (#[trigger] handles[i]) == i + 1 by {
            if i < n {
                assert(handles.take(n)[i] == handles[i]);
            }
        }
    }
}

/// A tick never brings a handle to life: what is live afterwards was live
/// before and had not ended.
pub proof fn lemma_tick_keeps_running<V, P: Fn(&[V]) -> bool, E: Fn(Operation<V>) -> V>(
    m: ManagerView<V, P>,
    post: ManagerView<V, P>,
    now_ms: u128,
    eval: E,
    h: u32,
)
    requires
        m.ticks_to(post, now_ms, eval),
    ensures
        post.animations.contains_key(h) <==> m.animations.contains_key(h)
            && !m.animations[h].ended,
{
}

/// A tick of a registry without animations changes nothing.
pub proof fn lemma_tick_of_empty<V, P: Fn(&[V]) -> bool, E: Fn(Operation<V>) -> V>(
    m: ManagerView<V, P>,
    post: ManagerView<V, P>,
    now_ms: u128,
    eval: E,
)
    requires
        m.animations.dom() == Set::<u32>::empty(),
        m.ticks_to(post, now_ms, eval),
    ensures
        post == m,
{
    assert(post.animations =~= m.animations);
}

} // verus!
