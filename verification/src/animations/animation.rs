//! A single animation: its description, its live state, and the step that
//! advances it once per frame.

use crate::animations::easing::EasingType;
use vstd::prelude::*;

verus! {

/// An arithmetic operation on animated values that the engine asks its
/// evaluator to carry out.
#[derive(Debug, PartialEq)]
pub enum Operation<V> {
    /// Eased progress of a timed animation at `elapsed_ms / duration_ms`.
    Ease { easing_type: EasingType, elapsed_ms: u128, duration_ms: u128 },
    /// The point `start + (end - start) * progress`.
    Interpolate { start: V, end: V, progress: V },
    /// The sum `current + increase`.
    Accumulate { current: V, increase: V },
}

impl<V: Copy> Copy for Operation<V> {

}

impl<V: Copy> Clone for Operation<V> {
    fn clone(&self) -> (copy: Self)
        ensures
            copy == *self,
    {
        *self
    }
}

impl<V> Operation<V> {
    /// Whether the engine may issue this operation: it never asks for easing
    /// over an empty time span, nor beyond the end of the span.
    pub open spec fn admissible(self) -> bool {
        self matches Operation::Ease { elapsed_ms, duration_ms, .. } ==> 0 < duration_ms
            && elapsed_ms <= duration_ms
    }
}

/// The evaluator can be called on every operation the engine may issue.
pub open spec fn evaluator_total<V, E: Fn(Operation<V>) -> V>(eval: E) -> bool {
    forall|op: Operation<V>| op.admissible() ==> #[trigger] eval.requires((op,))
}

/// Why an animation could not be created.
#[derive(Debug, Clone, Copy, PartialEq, Eq)]
pub enum AnimationError {
    /// A timed animation lasts less than a millisecond.
    ZeroDuration,
    /// The value vectors of the description differ in length.
    LengthMismatch,
    /// A timed animation animates no value at all.
    EmptyValues,
    /// Every handle of the registry is taken.
    RegistryFull,
}

/// How an animation evolves.
#[derive(Debug, PartialEq)]
pub enum AnimationType<V, P> {
    /// Runs from `start_values` to `end_values` over `duration_ms`
    /// milliseconds, shaped by an easing curve.
    Timed { duration_ms: u128, start_values: Vec<V>, end_values: Vec<V>, easing_type: EasingType },
    /// Grows by `increase_per_tick` on every tick until `condition` holds of
    /// the current values.
    Conditional { condition: P, increase_per_tick: Vec<V>, start_values: Vec<V> },
}

impl<V, P> AnimationType<V, P> {
    /// The values the animation starts from.
    pub open spec fn start(self) -> Seq<V> {
        match self {
            AnimationType::Timed { start_values, .. } => start_values@,
            AnimationType::Conditional { start_values, .. } => start_values@,
        }
    }

    /// What is wrong with the description, if anything. Of several faults the
    /// first in declaration order of [`AnimationError`] is reported.
    pub open spec fn config_error(self) -> Option<AnimationError> {
        match self {
            AnimationType::Timed { duration_ms, start_values, end_values, .. } => {
                if duration_ms == 0 {
                    Some(AnimationError::ZeroDuration)
                } else if start_values@.len() != end_values@.len() {
                    Some(AnimationError::LengthMismatch)
                } else if start_values@.len() == 0 {
                    Some(AnimationError::EmptyValues)
                } else {
                    None
                }
            },
            AnimationType::Conditional { increase_per_tick, start_values, .. } => {
                if start_values@.len() != increase_per_tick@.len() {
                    Some(AnimationError::LengthMismatch)
                } else {
                    None
                }
            },
        }
    }
}

impl<V, P: Fn(&[V]) -> bool> AnimationType<V, P> {
    /// The termination predicate can be called on every vector that has as
    /// many components as the animation.
    pub open spec fn condition_total(self) -> bool {
        self matches AnimationType::Conditional { condition, start_values, .. } ==> forall|
            values: &[V],
        |
            values@.len() == start_values@.len() ==> #[trigger] condition.requires((values,))
    }

    /// Checks the description.
    pub fn validate(&self) -> (r: Result<(), AnimationError>)
        ensures
            r == match self.config_error() {
                Some(e) => Err::<(), AnimationError>(e),
                None => Ok(()),
            },
    {
        match self {
            AnimationType::Timed { duration_ms, start_values, end_values, .. } => {
                if *duration_ms == 0 {
                    Err(AnimationError::ZeroDuration)
                } else if start_values.len() != end_values.len() {
                    Err(AnimationError::LengthMismatch)
                } else if start_values.len() == 0 {
                    Err(AnimationError::EmptyValues)
                } else {
                    Ok(())
                }
            },
            AnimationType::Conditional { increase_per_tick, start_values, .. } => {
                if start_values.len() != increase_per_tick.len() {
                    Err(AnimationError::LengthMismatch)
                } else {
                    Ok(())
                }
            },
        }
    }
}

/// Milliseconds from `start_ms` to `now_ms` on a clock that never runs
/// backwards; a reading before the start counts as the start.
pub open spec fn elapsed(start_ms: u128, now_ms: u128) -> u128 {
    if now_ms >= start_ms {
        (now_ms - start_ms) as u128
    } else {
        0
    }
}

/// `out` holds, component by component, what `eval` made of interpolating
/// from `start` to `end` at `progress`.
pub open spec fn interpolated<V, E: Fn(Operation<V>) -> V>(
    start: Seq<V>,
    end: Seq<V>,
    progress: V,
    out: Seq<V>,
    eval: E,
) -> bool {
    &&& out.len() == start.len()
    &&& forall|i: int|
        0 <= i < out.len() ==> eval.ensures(
            (Operation::Interpolate { start: start[i], end: end[i], progress },),
            #[trigger] out[i],
        )
}

/// `out` holds, component by component, what `eval` made of adding
/// `increase` to `current`.
pub open spec fn accumulated<V, E: Fn(Operation<V>) -> V>(
    current: Seq<V>,
    increase: Seq<V>,
    out: Seq<V>,
    eval: E,
) -> bool {
    &&& out.len() == current.len()
    &&& forall|i: int|
        0 <= i < out.len() ==> eval.ensures(
            (Operation::Accumulate { current: current[i], increase: increase[i] },),
            #[trigger] out[i],
        )
}

/// The predicate `condition`, asked about `values`, may answer `done`.
pub open spec fn condition_says<V, P: Fn(&[V]) -> bool>(
    condition: P,
    values: Seq<V>,
    done: bool,
) -> bool {
    exists|slice: &[V]| slice@ == values && #[trigger] condition.ensures((slice,), done)
}

/// Mathematical state of an [`Animation`].
pub struct AnimationView<V, P> {
    /// The description the animation was created from.
    pub animation_type: AnimationType<V, P>,
    /// Clock reading at creation, in milliseconds.
    pub start_ms: u128,
    /// The values as of the last tick.
    pub values: Seq<V>,
    /// The animation has run its course.
    pub ended: bool,
}

impl<V, P: Fn(&[V]) -> bool> AnimationView<V, P> {
    /// State of an animation just created from `animation_type` at
    /// `start_ms`.
    pub open spec fn fresh(animation_type: AnimationType<V, P>, start_ms: u128) -> Self {
        AnimationView { animation_type, start_ms, values: animation_type.start(), ended: false }
    }

    /// The description is sound and the values have its shape.
    pub open spec fn valid(self) -> bool {
        &&& self.animation_type.config_error() is None
        &&& self.animation_type.condition_total()
        &&& self.values.len() == self.animation_type.start().len()
    }

    /// `post` is a state that one tick at clock reading `now_ms`, computing
    /// with `eval`, may lead to from `self`.
    ///
    /// A timed animation past its duration lands exactly on its end values
    /// and ends; before that it takes the interpolation at the eased
    /// progress. A conditional animation adds its increase to the values it
    /// had, then ends if its predicate holds of the sum. An ended animation
    /// never runs again.
    pub open spec fn ticks_to<E: Fn(Operation<V>) -> V>(
        self,
        post: Self,
        now_ms: u128,
        eval: E,
    ) -> bool {
        &&& post.animation_type == self.animation_type
        &&& post.start_ms == self.start_ms
        &&& match self.animation_type {
            AnimationType::Timed { duration_ms, start_values, end_values, easing_type } => {
                let elapsed_ms = elapsed(self.start_ms, now_ms);
                if elapsed_ms > duration_ms {
                    post.values == end_values@ && post.ended
                } else {
                    &&& post.ended == self.ended
                    &&& exists|progress: V|
                        {
                            &&& #[trigger] eval.ensures(
                                (Operation::Ease { easing_type, elapsed_ms, duration_ms },),
                                progress,
                            )
                            &&& interpolated(
                                start_values@,
                                end_values@,
                                progress,
                                post.values,
                                eval,
                            )
                        }
                }
            },
            AnimationType::Conditional { condition, increase_per_tick, .. } => {
                &&& accumulated(self.values, increase_per_tick@, post.values, eval)
                &&& exists|done: bool|
                    {
                        &&& #[trigger] condition_says(condition, post.values, done)
                        &&& post.ended == (self.ended || done)
                    }
            },
        }
    }
}

/// A live animation.
pub struct Animation<V, P> {
    animation_type: AnimationType<V, P>,
    start_ms: u128,
    current_values: Vec<V>,
    ended: bool,
}

impl<V, P> View for Animation<V, P> {
    type V = AnimationView<V, P>;

    closed spec fn view(&self) -> AnimationView<V, P> {
        AnimationView {
            animation_type: self.animation_type,
            start_ms: self.start_ms,
            values: self.current_values@,
            ended: self.ended,
        }
    }
}

/// A fresh vector with the contents of `values`.
fn copy_values<V: Copy>(values: &Vec<V>) -> (out: Vec<V>)
    ensures
        out@ == values@,
{
    let mut out: Vec<V> = Vec::with_capacity(values.len());
    let mut i: usize = 0;
    while i < values.len()
        invariant
            i <= values.len(),
            out@ == values@.take(i as int),
        decreases values.len() - i,
    {
        out.push(values[i]);
        i += 1;
    }
    out
}

/// Interpolates every component from `start` to `end` at `progress`.
fn interpolate_all<V: Copy, E: Fn(Operation<V>) -> V>(
    start: &Vec<V>,
    end: &Vec<V>,
    progress: V,
    eval: &E,
) -> (out: Vec<V>)
    requires
        start.len() == end.len(),
        evaluator_total(*eval),
    ensures
        interpolated(start@, end@, progress, out@, *eval),
{
    let mut out: Vec<V> = Vec::with_capacity(start.len());
    let mut i: usize = 0;
    while i < start.len()
        invariant
            i <= start.len(),
            start.len() == end.len(),
            evaluator_total(*eval),
            interpolated(start@.take(i as int), end@, progress, out@, *eval),
        decreases start.len() - i,
    {
        let value = eval(Operation::Interpolate { start: start[i], end: end[i], progress });
        out.push(value);
        i += 1;
    }
    out
}

/// Adds `increase` to `current`, component by component.
fn accumulate_all<V: Copy, E: Fn(Operation<V>) -> V>(
    current: &Vec<V>,
    increase: &Vec<V>,
    eval: &E,
) -> (out: Vec<V>)
    requires
        current.len() == increase.len(),
        evaluator_total(*eval),
    ensures
        accumulated(current@, increase@, out@, *eval),
{
    let mut out: Vec<V> = Vec::with_capacity(current.len());
    let mut i: usize = 0;
    while i < current.len()
        invariant
            i <= current.len(),
            current.len() == increase.len(),
            evaluator_total(*eval),
            accumulated(current@.take(i as int), increase@, out@, *eval),
        decreases current.len() - i,
    {
        let value = eval(Operation::Accumulate { current: current[i], increase: increase[i] });
        out.push(value);
        i += 1;
    }
    out
}

impl<V: Copy, P: Fn(&[V]) -> bool> Animation<V, P> {
    /// Creates an animation that starts at clock reading `start_ms`, or says
    /// what is wrong with its description.
    pub fn new(animation_type: AnimationType<V, P>, start_ms: u128) -> (r: Result<
        Self,
        AnimationError,
    >)
        requires
            animation_type.condition_total(),
        ensures
            match r {
                Ok(animation) => {
                    &&& animation_type.config_error() is None
                    &&& animation@ == AnimationView::fresh(animation_type, start_ms)
                    &&& animation@.valid()
                },
                Err(e) => animation_type.config_error() == Some(e),
            },
    {
        match animation_type.validate() {
            Err(e) => Err(e),
            Ok(()) => {
                let current_values = match &animation_type {
                    AnimationType::Timed { start_values, .. } => copy_values(start_values),
                    AnimationType::Conditional { start_values, .. } => copy_values(start_values),
                };
                Ok(Self { animation_type, start_ms, current_values, ended: false })
            },
        }
    }

    /// Advances the animation by one tick, taken at clock reading `now_ms`.
    pub fn tick<E: Fn(Operation<V>) -> V>(&mut self, now_ms: u128, eval: &E)
        requires
            old(self)@.valid(),
            evaluator_total(*eval),
        ensures
            final(self)@.valid(),
            old(self)@.ticks_to(final(self)@, now_ms, *eval),
    {
        match &self.animation_type {
            AnimationType::Timed { duration_ms, start_values, end_values, easing_type } => {
                let elapsed_ms: u128 = if now_ms >= self.start_ms {
                    now_ms - self.start_ms
                } else {
                    0
                };
                if elapsed_ms > *duration_ms {
                    self.current_values = copy_values(end_values);
                    self.ended = true;
                } else {
                    let progress = eval(
                        Operation::Ease {
                            easing_type: *easing_type,
                            elapsed_ms,
                            duration_ms: *duration_ms,
                        },
                    );
                    self.current_values = interpolate_all(start_values, end_values, progress, eval);
                }
            },
            AnimationType::Conditional { condition, increase_per_tick, .. } => {
                self.current_values = accumulate_all(&self.current_values, increase_per_tick, eval);
                let done = condition(self.current_values.as_slice());
                proof {
                    assert(condition_says(*condition, self.current_values@, done));
                }
                if done {
                    self.ended = true;
                }
            },
        }
    }

    /// The values as of the last tick.
    pub fn get_current_values(&self) -> (values: &[V])
        ensures
            values@ == self@.values,
    {
        self.current_values.as_slice()
    }

    /// Whether the animation has run its course.
    pub fn has_ended(&self) -> (ended: bool)
        ensures
            ended == self@.ended,
    {
        self.ended
    }
}

} // verus!
