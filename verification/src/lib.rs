//! Verified core of a small menu client: the animation engine that drives
//! numeric property vectors frame by frame, and the pointer state machine of
//! its buttons.
//!
//! The engine never computes on the animated quantities itself. It decides
//! *which* arithmetic operation is due and hands it to an evaluator supplied by
//! the caller, so the value type `V` is free (an `f64` in a graphical client)
//! while every decision about lifecycle, identity and ordering is proved.

pub mod animations;
pub mod clock;
pub mod menu;
