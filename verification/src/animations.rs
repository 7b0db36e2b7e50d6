//! The animation engine: easing names, single animations, their registry,
//! and what is proved of the registry beyond its contracts.

pub mod animation;
pub mod easing;
pub mod laws;
pub mod manager;

pub use animation::{Animation, AnimationError, AnimationType, AnimationView, Operation};
pub use easing::EasingType;
pub use manager::{AnimationsManager, ManagerView};
