//! Widgets of the menu, as far as they have logic of their own.

pub mod button;
