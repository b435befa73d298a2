//! Leaf widgets.
pub mod button;
