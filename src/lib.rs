//! A backend-agnostic retained-mode widget tree: containers that own widgets, route
//! input to them, track dirty state and delegate geometry to a layout strategy.
pub mod binding;
pub mod container;
pub mod decorator;
pub mod event;
pub mod flags;
pub mod group;
pub mod layout;
pub mod proxy;
pub mod signal;
pub mod state;
pub mod widget;
pub mod widgets;
pub mod window;

pub use crate::container::Container;
pub use crate::decorator::{Decorator, EmptyDecorator};
pub use crate::layout::{EmptyLayout, Layout};
