//! State engine of a Wayland compositor: a property store keyed by window and
//! client ids, the linked stacking orders built on it, and focus handling;
//! with the toolkit's document types and event queue, and the renderer's
//! viewport.

pub mod atmosphere;
pub mod dom;
pub mod event;
pub mod ids;
pub mod input;
pub mod property;
pub mod region;
pub mod task;
pub mod utils;
pub mod viewport;

pub use atmosphere::skiplist::VisibleWindowIterator;
pub use atmosphere::{AtmosError, Atmosphere, FocusNotice};
pub use ids::{ClientId, WindowId};
pub use property::{ClientProperty, GlobalProperty, WindowProperty};
