//! The user-interface state that does not depend on drawing: which element
//! is hovered, clicked or focused, and how elements are grouped.

pub mod group;
pub mod state;
pub mod style;
pub mod element;
pub mod manager;
pub mod board;

pub use element::Element;
pub use group::Group;
pub use manager::UiManager;
pub use state::State;
