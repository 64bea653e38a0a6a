//! Sequence diagrams: participants, messages, layout and rendering.
pub mod database;
pub mod layout;
pub mod renderer;
