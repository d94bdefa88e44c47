//! A line-oriented text buffer with a cursor kept in character coordinates
//! and a terminal renderer that places it in display columns.

pub mod width;
pub mod text;
pub mod model;
pub mod editor;
pub mod render;
pub mod laws;

pub use editor::{Cursor, Editor};
pub use model::{Command, Outcome};
pub use render::DrawOp;
