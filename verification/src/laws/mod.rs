//! What the operations of the library do, stated over their inputs and results alone.

pub mod calls;
pub mod displays;
pub mod form;
pub mod grid;
pub mod lists;
pub mod picker;
pub mod rotation;
pub mod saving;
pub mod scan;
pub mod search;
pub mod text;
