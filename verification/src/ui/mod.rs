//! What the user sees and types, apart from any terminal.
pub mod columns;
pub mod cursor;
pub mod fragments;
pub mod host;
pub mod state;
pub mod terminal;
