//! The verified logic of a terminal coding agent: its editing tools, provider
//! protocols, sandbox policies, session plugins and user-interface state.
pub mod bounded;
pub mod bytes;
pub mod digest;
pub mod environment;
pub mod glob;
pub mod history;
pub mod ids;
pub mod json;
pub mod lists;
pub mod model;
pub mod paths;
pub mod plugins;
pub mod providers;
pub mod testkit;
pub mod text;
pub mod ui;
pub mod utils;
