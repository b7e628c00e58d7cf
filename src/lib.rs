//! Window list parsing, fuzzy ranking and the selection state of a window
//! switcher overlay for the AeroSpace window manager.
pub mod text;
pub mod window;
pub mod ranking;
pub mod switcher;
