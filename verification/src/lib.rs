//! Verified core of a sound-font library manager: the library listing,
//! profiles of ordered font names, their comparison and export plan, and the
//! browser's state machine.
pub mod actions;
pub mod app;
pub mod display;
pub mod laws;
pub mod library;
pub mod paths;
pub mod profile;
pub mod sorting;
pub mod text;
