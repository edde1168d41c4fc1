//! Core of a desktop cookie-profile switcher: scanning a directory for
//! cookie files named by a fixed convention, deriving stable display
//! identities from the filenames, resolving the persisted directory
//! preference, and deciding what each user action (refresh, activate,
//! change directory) does to the application state. All filesystem work
//! stays with the caller; every function here is specified and verified
//! over the values that work produces.
pub mod discovery;
pub mod naming;
pub mod paths;
pub mod state;
pub mod text;
