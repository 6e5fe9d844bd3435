//! Reconciliation core of an audio device daemon: configuration rules, device
//! classification, default-device selection and the lifecycle of derived
//! ("remap") devices, driven by events and answered with actions.

pub mod table;
pub mod config;
pub mod matching;
pub mod state;
pub mod module_args;
pub mod laws;
