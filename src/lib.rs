//! Key-combination model and input-device bookkeeping for a key remapping
//! configuration editor.
//!
//! Everything here is plain data and decisions: opening device nodes,
//! reading events and (de)serialising configuration files happen in the
//! surrounding application, which hands plain values to this library.
pub mod key_code;
pub mod key_combo;
pub mod key_registry;
pub mod order;
pub mod config_file;
pub mod deviceinfo;
pub mod event_logger;
