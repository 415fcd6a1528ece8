//! Extraction of per-player rating histories from an attribute dump, and the
//! bookkeeping that keeps a display in step with the file as it changes.

pub mod config;
pub mod debounce;
pub mod history;
pub mod key;
pub mod scan;
pub mod store;
pub mod text;
pub mod xml;
