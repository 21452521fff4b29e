//! Wi-Fi access-point discovery core.
//!
//! The library parses the text output of external scanning tools into
//! canonical Wi-Fi records, validates hardware addresses, deduplicates and
//! orders the records, and drives an ordered fallback chain of probe
//! adapters.  All parsing and chain logic is pure and verified; running the
//! external tools themselves is left to the surrounding application.

pub mod aggregate;
pub mod bssid;
pub mod chain;
pub mod interfaces;
pub mod parse;
pub mod record;
pub mod text;
