//! Duplicate-media detection engine.
//!
//! The library finds duplicate and near-duplicate media files in a supplied
//! list of file records.  It fingerprints content (an exact 256-bit digest
//! and a 64-bit perceptual fingerprint for images), groups records whose
//! fingerprints agree, and selects the member of each group that is the
//! recommended original to keep.  All file and terminal I/O lives outside
//! this crate; the engine works on plain values handed to it.

pub mod app_state;
pub mod duplicate_group;
pub mod error;
pub mod exact_hash;
pub mod file_collector;
pub mod file_info;
pub mod format;
pub mod hash_group;
pub mod key_handler;
pub mod media_filter;
pub mod perceptual_hash;
pub mod strutil;
