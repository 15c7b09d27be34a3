//! Loudness normalization for Visual Pinball.
//!
//! Every audio source of a cabinet is measured to EBU R128 once and corrected
//! with a single constant gain. This crate holds the parts of that work that
//! are pure logic: reading and rewriting the AltSound and PUP tables, the
//! measurement cache, the pack fingerprint, and the engine signature.

pub mod decode;
pub mod digest;
pub mod text;
pub mod engine;
pub mod files;
pub mod stamp;
pub mod cache;
pub mod table;
pub mod altsound;
pub mod pup;
pub mod measure;
pub mod order;
pub mod pup_measure;
pub mod sort;
