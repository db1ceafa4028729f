//! Verified core of a read-until signal classifier.
//!
//! The crate holds the decision logic of a real-time nanopore read
//! classifier: parsing and exact-key lookup of a calibration table,
//! front-trimming of raw sample streams, the length gates and the
//! accept/reject/insufficient verdict of the classification pipeline, and
//! the validation and index-preserving gather of the batch boundary.
//!
//! Signal synthesis, event detection, normalization, deduplication and the
//! scouting alignment itself work on floating-point traces and live outside
//! this crate; the functions here take their integer summaries and outcomes
//! as arguments, so every decision the classifier makes is verified for
//! every value those stages can hand back.

pub mod boundary;
pub mod calibration;
pub mod classifier;
pub mod signal;
pub mod text;
