//! Scoring of a played musical performance against a reference performance.
//!
//! A recording arrives as frame-by-frame pitch samples and onset times. It is
//! segmented into notes, its rhythm is taken from its onsets, and the notes
//! and rhythm of the played recording are aligned with those of the
//! reference and scored.
//!
//! All quantities are fixed-point integers: times in milliseconds,
//! frequencies in millihertz, pitch distances in cents, and scores in
//! millionths of one.

pub mod ai_client;
pub mod audio_analysis;
pub mod comparison;
pub mod listing;
pub mod names;
pub mod pitch;
pub mod processor;
pub mod rhythm;
pub mod scoring;
pub mod scoring_laws;
pub mod segment;
pub mod segment_laws;
pub mod stats;
pub mod text;
pub mod tuning;
pub mod wide;
