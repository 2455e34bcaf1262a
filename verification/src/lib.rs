//! Verified core of a secret-capture pipeline.
//!
//! A browser session (outside this library) observes raw capture records:
//! loosely typed observations of a `secret` string together with a `version`
//! that may arrive as a number, a numeric string, or nested inside the
//! captured object.  This library holds the verified logic of the pipeline:
//! validating and deduplicating those records into a canonical
//! version-to-secret mapping, deriving the three output representations
//! (plain records, codepoint records, and a decimal-keyed dictionary), and
//! rendering them as JSON text ready to be written to the output files.

pub mod models;
pub mod numerals;
pub mod normalize;
pub mod render;
pub mod summarizer;
pub mod capture;
