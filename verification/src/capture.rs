//! The capture extractor's recovery ladder.  The page session evaluates a
//! defensive expression whose outcome is reported here as an event; every
//! failure shape degrades to an empty capture sequence instead of an error.

use vstd::prelude::*;
use crate::models::RawRecord;

verus! {

/// What came back from evaluating the capture-buffer expression in the page
/// context: the call itself failed, it returned no value, it returned a
/// non-string value, the returned text did not deserialize, or it yielded a
/// sequence of raw records.
pub enum CaptureOutcome {
    EvalFailed,
    MissingValue,
    NonStringValue,
    Malformed,
    Parsed(Vec<RawRecord>),
}

/// The capture sequence an outcome stands for: the parsed records on
/// success, the empty sequence on every failure shape.
pub open spec fn extracted_records(o: CaptureOutcome) -> Seq<RawRecord> {
    match o {
        CaptureOutcome::Parsed(v) => v@,
        _ => Seq::empty(),
    }
}

/// Turns an evaluation outcome into the raw capture records, degrading
/// every failure to an empty sequence (extraction never fails).
pub fn extract_records(outcome: CaptureOutcome) -> (r: Vec<RawRecord>)
    ensures
        r@ == extracted_records(outcome),
{
    match outcome {
        CaptureOutcome::Parsed(v) => v,
        _ => Vec::new(),
    }
}

} // verus!
