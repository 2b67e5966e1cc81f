use crate::baseline::{is_valid_record, load_baseline, BaselineRead, GuardError};
use crate::compare::{compare, drift, drifts_view, DriftRecord};
use crate::fingerprint::{
    compute_fingerprints, fingerprints_of, fingerprints_view, warnings_of, DirEntryRead,
    ScanReport,
};
use vstd::prelude::*;
use vstd::string::StrSliceExecFns;

verus! {

/// Relies on `std::path::Path::is_dir`, which reads the file system: no
/// outcome is promised.
#[verifier::external_body]
fn path_is_dir(path: &str) -> (r: bool) {
    std::path::Path::new(path).is_dir()
}

/// Whether the path names an existing directory. The empty path names none.
pub fn is_valid_directory(path: &str) -> (r: bool)
    ensures
        path@.len() == 0 ==> !r,
{
    if path.unicode_len() == 0 {
        false
    } else {
        path_is_dir(path)
    }
}

/// The result of one compare cycle.
pub struct CompareOutcome {
    /// The drift records; empty when there is no drift.
    pub drifts: Vec<DriftRecord>,
    /// The fresh scan of the directory, with its warnings.
    pub scan: ScanReport,
}

/// One compare cycle: loads the baseline, fingerprints the directory's entries
/// and classifies every path against the baseline.
pub fn compare_with_snapshot(baseline: BaselineRead, entries: &Vec<DirEntryRead>) -> (r: Result<
    CompareOutcome,
    GuardError,
>)
    ensures
        baseline is Missing ==> r == Err::<CompareOutcome, GuardError>(
            GuardError::BaselineMissing,
        ),
        baseline is Unparsable ==> r == Err::<CompareOutcome, GuardError>(
            GuardError::BaselineCorrupt,
        ),
        baseline matches BaselineRead::Parsed(v) ==> {
            if is_valid_record(fingerprints_view(v@)) {
                r matches Ok(o) && drifts_view(o.drifts@) == drift(
                    fingerprints_view(v@),
                    fingerprints_of(entries@),
                ) && fingerprints_view(o.scan.fingerprints@) == fingerprints_of(entries@)
                    && o.scan.warnings@ == warnings_of(entries@)
            } else {
                r == Err::<CompareOutcome, GuardError>(GuardError::BaselineCorrupt)
            }
        },
{
    let stored = match load_baseline(baseline) {
        Ok(b) => b,
        Err(e) => {
            return Err(e);
        },
    };
    let scan = compute_fingerprints(entries);
    let drifts = compare(&stored, &scan.fingerprints);
    Ok(CompareOutcome { drifts, scan })
}

} // verus!
