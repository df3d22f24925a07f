//! Scanning one package target: every parsed source file of a target
//! directory is classified, filtered by the directory convention alone.

use vstd::prelude::*;

use crate::check_git::{is_in_valid_dir, is_in_valid_dir_spec, scan_filtered, units_findings,
    valid_dir_pred};
use crate::checks::{default_flagged, FindingSet, SourceUnit};

verus! {

/// Returns false for any path under a directory that should be excluded
/// based on cargo conventions.
pub fn is_valid_dir(file_path: &str) -> (r: bool)
    ensures
        r == is_in_valid_dir_spec(file_path@),
{
    is_in_valid_dir(file_path)
}

/// Iterates through every parsed file of one package target and returns
/// every safety infraction found, de-duplicated. Files are filtered by the
/// directory convention alone: the caller enumerates Rust sources only.
pub fn safety_infractions(units: &Vec<SourceUnit>) -> (r: FindingSet)
    ensures
        r.wf(),
        r@ == units_findings(units@, default_flagged(), valid_dir_pred()),
{
    scan_filtered(units, false)
}

} // verus!
