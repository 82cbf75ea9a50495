//! The whole leak-detection pass over already-loaded inputs: catalog
//! construction, binary scanning and deterministic ordering, as one
//! function of the occurrence sequence, the rules and the binary's bytes.

use vstd::prelude::*;

use crate::catalog::{build_catalog, occ_views, spec_build_catalog, CatalogConfig, LiteralOccurrence};
use crate::information_leak::{ConfirmedLeak, ConfirmedLeakView};
use crate::report::{dedup_confirmed_leaks, sort_confirmed_leaks, spec_dedup_adjacent, spec_sort};
use crate::scanner::{confirmed_views, find_leaks_in_binary, spec_scan};
use crate::suppressions::Suppressions;
use crate::catalog::OccView;

verus! {

/// The ordered, deduplicated confirmed-leak sequence the pipeline reports
/// for the given occurrences, rules, configuration and binary contents: a
/// pure function of those inputs.
pub open spec fn spec_pipeline(
    occs: Seq<OccView>,
    sup: Option<Suppressions>,
    config: CatalogConfig,
    binary_file: Seq<char>,
    data: Seq<u8>,
) -> Seq<ConfirmedLeakView> {
    spec_dedup_adjacent(
        spec_sort(spec_scan(spec_build_catalog(occs, sup, config), binary_file, data)),
    )
}

/// Runs the full pass: builds the catalog from the occurrences, scans the
/// binary's bytes for every candidate, and orders and deduplicates the
/// confirmed leaks under the reporting order.
pub fn run_pipeline(
    occurrences: Vec<LiteralOccurrence>,
    config: CatalogConfig,
    suppressions: &Option<Suppressions>,
    binary_file_path: &String,
    binary_data: &Vec<u8>,
) -> (r: Vec<ConfirmedLeak>)
    ensures
        confirmed_views(r@) == spec_pipeline(
            occ_views(occurrences@),
            *suppressions,
            config,
            binary_file_path@,
            binary_data@,
        ),
{
    let catalog = build_catalog(occurrences, config, suppressions);
    let confirmed = find_leaks_in_binary(binary_file_path, binary_data, &catalog);
    let sorted = sort_confirmed_leaks(confirmed);
    dedup_confirmed_leaks(&sorted)
}

/// Running the pipeline twice against an unchanged occurrence set, rules
/// and binary yields the identical confirmed-leak sequence.
pub proof fn lemma_pipeline_idempotent(
    occs: Seq<OccView>,
    sup: Option<Suppressions>,
    config: CatalogConfig,
    binary_file: Seq<char>,
    data: Seq<u8>,
    r1: Seq<ConfirmedLeakView>,
    r2: Seq<ConfirmedLeakView>,
)
    requires
        r1 == spec_pipeline(occs, sup, config, binary_file, data),
        r2 == spec_pipeline(occs, sup, config, binary_file, data),
    ensures
        r1 == r2,
{
}

} // verus!
