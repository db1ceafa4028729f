//! The call boundary: defensive validation and batch dispatch decisions.
//!
//! The classifier is driven from a foreign caller that hands over raw
//! handles, buffers and arrays, any of which may be absent. The boundary
//! never trusts them: a single classification degrades to the safe
//! reject code when the handle or the query is absent, and a batch call
//! answers a distinct status code for each absent input, touching the
//! output only on full success. Presence is modeled here as booleans, so
//! the decisions are verified for every combination the caller can
//! produce.

use vstd::prelude::*;

use crate::classifier::{Classifier, MatchOutcome, REJECT};

verus! {

/// Batch status: every input was present and the output array holds one
/// classification per query, in input order.
pub const BATCH_OK: i32 = 1;

/// Batch status: the classifier handle was absent.
pub const BATCH_NO_HANDLE: i32 = 0;

/// Batch status: the array of query lengths was absent.
pub const BATCH_NO_LENGTHS: i32 = 2;

/// Batch status: the array of query buffers was absent.
pub const BATCH_NO_DATA: i32 = 3;

/// Batch status: one of the query buffers was absent.
pub const BATCH_NULL_QUERY: i32 = 4;

/// Batch status: the output array was absent.
pub const BATCH_NO_OUTPUT: i32 = 5;

/// The code a single classification call answers when the handle and the
/// query are not both present: the safe default, reject.
pub open spec fn single_guard_spec(handle_present: bool, query_present: bool) -> Option<i32> {
    if handle_present && query_present {
        None
    } else {
        Some(REJECT)
    }
}

/// Guards one classification call: `None` means both inputs are present
/// and classification may proceed; otherwise the call must answer the
/// safe default code without touching anything.
pub fn single_guard(handle_present: bool, query_present: bool) -> (r: Option<i32>)
    ensures
        r == single_guard_spec(handle_present, query_present),
{
    if handle_present && query_present {
        None
    } else {
        Some(REJECT)
    }
}

/// The status a batch call must answer, checking the handle, the lengths
/// array, the data array, each query buffer and the output array in that
/// order.
pub open spec fn batch_status_spec(
    handle_present: bool,
    lengths_present: bool,
    data_present: bool,
    queries_present: Seq<bool>,
    output_present: bool,
) -> int {
    if !handle_present {
        BATCH_NO_HANDLE as int
    } else if !lengths_present {
        BATCH_NO_LENGTHS as int
    } else if !data_present {
        BATCH_NO_DATA as int
    } else if exists|i: int| 0 <= i < queries_present.len() && !(#[trigger] queries_present[i]) {
        BATCH_NULL_QUERY as int
    } else if !output_present {
        BATCH_NO_OUTPUT as int
    } else {
        BATCH_OK as int
    }
}

/// Validates the inputs of one batch call and answers its status code.
/// Only a fully present batch may touch the output array.
pub fn batch_status(
    handle_present: bool,
    lengths_present: bool,
    data_present: bool,
    queries_present: &Vec<bool>,
    output_present: bool,
) -> (r: i32)
    ensures
        r == batch_status_spec(
            handle_present,
            lengths_present,
            data_present,
            queries_present@,
            output_present,
        ),
        r == BATCH_OK ==> queries_present@ =~= Seq::new(queries_present@.len(), |i: int| true),
{
    if !handle_present {
        return BATCH_NO_HANDLE;
    }
    if !lengths_present {
        return BATCH_NO_LENGTHS;
    }
    if !data_present {
        return BATCH_NO_DATA;
    }
    let n = queries_present.len();
    let mut i: usize = 0;
    while i < n
        invariant
            0 <= i <= n,
            n == queries_present@.len(),
            handle_present,
            lengths_present,
            data_present,
            forall|k: int| 0 <= k < i ==> queries_present@[k],
        decreases n - i,
    {
        if !queries_present[i] {
            proof {
                assert(!queries_present@[i as int]);
                assert(exists|k: int|
                    0 <= k < queries_present@.len() && !(#[trigger] queries_present@[k]));
            }
            return BATCH_NULL_QUERY;
        }
        i += 1;
    }
    if !output_present {
        return BATCH_NO_OUTPUT;
    }
    BATCH_OK
}

/// The stage summaries of one query in a batch: how many events its
/// samples yielded, how many samples were left after deduplication, and
/// what the matcher reported on its window.
#[derive(Clone, Copy, PartialEq, Eq, Structural, Debug)]
pub struct QuerySummary {
    pub n_events: usize,
    pub n_dedup: usize,
    pub outcome: MatchOutcome,
}

/// Classifies a whole batch of stage summaries, index for index: the
/// code at position `i` is exactly what a single classification of query
/// `i` yields, so batch dispatch never reorders results.
pub fn classify_all(c: &Classifier, items: &Vec<QuerySummary>) -> (r: Vec<i32>)
    ensures
        r@.len() == items@.len(),
        forall|i: int|
            0 <= i < items@.len() ==> r@[i] == c.classify_spec(
                items@[i].n_events as int,
                items@[i].n_dedup as int,
                items@[i].outcome,
            ),
{
    let n = items.len();
    let mut r: Vec<i32> = Vec::new();
    let mut i: usize = 0;
    while i < n
        invariant
            0 <= i <= n,
            n == items@.len(),
            r@.len() == i,
            forall|k: int|
                0 <= k < i ==> r@[k] == c.classify_spec(
                    items@[k].n_events as int,
                    items@[k].n_dedup as int,
                    items@[k].outcome,
                ),
        decreases n - i,
    {
        let item = items[i];
        let code = c.classify_core(item.n_events, item.n_dedup, item.outcome);
        r.push(code);
        i += 1;
    }
    r
}

} // verus!
