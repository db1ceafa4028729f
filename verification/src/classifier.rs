//! The classifier and its decision engine.
//!
//! A classifier owns the calibration threshold, the matcher parameters
//! and the preprocessed-query window size. Classification itself runs in
//! three steps outside this crate — event detection, normalization with
//! deduplication, and the scouting alignment — and every decision between
//! and after those steps stands here: the two length gates and the
//! three-way verdict. The functions take the integer summaries of the
//! outside stages as arguments, so the decisions are verified for every
//! value those stages can produce.

use vstd::prelude::*;

verus! {

/// A read clearly does not match the reference.
pub const REJECT: i32 = 0;

/// A read matches the reference.
pub const ACCEPT: i32 = 1;

/// Too little signal survived preprocessing to judge the read.
pub const INSUFFICIENT: i32 = 2;

/// What the scouting matcher reported for one query window: no candidate
/// finished under the threshold, or a best score that is strictly below
/// the threshold, or one that is not.
#[derive(Clone, Copy, PartialEq, Eq, Structural, Debug)]
pub enum MatchOutcome {
    NoMatch,
    ScoreBelowThreshold,
    ScoreAtOrAboveThreshold,
}

/// The immutable heart of one classifier. `threshold_micros` holds the
/// calibration threshold in millionths; `power_percent` is the dedup
/// aggressiveness as the raw integer percentage; `reference_len` is the
/// length of the assembled two-strand reference trace, which is never
/// empty.
#[derive(Clone, Copy, PartialEq, Eq, Structural, Debug)]
pub struct Classifier {
    pub threshold_micros: i64,
    pub num_scouts: usize,
    pub num_packs: usize,
    pub querysize: usize,
    pub power_percent: u32,
    pub reference_len: usize,
}

impl Classifier {
    /// A classifier is well formed when it owns a non-empty reference.
    pub open spec fn wf(self) -> bool {
        self.reference_len > 0
    }

    /// Packages a classifier from the products of construction: the
    /// calibration hit, whether the signal model loaded, and the length
    /// of the assembled reference trace. Construction succeeds exactly
    /// when every part is present and the reference is non-empty; there
    /// is no partial classifier.
    pub fn assemble(
        num_scouts: usize,
        num_packs: usize,
        querysize: usize,
        power_percent: u32,
        calibration: Option<(i64, i64)>,
        model_loaded: bool,
        reference_len: Option<usize>,
    ) -> (r: Option<Classifier>)
        ensures
            r is Some <==> (calibration is Some && model_loaded && reference_len is Some
                && reference_len.unwrap() > 0),
            r is Some ==> {
                let c = r.unwrap();
                &&& c.wf()
                &&& c.threshold_micros == calibration.unwrap().0
                &&& c.num_scouts == num_scouts
                &&& c.num_packs == num_packs
                &&& c.querysize == querysize
                &&& c.power_percent == power_percent
                &&& c.reference_len == reference_len.unwrap()
            },
    {
        let (threshold_micros, _specificity_micros) = match calibration {
            Some(v) => v,
            None => {
                return None;
            },
        };
        if !model_loaded {
            return None;
        }
        let reference_len = match reference_len {
            Some(n) => n,
            None => {
                return None;
            },
        };
        if reference_len == 0 {
            return None;
        }
        Some(
            Classifier {
                threshold_micros,
                num_scouts,
                num_packs,
                querysize,
                power_percent,
                reference_len,
            },
        )
    }

    /// A preprocessed sequence of `len` elements is too short for this
    /// classifier's query window.
    pub fn too_short(&self, len: usize) -> (r: bool)
        ensures
            r <==> len < self.querysize,
    {
        len < self.querysize
    }

    /// The verdict of one complete classification, as a spec: a query
    /// that lost too much signal at either gate is insufficient whatever
    /// the matcher would have said; otherwise the matcher's outcome
    /// decides.
    pub open spec fn classify_spec(
        self,
        n_events: int,
        n_dedup: int,
        outcome: MatchOutcome,
    ) -> int {
        if n_events < self.querysize {
            INSUFFICIENT as int
        } else if n_dedup < self.querysize {
            INSUFFICIENT as int
        } else {
            verdict_spec(outcome)
        }
    }

    /// Decides one classification from the stage summaries: the number
    /// of detected events, the number of deduplicated samples, and the
    /// matcher's outcome on the query window.
    pub fn classify_core(&self, n_events: usize, n_dedup: usize, outcome: MatchOutcome) -> (r:
        i32)
        ensures
            r == self.classify_spec(n_events as int, n_dedup as int, outcome),
            r == REJECT || r == ACCEPT || r == INSUFFICIENT,
    {
        if n_events < self.querysize {
            return INSUFFICIENT;
        }
        if n_dedup < self.querysize {
            return INSUFFICIENT;
        }
        verdict(outcome)
    }
}

/// The three-way mapping from a matcher outcome to a classification: a
/// score strictly below the threshold accepts; a score at or above it
/// rejects; no confident match within budget rejects as well.
pub open spec fn verdict_spec(outcome: MatchOutcome) -> int {
    match outcome {
        MatchOutcome::NoMatch => REJECT as int,
        MatchOutcome::ScoreBelowThreshold => ACCEPT as int,
        MatchOutcome::ScoreAtOrAboveThreshold => REJECT as int,
    }
}

/// Maps the matcher's outcome to the classification code.
pub fn verdict(outcome: MatchOutcome) -> (r: i32)
    ensures
        r == verdict_spec(outcome),
{
    match outcome {
        MatchOutcome::NoMatch => REJECT,
        MatchOutcome::ScoreBelowThreshold => ACCEPT,
        MatchOutcome::ScoreAtOrAboveThreshold => REJECT,
    }
}

/// Classification is deterministic: one classifier and equal stage
/// summaries always yield the same classification.
pub proof fn lemma_classify_deterministic(
    c1: Classifier,
    c2: Classifier,
    n_events1: int,
    n_events2: int,
    n_dedup1: int,
    n_dedup2: int,
    outcome1: MatchOutcome,
    outcome2: MatchOutcome,
)
    requires
        c1 == c2,
        n_events1 == n_events2,
        n_dedup1 == n_dedup2,
        outcome1 == outcome2,
    ensures
        c1.classify_spec(n_events1, n_dedup1, outcome1) == c2.classify_spec(
            n_events2,
            n_dedup2,
            outcome2,
        ),
{
}

/// A query that yields fewer events, or fewer deduplicated samples, than
/// the query window is insufficient no matter what the matcher would
/// report.
pub proof fn lemma_short_query_insufficient(
    c: Classifier,
    n_events: int,
    n_dedup: int,
    outcome: MatchOutcome,
)
    requires
        n_events < c.querysize || n_dedup < c.querysize,
    ensures
        c.classify_spec(n_events, n_dedup, outcome) == INSUFFICIENT as int,
{
}

} // verus!
