//! Escape-time evaluation.
//!
//! The Mandelbrot iteration z := z·z + c runs on floating-point complex
//! numbers, which the verified library cannot hold.  What it can hold is the
//! decision structure: on each iteration the caller computes whether the
//! accumulator's squared magnitude exceeded four and records that flag here;
//! this module decides, from the flags alone, when to stop and what the
//! evaluation reports.  The report is the index of the first recorded escape,
//! or inconclusive once the iteration budget is exhausted without one.

use vstd::prelude::*;

use crate::occurrence::first_occurrence;
use crate::occurrence::is_first_occurrence;
use crate::occurrence::lemma_first_occurrence_is;
use crate::occurrence::lemma_first_occurrence_none;
use crate::occurrence::lemma_no_first_occurrence;

verus! {

/// Outcome of an escape-time evaluation: either the first iteration index at
/// which the accumulator left the circle of radius two, or no escape within
/// the iteration budget.
#[derive(Clone, Copy, Debug, PartialEq, Eq, Structural)]
pub enum EscapeResult {
    Escaped(u32),
    Inconclusive,
}

/// The index of the first escape recorded in `flags`, if any.
pub open spec fn first_escape(flags: Seq<bool>) -> Option<int> {
    first_occurrence(flags, true)
}

/// The report owed for a run whose per-iteration escape flags are `flags`:
/// the first recorded escape, or inconclusive when there is none.
pub open spec fn escape_report(flags: Seq<bool>) -> EscapeResult {
    match first_escape(flags) {
        Some(i) => EscapeResult::Escaped(i as u32),
        None => EscapeResult::Inconclusive,
    }
}

/// A run that records no escape at all is inconclusive.  In particular a
/// point of the Mandelbrot set proper, whose accumulator never leaves the
/// circle of radius two, is reported inconclusive under every budget.
pub proof fn lemma_no_escape_inconclusive(flags: Seq<bool>)
    requires
        forall|j: int| 0 <= j < flags.len() ==> !flags[j],
    ensures
        escape_report(flags) == EscapeResult::Inconclusive,
{
    lemma_first_occurrence_none(flags, true);
}

/// A budget of zero records no flags, so the report is inconclusive.
pub proof fn lemma_zero_budget_inconclusive()
    ensures
        escape_report(Seq::<bool>::empty()) == EscapeResult::Inconclusive,
{
    lemma_no_escape_inconclusive(Seq::<bool>::empty());
}

/// A run whose very first flag records an escape is reported as escaped at
/// iteration zero.
pub proof fn lemma_escape_at_zero(flags: Seq<bool>)
    requires
        flags.len() > 0,
        flags[0],
    ensures
        escape_report(flags) == EscapeResult::Escaped(0),
{
    assert(is_first_occurrence(flags, true, 0));
    lemma_first_occurrence_is(flags, true, 0);
}

/// Monotonicity in the budget: once a run escapes at index `i`, every longer
/// run agreeing with it up to `i` escapes at the same index.  Raising the
/// iteration limit past an observed escape never changes the report.
pub proof fn lemma_escape_monotone(short: Seq<bool>, long: Seq<bool>, i: int)
    requires
        first_escape(short) == Some(i),
        long.len() > i,
        forall|j: int| 0 <= j <= i ==> long[j] == short[j],
    ensures
        first_escape(long) == Some(i),
        escape_report(long) == escape_report(short),
{
    let w = choose|k: int| is_first_occurrence(short, true, k);
    assert(is_first_occurrence(short, true, w));
    assert(w == i);
    assert forall|j: int| 0 <= j < i implies long[j] != true by {
        assert(short[j] != true);
    }
    assert(is_first_occurrence(long, true, i));
    lemma_first_occurrence_is(long, true, i);
}

/// Report the escape time recorded in a complete vector of flags: the first
/// index holding `true`, or inconclusive when there is none.
pub fn escape_time_from_flags(flags: &Vec<bool>) -> (r: EscapeResult)
    requires
        flags@.len() <= u32::MAX,
    ensures
        r == escape_report(flags@),
{
    let n = flags.len();
    let mut k: usize = 0;
    while k < n
        invariant
            n == flags@.len() <= u32::MAX,
            k <= n,
            forall|j: int| 0 <= j < k ==> !flags@[j],
        decreases n - k,
    {
        if flags[k] {
            proof {
                assert(is_first_occurrence(flags@, true, k as int));
                lemma_first_occurrence_is(flags@, true, k as int);
            }
            return EscapeResult::Escaped(k as u32);
        }
        k += 1;
    }
    proof {
        lemma_no_escape_inconclusive(flags@);
    }
    EscapeResult::Inconclusive
}

/// Step-by-step escape-time evaluator.
///
/// The caller runs the floating-point iteration itself: while `active`
/// reports true it advances the accumulator once, computes whether the
/// squared magnitude exceeded four, and records that flag here.  The timer
/// stops asking as soon as an escape is recorded or the budget is spent, and
/// `outcome` then reports exactly what the recorded flags dictate.
pub struct EscapeTimer {
    limit: u32,
    steps: u32,
    escaped_at: Option<u32>,
    history: Ghost<Seq<bool>>,
}

impl EscapeTimer {
    /// The iteration budget the timer was created with.
    pub closed spec fn limit_spec(self) -> u32 {
        self.limit
    }

    /// The flags recorded so far, in the order they were recorded.
    pub closed spec fn history(self) -> Seq<bool> {
        self.history@
    }

    /// The timer's fields agree with its recorded history.
    pub closed spec fn wf(self) -> bool {
        &&& self.steps == self.history@.len()
        &&& self.steps <= self.limit
        &&& match self.escaped_at {
            Some(i) => i + 1 == self.steps && is_first_occurrence(self.history@, true, i as int),
            None => first_escape(self.history@) == None::<int>,
        }
    }

    /// One more flag is wanted: the budget is not exhausted and no escape
    /// has been recorded yet.
    pub open spec fn spec_active(self) -> bool {
        &&& self.history().len() < self.limit_spec()
        &&& first_escape(self.history()) == None::<int>
    }

    /// A fresh timer with iteration budget `limit` and nothing recorded.
    pub fn new(limit: u32) -> (r: Self)
        ensures
            r.wf(),
            r.limit_spec() == limit,
            r.history() == Seq::<bool>::empty(),
    {
        proof {
            lemma_first_occurrence_none(Seq::<bool>::empty(), true);
        }
        EscapeTimer { limit, steps: 0, escaped_at: None, history: Ghost(Seq::empty()) }
    }

    /// Whether the caller should run one more iteration and record its flag.
    pub fn active(&self) -> (b: bool)
        requires
            self.wf(),
        ensures
            b == self.spec_active(),
    {
        proof {
            if let Some(i) = self.escaped_at {
                lemma_first_occurrence_is(self.history@, true, i as int);
            }
        }
        self.steps < self.limit && self.escaped_at.is_none()
    }

    /// Record whether the iteration just run left the circle of radius two.
    pub fn record(&mut self, escaped: bool)
        requires
            old(self).wf(),
            old(self).spec_active(),
        ensures
            final(self).wf(),
            final(self).limit_spec() == old(self).limit_spec(),
            final(self).history() == old(self).history().push(escaped),
    {
        proof {
            lemma_no_first_occurrence(self.history@, true);
        }
        let ghost extended = self.history@.push(escaped);
        self.history = Ghost(extended);
        if escaped {
            self.escaped_at = Some(self.steps);
            proof {
                assert(is_first_occurrence(extended, true, self.steps as int));
            }
        } else {
            proof {
                lemma_first_occurrence_none(extended, true);
            }
        }
        self.steps = self.steps + 1;
    }

    /// The report for the recorded run: the first recorded escape, or
    /// inconclusive when the whole budget ran without one.
    pub fn outcome(&self) -> (r: EscapeResult)
        requires
            self.wf(),
            !self.spec_active(),
        ensures
            r == escape_report(self.history()),
            r is Inconclusive ==> self.history().len() == self.limit_spec(),
            r matches EscapeResult::Escaped(i) ==> i < self.limit_spec(),
    {
        match self.escaped_at {
            Some(i) => {
                proof {
                    lemma_first_occurrence_is(self.history@, true, i as int);
                }
                EscapeResult::Escaped(i)
            },
            None => EscapeResult::Inconclusive,
        }
    }
}

} // verus!
