//! The report of a run: how many files were classified by date, how many went
//! to the catch-all bucket, and how many could not be placed.

use vstd::prelude::*;

verus! {

/// How the work on one file ended.
#[derive(Clone, Copy, Debug, PartialEq, Eq, Structural)]
pub enum Outcome {
    /// Copied into the directory of its capture date.
    Classified,
    /// Copied into its mirrored directory under the bucket.
    Unclassified,
    /// Not copied: a directory could not be created, no free name was found
    /// or the copy failed.
    Failed,
}

/// How many of `outcomes` are `o`.
pub open spec fn count_of(outcomes: Seq<Outcome>, o: Outcome) -> nat
    decreases outcomes.len(),
{
    if outcomes.len() == 0 {
        0
    } else {
        count_of(outcomes.drop_last(), o) + if outcomes.last() == o {
            1nat
        } else {
            0nat
        }
    }
}

/// The counts of a finished run.
#[derive(Clone, Copy, Debug, PartialEq, Eq, Structural)]
pub struct Summary {
    pub classified: u64,
    pub unclassified: u64,
    pub failed: u64,
}

impl Summary {
    /// Counts each kind of outcome.
    pub fn of(outcomes: &Vec<Outcome>) -> (r: Summary)
        requires
            outcomes@.len() <= u64::MAX,
        ensures
            r.classified == count_of(outcomes@, Outcome::Classified),
            r.unclassified == count_of(outcomes@, Outcome::Unclassified),
            r.failed == count_of(outcomes@, Outcome::Failed),
    {
        let mut r = Summary { classified: 0, unclassified: 0, failed: 0 };
        let mut i: usize = 0;
        while i < outcomes.len()
            invariant
                i <= outcomes@.len() <= u64::MAX,
                r.classified == count_of(outcomes@.subrange(0, i as int), Outcome::Classified),
                r.unclassified == count_of(outcomes@.subrange(0, i as int), Outcome::Unclassified),
                r.failed == count_of(outcomes@.subrange(0, i as int), Outcome::Failed),
                r.classified + r.unclassified + r.failed == i,
            decreases outcomes@.len() - i,
        {
            let ghost prev = outcomes@.subrange(0, i as int);
            let ghost next = outcomes@.subrange(0, i + 1);
            assert(next.drop_last() =~= prev);
            assert(next.last() == outcomes@[i as int]);
            match outcomes[i] {
                Outcome::Classified => r.classified = r.classified + 1,
                Outcome::Unclassified => r.unclassified = r.unclassified + 1,
                Outcome::Failed => r.failed = r.failed + 1,
            }
            i = i + 1;
        }
        assert(outcomes@.subrange(0, outcomes@.len() as int) =~= outcomes@);
        r
    }

    /// Whether every file was placed.
    pub fn all_placed(&self) -> (r: bool)
        ensures
            r == (self.failed == 0),
    {
        self.failed == 0
    }
}

} // verus!
