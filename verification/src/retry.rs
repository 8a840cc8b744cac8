//! The bounded-retry policy of live ingestion: a freshly created replay
//! file may still be mid-write, so parsing is attempted a fixed number of
//! times with a pause between failures, then abandoned silently.

use vstd::prelude::*;

verus! {

/// A bounded-retry policy: how many attempts, and the pause after a
/// failure.
#[derive(Debug, Clone, Copy, PartialEq, Eq, Structural)]
pub struct RetryPolicy {
    /// Attempts in all; at least one is always made.
    pub max_attempts: u32,
    /// Seconds to pause between one failure and the next attempt.
    pub backoff_secs: u32,
}

/// Attempts a policy-driven loop performs when the i-th attempt succeeds
/// exactly when `outcomes[i]`: it stops at the first success, and after
/// `max` failed attempts.
pub open spec fn spec_attempts_used(max: nat, outcomes: Seq<bool>) -> nat
    decreases max,
{
    if max == 0 {
        0
    } else if outcomes.len() > 0 && outcomes[0] {
        1
    } else if outcomes.len() == 0 {
        0
    } else {
        1 + spec_attempts_used((max - 1) as nat, outcomes.drop_first())
    }
}

/// Whether such a loop ends in success: some attempt within the budget
/// succeeds.
pub open spec fn spec_retry_succeeds(max: nat, outcomes: Seq<bool>) -> bool {
    exists|i: int| 0 <= i < max && i < outcomes.len() && outcomes[i]
}

impl RetryPolicy {
    /// The policy live ingestion uses for fresh replay files: three
    /// attempts, one second apart.
    pub fn replay_ingest() -> (r: RetryPolicy)
        ensures
            r.max_attempts == 3,
            r.backoff_secs == 1,
    {
        RetryPolicy { max_attempts: 3, backoff_secs: 1 }
    }

    /// After `attempts_made` failed attempts: whether to pause and try
    /// again rather than abandon.
    pub fn should_retry(&self, attempts_made: u32) -> (r: bool)
        ensures
            r == (attempts_made < self.max_attempts),
    {
        attempts_made < self.max_attempts
    }

    /// Replay a whole attempt sequence against the policy: how many
    /// attempts run and whether one succeeds. `outcomes[i]` is whether the
    /// i-th attempt would succeed; entries beyond the budget are never
    /// reached.
    pub fn run_outcomes(&self, outcomes: &Vec<bool>) -> (r: (u32, bool))
        requires
            self.max_attempts <= outcomes@.len(),
        ensures
            r.0 == spec_attempts_used(self.max_attempts as nat, outcomes@),
            r.1 == spec_retry_succeeds(self.max_attempts as nat, outcomes@),
    {
        let max = self.max_attempts;
        let mut i: u32 = 0;
        proof {
            assert(outcomes@.skip(0) =~= outcomes@);
        }
        loop
            invariant
                0 <= i <= max,
                max == self.max_attempts,
                max <= outcomes@.len(),
                spec_attempts_used(max as nat, outcomes@) == i + spec_attempts_used(
                    (max - i) as nat,
                    outcomes@.skip(i as int),
                ),
                spec_retry_succeeds(max as nat, outcomes@) == spec_retry_succeeds(
                    (max - i) as nat,
                    outcomes@.skip(i as int),
                ),
            ensures
                i == max,
                spec_attempts_used(max as nat, outcomes@) == max,
                !spec_retry_succeeds(max as nat, outcomes@),
            decreases max - i,
    {
            if i >= max {
                proof {
                    assert(spec_attempts_used(0, outcomes@.skip(i as int)) == 0);
                    assert(!spec_retry_succeeds(0, outcomes@.skip(i as int)));
                }
                break ;
            }
            proof {
                let rest = outcomes@.skip(i as int);
                assert(rest.len() == outcomes@.len() - i);
                assert(rest[0] == outcomes@[i as int]);
                if outcomes@[i as int] {
                    assert(spec_attempts_used((max - i) as nat, rest) == 1);
                    assert(spec_retry_succeeds((max - i) as nat, rest));
                } else {
                    assert(rest.drop_first() =~= outcomes@.skip(i + 1));
                    assert(spec_attempts_used((max - i) as nat, rest) == 1 + spec_attempts_used(
                        (max - i - 1) as nat,
                        outcomes@.skip(i + 1),
                    ));
                    assert(spec_retry_succeeds((max - i) as nat, rest) == spec_retry_succeeds(
                        (max - i - 1) as nat,
                        outcomes@.skip(i + 1),
                    )) by {
                        if spec_retry_succeeds((max - i) as nat, rest) {
                            let w = choose|w: int| 0 <= w < (max - i) && w < rest.len() && rest[w];
                            assert(w != 0);
                            assert(outcomes@.skip(i + 1)[w - 1]);
                        }
                        if spec_retry_succeeds((max - i - 1) as nat, outcomes@.skip(i + 1)) {
                            let w = choose|w: int|
                                0 <= w < (max - i - 1) && w < outcomes@.skip(i + 1).len() && #[trigger] outcomes@.skip(i + 1)[w];
                            assert(rest[w + 1]);
                        }
                    }
                }
            }
            if outcomes[i as usize] {
                return (i + 1, true);
            }
            i = i + 1;
        }
        (max, false)
    }
}

/// Retry bound: a file that never becomes parseable is attempted exactly
/// `max_attempts` times — three under the live-ingestion policy — and then
/// abandoned without success.
pub proof fn lemma_retry_bound(max: nat, outcomes: Seq<bool>)
    requires
        max <= outcomes.len(),
        forall|i: int| 0 <= i < outcomes.len() ==> !outcomes[i],
    ensures
        spec_attempts_used(max, outcomes) == max,
        !spec_retry_succeeds(max, outcomes),
    decreases max,
{
    if max > 0 {
        assert(!outcomes[0]);
        assert forall|i: int| 0 <= i < outcomes.drop_first().len() implies !outcomes.drop_first()[i] by {
            assert(outcomes[i + 1] == outcomes.drop_first()[i]);
        }
        lemma_retry_bound((max - 1) as nat, outcomes.drop_first());
    }
}

} // verus!
