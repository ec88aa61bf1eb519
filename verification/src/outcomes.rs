//! What a disposal reports, given how each collected thread ended.

use vstd::prelude::*;

verus! {

/// Why a disposal failed: some of the collected threads ended in a failure.
#[derive(Clone, Copy, Debug, PartialEq, Eq, Structural)]
pub struct JoinFailure {
    /// How many of the collected threads failed.
    pub failed: usize,
    /// How many collected threads were joined in all.
    pub joined: usize,
}

/// The number of failures among `outcomes`.
pub open spec fn failures<E>(outcomes: Seq<Result<(), E>>) -> nat
    decreases outcomes.len(),
{
    if outcomes.len() == 0 {
        0
    } else {
        failures(outcomes.drop_last()) + if outcomes.last() is Err {
            1nat
        } else {
            0nat
        }
    }
}

/// What a disposal reports for `outcomes`: success when no thread failed,
/// else the number of failures among the number of threads joined.
pub open spec fn verdict_of<E>(outcomes: Seq<Result<(), E>>) -> Result<(), JoinFailure> {
    if failures(outcomes) == 0 {
        Ok(())
    } else {
        Err(JoinFailure { failed: failures(outcomes) as usize, joined: outcomes.len() as usize })
    }
}

/// There are at most as many failures as outcomes.
pub proof fn lemma_failures_bounded<E>(outcomes: Seq<Result<(), E>>)
    ensures
        failures(outcomes) <= outcomes.len(),
    decreases outcomes.len(),
{
    if outcomes.len() > 0 {
        lemma_failures_bounded(outcomes.drop_last());
    }
}

/// No failure is counted exactly when every outcome is a success.
pub proof fn lemma_no_failures<E>(outcomes: Seq<Result<(), E>>)
    ensures
        failures(outcomes) == 0 <==> forall|i: int| 0 <= i < outcomes.len() ==> outcomes[i] is Ok,
    decreases outcomes.len(),
{
    if outcomes.len() > 0 {
        let front = outcomes.drop_last();
        lemma_no_failures(front);
        if failures(outcomes) == 0 {
            assert forall|i: int| 0 <= i < outcomes.len() implies outcomes[i] is Ok by {
                if i < front.len() {
                    assert(front[i] is Ok);
                }
            }
        }
        if forall|i: int| 0 <= i < outcomes.len() ==> outcomes[i] is Ok {
            assert forall|i: int| 0 <= i < front.len() implies front[i] is Ok by {
                assert(outcomes[i] is Ok);
            }
            assert(outcomes.last() is Ok);
        }
    }
}

/// A disposal fails exactly when at least one of the joined threads failed.
pub proof fn lemma_fails_iff_some_thread_failed<E>(outcomes: Seq<Result<(), E>>)
    ensures
        verdict_of(outcomes) is Err <==> exists|i: int|
            0 <= i < outcomes.len() && outcomes[i] is Err,
{
    lemma_no_failures(outcomes);
}

/// A disposal that had no thread to join succeeds.
pub proof fn lemma_nothing_to_join_succeeds<E>(outcomes: Seq<Result<(), E>>)
    requires
        outcomes.len() == 0,
    ensures
        verdict_of(outcomes) is Ok,
{
}

/// A failed disposal reports at least one failure, and no more failures than
/// threads joined.
pub proof fn lemma_report_counts<E>(outcomes: Seq<Result<(), E>>)
    requires
        outcomes.len() <= usize::MAX,
    ensures
        verdict_of(outcomes) matches Err(e) ==> 0 < e.failed <= e.joined == outcomes.len(),
{
    lemma_failures_bounded(outcomes);
}

/// Judges a disposal by the outcomes of its joins.
pub fn verdict<E>(outcomes: &[Result<(), E>]) -> (v: Result<(), JoinFailure>)
    ensures
        v == verdict_of(outcomes@),
        v is Err <==> exists|i: int| 0 <= i < outcomes@.len() && outcomes@[i] is Err,
        v matches Err(e) ==> 0 < e.failed <= e.joined == outcomes@.len(),
{
    let mut failed: usize = 0;
    let mut i: usize = 0;
    while i < outcomes.len()
        invariant
            i <= outcomes.len(),
            failed <= i,
            failed == failures(outcomes@.take(i as int)),
        decreases outcomes.len() - i,
    {
        proof {
            assert(outcomes@.take(i + 1).drop_last() == outcomes@.take(i as int));
        }
        if outcomes[i].is_err() {
            failed += 1;
        }
        i += 1;
    }
    proof {
        assert(outcomes@.take(i as int) == outcomes@);
        lemma_no_failures(outcomes@);
    }
    if failed == 0 {
        Ok(())
    } else {
        Err(JoinFailure { failed, joined: outcomes.len() })
    }
}

} // verus!
