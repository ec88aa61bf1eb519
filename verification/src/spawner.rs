//! The thread container.

use vstd::prelude::*;
use crate::outcomes::{lemma_no_failures, verdict, verdict_of, JoinFailure};

verus! {

/// Owns the join handles of the threads it was asked to collect, in the order
/// in which they were started.
///
/// A container is live from `new` until it is handed to `join_all` or
/// `dispose`, which take it by value: it cannot be joined twice, and no
/// handle leaves it in any other way.
pub struct Spawner<H> {
    threads: Vec<H>,
}

/// `outcomes` is what joining `handles` one by one through `join` may give:
/// one outcome for each handle, in the same order.
pub open spec fn joined_through<H, J, E>(
    handles: Seq<H>,
    join: J,
    outcomes: Seq<Result<(), E>>,
) -> bool where J: FnMut(H) -> Result<(), E> {
    &&& outcomes.len() == handles.len()
    &&& forall|i: int|
        0 <= i < handles.len() ==> join.ensures((handles[i],), #[trigger] outcomes[i])
}

/// When a disposal succeeds, every collected thread was joined and ended
/// well: no handle was passed over.
pub proof fn lemma_success_means_all_joined<H, J, E>(
    handles: Seq<H>,
    join: J,
    outcomes: Seq<Result<(), E>>,
) where J: FnMut(H) -> Result<(), E>
    requires
        joined_through(handles, join, outcomes),
        verdict_of(outcomes) is Ok,
    ensures
        forall|i: int| 0 <= i < handles.len() ==> join.ensures((#[trigger] handles[i],), Ok(())),
{
    lemma_no_failures(outcomes);
    assert forall|i: int| 0 <= i < handles.len() implies join.ensures(
        (#[trigger] handles[i],),
        Ok(()),
    ) by {
        assert(outcomes[i] is Ok);
        assert(outcomes[i]->Ok_0 == ());
    }
}

impl<H> Spawner<H> {
    /// The handles of the collected threads, oldest first.
    pub closed spec fn view(&self) -> Seq<H> {
        self.threads@
    }

    /// An empty container: it owns no handle.
    pub fn new() -> (s: Spawner<H>)
        ensures
            s@ == Seq::<H>::empty(),
    {
        Spawner { threads: Vec::new() }
    }

    /// The number of collected threads.
    pub fn len(&self) -> (n: usize)
        ensures
            n == self@.len(),
    {
        self.threads.len()
    }

    /// Starts `work` through `start` and keeps the handle that comes back,
    /// behind those collected before. The caller gets nothing: how the thread
    /// ends is seen when the container is disposed of.
    pub fn spawn_collected<S, F>(&mut self, start: S, work: F) where
        S: FnOnce(F) -> H,
        F: FnOnce(),

        requires
            start.requires((work,)),
        ensures
            final(self)@.len() == old(self)@.len() + 1,
            final(self)@.drop_last() == old(self)@,
            start.ensures((work,), final(self)@.last()),
    {
        let handle = start(work);
        self.threads.push(handle);
    }

    /// Starts `work` through `start` and hands the handle that comes back to
    /// the caller. The container keeps no trace of it: it will never join
    /// that thread.
    pub fn spawn<S, F, T, K>(&mut self, start: S, work: F) -> (handle: K) where
        S: FnOnce(F) -> K,
        F: FnOnce() -> T,

        requires
            start.requires((work,)),
        ensures
            start.ensures((work,), handle),
            final(self)@ == old(self)@,
    {
        start(work)
    }

    /// Joins every collected thread through `join`, oldest first, and gives
    /// the outcomes in that order.
    pub fn join_all<J, E>(self, mut join: J) -> (outcomes: Vec<Result<(), E>>) where
        J: FnMut(H) -> Result<(), E>,

        requires
            forall|i: int| 0 <= i < self@.len() ==> join.requires((#[trigger] self@[i],)),
        ensures
            joined_through(self@, join, outcomes@),
    {
        let ghost handles = self@;
        let ghost join_op = join;
        let mut outcomes: Vec<Result<(), E>> = Vec::new();
        for handle in it: self.threads
            invariant
                join == join_op,
                it.seq() == handles,
                forall|i: int| 0 <= i < handles.len() ==> join.requires((#[trigger] handles[i],)),
                joined_through(handles.take(it.index()), join, outcomes@),
        {
            let outcome = join(handle);
            outcomes.push(outcome);
        }
        proof {
            assert(handles.take(handles.len() as int) == handles);
        }
        outcomes
    }

    /// Joins every collected thread through `join`, oldest first, and reports
    /// a failure if any of them failed.
    pub fn dispose<J, E>(self, join: J) -> (v: Result<(), JoinFailure>) where
        J: FnMut(H) -> Result<(), E>,

        requires
            forall|i: int| 0 <= i < self@.len() ==> join.requires((#[trigger] self@[i],)),
        ensures
            exists|outcomes: Seq<Result<(), E>>| #[trigger]
                joined_through(self@, join, outcomes) && v == verdict_of(outcomes),
            self@.len() == 0 ==> v is Ok,
            v is Ok ==> forall|i: int|
                0 <= i < self@.len() ==> join.ensures((#[trigger] self@[i],), Ok(())),
            v matches Err(e) ==> 0 < e.failed <= e.joined == self@.len(),
    {
        let ghost handles = self@;
        let outcomes = self.join_all(join);
        let v = verdict(outcomes.as_slice());
        proof {
            if v is Ok {
                lemma_success_means_all_joined(handles, join, outcomes@);
            }
        }
        v
    }
}

} // verus!
