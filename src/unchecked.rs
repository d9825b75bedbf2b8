//! The vote bank that keeps the counters alone: it does not remember who
//! voted, so one signer may vote any number of times while it is open.
use vstd::prelude::*;

use crate::vote_bank::{gm_after, gn_after, VoteType, VotingError};

verus! {

/// The state of a vote bank account without a voter list.
pub struct UncheckedVoteBankData {
    pub is_open_to_vote: bool,
    pub gm: u64,
    pub gn: u64,
}

impl UncheckedVoteBankData {
    /// Whether the counter that a vote of `vote_type` raises can still grow.
    pub open spec fn can_count(&self, vote_type: VoteType) -> bool {
        match vote_type {
            VoteType::GM => self.gm < u64::MAX,
            VoteType::GN => self.gn < u64::MAX,
        }
    }

    /// How a vote of `vote_type` takes the bank from `self` to `post`,
    /// returning `r`: refused with `VotingClosed`, changing nothing, once the
    /// bank is closed; otherwise accepted, and the matching counter goes up
    /// by one.
    pub open spec fn vote_step(
        self,
        vote_type: VoteType,
        post: UncheckedVoteBankData,
        r: Result<(), VotingError>,
    ) -> bool {
        if self.is_open_to_vote {
            &&& r is Ok
            &&& post.is_open_to_vote
            &&& post.gm == gm_after(self.gm, vote_type)
            &&& post.gn == gn_after(self.gn, vote_type)
        } else {
            &&& r == Err::<(), VotingError>(VotingError::VotingClosed)
            &&& post == self
        }
    }

    /// A new bank: open, with no votes.
    pub fn new() -> (r: UncheckedVoteBankData)
        ensures
            r.is_open_to_vote,
            r.gm == 0,
            r.gn == 0,
    {
        UncheckedVoteBankData { is_open_to_vote: true, gm: 0, gn: 0 }
    }

    /// Counts a vote of `vote_type`; fails with `VotingClosed` once the bank
    /// is closed. No check is made on who votes.
    pub fn give_vote(&mut self, vote_type: VoteType) -> (r: Result<(), VotingError>)
        requires
            old(self).is_open_to_vote ==> old(self).can_count(vote_type),
        ensures
            old(self).vote_step(vote_type, *final(self), r),
    {
        if !self.is_open_to_vote {
            return Err(VotingError::VotingClosed);
        }
        match vote_type {
            VoteType::GM => {
                self.gm = self.gm + 1;
            },
            VoteType::GN => {
                self.gn = self.gn + 1;
            },
        }
        Ok(())
    }

    /// Closes the bank for good; closing a closed bank is no error.
    pub fn close(&mut self) -> (r: Result<(), VotingError>)
        ensures
            r is Ok,
            !final(self).is_open_to_vote,
            final(self).gm == old(self).gm,
            final(self).gn == old(self).gn,
    {
        self.is_open_to_vote = false;
        Ok(())
    }
}

/// How many of `votes` are of type `vote_type`.
pub open spec fn count_of(votes: Seq<VoteType>, vote_type: VoteType) -> nat
    decreases votes.len(),
{
    if votes.len() == 0 {
        0
    } else {
        count_of(votes.drop_last(), vote_type) + if votes.last() == vote_type { 1nat } else { 0nat }
    }
}

/// While the bank stays open, every vote of a run is accepted, however often
/// the same signer votes, and each raises the matching counter by one.
pub proof fn lemma_repeated_votes_all_counted(
    states: Seq<UncheckedVoteBankData>,
    votes: Seq<VoteType>,
    results: Seq<Result<(), VotingError>>,
)
    requires
        states.len() == votes.len() + 1,
        results.len() == votes.len(),
        states[0].is_open_to_vote,
        forall|i: int|
            0 <= i < votes.len() ==> (#[trigger] states[i]).vote_step(
                votes[i],
                states[i + 1],
                results[i],
            ),
    ensures
        forall|i: int| 0 <= i < results.len() ==> (#[trigger] results[i]) is Ok,
        states.last().is_open_to_vote,
        states.last().gm == states[0].gm + count_of(votes, VoteType::GM),
        states.last().gn == states[0].gn + count_of(votes, VoteType::GN),
    decreases votes.len(),
{
    if votes.len() > 0 {
        let n = votes.len() - 1;
        let (s, v, r) = (states.drop_last(), votes.drop_last(), results.drop_last());
        assert forall|i: int| 0 <= i < v.len() implies (#[trigger] s[i]).vote_step(
            v[i],
            s[i + 1],
            r[i],
        ) by {
            assert(states[i].vote_step(votes[i], states[i + 1], results[i]));
        }
        lemma_repeated_votes_all_counted(s, v, r);
        assert(s.last() == states[n]);
        assert(states[n].vote_step(votes[n], states[n + 1], results[n]));
        assert forall|i: int| 0 <= i < results.len() implies (#[trigger] results[i]) is Ok by {
            if i < n {
                assert(r[i] == results[i]);
            }
        }
    }
}

} // verus!
