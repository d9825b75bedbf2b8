//! The vote bank that remembers its voters, so that each signer votes once.
use vstd::prelude::*;

use crate::key::Pubkey;

verus! {

/// How many voters the account's storage can hold.
pub const VOTER_CAPACITY: usize = 50;

/// The two choices a voter can make.
#[derive(Clone, Copy, Debug, PartialEq, Eq, Structural)]
pub enum VoteType {
    GM,
    GN,
}

/// Why a vote was refused.
#[derive(Clone, Copy, Debug, PartialEq, Eq, Structural)]
pub enum VotingError {
    /// The bank has been closed.
    VotingClosed,
    /// The signer's vote is already recorded.
    AlreadyVoted,
}

impl VotingError {
    /// The message attached to the error when a transaction is aborted.
    pub fn message(&self) -> (r: &'static str)
        ensures
            *self == VotingError::VotingClosed ==> r@ == "Voting is currently closed"@,
            *self == VotingError::AlreadyVoted ==> r@ == "User has already voted"@,
    {
        match self {
            VotingError::VotingClosed => "Voting is currently closed",
            VotingError::AlreadyVoted => "User has already voted",
        }
    }
}

/// The state of a vote bank account.
pub struct VoteBankData {
    pub is_open_to_vote: bool,
    pub gm: u64,
    pub gn: u64,
    /// The signers whose votes were accepted, in order.
    pub voters: Vec<Pubkey>,
}

impl VoteBankData {
    /// The keys of the recorded voters, in order.
    pub open spec fn voter_keys(&self) -> Seq<Seq<u8>> {
        self.voters@.map_values(|k: Pubkey| k@)
    }

    /// Whether a vote from `key` has been recorded.
    pub open spec fn has_voted(&self, key: Seq<u8>) -> bool {
        self.voter_keys().contains(key)
    }

    /// Each voter is recorded once, one voter per counted vote, within the
    /// account's capacity.
    pub open spec fn wf(&self) -> bool {
        &&& self.voter_keys().no_duplicates()
        &&& self.voters@.len() == self.gm + self.gn
        &&& self.voters@.len() <= VOTER_CAPACITY
    }

    /// The list has room for `key` if a vote from it would be recorded.
    pub open spec fn has_room_for(&self, key: Seq<u8>) -> bool {
        self.is_open_to_vote && !self.has_voted(key) ==> self.voters@.len() < VOTER_CAPACITY
    }

    /// A freshly initialised bank: open, with no votes.
    pub open spec fn is_fresh(&self) -> bool {
        &&& self.is_open_to_vote
        &&& self.gm == 0
        &&& self.gn == 0
        &&& self.voters@.len() == 0
    }
}

/// The GM counter after one more vote of the given type.
pub open spec fn gm_after(gm: u64, vote_type: VoteType) -> int {
    if vote_type == VoteType::GM { gm + 1 } else { gm as int }
}

/// The GN counter after one more vote of the given type.
pub open spec fn gn_after(gn: u64, vote_type: VoteType) -> int {
    if vote_type == VoteType::GN { gn + 1 } else { gn as int }
}

/// What a vote from `key` on `bank` returns.
pub open spec fn vote_outcome(bank: VoteBankData, key: Seq<u8>) -> Result<(), VotingError> {
    if !bank.is_open_to_vote {
        Err(VotingError::VotingClosed)
    } else if bank.has_voted(key) {
        Err(VotingError::AlreadyVoted)
    } else {
        Ok(())
    }
}

/// How a vote by `user` of `vote_type` takes the bank from `pre` to `post`,
/// returning `r`: the outcome is as [`vote_outcome`] says; an accepted vote
/// counts once and records the signer, a refused one changes nothing.
pub open spec fn vote_step(
    pre: VoteBankData,
    user: Pubkey,
    vote_type: VoteType,
    post: VoteBankData,
    r: Result<(), VotingError>,
) -> bool {
    &&& r == vote_outcome(pre, user@)
    &&& r is Ok ==> {
        &&& post.is_open_to_vote == pre.is_open_to_vote
        &&& post.gm == gm_after(pre.gm, vote_type)
        &&& post.gn == gn_after(pre.gn, vote_type)
        &&& post.voters@ == pre.voters@.push(user)
    }
    &&& r is Err ==> post == pre
}

/// How closing takes the bank from `pre` to `post`, returning `r`: it
/// succeeds, the flag goes down and nothing else changes.
pub open spec fn close_step(pre: VoteBankData, post: VoteBankData, r: Result<(), VotingError>) -> bool {
    &&& r is Ok
    &&& !post.is_open_to_vote
    &&& post.gm == pre.gm
    &&& post.gn == pre.gn
    &&& post.voters == pre.voters
}

/// The accounts of the initialising transaction: the new account and the
/// signer who pays for it.
pub struct VoteBank {
    pub vote_account: VoteBankData,
    pub user: Pubkey,
}

/// The accounts of a voting transaction: the bank and the voter.
pub struct GiveVote {
    pub vote_account: VoteBankData,
    pub user: Pubkey,
}

/// The accounts of a closing transaction: the bank and the signer.
pub struct CloseVoteBank {
    pub vote_account: VoteBankData,
    pub user: Pubkey,
}

/// Whether `key` is among `voters`.
fn is_recorded(voters: &Vec<Pubkey>, key: &Pubkey) -> (r: bool)
    ensures
        r == voters@.map_values(|k: Pubkey| k@).contains(key@),
{
    let ghost keys = voters@.map_values(|k: Pubkey| k@);
    let mut i: usize = 0;
    while i < voters.len()
        invariant
            i <= voters@.len(),
            keys == voters@.map_values(|k: Pubkey| k@),
            forall|j: int| 0 <= j < i ==> keys[j] != key@,
        decreases voters@.len() - i,
    {
        if voters[i].same_as(key) {
            assert(keys[i as int] == key@);
            return true;
        }
        i = i + 1;
    }
    assert(!keys.contains(key@));
    false
}

impl VoteBankData {
    /// Whether the bank is well formed: no voter twice, as many voters as
    /// counted votes, within the capacity.
    pub fn is_well_formed(&self) -> (r: bool)
        ensures
            r == self.wf(),
    {
        let n = self.voters.len();
        if n > VOTER_CAPACITY {
            return false;
        }
        if self.gm as u128 + self.gn as u128 != n as u128 {
            return false;
        }
        let ghost keys = self.voter_keys();
        let mut i: usize = 0;
        while i < n
            invariant
                n == self.voters@.len(),
                i <= n,
                keys == self.voter_keys(),
                forall|a: int, b: int| 0 <= a < i && 0 <= b < i && a != b ==> keys[a] != keys[b],
            decreases n - i,
        {
            let mut j: usize = 0;
            while j < i
                invariant
                    n == self.voters@.len(),
                    j <= i < n,
                    keys == self.voter_keys(),
                    forall|a: int, b: int| 0 <= a < i && 0 <= b < i && a != b ==> keys[a] != keys[b],
                    forall|b: int| 0 <= b < j ==> keys[b] != keys[i as int],
                decreases i - j,
            {
                if self.voters[j].same_as(&self.voters[i]) {
                    assert(keys[j as int] == keys[i as int]);
                    return false;
                }
                j = j + 1;
            }
            i = i + 1;
        }
        true
    }

    /// Whether a vote from `key` finds room in the list, should it be recorded.
    pub fn has_room_for_voter(&self, key: &Pubkey) -> (r: bool)
        ensures
            r == self.has_room_for(key@),
    {
        !self.is_open_to_vote || is_recorded(&self.voters, key) || self.voters.len()
            < VOTER_CAPACITY
    }
}

/// Sets the new account up: open for voting, no votes counted, room for
/// the voters reserved.
pub fn init_vote_bank(ctx: &mut VoteBank) -> (r: Result<(), VotingError>)
    ensures
        r == Ok::<(), VotingError>(()),
        final(ctx).vote_account.is_fresh(),
        final(ctx).vote_account.wf(),
        final(ctx).user == old(ctx).user,
{
    ctx.vote_account.is_open_to_vote = true;
    ctx.vote_account.gm = 0;
    ctx.vote_account.gn = 0;
    ctx.vote_account.voters = Vec::with_capacity(VOTER_CAPACITY);
    assert(ctx.vote_account.voter_keys() =~= Seq::<Seq<u8>>::empty());
    Ok(())
}

/// Records a vote of `vote_type` by the signer `ctx.user`.
///
/// Fails with `VotingClosed` once the bank is closed, and with `AlreadyVoted`
/// when the signer's vote is already recorded; either way nothing changes.
/// Otherwise the matching counter goes up by one and the signer is recorded.
pub fn give_vote(ctx: &mut GiveVote, vote_type: VoteType) -> (r: Result<(), VotingError>)
    requires
        old(ctx).vote_account.wf(),
        old(ctx).vote_account.has_room_for(old(ctx).user@),
    ensures
        vote_step(old(ctx).vote_account, old(ctx).user, vote_type, final(ctx).vote_account, r),
        final(ctx).vote_account.wf(),
        final(ctx).user == old(ctx).user,
{
    if !ctx.vote_account.is_open_to_vote {
        return Err(VotingError::VotingClosed);
    }
    if is_recorded(&ctx.vote_account.voters, &ctx.user) {
        return Err(VotingError::AlreadyVoted);
    }
    match vote_type {
        VoteType::GM => {
            ctx.vote_account.gm = ctx.vote_account.gm + 1;
        },
        VoteType::GN => {
            ctx.vote_account.gn = ctx.vote_account.gn + 1;
        },
    }
    let ghost pre_keys = ctx.vote_account.voter_keys();
    let user = ctx.user;
    ctx.vote_account.voters.push(user);
    assert(ctx.vote_account.voter_keys() =~= pre_keys.push(user@));
    Ok(())
}

/// Closes the bank for good. Any signer may close it, and closing a closed
/// bank is no error.
pub fn close_vote_bank(ctx: &mut CloseVoteBank) -> (r: Result<(), VotingError>)
    ensures
        close_step(old(ctx).vote_account, final(ctx).vote_account, r),
        final(ctx).user == old(ctx).user,
        old(ctx).vote_account.wf() ==> final(ctx).vote_account.wf(),
{
    ctx.vote_account.is_open_to_vote = false;
    Ok(())
}

/// The number of accepted calls among `results`.
pub open spec fn accepted_count(results: Seq<Result<(), VotingError>>) -> nat
    decreases results.len(),
{
    if results.len() == 0 {
        0
    } else {
        accepted_count(results.drop_last()) + if results.last() is Ok { 1nat } else { 0nat }
    }
}

/// `states[i + 1]` is what the `i`-th of a run of votes made of `states[i]`,
/// by signer `users[i]` for `votes[i]`, returning `results[i]`.
pub open spec fn is_vote_run(
    states: Seq<VoteBankData>,
    users: Seq<Pubkey>,
    votes: Seq<VoteType>,
    results: Seq<Result<(), VotingError>>,
) -> bool {
    &&& states.len() == results.len() + 1
    &&& users.len() == results.len()
    &&& votes.len() == results.len()
    &&& forall|i: int|
        0 <= i < results.len() ==> vote_step(
            #[trigger] states[i],
            users[i],
            votes[i],
            states[i + 1],
            results[i],
        )
}

proof fn lemma_vote_run_prefix(
    states: Seq<VoteBankData>,
    users: Seq<Pubkey>,
    votes: Seq<VoteType>,
    results: Seq<Result<(), VotingError>>,
)
    requires
        is_vote_run(states, users, votes, results),
        results.len() > 0,
    ensures
        is_vote_run(states.drop_last(), users.drop_last(), votes.drop_last(), results.drop_last()),
        vote_step(
            states[results.len() - 1],
            users[results.len() - 1],
            votes[results.len() - 1],
            states[results.len() as int],
            results[results.len() - 1],
        ),
{
    let n = results.len() - 1;
    assert(vote_step(states[n], users[n], votes[n], states[n + 1], results[n]));
    assert forall|i: int| 0 <= i < n implies vote_step(
        #[trigger] states.drop_last()[i],
        users.drop_last()[i],
        votes.drop_last()[i],
        states.drop_last()[i + 1],
        results.drop_last()[i],
    ) by {
        assert(vote_step(states[i], users[i], votes[i], states[i + 1], results[i]));
    }
}

/// Over any run of votes the two counters together grow by the number of
/// votes accepted, so from a fresh bank their sum is that number.
pub proof fn lemma_counters_sum_accepted_votes(
    states: Seq<VoteBankData>,
    users: Seq<Pubkey>,
    votes: Seq<VoteType>,
    results: Seq<Result<(), VotingError>>,
)
    requires
        is_vote_run(states, users, votes, results),
    ensures
        states.last().gm + states.last().gn == states[0].gm + states[0].gn + accepted_count(
            results,
        ),
        states[0].is_fresh() ==> states.last().gm + states.last().gn == accepted_count(results),
    decreases results.len(),
{
    if results.len() > 0 {
        lemma_vote_run_prefix(states, users, votes, results);
        lemma_counters_sum_accepted_votes(
            states.drop_last(),
            users.drop_last(),
            votes.drop_last(),
            results.drop_last(),
        );
    }
}

/// A signer whose vote is recorded is refused, with `AlreadyVoted` while the
/// bank is open, and the bank is left as it was.
pub proof fn lemma_recorded_voter_refused(
    pre: VoteBankData,
    user: Pubkey,
    vote_type: VoteType,
    post: VoteBankData,
    r: Result<(), VotingError>,
)
    requires
        pre.has_voted(user@),
        vote_step(pre, user, vote_type, post, r),
    ensures
        pre.is_open_to_vote ==> r == Err::<(), VotingError>(VotingError::AlreadyVoted),
        r is Err,
        post == pre,
{
}

/// A second vote from a signer right after their accepted one fails with
/// `AlreadyVoted` and leaves the counters and the bank unchanged.
pub proof fn lemma_second_vote_refused(
    s0: VoteBankData,
    user: Pubkey,
    first: VoteType,
    s1: VoteBankData,
    r1: Result<(), VotingError>,
    second: VoteType,
    s2: VoteBankData,
    r2: Result<(), VotingError>,
)
    requires
        vote_step(s0, user, first, s1, r1),
        r1 is Ok,
        vote_step(s1, user, second, s2, r2),
    ensures
        r2 == Err::<(), VotingError>(VotingError::AlreadyVoted),
        s2.gm == s1.gm,
        s2.gn == s1.gn,
        s2 == s1,
{
    let n = s0.voters@.len() as int;
    assert(s1.voter_keys()[n] == user@);
    lemma_recorded_voter_refused(s1, user, second, s2, r2);
}

/// A recorded voter stays recorded over any run of votes by anyone, so a
/// signer whose vote was once accepted is refused on every later attempt.
pub proof fn lemma_recorded_voter_stays_recorded(
    key: Seq<u8>,
    states: Seq<VoteBankData>,
    users: Seq<Pubkey>,
    votes: Seq<VoteType>,
    results: Seq<Result<(), VotingError>>,
)
    requires
        states[0].has_voted(key),
        is_vote_run(states, users, votes, results),
    ensures
        states.last().has_voted(key),
    decreases results.len(),
{
    if results.len() > 0 {
        let n = results.len() - 1;
        lemma_vote_run_prefix(states, users, votes, results);
        lemma_recorded_voter_stays_recorded(
            key,
            states.drop_last(),
            users.drop_last(),
            votes.drop_last(),
            results.drop_last(),
        );
        let pre = states[n];
        let post = states[n + 1];
        assert(states.drop_last().last() == pre);
        if results[n] is Ok {
            let j = choose|j: int| 0 <= j < pre.voter_keys().len() && pre.voter_keys()[j] == key;
            assert(post.voter_keys()[j] == key);
        }
    }
}

/// Once the bank is closed, every later vote fails with `VotingClosed` and
/// the bank stays as closing left it.
pub proof fn lemma_closed_bank_refuses_votes(
    before: VoteBankData,
    closed: Result<(), VotingError>,
    states: Seq<VoteBankData>,
    users: Seq<Pubkey>,
    votes: Seq<VoteType>,
    results: Seq<Result<(), VotingError>>,
)
    requires
        close_step(before, states[0], closed),
        is_vote_run(states, users, votes, results),
    ensures
        forall|i: int|
            0 <= i < results.len() ==> #[trigger] results[i] == Err::<(), VotingError>(
                VotingError::VotingClosed,
            ),
        forall|i: int| 0 <= i < states.len() ==> #[trigger] states[i] == states[0],
    decreases results.len(),
{
    if results.len() > 0 {
        let n = results.len() - 1;
        lemma_vote_run_prefix(states, users, votes, results);
        lemma_closed_bank_refuses_votes(
            before,
            closed,
            states.drop_last(),
            users.drop_last(),
            votes.drop_last(),
            results.drop_last(),
        );
        assert(states.drop_last()[n] == states[n]);
        assert forall|i: int| 0 <= i < results.len() implies #[trigger] results[i] == Err::<
            (),
            VotingError,
        >(VotingError::VotingClosed) by {
            if i < n {
                assert(results.drop_last()[i] == results[i]);
            }
        }
        assert forall|i: int| 0 <= i < states.len() implies #[trigger] states[i] == states[0] by {
            if i <= n {
                assert(states.drop_last()[i] == states[i]);
            }
        }
    }
}

/// Closing twice is the same as closing once: both calls succeed, the bank
/// is closed after each, and the second changes nothing.
pub proof fn lemma_close_idempotent(
    s0: VoteBankData,
    s1: VoteBankData,
    r1: Result<(), VotingError>,
    s2: VoteBankData,
    r2: Result<(), VotingError>,
)
    requires
        close_step(s0, s1, r1),
        close_step(s1, s2, r2),
    ensures
        !s1.is_open_to_vote,
        !s2.is_open_to_vote,
        r1 is Ok,
        r2 is Ok,
        s2 == s1,
{
}

} // verus!
