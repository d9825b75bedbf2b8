use on_chain_voting::vote_bank::VOTER_CAPACITY;
use on_chain_voting::{
    close_vote_bank, give_vote, init_vote_bank, CloseVoteBank, GiveVote, Pubkey, VoteBank,
    VoteBankData, VoteType, VotingError,
};

fn key(b: u8) -> Pubkey {
    Pubkey::new([b; 32])
}

fn fresh_bank() -> VoteBankData {
    let mut ctx = VoteBank {
        vote_account: VoteBankData { is_open_to_vote: false, gm: 7, gn: 9, voters: vec![key(3)] },
        user: key(0),
    };
    assert_eq!(init_vote_bank(&mut ctx), Ok(()));
    ctx.vote_account
}

fn vote(bank: VoteBankData, user: Pubkey, vote_type: VoteType) -> (VoteBankData, Result<(), VotingError>) {
    let mut ctx = GiveVote { vote_account: bank, user };
    let r = give_vote(&mut ctx, vote_type);
    (ctx.vote_account, r)
}

fn close(bank: VoteBankData, user: Pubkey) -> (VoteBankData, Result<(), VotingError>) {
    let mut ctx = CloseVoteBank { vote_account: bank, user };
    let r = close_vote_bank(&mut ctx);
    (ctx.vote_account, r)
}

#[test]
fn init_opens_an_empty_bank() {
    let bank = fresh_bank();
    assert!(bank.is_open_to_vote);
    assert_eq!(bank.gm, 0);
    assert_eq!(bank.gn, 0);
    assert!(bank.voters.is_empty());
    assert!(bank.voters.capacity() >= VOTER_CAPACITY);
}

#[test]
fn vote_close_then_vote_again() {
    let bank = fresh_bank();
    let (bank, r) = vote(bank, key(1), VoteType::GM);
    assert_eq!(r, Ok(()));
    let (bank, r) = vote(bank, key(2), VoteType::GN);
    assert_eq!(r, Ok(()));
    let (bank, r) = close(bank, key(1));
    assert_eq!(r, Ok(()));
    let (bank, r) = vote(bank, key(1), VoteType::GM);
    assert_eq!(r, Err(VotingError::VotingClosed));
    assert!(!bank.is_open_to_vote);
    assert_eq!(bank.gm, 1);
    assert_eq!(bank.gn, 1);
}

#[test]
fn same_signer_twice_is_refused() {
    let bank = fresh_bank();
    let (bank, r) = vote(bank, key(1), VoteType::GM);
    assert_eq!(r, Ok(()));
    let (bank, r) = vote(bank, key(1), VoteType::GM);
    assert_eq!(r, Err(VotingError::AlreadyVoted));
    assert_eq!(bank.gm, 1);
    assert_eq!(bank.gn, 0);
    assert_eq!(bank.voters, vec![key(1)]);
}

#[test]
fn refused_signer_cannot_switch_choice() {
    let bank = fresh_bank();
    let (bank, _) = vote(bank, key(1), VoteType::GN);
    let (bank, _) = vote(bank, key(2), VoteType::GM);
    let (bank, r) = vote(bank, key(1), VoteType::GM);
    assert_eq!(r, Err(VotingError::AlreadyVoted));
    assert_eq!((bank.gm, bank.gn), (1, 1));
}

#[test]
fn counters_sum_to_accepted_votes() {
    let mut bank = fresh_bank();
    let users = [1u8, 2, 1, 3, 2, 4, 5, 5];
    let types = [
        VoteType::GM,
        VoteType::GN,
        VoteType::GN,
        VoteType::GM,
        VoteType::GM,
        VoteType::GN,
        VoteType::GM,
        VoteType::GM,
    ];
    let mut accepted: u64 = 0;
    for i in 0..users.len() {
        let (next, r) = vote(bank, key(users[i]), types[i]);
        if r.is_ok() {
            accepted += 1;
        }
        bank = next;
    }
    assert_eq!(accepted, 5);
    assert_eq!(bank.gm + bank.gn, accepted);
    assert_eq!((bank.gm, bank.gn), (3, 2));
    assert_eq!(bank.voters, vec![key(1), key(2), key(3), key(4), key(5)]);
}

#[test]
fn closed_bank_refuses_every_vote() {
    let bank = fresh_bank();
    let (bank, _) = vote(bank, key(1), VoteType::GN);
    let (bank, _) = close(bank, key(9));
    let mut bank = bank;
    for b in 1..5u8 {
        for t in [VoteType::GM, VoteType::GN] {
            let (next, r) = vote(bank, key(b), t);
            assert_eq!(r, Err(VotingError::VotingClosed));
            assert!(!next.is_open_to_vote);
            assert_eq!((next.gm, next.gn), (0, 1));
            assert_eq!(next.voters, vec![key(1)]);
            bank = next;
        }
    }
}

#[test]
fn close_twice_is_no_error() {
    let bank = fresh_bank();
    let (bank, _) = vote(bank, key(1), VoteType::GM);
    let (bank, r1) = close(bank, key(2));
    assert_eq!(r1, Ok(()));
    assert!(!bank.is_open_to_vote);
    let (bank, r2) = close(bank, key(3));
    assert_eq!(r2, Ok(()));
    assert!(!bank.is_open_to_vote);
    assert_eq!((bank.gm, bank.gn), (1, 0));
    assert_eq!(bank.voters, vec![key(1)]);
}

#[test]
fn close_keeps_the_signer() {
    let mut ctx = CloseVoteBank { vote_account: fresh_bank(), user: key(4) };
    assert_eq!(close_vote_bank(&mut ctx), Ok(()));
    assert_eq!(ctx.user, key(4));
}

#[test]
fn full_list_of_distinct_voters() {
    let mut bank = fresh_bank();
    for b in 0..VOTER_CAPACITY as u8 {
        let t = if b % 2 == 0 { VoteType::GM } else { VoteType::GN };
        let (next, r) = vote(bank, key(b), t);
        assert_eq!(r, Ok(()));
        bank = next;
    }
    assert_eq!(bank.voters.len(), VOTER_CAPACITY);
    assert_eq!((bank.gm, bank.gn), (25, 25));
    // Every recorded voter is still refused once the list is full.
    let (bank, r) = vote(bank, key(0), VoteType::GN);
    assert_eq!(r, Err(VotingError::AlreadyVoted));
    assert_eq!(bank.voters.len(), VOTER_CAPACITY);
}

#[test]
fn keys_differing_in_one_byte_are_distinct() {
    let mut a = [5u8; 32];
    let b = a;
    a[31] = 6;
    assert_ne!(Pubkey::new(a), Pubkey::new(b));
    assert_eq!(Pubkey::new(b), Pubkey::new(b));
    assert_eq!(Pubkey::new(a).to_bytes(), a);

    let bank = fresh_bank();
    let (bank, r) = vote(bank, Pubkey::new(a), VoteType::GM);
    assert_eq!(r, Ok(()));
    let (bank, r) = vote(bank, Pubkey::new(b), VoteType::GM);
    assert_eq!(r, Ok(()));
    assert_eq!(bank.gm, 2);
}

#[test]
fn error_messages() {
    assert_eq!(VotingError::VotingClosed.message(), "Voting is currently closed");
    assert_eq!(VotingError::AlreadyVoted.message(), "User has already voted");
}

#[test]
fn well_formed_banks() {
    assert!(fresh_bank().is_well_formed());
    let (bank, _) = vote(fresh_bank(), key(1), VoteType::GM);
    assert!(bank.is_well_formed());
    let doubled = VoteBankData { is_open_to_vote: true, gm: 2, gn: 0, voters: vec![key(1), key(1)] };
    assert!(!doubled.is_well_formed());
    let miscounted = VoteBankData { is_open_to_vote: true, gm: 1, gn: 1, voters: vec![key(1)] };
    assert!(!miscounted.is_well_formed());
    let voters: Vec<Pubkey> = (0..51u8).map(key).collect();
    let overfull = VoteBankData { is_open_to_vote: true, gm: 51, gn: 0, voters };
    assert!(!overfull.is_well_formed());
}

#[test]
fn room_for_a_voter() {
    let voters: Vec<Pubkey> = (0..VOTER_CAPACITY as u8).map(key).collect();
    let full = VoteBankData { is_open_to_vote: true, gm: 50, gn: 0, voters };
    assert!(full.is_well_formed());
    assert!(!full.has_room_for_voter(&key(200)));
    assert!(full.has_room_for_voter(&key(3)));
    let closed = VoteBankData { is_open_to_vote: false, ..full };
    assert!(closed.has_room_for_voter(&key(200)));
    assert!(fresh_bank().has_room_for_voter(&key(200)));
}
