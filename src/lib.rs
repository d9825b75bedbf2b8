//! A vote bank: an account that is open for voting until it is closed, and
//! that counts "GM" and "GN" votes.
//!
//! Two forms of the bank are offered. [`VoteBankData`] remembers who has voted
//! and refuses a second vote from the same signer; [`UncheckedVoteBankData`]
//! keeps the counters alone and accepts any number of votes from any signer.
//! The hosting runtime loads an account, hands it to one of the operations and
//! stores it again only when the operation succeeded.
pub mod key;
pub mod unchecked;
pub mod vote_bank;

pub use key::Pubkey;
pub use unchecked::UncheckedVoteBankData;
pub use vote_bank::{
    close_vote_bank, give_vote, init_vote_bank, CloseVoteBank, GiveVote, VoteBank, VoteBankData,
    VoteType, VotingError,
};
