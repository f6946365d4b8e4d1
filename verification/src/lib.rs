//! Monte Carlo estimation of five-card poker hands.
//!
//! A caller names the cards that may be dealt (a pool of card identifiers) and
//! a number of rounds. Each round deals five cards from distinct positions of
//! the pool, decides which hand they form, and counts it. The counts are
//! turned into a weighted score.
//!
//! Every function comes with a contract that Verus checks. The only code that
//! is believed rather than proved is the small set of wrappers around the
//! random number generator and the hash map in [`sampler`], each marked
//! `#[verifier::external_body]`.

pub mod card;
pub mod hand;
pub mod judge;
pub mod report;
pub mod sampler;
pub mod simulate;

pub use card::{make_cards_from_id, Card, DecodeError, Suit};
pub use hand::Role;
pub use judge::{
    classify, count_judge_role, count_rank, group_sizes, is_flush, is_fulhouse, is_pair,
    is_royalflush, is_strait, is_straitflush, is_twopair, sort_by_rank,
};
pub use report::{judge_porker, Request, Response, ResultRole};
pub use sampler::{handout_cards, Draw, InsufficientPoolError, Sampler};
pub use simulate::{calc_score, million_porker, million_porker_with, PorkerError};
