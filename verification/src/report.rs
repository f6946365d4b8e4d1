//! What a caller sends to have a run played, and what is sent back.

use vstd::prelude::*;
use crate::card::all_valid;
use crate::simulate::{clamp_rounds, failed, million_porker, tallied, PorkerError};

verus! {

/// A request for a run: how many rounds, and the pool to deal from.
#[derive(Debug)]
pub struct Request {
    pub num: u32,
    pub use_cards: Vec<u32>,
}

/// How often each category was dealt.
#[derive(Debug, Clone, Copy, PartialEq, Eq, Structural)]
pub struct ResultRole {
    pub nopair: u32,
    pub onepair: u32,
    pub twopair: u32,
    pub threepair: u32,
    pub fourpair: u32,
    pub fulhouse: u32,
    pub flush: u32,
    pub strait: u32,
    pub straitflush: u32,
    pub royalflush: u32,
}

/// The answer to a request: the score, the number of rounds played, and the
/// counts.
#[derive(Debug, Clone, Copy, PartialEq, Eq, Structural)]
pub struct Response {
    pub allscore: u32,
    pub number: u32,
    pub result: ResultRole,
}

impl ResultRole {
    /// The counts as a tally, from no pair to the royal straight flush.
    pub open spec fn counts(self) -> Seq<u32> {
        seq![
            self.nopair,
            self.onepair,
            self.twopair,
            self.threepair,
            self.fourpair,
            self.fulhouse,
            self.flush,
            self.strait,
            self.straitflush,
            self.royalflush,
        ]
    }
}

impl Response {
    /// Puts a score, a number of rounds and a tally into an answer.
    pub fn new(all_score: u32, number: u32, role_count: [u32; 10]) -> (response: Response)
        ensures
            response.allscore == all_score,
            response.number == number,
            response.result.counts() == role_count@,
    {
        let response = Response {
            allscore: all_score,
            number,
            result: ResultRole {
                nopair: role_count[0],
                onepair: role_count[1],
                twopair: role_count[2],
                threepair: role_count[3],
                fourpair: role_count[4],
                fulhouse: role_count[5],
                flush: role_count[6],
                strait: role_count[7],
                straitflush: role_count[8],
                royalflush: role_count[9],
            },
        };
        assert(response.result.counts() =~= role_count@);
        response
    }
}

/// Plays the run that the request asks for and puts its outcome into an
/// answer. A request for no rounds is answered whatever its pool, and so is
/// one whose pool has at least five identifiers that all name cards.
pub fn judge_porker(request: &Request) -> (answer: Result<Response, PorkerError>)
    ensures
        match answer {
            Ok(response) => tallied(
                request.use_cards@,
                request.num,
                response.result.counts(),
                response.allscore,
                response.number,
            ),
            Err(error) => failed(request.use_cards@, request.num, error),
        },
        clamp_rounds(request.num) == 0 || (request.use_cards@.len() >= 5 && all_valid(
            request.use_cards@,
        )) ==> answer is Ok,
{
    match million_porker(&request.use_cards, request.num) {
        Ok((role_count, sum_score, loop_num)) => Ok(Response::new(sum_score, loop_num, role_count)),
        Err(error) => Err(error),
    }
}

} // verus!
