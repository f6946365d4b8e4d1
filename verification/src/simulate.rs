//! Dealing many hands and counting what they are.
//!
//! A tally has ten places, one for each category, from no pair (place 0) to
//! the royal straight flush (place 9). Each category has a weight; the score
//! of a tally is the sum of its counts, each times its weight.

use vstd::prelude::*;
use crate::card::{all_valid, cards_of, make_cards_from_id, valid_id, DecodeError};
use crate::hand::hand_role;
use crate::judge::count_judge_role;
use crate::sampler::{dealt_from, InsufficientPoolError, Sampler};

verus! {

/// The most rounds that one run plays. A request for more is cut down to this.
pub const MAX_ITERATIONS: u32 = 1_000_000;

/// The weight of each place of a tally, from no pair to the royal straight
/// flush.
pub const SCORE_SHEET: [u32; 10] = [1, 5, 10, 20, 100, 150, 200, 500, 800, 1500];

/// Why a run ended without a tally.
#[derive(Debug, Clone, Copy, PartialEq, Eq, Structural)]
pub enum PorkerError {
    /// A dealt identifier names no card.
    Decode(DecodeError),
    /// The pool is too small to deal from.
    InsufficientPool(InsufficientPoolError),
}

/// The weight of a place of a tally.
pub open spec fn weight(place: int) -> nat {
    if place == 0 {
        1
    } else if place == 1 {
        5
    } else if place == 2 {
        10
    } else if place == 3 {
        20
    } else if place == 4 {
        100
    } else if place == 5 {
        150
    } else if place == 6 {
        200
    } else if place == 7 {
        500
    } else if place == 8 {
        800
    } else {
        1500
    }
}

/// The number of hands that a tally has counted.
pub open spec fn tally_total(counts: Seq<u32>) -> int {
    counts[0] + counts[1] + counts[2] + counts[3] + counts[4] + counts[5] + counts[6] + counts[7]
        + counts[8] + counts[9]
}

/// The score of a tally: each count times the weight of its place.
pub open spec fn score_of(counts: Seq<u32>) -> int {
    counts[0] * 1 + counts[1] * 5 + counts[2] * 10 + counts[3] * 20 + counts[4] * 100 + counts[5]
        * 150 + counts[6] * 200 + counts[7] * 500 + counts[8] * 800 + counts[9] * 1500
}

/// The score of the first `n` places of a tally.
pub open spec fn score_before(counts: Seq<u32>, n: int) -> int
    decreases n,
{
    if n <= 0 {
        0
    } else {
        score_before(counts, n - 1) + counts[n - 1] * weight(n - 1)
    }
}

/// The number of rounds that are played when `num` are asked for.
pub open spec fn clamp_rounds(num: u32) -> u32 {
    if num > MAX_ITERATIONS {
        MAX_ITERATIONS
    } else {
        num
    }
}

/// Some hand that can be dealt from the pool has the category of this place.
pub open spec fn can_deal(pool: Seq<u32>, place: int) -> bool {
    exists|ids: Seq<u32>| #[trigger]
        dealt_from(pool, ids) && all_valid(ids) && hand_role(cards_of(ids)).index() == place
}

/// A run over `pool` with `num` rounds asked for may end with this tally, this
/// score and this number of rounds played: the tally has counted one hand for
/// each round, and only categories that the pool can deal.
pub open spec fn tallied(
    pool: Seq<u32>,
    num: u32,
    counts: Seq<u32>,
    score: u32,
    total: u32,
) -> bool {
    let rounds = clamp_rounds(num);
    &&& counts.len() == 10
    &&& total == rounds
    &&& tally_total(counts) == rounds
    &&& score == score_of(counts)
    &&& rounds > 0 ==> pool.len() >= 5
    &&& forall|place: int| 0 <= place < 10 && counts[place] > 0 ==> can_deal(pool, place)
}

/// A run over `pool` with `num` rounds asked for may end with this error. A
/// pool with fewer than five positions ends every run of at least one round;
/// an identifier of the pool that names no card ends the run in which it is
/// dealt. A run of no rounds looks at nothing and cannot fail.
pub open spec fn failed(pool: Seq<u32>, num: u32, error: PorkerError) -> bool {
    let rounds = clamp_rounds(num);
    match error {
        PorkerError::InsufficientPool(e) => {
            &&& rounds > 0
            &&& pool.len() < 5
            &&& e.len == pool.len()
        },
        PorkerError::Decode(e) => {
            &&& rounds > 0
            &&& pool.len() >= 5
            &&& !valid_id(e.id)
            &&& pool.contains(e.id)
        },
    }
}

/// What a run over `pool` with `num` rounds asked for may end in: a tally
/// with its score and the number of rounds played, or an error.
pub open spec fn simulated(
    pool: Seq<u32>,
    num: u32,
    outcome: Result<([u32; 10], u32, u32), PorkerError>,
) -> bool {
    match outcome {
        Ok((counts, score, total)) => tallied(pool, num, counts@, score, total),
        Err(error) => failed(pool, num, error),
    }
}

/// The score of a tally is the score of all its ten places.
pub proof fn lemma_score_of(counts: Seq<u32>)
    ensures
        score_before(counts, 10) == score_of(counts),
{
    reveal_with_fuel(score_before, 11);
}

/// The score of the first places of a tally is no more than that of a few
/// places more.
pub proof fn lemma_score_grows(counts: Seq<u32>, m: int, n: int)
    requires
        0 <= m <= n,
    ensures
        0 <= score_before(counts, m) <= score_before(counts, n),
    decreases n,
{
    if m < n {
        lemma_score_grows(counts, m, n - 1);
        assert(counts[n - 1] * weight(n - 1) >= 0) by (nonlinear_arith)
            requires
                counts[n - 1] >= 0,
                weight(n - 1) >= 0,
        ;
    } else if n > 0 {
        lemma_score_grows(counts, m - 1, n - 1);
        assert(counts[n - 1] * weight(n - 1) >= 0) by (nonlinear_arith)
            requires
                counts[n - 1] >= 0,
                weight(n - 1) >= 0,
        ;
    }
}

/// The score of a tally. It has to fit in 32 bits.
pub fn calc_score(role_count: &[u32; 10]) -> (sum_score: u32)
    requires
        score_of(role_count@) <= u32::MAX,
    ensures
        sum_score == score_of(role_count@),
{
    let mut sum_score: u32 = 0;
    let mut i: usize = 0;
    while i < 10
        invariant
            i <= 10,
            sum_score == score_before(role_count@, i as int),
            score_of(role_count@) <= u32::MAX,
        decreases 10 - i,
    {
        proof {
            lemma_score_of(role_count@);
            lemma_score_grows(role_count@, i as int, i + 1);
            lemma_score_grows(role_count@, i + 1, 10);
        }
        assert(SCORE_SHEET[i as int] == weight(i as int));
        sum_score += role_count[i] * SCORE_SHEET[i];
        i += 1;
    }
    proof {
        lemma_score_of(role_count@);
    }
    sum_score
}

/// Plays `num` rounds over the pool `use_cards`, but no more than
/// [`MAX_ITERATIONS`], with a sampler of its own that the system seeds. Each
/// round deals five cards, decodes them, decides their category and counts
/// it. The answer is the tally, its score and the number of rounds played, in
/// this order.
///
/// The run ends at once, without a tally, when the pool has fewer than five
/// positions or a dealt identifier names no card. A run of no rounds ends
/// well whatever the pool; a run over a pool of at least five identifiers
/// that all name cards ends well too.
pub fn million_porker(use_cards: &Vec<u32>, num: u32) -> (outcome: Result<
    ([u32; 10], u32, u32),
    PorkerError,
>)
    ensures
        simulated(use_cards@, num, outcome),
        clamp_rounds(num) == 0 || (use_cards@.len() >= 5 && all_valid(use_cards@))
            ==> outcome is Ok,
        clamp_rounds(num) > 0 && use_cards@.len() < 5 ==> outcome
            == Err::<([u32; 10], u32, u32), PorkerError>(
            PorkerError::InsufficientPool(InsufficientPoolError { len: use_cards@.len() as usize }),
        ),
{
    let mut sampler = Sampler::new();
    million_porker_with(&mut sampler, use_cards, num)
}

/// Plays `num` rounds over the pool `use_cards`, but no more than
/// [`MAX_ITERATIONS`], with the picks of the given sampler. Each round deals
/// five cards, decodes them, decides their category and counts it. The answer
/// is the tally, its score and the number of rounds played, in this order.
///
/// The run ends at once, without a tally, when the pool has fewer than five
/// positions or a dealt identifier names no card. A run of no rounds ends
/// well whatever the pool; a run over a pool of at least five identifiers
/// that all name cards ends well too.
pub fn million_porker_with(sampler: &mut Sampler, use_cards: &Vec<u32>, num: u32) -> (outcome:
    Result<([u32; 10], u32, u32), PorkerError>)
    ensures
        simulated(use_cards@, num, outcome),
        clamp_rounds(num) == 0 || (use_cards@.len() >= 5 && all_valid(use_cards@))
            ==> outcome is Ok,
        clamp_rounds(num) > 0 && use_cards@.len() < 5 ==> outcome
            == Err::<([u32; 10], u32, u32), PorkerError>(
            PorkerError::InsufficientPool(InsufficientPoolError { len: use_cards@.len() as usize }),
        ),
{
    let loop_num = if num > MAX_ITERATIONS {
        MAX_ITERATIONS
    } else {
        num
    };
    let mut role_count: [u32; 10] = [0; 10];
    let mut played: u32 = 0;
    while played < loop_num
        invariant
            played <= loop_num <= MAX_ITERATIONS,
            loop_num == clamp_rounds(num),
            tally_total(role_count@) == played,
            played > 0 ==> use_cards@.len() >= 5,
            forall|place: int|
                0 <= place < 10 && role_count@[place] > 0 ==> can_deal(use_cards@, place),
        decreases loop_num - played,
    {
        let ids = match sampler.handout_cards(use_cards) {
            Ok(ids) => ids,
            Err(e) => {
                return Err(PorkerError::InsufficientPool(e));
            },
        };
        let mut cards = match make_cards_from_id(&ids) {
            Ok(cards) => cards,
            Err(e) => {
                proof {
                    lemma_dealt_from_pool(use_cards@, ids@);
                }
                return Err(PorkerError::Decode(e));
            },
        };
        let ghost place = hand_role(cards@).index();
        assert(can_deal(use_cards@, place)) by {
            assert(dealt_from(use_cards@, ids@) && all_valid(ids@) && hand_role(
                cards_of(ids@),
            ).index() == place);
        }
        count_judge_role(&mut cards, &mut role_count);
        played += 1;
    }
    let sum_score = calc_score(&role_count);
    Ok((role_count, sum_score, loop_num))
}

/// Every identifier of a dealt hand lies in the pool.
pub proof fn lemma_dealt_from_pool(pool: Seq<u32>, ids: Seq<u32>)
    requires
        dealt_from(pool, ids),
    ensures
        forall|k: int| 0 <= k < 5 ==> pool.contains(#[trigger] ids[k]),
{
    let positions = choose|positions: Seq<usize>| #[trigger]
        crate::sampler::lies_at(pool, positions, ids);
    assert forall|k: int| 0 <= k < 5 implies pool.contains(#[trigger] ids[k]) by {
        assert(pool[positions[k] as int] == ids[k]);
    }
}

/// A run of no rounds gives the empty tally, whatever the pool: every count
/// is zero, and so is the score.
pub proof fn lemma_no_rounds(pool: Seq<u32>, outcome: Result<([u32; 10], u32, u32), PorkerError>)
    requires
        simulated(pool, 0, outcome),
    ensures
        outcome is Ok,
        outcome->Ok_0.1 == 0,
        outcome->Ok_0.2 == 0,
        forall|place: int| 0 <= place < 10 ==> outcome->Ok_0.0@[place] == 0,
{
}

/// Asking for more rounds than the most that are played is the same as asking
/// for exactly that many: the two requests admit the same outcomes.
pub proof fn lemma_clamped_alike(
    pool: Seq<u32>,
    more: u32,
    outcome: Result<([u32; 10], u32, u32), PorkerError>,
)
    requires
        more >= MAX_ITERATIONS,
    ensures
        clamp_rounds(more) == MAX_ITERATIONS,
        clamp_rounds(clamp_rounds(more)) == clamp_rounds(more),
        simulated(pool, more, outcome) == simulated(pool, MAX_ITERATIONS, outcome),
{
}

/// Every run that ends with a tally has counted exactly one hand for each
/// round that it played.
pub proof fn lemma_counts_add_up(
    pool: Seq<u32>,
    num: u32,
    outcome: Result<([u32; 10], u32, u32), PorkerError>,
)
    requires
        simulated(pool, num, outcome),
        outcome is Ok,
    ensures
        tally_total(outcome->Ok_0.0@) == outcome->Ok_0.2,
        outcome->Ok_0.2 == clamp_rounds(num),
        outcome->Ok_0.2 <= MAX_ITERATIONS,
{
}

} // verus!
