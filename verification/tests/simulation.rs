use porker::{
    calc_score, judge_porker, million_porker, million_porker_with, Card, DecodeError,
    InsufficientPoolError, PorkerError, Request, Response, ResultRole, Sampler,
};

#[test]
fn score_of_a_tally() {
    assert_eq!(calc_score(&[0; 10]), 0);
    assert_eq!(calc_score(&[1; 10]), 3286);
    assert_eq!(calc_score(&[1, 0, 0, 0, 0, 0, 0, 0, 0, 0]), 1);
    assert_eq!(calc_score(&[0, 1, 0, 0, 0, 0, 0, 0, 0, 0]), 5);
    assert_eq!(calc_score(&[0, 0, 1, 0, 0, 0, 0, 0, 0, 0]), 10);
    assert_eq!(calc_score(&[0, 0, 0, 1, 0, 0, 0, 0, 0, 0]), 20);
    assert_eq!(calc_score(&[0, 0, 0, 0, 1, 0, 0, 0, 0, 0]), 100);
    assert_eq!(calc_score(&[0, 0, 0, 0, 0, 1, 0, 0, 0, 0]), 150);
    assert_eq!(calc_score(&[0, 0, 0, 0, 0, 0, 1, 0, 0, 0]), 200);
    assert_eq!(calc_score(&[0, 0, 0, 0, 0, 0, 0, 1, 0, 0]), 500);
    assert_eq!(calc_score(&[0, 0, 0, 0, 0, 0, 0, 0, 1, 0]), 800);
    assert_eq!(calc_score(&[0, 0, 0, 0, 0, 0, 0, 0, 0, 1]), 1500);
    assert_eq!(calc_score(&[501, 422, 48, 21, 0, 1, 2, 4, 0, 1]), 7561);
    assert_eq!(calc_score(&[0, 0, 0, 0, 0, 0, 0, 0, 0, 1_000_000]), 1_500_000_000);
}

#[test]
fn no_rounds_give_the_empty_tally() {
    let deck = Card::all_cards_id();
    assert_eq!(million_porker(&deck, 0), Ok(([0; 10], 0, 0)));
    assert_eq!(million_porker(&vec![], 0), Ok(([0; 10], 0, 0)));
    assert_eq!(million_porker(&vec![99, 98], 0), Ok(([0; 10], 0, 0)));
}

#[test]
fn every_round_is_counted_once() {
    let deck = Card::all_cards_id();
    for rounds in [1u32, 2, 10, 1000, 20_000] {
        let (tally, score, total) = million_porker(&deck, rounds).unwrap();
        assert_eq!(total, rounds);
        assert_eq!(tally.iter().sum::<u32>(), rounds);
        assert_eq!(score, calc_score(&tally));
    }
}

#[test]
fn a_small_pool_fails_before_any_round() {
    assert_eq!(
        million_porker(&vec![0, 1, 2, 3], 10),
        Err(PorkerError::InsufficientPool(InsufficientPoolError { len: 4 }))
    );
    assert_eq!(
        million_porker(&vec![], 1),
        Err(PorkerError::InsufficientPool(InsufficientPoolError { len: 0 }))
    );
    assert_eq!(
        million_porker(&vec![99, 98, 97], 2_000_000),
        Err(PorkerError::InsufficientPool(InsufficientPoolError { len: 3 }))
    );
}

#[test]
fn a_bad_id_ends_the_run() {
    assert_eq!(
        million_porker(&vec![0, 1, 2, 3, 52], 1),
        Err(PorkerError::Decode(DecodeError { id: 52 }))
    );
    assert_eq!(
        million_porker(&vec![77, 77, 77, 77, 77, 77], 3),
        Err(PorkerError::Decode(DecodeError { id: 77 }))
    );
    // with one bad id among many, a long run is sure to deal it
    let mut pool = Card::all_cards_id();
    pool.push(200);
    assert_eq!(
        million_porker(&pool, 100_000),
        Err(PorkerError::Decode(DecodeError { id: 200 }))
    );
}

#[test]
fn only_what_the_pool_holds_is_counted() {
    // the five cards of a royal straight flush, and nothing else
    let (tally, score, total) = million_porker(&vec![0, 9, 10, 11, 12], 300).unwrap();
    assert_eq!(tally, [0, 0, 0, 0, 0, 0, 0, 0, 0, 300]);
    assert_eq!(score, 450_000);
    assert_eq!(total, 300);
    // four aces and four kings: four of a kind or a full house
    let pool = vec![0, 13, 26, 39, 12, 25, 38, 51];
    let (tally, score, total) = million_porker(&pool, 2000).unwrap();
    assert_eq!(total, 2000);
    assert_eq!(tally[4] + tally[5], 2000);
    assert!(tally[4] > 0 && tally[5] > 0);
    assert_eq!(score, tally[4] * 100 + tally[5] * 150);
}

#[test]
fn more_than_a_million_rounds_are_cut_down() {
    // every position holds the same card, so every hand is a flush
    let pool = vec![7; 52];
    assert_eq!(
        million_porker(&pool, 2_000_000),
        Ok(([0, 0, 0, 0, 0, 0, 1_000_000, 0, 0, 0], 200_000_000, 1_000_000))
    );
}

#[test]
fn a_million_rounds_are_played_in_full() {
    let pool = vec![7; 52];
    assert_eq!(
        million_porker(&pool, 1_000_000),
        Ok(([0, 0, 0, 0, 0, 0, 1_000_000, 0, 0, 0], 200_000_000, 1_000_000))
    );
}

#[test]
fn asking_for_two_million_is_asking_for_one_million() {
    let deck = Card::all_cards_id();
    let two_million = million_porker_with(&mut Sampler::from_seed(99), &deck, 2_000_000);
    let one_million = million_porker_with(&mut Sampler::from_seed(99), &deck, 1_000_000);
    assert_eq!(two_million, one_million);
    let (tally, score, total) = two_million.unwrap();
    assert_eq!(total, 1_000_000);
    assert_eq!(tally.iter().sum::<u32>(), 1_000_000);
    assert_eq!(score, calc_score(&tally));
}

#[test]
fn a_seeded_run_can_be_repeated() {
    let deck = Card::all_cards_id();
    let first = million_porker_with(&mut Sampler::from_seed(5), &deck, 5000);
    let second = million_porker_with(&mut Sampler::from_seed(5), &deck, 5000);
    let other = million_porker_with(&mut Sampler::from_seed(6), &deck, 5000);
    assert_eq!(first, second);
    assert_ne!(first, other);
    assert_eq!(first.unwrap().2, 5000);
}

#[test]
fn just_under_the_limit_nothing_is_cut() {
    let (tally, score, total) = million_porker(&vec![7; 52], 999_999).unwrap();
    assert_eq!(total, 999_999);
    assert_eq!(tally[6], 999_999);
    assert_eq!(score, 199_999_800);
}

#[test]
fn common_hands_come_more_often_than_rare_ones() {
    let deck = Card::all_cards_id();
    let (tally, _, total) = million_porker(&deck, 100_000).unwrap();
    assert_eq!(total, 100_000);
    // no pair 50 %, one pair 42 %, two pairs 4.8 %, three of a kind 2.1 %,
    // straight 0.39 %, flush 0.20 %, four of a kind 0.024 %
    assert!(tally[0] > tally[1]);
    assert!(tally[1] > tally[2]);
    assert!(tally[2] > tally[3]);
    assert!(tally[3] > tally[7]);
    assert!(tally[7] > tally[6]);
    assert!(tally[6] > tally[4]);
    // a royal straight flush comes once in 650 000 hands
    assert!(tally[9] <= 15);
    assert!(tally[0] > 48_000 && tally[0] < 52_000);
    assert!(tally[1] > 40_000 && tally[1] < 44_500);
}

#[test]
fn an_answer_holds_the_tally_place_by_place() {
    let response = Response::new(77, 55, [1, 2, 3, 4, 5, 6, 7, 8, 9, 10]);
    assert_eq!(
        response,
        Response {
            allscore: 77,
            number: 55,
            result: ResultRole {
                nopair: 1,
                onepair: 2,
                twopair: 3,
                threepair: 4,
                fourpair: 5,
                fulhouse: 6,
                flush: 7,
                strait: 8,
                straitflush: 9,
                royalflush: 10,
            },
        }
    );
}

#[test]
fn a_request_is_played_and_answered() {
    let request = Request { num: 40, use_cards: vec![4, 3, 2, 1, 0] };
    let response = judge_porker(&request).unwrap();
    assert_eq!(response.number, 40);
    assert_eq!(response.allscore, 40 * 800);
    assert_eq!(response.result.straitflush, 40);
    assert_eq!(response.result.nopair, 0);
    let request = Request { num: 0, use_cards: vec![] };
    assert_eq!(judge_porker(&request), Ok(Response::new(0, 0, [0; 10])));
    let request = Request { num: 5, use_cards: vec![1, 2] };
    assert_eq!(
        judge_porker(&request),
        Err(PorkerError::InsufficientPool(InsufficientPoolError { len: 2 }))
    );
    let request = Request { num: 5, use_cards: vec![60, 61, 62, 63, 64] };
    assert!(matches!(judge_porker(&request), Err(PorkerError::Decode(_))));
}
