use porker::{handout_cards, Card, Draw, InsufficientPoolError, Sampler};

#[test]
fn a_pool_of_fewer_than_five_is_turned_down() {
    assert_eq!(handout_cards(&vec![]), Err(InsufficientPoolError { len: 0 }));
    assert_eq!(handout_cards(&vec![3]), Err(InsufficientPoolError { len: 1 }));
    assert_eq!(handout_cards(&vec![0, 1, 2, 3]), Err(InsufficientPoolError { len: 4 }));
    assert_eq!(handout_cards(&vec![7, 7, 7, 7]), Err(InsufficientPoolError { len: 4 }));
}

#[test]
fn a_pool_of_five_is_dealt_whole() {
    let pool = vec![40, 3, 17, 22, 51];
    for _ in 0..500 {
        let hand = handout_cards(&pool).unwrap();
        let mut sorted = hand.to_vec();
        sorted.sort();
        assert_eq!(sorted, vec![3, 17, 22, 40, 51]);
    }
}

#[test]
fn no_position_is_dealt_twice() {
    let pool = Card::all_cards_id();
    for _ in 0..2000 {
        let hand = handout_cards(&pool).unwrap();
        for i in 0..5 {
            assert!(hand[i] < 52);
            for j in 0..i {
                assert_ne!(hand[i], hand[j]);
            }
        }
    }
}

#[test]
fn equal_ids_at_different_positions_are_different_cards() {
    let pool = vec![7, 7, 7, 7, 7];
    assert_eq!(handout_cards(&pool), Ok([7, 7, 7, 7, 7]));
    let pool = vec![1, 1, 1, 2, 2, 2];
    for _ in 0..500 {
        let hand = handout_cards(&pool).unwrap();
        let ones = hand.iter().filter(|id| **id == 1).count();
        let twos = hand.iter().filter(|id| **id == 2).count();
        assert_eq!(ones + twos, 5);
        assert!(ones == 2 || ones == 3);
    }
}

#[test]
fn every_position_and_every_order_comes_up() {
    let pool = vec![10, 11, 12, 13, 14, 15];
    let mut first = [0u32; 6];
    let mut left_out = [0u32; 6];
    for _ in 0..6000 {
        let hand = handout_cards(&pool).unwrap();
        first[(hand[0] - 10) as usize] += 1;
        let sum: u32 = hand.iter().sum();
        left_out[(75 - sum - 10) as usize] += 1;
    }
    for place in 0..6 {
        // 1000 expected for each
        assert!(first[place] > 700 && first[place] < 1300);
        assert!(left_out[place] > 700 && left_out[place] < 1300);
    }
}

#[test]
fn a_deal_remembers_the_order_of_taking() {
    let mut draw = Draw::new();
    assert_eq!(draw.len(), 0);
    assert!(!draw.contains(3));
    assert!(draw.offer(3));
    assert!(draw.offer(1));
    assert!(draw.contains(3));
    assert!(draw.contains(1));
    assert!(!draw.contains(0));
    assert_eq!(draw.len(), 2);
    assert!(!draw.offer(3));
    assert_eq!(draw.len(), 2);
    assert!(draw.offer(4));
    assert!(!draw.offer(1));
    assert!(draw.offer(0));
    assert!(draw.offer(2));
    assert_eq!(draw.len(), 5);
    assert_eq!(draw.hand(&vec![10, 11, 12, 13, 14]), [13, 11, 14, 10, 12]);
}

#[test]
fn a_deal_takes_positions_not_ids() {
    let mut draw = Draw::new();
    for position in [5, 0, 6, 2, 4] {
        assert!(draw.offer(position));
    }
    assert_eq!(draw.hand(&vec![9, 8, 9, 8, 9, 8, 9]), [8, 9, 9, 9, 9]);
}

#[test]
fn free_positions_are_counted_in_ascending_order() {
    let mut draw = Draw::new();
    assert_eq!(draw.nth_free(5, 0), 0);
    assert_eq!(draw.nth_free(5, 4), 4);
    draw.offer(3);
    draw.offer(1);
    assert_eq!(draw.nth_free(5, 0), 0);
    assert_eq!(draw.nth_free(5, 1), 2);
    assert_eq!(draw.nth_free(5, 2), 4);
    draw.offer(0);
    assert_eq!(draw.nth_free(6, 0), 2);
    assert_eq!(draw.nth_free(6, 1), 4);
    assert_eq!(draw.nth_free(6, 2), 5);
}

#[test]
fn samplers_with_the_same_seed_deal_alike() {
    let pool = Card::all_cards_id();
    let mut one = Sampler::from_seed(2024);
    let mut two = Sampler::from_seed(2024);
    let mut other = Sampler::from_seed(2025);
    let mut differs = false;
    for _ in 0..200 {
        let hand = one.handout_cards(&pool).unwrap();
        assert_eq!(Ok(hand), two.handout_cards(&pool));
        if Ok(hand) != other.handout_cards(&pool) {
            differs = true;
        }
    }
    assert!(differs);
}

#[test]
fn a_seeded_sampler_deals_from_different_positions() {
    let pool = vec![40, 3, 17, 22, 51, 8, 30];
    let mut sampler = Sampler::from_seed(7);
    assert_eq!(sampler.handout_cards(&vec![1, 2, 3]), Err(InsufficientPoolError { len: 3 }));
    for _ in 0..1000 {
        let hand = sampler.handout_cards(&pool).unwrap();
        for i in 0..5 {
            assert!(pool.contains(&hand[i]));
            for j in 0..i {
                assert_ne!(hand[i], hand[j]);
            }
        }
    }
}

#[test]
fn samplers_seeded_by_the_system_differ() {
    let pool = Card::all_cards_id();
    let mut one = Sampler::new();
    let mut two = Sampler::new();
    let mut differs = false;
    for _ in 0..50 {
        if one.handout_cards(&pool) != two.handout_cards(&pool) {
            differs = true;
        }
    }
    assert!(differs);
}
