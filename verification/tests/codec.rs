use porker::{make_cards_from_id, Card, DecodeError, Suit};

#[test]
fn decode_follows_the_formula_for_every_id() {
    for id in 0..52u32 {
        let card = Card::new(id).unwrap();
        assert_eq!(card.id, id);
        assert_eq!(Some(card.suit), Suit::from_u32(id / 13));
        assert_eq!(card.rank, id % 13 + 1);
        assert!(1 <= card.rank && card.rank <= 13);
    }
}

#[test]
fn decode_exact_values() {
    assert_eq!(Card::new(0), Ok(Card { id: 0, suit: Suit::Spade, rank: 1 }));
    assert_eq!(Card::new(12), Ok(Card { id: 12, suit: Suit::Spade, rank: 13 }));
    assert_eq!(Card::new(13), Ok(Card { id: 13, suit: Suit::Heart, rank: 1 }));
    assert_eq!(Card::new(30), Ok(Card { id: 30, suit: Suit::Diamond, rank: 5 }));
    assert_eq!(Card::new(51), Ok(Card { id: 51, suit: Suit::Club, rank: 13 }));
}

#[test]
fn decode_is_one_to_one_onto_the_pairs() {
    let mut seen = Vec::new();
    for id in 0..52u32 {
        let card = Card::new(id).unwrap();
        let pair = (card.suit, card.rank);
        assert!(!seen.contains(&pair));
        seen.push(pair);
    }
    assert_eq!(seen.len(), 52);
    for suit in [Suit::Spade, Suit::Heart, Suit::Diamond, Suit::Club] {
        for rank in 1..=13u32 {
            assert!(seen.contains(&(suit, rank)));
        }
    }
}

#[test]
fn decode_rejects_ids_outside_the_deck() {
    assert_eq!(Card::new(52), Err(DecodeError { id: 52 }));
    assert_eq!(Card::new(53), Err(DecodeError { id: 53 }));
    assert_eq!(Card::new(u32::MAX), Err(DecodeError { id: u32::MAX }));
}

#[test]
fn suit_numbers() {
    assert_eq!(Suit::from_u32(0), Some(Suit::Spade));
    assert_eq!(Suit::from_u32(1), Some(Suit::Heart));
    assert_eq!(Suit::from_u32(2), Some(Suit::Diamond));
    assert_eq!(Suit::from_u32(3), Some(Suit::Club));
    assert_eq!(Suit::from_u32(4), None);
    assert_eq!(Suit::from_u32(u32::MAX), None);
    assert_eq!(Suit::default(), Suit::Spade);
}

#[test]
fn whole_deck_in_ascending_order() {
    let ids = Card::all_cards_id();
    let expected: Vec<u32> = (0..52).collect();
    assert_eq!(ids, expected);
}

#[test]
fn hand_is_decoded_card_by_card() {
    let cards = make_cards_from_id(&[0, 13, 26, 39, 51]).unwrap();
    assert_eq!(cards[0], Card { id: 0, suit: Suit::Spade, rank: 1 });
    assert_eq!(cards[1], Card { id: 13, suit: Suit::Heart, rank: 1 });
    assert_eq!(cards[2], Card { id: 26, suit: Suit::Diamond, rank: 1 });
    assert_eq!(cards[3], Card { id: 39, suit: Suit::Club, rank: 1 });
    assert_eq!(cards[4], Card { id: 51, suit: Suit::Club, rank: 13 });
}

#[test]
fn hand_with_a_bad_id_reports_the_first_one() {
    assert_eq!(make_cards_from_id(&[0, 1, 2, 3, 52]), Err(DecodeError { id: 52 }));
    assert_eq!(make_cards_from_id(&[0, 77, 2, 99, 4]), Err(DecodeError { id: 77 }));
    assert_eq!(make_cards_from_id(&[100, 77, 2, 99, 4]), Err(DecodeError { id: 100 }));
}
