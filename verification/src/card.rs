//! Cards and their identifiers.
//!
//! A deck has 52 cards, numbered 0 to 51. The number fixes the card: thirteen
//! consecutive numbers share a suit, and within a suit the rank runs from 1
//! (the ace) to 13 (the king).

use vstd::prelude::*;

verus! {

/// Number of cards in a full deck.
pub const DECK_SIZE: u32 = 52;

/// Number of ranks in each suit.
pub const RANKS_PER_SUIT: u32 = 13;

/// The four suits, in the order in which the identifiers run through them.
#[derive(Debug, Clone, Copy, PartialEq, Eq, Structural, PartialOrd, Ord, Hash)]
pub enum Suit {
    Spade,
    Heart,
    Diamond,
    Club,
}

/// One card: its identifier, and the suit and rank that the identifier stands for.
#[derive(Debug, Clone, Copy, PartialEq, Eq, Structural, PartialOrd, Ord, Hash)]
pub struct Card {
    pub id: u32,
    pub suit: Suit,
    pub rank: u32,
}

/// An identifier that names no card of the deck.
#[derive(Debug, Clone, Copy, PartialEq, Eq, Structural)]
pub struct DecodeError {
    /// The rejected identifier.
    pub id: u32,
}

/// The suit with the given number, for numbers 0 to 3.
pub open spec fn suit_of(n: int) -> Suit {
    if n == 0 {
        Suit::Spade
    } else if n == 1 {
        Suit::Heart
    } else if n == 2 {
        Suit::Diamond
    } else {
        Suit::Club
    }
}

/// Whether `id` names a card of the deck.
pub open spec fn valid_id(id: u32) -> bool {
    id < DECK_SIZE
}

/// The card that a valid identifier stands for.
pub open spec fn card_of(id: u32) -> Card {
    Card { id, suit: suit_of(id as int / 13), rank: (id % 13 + 1) as u32 }
}

/// The identifier of the card with the given suit and rank.
pub open spec fn id_of(suit: Suit, rank: int) -> int {
    suit.index() * 13 + rank - 1
}

impl Suit {
    /// The number of the suit: 0 for spades up to 3 for clubs.
    pub open spec fn index(self) -> int {
        match self {
            Suit::Spade => 0,
            Suit::Heart => 1,
            Suit::Diamond => 2,
            Suit::Club => 3,
        }
    }

    /// The suit with number `n`, or `None` when `n` is not the number of a suit.
    pub fn from_u32(n: u32) -> (suit: Option<Suit>)
        ensures
            n < 4 ==> suit == Some(suit_of(n as int)),
            n >= 4 ==> suit is None,
            suit matches Some(s) ==> s.index() == n,
    {
        match n {
            0 => Some(Suit::Spade),
            1 => Some(Suit::Heart),
            2 => Some(Suit::Diamond),
            3 => Some(Suit::Club),
            _ => None,
        }
    }
}

impl Default for Suit {
    fn default() -> (suit: Suit)
        ensures
            suit == Suit::Spade,
    {
        Suit::Spade
    }
}

impl Card {
    /// A card is well formed when its suit and rank are those of its identifier.
    pub open spec fn wf(self) -> bool {
        valid_id(self.id) && self == card_of(self.id)
    }

    /// Decodes an identifier. Identifiers from 52 on are rejected.
    pub fn new(id: u32) -> (card: Result<Card, DecodeError>)
        ensures
            valid_id(id) ==> card == Ok::<Card, DecodeError>(card_of(id)),
            !valid_id(id) ==> card == Err::<Card, DecodeError>(DecodeError { id }),
            card matches Ok(c) ==> c.wf(),
    {
        if id >= DECK_SIZE {
            return Err(DecodeError { id });
        }
        match Suit::from_u32(id / RANKS_PER_SUIT) {
            Some(suit) => Ok(Card { id, suit, rank: id % RANKS_PER_SUIT + 1 }),
            None => Err(DecodeError { id }),
        }
    }

    /// The identifiers of the whole deck, in ascending order.
    pub fn all_cards_id() -> (ids: Vec<u32>)
        ensures
            ids@.len() == DECK_SIZE,
            forall|i: int| 0 <= i < DECK_SIZE ==> ids@[i] == i,
    {
        let mut cards: Vec<u32> = Vec::new();
        let mut i: u32 = 0;
        while i < DECK_SIZE
            invariant
                i <= DECK_SIZE,
                cards@.len() == i,
                forall|k: int| 0 <= k < i ==> cards@[k] == k,
            decreases DECK_SIZE - i,
        {
            cards.push(i);
            i += 1;
        }
        cards
    }
}

/// The cards that the identifiers stand for, one by one.
pub open spec fn cards_of(ids: Seq<u32>) -> Seq<Card> {
    ids.map_values(|id: u32| card_of(id))
}

/// Every identifier names a card of the deck.
pub open spec fn all_valid(ids: Seq<u32>) -> bool {
    forall|i: int| 0 <= i < ids.len() ==> valid_id(#[trigger] ids[i])
}

/// Decodes the five identifiers of a hand. The first identifier that names no
/// card is reported, and no hand is made.
pub fn make_cards_from_id(cards_id: &[u32; 5]) -> (cards: Result<[Card; 5], DecodeError>)
    ensures
        all_valid(cards_id@) ==> cards is Ok && cards->Ok_0@ == cards_of(cards_id@),
        cards matches Ok(hand) ==> forall|i: int| 0 <= i < 5 ==> (#[trigger] hand@[i]).wf(),
        !all_valid(cards_id@) ==> cards is Err && exists|k: int|
            0 <= k < 5 && cards->Err_0.id == #[trigger] cards_id@[k] && !valid_id(cards_id@[k])
                && all_valid(cards_id@.take(k)),
{
    let mut cards: [Card; 5] = [Card { id: 0, suit: Suit::Spade, rank: 1 }; 5];
    let mut i: usize = 0;
    while i < 5
        invariant
            i <= 5,
            forall|k: int| 0 <= k < i ==> valid_id(#[trigger] cards_id@[k]),
            forall|k: int| 0 <= k < i ==> cards@[k] == card_of(#[trigger] cards_id@[k]),
        decreases 5 - i,
    {
        match Card::new(cards_id[i]) {
            Ok(card) => {
                cards[i] = card;
            },
            Err(e) => {
                assert(all_valid(cards_id@.take(i as int)));
                return Err(e);
            },
        }
        i += 1;
    }
    assert(cards@ =~= cards_of(cards_id@));
    Ok(cards)
}

/// Decoding follows the formula: the suit of a valid identifier is its
/// quotient by 13, the rank its remainder plus one, and the suit and rank lead
/// back to the identifier.
pub proof fn lemma_decode(id: u32)
    requires
        valid_id(id),
    ensures
        card_of(id).wf(),
        card_of(id).id == id,
        card_of(id).suit.index() == id / 13,
        card_of(id).rank == id % 13 + 1,
        1 <= card_of(id).rank <= 13,
        id_of(card_of(id).suit, card_of(id).rank as int) == id,
{
}

/// Decoding is a bijection between the 52 identifiers and the 52 pairs of a
/// suit and a rank from 1 to 13: two identifiers with the same suit and rank
/// are the same, and every such pair is the suit and rank of an identifier.
pub proof fn lemma_codec_bijective(a: u32, b: u32, suit: Suit, rank: int)
    ensures
        valid_id(a) && valid_id(b) && card_of(a).suit == card_of(b).suit && card_of(a).rank
            == card_of(b).rank ==> a == b,
        1 <= rank <= 13 ==> {
            &&& 0 <= id_of(suit, rank) < 52
            &&& card_of(id_of(suit, rank) as u32).suit == suit
            &&& card_of(id_of(suit, rank) as u32).rank == rank
        },
{
    if valid_id(a) && valid_id(b) {
        lemma_decode(a);
        lemma_decode(b);
    }
}

} // verus!
