//! What a hand of five cards is worth, as mathematics.
//!
//! The definitions here speak of a hand as a sequence of cards but do not
//! depend on the order of the cards: they count how often each rank occurs.
//! [`hand_role`] is the category of a hand; the executable functions of
//! [`crate::judge`] are proved against it.

use vstd::prelude::*;
use vstd::multiset::Multiset;
use vstd::seq_lib::group_to_multiset_ensures;
use crate::card::Card;

verus! {

/// The ten categories of a hand.
#[derive(Debug, Clone, Copy, PartialEq, Eq, Structural, Hash)]
pub enum Role {
    NoPair,
    OnePair,
    TwoPair,
    ThreeCard,
    Straight,
    Flush,
    FullHouse,
    FourCard,
    StraightFlush,
    RoyalStraightFlush,
}

/// How many cards of `hand` have the rank `rank`.
pub open spec fn rank_count(hand: Seq<Card>, rank: int) -> nat
    decreases hand.len(),
{
    if hand.len() == 0 {
        0
    } else {
        rank_count(hand.drop_last(), rank) + if hand.last().rank == rank {
            1nat
        } else {
            0nat
        }
    }
}

/// All cards share one suit.
pub open spec fn same_suit(hand: Seq<Card>) -> bool {
    forall|i: int| 0 <= i < hand.len() ==> (#[trigger] hand[i]).suit == hand[0].suit
}

/// The ranks are ace, ten, jack, queen and king, each once.
pub open spec fn royal_ranks(hand: Seq<Card>) -> bool {
    &&& rank_count(hand, 1) == 1
    &&& rank_count(hand, 10) == 1
    &&& rank_count(hand, 11) == 1
    &&& rank_count(hand, 12) == 1
    &&& rank_count(hand, 13) == 1
}

/// The ranks are the five consecutive numbers that start at `low`, each once.
pub open spec fn run_from(hand: Seq<Card>, low: int) -> bool {
    &&& rank_count(hand, low) == 1
    &&& rank_count(hand, low + 1) == 1
    &&& rank_count(hand, low + 2) == 1
    &&& rank_count(hand, low + 3) == 1
    &&& rank_count(hand, low + 4) == 1
}

/// The ranks are five consecutive numbers.
pub open spec fn consecutive_ranks(hand: Seq<Card>) -> bool {
    exists|low: int| #[trigger] run_from(hand, low)
}

/// The ranks form a straight: five consecutive numbers, or the run that ends
/// with the ace above the king.
pub open spec fn straight_ranks(hand: Seq<Card>) -> bool {
    consecutive_ranks(hand) || royal_ranks(hand)
}

/// Some rank occurs exactly `size` times.
pub open spec fn has_group(hand: Seq<Card>, size: nat) -> bool {
    exists|rank: int| #[trigger] rank_count(hand, rank) == size
}

/// One rank occurs twice and another three times.
pub open spec fn full_house_ranks(hand: Seq<Card>) -> bool {
    has_group(hand, 2) && has_group(hand, 3)
}

/// Two different ranks occur exactly twice each.
pub open spec fn two_pair_ranks(hand: Seq<Card>) -> bool {
    exists|a: int, b: int|
        a != b && #[trigger] rank_count(hand, a) == 2 && #[trigger] rank_count(hand, b) == 2
}

/// The category that the sizes of the groups of equal rank give, with no
/// regard to suits, runs or full houses: four of a kind before three of a
/// kind before two pairs before one pair. Five cards of one rank form none of
/// these groups.
pub open spec fn pair_role(hand: Seq<Card>) -> Role {
    if has_group(hand, 4) {
        Role::FourCard
    } else if has_group(hand, 3) {
        Role::ThreeCard
    } else if two_pair_ranks(hand) {
        Role::TwoPair
    } else if has_group(hand, 2) {
        Role::OnePair
    } else {
        Role::NoPair
    }
}

/// The category of a hand. The tests are made in a fixed order and the first
/// that holds decides, so every hand has exactly one category.
pub open spec fn hand_role(hand: Seq<Card>) -> Role {
    if same_suit(hand) && royal_ranks(hand) {
        Role::RoyalStraightFlush
    } else if same_suit(hand) && straight_ranks(hand) {
        Role::StraightFlush
    } else if straight_ranks(hand) {
        Role::Straight
    } else if same_suit(hand) {
        Role::Flush
    } else if full_house_ranks(hand) {
        Role::FullHouse
    } else {
        pair_role(hand)
    }
}

impl Role {
    /// The place of the category in a tally, from the most common hand (0) to
    /// the rarest (9).
    pub open spec fn index(self) -> int {
        match self {
            Role::NoPair => 0,
            Role::OnePair => 1,
            Role::TwoPair => 2,
            Role::ThreeCard => 3,
            Role::FourCard => 4,
            Role::FullHouse => 5,
            Role::Flush => 6,
            Role::Straight => 7,
            Role::StraightFlush => 8,
            Role::RoyalStraightFlush => 9,
        }
    }

    /// The place of the category in a tally.
    pub fn tally_index(&self) -> (i: usize)
        ensures
            i == self.index(),
            i < 10,
    {
        match self {
            Role::NoPair => 0,
            Role::OnePair => 1,
            Role::TwoPair => 2,
            Role::ThreeCard => 3,
            Role::FourCard => 4,
            Role::FullHouse => 5,
            Role::Flush => 6,
            Role::Straight => 7,
            Role::StraightFlush => 8,
            Role::RoyalStraightFlush => 9,
        }
    }
}

/// One if the condition holds, else zero.
pub open spec fn one_if(b: bool) -> nat {
    if b {
        1
    } else {
        0
    }
}

/// How many of the five cards of a hand have the rank `rank`, card by card.
pub open spec fn count_in_five(hand: Seq<Card>, rank: int) -> nat {
    one_if(hand[0].rank == rank) + one_if(hand[1].rank == rank) + one_if(hand[2].rank == rank)
        + one_if(hand[3].rank == rank) + one_if(hand[4].rank == rank)
}

/// In a hand of five, the count of a rank is the sum over the five cards.
pub proof fn lemma_rank_count_five(hand: Seq<Card>)
    requires
        hand.len() == 5,
    ensures
        forall|rank: int| #[trigger] rank_count(hand, rank) == count_in_five(hand, rank),
{
    assert forall|rank: int| #[trigger] rank_count(hand, rank) == count_in_five(hand, rank) by {
        let h4 = hand.drop_last();
        let h3 = h4.drop_last();
        let h2 = h3.drop_last();
        let h1 = h2.drop_last();
        let h0 = h1.drop_last();
        assert(rank_count(h0, rank) == 0);
        assert(rank_count(h1, rank) == one_if(hand[0].rank == rank));
        assert(rank_count(h2, rank) == rank_count(h1, rank) + one_if(hand[1].rank == rank));
        assert(rank_count(h3, rank) == rank_count(h2, rank) + one_if(hand[2].rank == rank));
        assert(rank_count(h4, rank) == rank_count(h3, rank) + one_if(hand[3].rank == rank));
        assert(rank_count(hand, rank) == rank_count(h4, rank) + one_if(hand[4].rank == rank));
    }
}

/// The count of a rank is the number of cards of that rank in the multiset of
/// the hand's cards.
pub proof fn lemma_rank_count_multiset(hand: Seq<Card>, rank: int)
    ensures
        rank_count(hand, rank) == hand.to_multiset().filter(|c: Card| c.rank == rank).len(),
    decreases hand.len(),
{
    broadcast use group_to_multiset_ensures;
    broadcast use vstd::multiset::group_multiset_axioms;

    let of_rank = |c: Card| c.rank == rank;
    if hand.len() == 0 {
        assert(hand.to_multiset().len() == 0);
        assert(hand.to_multiset().filter(of_rank) =~= Multiset::<Card>::empty());
    } else {
        let rest = hand.drop_last();
        let last = hand.last();
        lemma_rank_count_multiset(rest, rank);
        assert(hand =~= rest.push(last));
        assert(hand.to_multiset() =~= rest.to_multiset().insert(last));
        if of_rank(last) {
            assert(hand.to_multiset().filter(of_rank) =~= rest.to_multiset().filter(of_rank).insert(
                last,
            ));
        } else {
            assert(hand.to_multiset().filter(of_rank) =~= rest.to_multiset().filter(of_rank));
        }
    }
}

/// Two hands that hold the same cards count every rank alike.
pub proof fn lemma_rank_count_permutation(a: Seq<Card>, b: Seq<Card>)
    requires
        a.to_multiset() == b.to_multiset(),
    ensures
        forall|rank: int|
            #![trigger rank_count(a, rank)]
            #![trigger rank_count(b, rank)]
            rank_count(a, rank) == rank_count(b, rank),
{
    assert forall|rank: int| rank_count(a, rank) == rank_count(b, rank) by {
        lemma_rank_count_multiset(a, rank);
        lemma_rank_count_multiset(b, rank);
    }
}

/// Two hands that hold the same cards agree on whether they are of one suit.
pub proof fn lemma_same_suit_permutation(a: Seq<Card>, b: Seq<Card>)
    requires
        a.to_multiset() == b.to_multiset(),
    ensures
        same_suit(a) == same_suit(b),
{
    broadcast use group_to_multiset_ensures;

    assert(a.len() == a.to_multiset().len());
    assert(b.len() == b.to_multiset().len());
    assert forall|x: Card| a.contains(x) <==> b.contains(x) by {
        assert(a.contains(x) <==> a.to_multiset().count(x) > 0);
        assert(b.contains(x) <==> b.to_multiset().count(x) > 0);
    }
    if a.len() > 0 {
        assert(a.contains(a[0]));
        assert(b.contains(b[0]));
        if same_suit(a) {
            assert forall|i: int| 0 <= i < b.len() implies (#[trigger] b[i]).suit == b[0].suit by {
                assert(b.contains(b[i]));
                assert(a.contains(b[i]));
                assert(a.contains(b[0]));
            }
        }
        if same_suit(b) {
            assert forall|i: int| 0 <= i < a.len() implies (#[trigger] a[i]).suit == a[0].suit by {
                assert(a.contains(a[i]));
                assert(b.contains(a[i]));
                assert(b.contains(a[0]));
            }
        }
    }
}

/// The category of a hand does not depend on the order of its cards: two
/// hands that hold the same cards, in whatever order, have the same category.
pub proof fn lemma_hand_role_permutation(a: Seq<Card>, b: Seq<Card>)
    requires
        a.to_multiset() == b.to_multiset(),
    ensures
        hand_role(a) == hand_role(b),
{
    lemma_rank_count_permutation(a, b);
    lemma_same_suit_permutation(a, b);
    assert(royal_ranks(a) == royal_ranks(b));
    assert forall|low: int|
        #![trigger run_from(a, low)]
        #![trigger run_from(b, low)]
        run_from(a, low) == run_from(b, low) by {}
    assert(consecutive_ranks(a) == consecutive_ranks(b));
    assert forall|size: nat| has_group(a, size) == has_group(b, size) by {}
    assert(two_pair_ranks(a) == two_pair_ranks(b));
}

} // verus!
