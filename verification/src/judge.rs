//! Deciding the category of a hand.
//!
//! The straight and the full house are read off the cards in the order in
//! which they lie, which gives the right answer once the cards are sorted by
//! rank; the other tests count ranks and suits and do not mind the order.
//! [`classify`] sorts a copy of the hand and applies the tests in their fixed
//! order.

use vstd::prelude::*;
use crate::card::Card;
use crate::hand::{
    consecutive_ranks, full_house_ranks, hand_role, has_group, lemma_hand_role_permutation,
    lemma_rank_count_five, one_if, pair_role, rank_count, royal_ranks, run_from, same_suit,
    straight_ranks, two_pair_ranks, Role,
};

verus! {

/// The ranks do not fall from one card to the next.
pub open spec fn sorted_by_rank(hand: Seq<Card>) -> bool {
    forall|i: int, j: int| 0 <= i <= j < hand.len() ==> hand[i].rank <= hand[j].rank
}

/// The cards lie as ace, ten, jack, queen, king.
pub open spec fn ace_high_in_order(hand: Seq<Card>) -> bool {
    &&& hand[0].rank == 1
    &&& hand[1].rank == 10
    &&& hand[2].rank == 11
    &&& hand[3].rank == 12
    &&& hand[4].rank == 13
}

/// Each card's rank is one more than that of the card before it.
pub open spec fn consecutive_in_order(hand: Seq<Card>) -> bool {
    forall|i: int| 0 <= i < 4 ==> hand[i].rank + 1 == (#[trigger] hand[i + 1]).rank
}

/// The cards, read in their order, form a straight.
pub open spec fn straight_in_order(hand: Seq<Card>) -> bool {
    ace_high_in_order(hand) || consecutive_in_order(hand)
}

/// The cards lie as a pair followed by three of another rank, or as three of
/// a rank followed by a pair of another.
pub open spec fn full_house_in_order(hand: Seq<Card>) -> bool {
    ||| {
        &&& hand[0].rank == hand[1].rank
        &&& hand[1].rank != hand[2].rank
        &&& hand[2].rank == hand[3].rank
        &&& hand[3].rank == hand[4].rank
    }
    ||| {
        &&& hand[0].rank == hand[1].rank
        &&& hand[1].rank == hand[2].rank
        &&& hand[2].rank != hand[3].rank
        &&& hand[3].rank == hand[4].rank
    }
}

/// How many of the five cards have a rank that occurs exactly twice.
pub open spec fn cards_in_pairs(hand: Seq<Card>) -> nat {
    paired_before(hand, 5)
}

/// How many of the first `n` cards have a rank that occurs exactly twice in
/// the whole hand.
pub open spec fn paired_before(hand: Seq<Card>, n: int) -> nat
    decreases n,
{
    if n <= 0 {
        0
    } else {
        paired_before(hand, n - 1) + if rank_count(hand, hand[n - 1].rank as int) == 2 {
            1nat
        } else {
            0nat
        }
    }
}

/// On a hand sorted by rank, reading the straight off the order of the cards
/// finds exactly the straights.
pub proof fn lemma_straight_in_sorted(hand: Seq<Card>)
    requires
        hand.len() == 5,
        sorted_by_rank(hand),
    ensures
        ace_high_in_order(hand) == royal_ranks(hand),
        consecutive_in_order(hand) == consecutive_ranks(hand),
        straight_in_order(hand) == straight_ranks(hand),
{
    lemma_rank_count_five(hand);
    assert(hand[0].rank <= hand[1].rank <= hand[2].rank <= hand[3].rank <= hand[4].rank);
    if consecutive_in_order(hand) {
        assert(hand[0].rank + 1 == hand[0int + 1].rank);
        assert(hand[1].rank + 1 == hand[1int + 1].rank);
        assert(hand[2].rank + 1 == hand[2int + 1].rank);
        assert(hand[3].rank + 1 == hand[3int + 1].rank);
        assert(run_from(hand, hand[0].rank as int));
    }
    if consecutive_ranks(hand) {
        let low = choose|low: int| #[trigger] run_from(hand, low);
        assert(run_from(hand, low));
        assert(hand[0].rank == low);
        assert(hand[1].rank == low + 1);
        assert(hand[2].rank == low + 2);
        assert(hand[3].rank == low + 3);
        assert(hand[4].rank == low + 4);
    }
}

/// On a hand sorted by rank, reading the full house off the order of the
/// cards finds exactly the full houses.
pub proof fn lemma_full_house_in_sorted(hand: Seq<Card>)
    requires
        hand.len() == 5,
        sorted_by_rank(hand),
    ensures
        full_house_in_order(hand) == full_house_ranks(hand),
{
    lemma_rank_count_five(hand);
    assert(hand[0].rank <= hand[1].rank <= hand[2].rank <= hand[3].rank <= hand[4].rank);
    if full_house_in_order(hand) {
        if hand[1].rank != hand[2].rank {
            assert(rank_count(hand, hand[0].rank as int) == 2);
            assert(rank_count(hand, hand[4].rank as int) == 3);
        } else {
            assert(rank_count(hand, hand[0].rank as int) == 3);
            assert(rank_count(hand, hand[4].rank as int) == 2);
        }
    }
    if full_house_ranks(hand) {
        let a = choose|rank: int| #[trigger] rank_count(hand, rank) == 2;
        let b = choose|rank: int| #[trigger] rank_count(hand, rank) == 3;
        assert(rank_count(hand, a) == 2);
        assert(rank_count(hand, b) == 3);
    }
}

/// The largest group of equal rank, read off the five numbers that say for
/// each card how many cards share its rank: `most` is the largest of them.
pub proof fn lemma_largest_group(hand: Seq<Card>, most: nat)
    requires
        hand.len() == 5,
        forall|i: int| 0 <= i < 5 ==> rank_count(hand, (#[trigger] hand[i]).rank as int) <= most,
        exists|i: int| 0 <= i < 5 && rank_count(hand, (#[trigger] hand[i]).rank as int) == most,
    ensures
        1 <= most <= 5,
        has_group(hand, 5) == (most == 5),
        has_group(hand, 4) == (most == 4),
        has_group(hand, 3) == (most == 3),
        has_group(hand, 2) ==> most == 2 || most == 3,
        two_pair_ranks(hand) ==> most == 2,
        most == 2 ==> has_group(hand, 2),
{
    lemma_rank_count_five(hand);
    let top = choose|i: int|
        0 <= i < 5 && rank_count(hand, (#[trigger] hand[i]).rank as int) == most;
    assert(has_group(hand, most)) by {
        assert(rank_count(hand, hand[top].rank as int) == most);
    }
    assert forall|size: nat| 1 <= size && #[trigger] has_group(hand, size) implies size <= most by {
        let rank = choose|rank: int| #[trigger] rank_count(hand, rank) == size;
        assert(rank_count(hand, rank) == size);
    }
    if has_group(hand, 2) {
        let rank = choose|rank: int| #[trigger] rank_count(hand, rank) == 2;
        assert(rank_count(hand, rank) == 2);
    }
    if two_pair_ranks(hand) {
        let (a, b) = choose|a: int, b: int|
            a != b && #[trigger] rank_count(hand, a) == 2 && #[trigger] rank_count(hand, b) == 2;
        assert(rank_count(hand, a) == 2 && rank_count(hand, b) == 2 && a != b);
    }
}

/// A hand holds two pairs exactly when four of its cards have a rank that
/// occurs twice.
pub proof fn lemma_two_pairs(hand: Seq<Card>)
    requires
        hand.len() == 5,
    ensures
        two_pair_ranks(hand) == (cards_in_pairs(hand) == 4),
{
    lemma_rank_count_five(hand);
    reveal_with_fuel(paired_before, 6);
    let paired = cards_in_pairs(hand);
    let m0 = rank_count(hand, hand[0].rank as int);
    let m1 = rank_count(hand, hand[1].rank as int);
    let m2 = rank_count(hand, hand[2].rank as int);
    let m3 = rank_count(hand, hand[3].rank as int);
    let m4 = rank_count(hand, hand[4].rank as int);
    assert(paired == one_if(m0 == 2) + one_if(m1 == 2) + one_if(m2 == 2) + one_if(m3 == 2)
        + one_if(m4 == 2));
    if two_pair_ranks(hand) {
        let (a, b) = choose|a: int, b: int|
            a != b && #[trigger] rank_count(hand, a) == 2 && #[trigger] rank_count(hand, b) == 2;
        assert(rank_count(hand, a) == 2 && rank_count(hand, b) == 2 && a != b);
        assert(paired == 4);
    }
    if paired == 4 {
        let a = if m0 == 2 {
            hand[0].rank as int
        } else {
            hand[1].rank as int
        };
        let b = if hand[1].rank != a && m1 == 2 {
            hand[1].rank as int
        } else if hand[2].rank != a && m2 == 2 {
            hand[2].rank as int
        } else if hand[3].rank != a && m3 == 2 {
            hand[3].rank as int
        } else {
            hand[4].rank as int
        };
        assert(a != b && rank_count(hand, a) == 2 && rank_count(hand, b) == 2);
    }
}

/// Exchanging two cards of a hand leaves the same cards in it.
pub proof fn lemma_swap_keeps_cards(hand: Seq<Card>, i: int, j: int)
    requires
        0 <= i < hand.len(),
        0 <= j < hand.len(),
    ensures
        hand.update(i, hand[j]).update(j, hand[i]).to_multiset() == hand.to_multiset(),
{
    broadcast use vstd::seq_lib::group_to_multiset_ensures;
    broadcast use vstd::multiset::group_multiset_axioms;

    let once = hand.update(i, hand[j]);
    assert(once.to_multiset() == hand.to_multiset().insert(hand[j]).remove(hand[i]));
    assert(once.update(j, hand[i]).to_multiset() == once.to_multiset().insert(hand[i]).remove(
        once[j],
    ));
    assert(hand.to_multiset().count(hand[i]) > 0) by {
        assert(hand.contains(hand[i]));
    }
    assert(hand.to_multiset().count(hand[j]) > 0) by {
        assert(hand.contains(hand[j]));
    }
    assert(once.update(j, hand[i]).to_multiset() =~= hand.to_multiset());
}

/// What is reported of a hand whose five cards all have the same rank.
pub const FIVE_OF_A_RANK: &'static str = "all five cards have the same rank";

/// Counts the cards of the given rank.
pub fn count_rank(cards: &[Card; 5], rank: u32) -> (n: usize)
    ensures
        n == rank_count(cards@, rank as int),
        n <= 5,
{
    let mut n: usize = 0;
    let mut i: usize = 0;
    while i < 5
        invariant
            i <= 5,
            n <= i,
            n == rank_count(cards@.take(i as int), rank as int),
        decreases 5 - i,
    {
        assert(cards@.take(i + 1).drop_last() =~= cards@.take(i as int));
        if cards[i].rank == rank {
            n += 1;
        }
        i += 1;
    }
    assert(cards@.take(5) =~= cards@);
    n
}

/// Sorts the cards by rank, lowest first.
pub fn sort_by_rank(cards: &mut [Card; 5])
    ensures
        sorted_by_rank(final(cards)@),
        final(cards)@.to_multiset() == old(cards)@.to_multiset(),
{
    let mut i: usize = 1;
    while i < 5
        invariant
            1 <= i <= 5,
            cards@.to_multiset() == old(cards)@.to_multiset(),
            forall|a: int, b: int| 0 <= a <= b < i ==> cards@[a].rank <= cards@[b].rank,
        decreases 5 - i,
    {
        let mut j: usize = i;
        while j > 0 && cards[j - 1].rank > cards[j].rank
            invariant
                j <= i < 5,
                cards@.to_multiset() == old(cards)@.to_multiset(),
                forall|a: int, b: int|
                    0 <= a <= b <= i && a != j && b != j ==> cards@[a].rank <= cards@[b].rank,
                forall|b: int| j < b <= i ==> cards@[j as int].rank <= cards@[b].rank,
            decreases j,
        {
            let ghost before = cards@;
            let lower = cards[j - 1];
            let upper = cards[j];
            cards[j - 1] = upper;
            cards[j] = lower;
            proof {
                lemma_swap_keeps_cards(before, j - 1, j as int);
                assert(cards@ =~= before.update(j - 1, before[j as int]).update(
                    j as int,
                    before[j - 1],
                ));
            }
            j -= 1;
        }
        i += 1;
    }
}

/// A flush: all five cards are of one suit.
pub fn is_flush(cards: &[Card; 5]) -> (role: Option<Role>)
    ensures
        role == if same_suit(cards@) {
            Some(Role::Flush)
        } else {
            None::<Role>
        },
{
    let mut i: usize = 1;
    while i < 5
        invariant
            1 <= i <= 5,
            forall|k: int| 0 <= k < i ==> (#[trigger] cards@[k]).suit == cards@[0].suit,
        decreases 5 - i,
    {
        if cards[i].suit != cards[0].suit {
            return None;
        }
        i += 1;
    }
    Some(Role::Flush)
}

/// A straight, read off the cards in the order in which they lie: each rank
/// one above the one before, or ace, ten, jack, queen, king. On cards sorted
/// by rank this finds exactly the hands whose ranks form a straight. The cards
/// are left as they are.
pub fn is_strait(cards: &mut [Card; 5]) -> (role: Option<Role>)
    ensures
        *final(cards) == *old(cards),
        role == if straight_in_order(old(cards)@) {
            Some(Role::Straight)
        } else {
            None::<Role>
        },
        sorted_by_rank(old(cards)@) ==> (role is Some <==> straight_ranks(old(cards)@)),
{
    proof {
        if sorted_by_rank(cards@) {
            lemma_straight_in_sorted(cards@);
        }
    }
    let ace_high = cards[0].rank == 1 && cards[1].rank == 10 && cards[2].rank == 11
        && cards[3].rank == 12 && cards[4].rank == 13;
    let mut in_steps = true;
    let mut i: usize = 0;
    while i < 4
        invariant
            i <= 4,
            *cards == *old(cards),
            in_steps == forall|k: int|
                0 <= k < i ==> cards@[k].rank + 1 == (#[trigger] cards@[k + 1]).rank,
        decreases 4 - i,
    {
        if !(cards[i].rank < cards[i + 1].rank && cards[i + 1].rank - cards[i].rank == 1) {
            in_steps = false;
        }
        i += 1;
    }
    if ace_high || in_steps {
        Some(Role::Straight)
    } else {
        None
    }
}

/// A royal straight flush: one suit, and the ranks ace, ten, jack, queen and
/// king. The order of the cards does not matter.
pub fn is_royalflush(cards: &[Card; 5]) -> (role: Option<Role>)
    ensures
        role == if same_suit(cards@) && royal_ranks(cards@) {
            Some(Role::RoyalStraightFlush)
        } else {
            None::<Role>
        },
{
    if is_flush(cards).is_none() {
        return None;
    }
    if count_rank(cards, 1) == 1 && count_rank(cards, 10) == 1 && count_rank(cards, 11) == 1
        && count_rank(cards, 12) == 1 && count_rank(cards, 13) == 1 {
        Some(Role::RoyalStraightFlush)
    } else {
        None
    }
}

/// A straight flush: a straight, read off the cards in their order, in one
/// suit. On cards sorted by rank this finds exactly the hands of one suit
/// whose ranks form a straight. The cards are left as they are.
pub fn is_straitflush(cards: &mut [Card; 5]) -> (role: Option<Role>)
    ensures
        *final(cards) == *old(cards),
        role == if straight_in_order(old(cards)@) && same_suit(old(cards)@) {
            Some(Role::StraightFlush)
        } else {
            None::<Role>
        },
        sorted_by_rank(old(cards)@) ==> (role is Some <==> straight_ranks(old(cards)@)
            && same_suit(old(cards)@)),
{
    if is_strait(cards).is_some() && is_flush(cards).is_some() {
        Some(Role::StraightFlush)
    } else {
        None
    }
}

/// For each card, the size of its group: how many cards of the hand have its
/// rank, itself included.
pub fn group_sizes(cards: &[Card; 5]) -> (sizes: [usize; 5])
    ensures
        forall|i: int|
            0 <= i < 5 ==> sizes@[i] == rank_count(cards@, (#[trigger] cards@[i]).rank as int),
{
    let mut sizes: [usize; 5] = [0; 5];
    let mut i: usize = 0;
    while i < 5
        invariant
            i <= 5,
            forall|k: int|
                0 <= k < i ==> sizes@[k] == rank_count(cards@, (#[trigger] cards@[k]).rank as int),
        decreases 5 - i,
    {
        sizes[i] = count_rank(cards, cards[i].rank);
        i += 1;
    }
    sizes
}

/// How many of the cards belong to a pair: to a group of exactly two.
fn count_paired(cards: &[Card; 5], sizes: &[usize; 5]) -> (paired: usize)
    requires
        forall|i: int|
            0 <= i < 5 ==> sizes@[i] == rank_count(cards@, (#[trigger] cards@[i]).rank as int),
    ensures
        paired == cards_in_pairs(cards@),
{
    let mut paired: usize = 0;
    let mut i: usize = 0;
    while i < 5
        invariant
            i <= 5,
            paired <= i,
            paired == paired_before(cards@, i as int),
            forall|k: int|
                0 <= k < 5 ==> sizes@[k] == rank_count(cards@, (#[trigger] cards@[k]).rank as int),
        decreases 5 - i,
    {
        if sizes[i] == 2 {
            paired += 1;
        }
        i += 1;
    }
    paired
}

/// Two pairs: two different ranks that occur exactly twice each. The order of
/// the cards does not matter.
pub fn is_twopair(cards: &[Card; 5]) -> (role: Option<Role>)
    ensures
        role == if two_pair_ranks(cards@) {
            Some(Role::TwoPair)
        } else {
            None::<Role>
        },
{
    let sizes = group_sizes(cards);
    let paired = count_paired(cards, &sizes);
    proof {
        lemma_two_pairs(cards@);
    }
    if paired == 4 {
        Some(Role::TwoPair)
    } else {
        None
    }
}

/// A full house, read off the cards in the order in which they lie: a pair
/// and then three of another rank, or three of a rank and then a pair of
/// another. On cards sorted by rank this finds exactly the hands in which one
/// rank occurs twice and another three times. The cards are left as they are.
pub fn is_fulhouse(cards: &mut [Card; 5]) -> (role: Option<Role>)
    ensures
        *final(cards) == *old(cards),
        role == if full_house_in_order(old(cards)@) {
            Some(Role::FullHouse)
        } else {
            None::<Role>
        },
        sorted_by_rank(old(cards)@) ==> (role is Some <==> full_house_ranks(old(cards)@)),
{
    proof {
        if sorted_by_rank(cards@) {
            lemma_full_house_in_sorted(cards@);
        }
    }
    let pair_then_three = cards[1].rank == cards[0].rank && cards[2].rank != cards[1].rank
        && cards[3].rank == cards[2].rank && cards[4].rank == cards[2].rank;
    let three_then_pair = cards[1].rank == cards[0].rank && cards[2].rank == cards[0].rank
        && cards[3].rank != cards[2].rank && cards[4].rank == cards[3].rank;
    if pair_then_three || three_then_pair {
        Some(Role::FullHouse)
    } else {
        None
    }
}

/// The category that the groups of equal rank give: four of a kind, three of
/// a kind, two pairs, one pair or none of them. The sizes of the groups are
/// taken once, and the largest decides; two pairs are told from one pair by
/// the number of cards that belong to a pair. A hand of five cards of one
/// rank is not of this game and is reported as an error. The order of the
/// cards does not matter.
pub fn is_pair(cards: &[Card; 5]) -> (role: Result<Role, &'static str>)
    ensures
        has_group(cards@, 5) ==> role == Err::<Role, &'static str>(FIVE_OF_A_RANK),
        !has_group(cards@, 5) ==> role == Ok::<Role, &'static str>(pair_role(cards@)),
{
    let sizes = group_sizes(cards);
    let mut most: usize = 0;
    let mut i: usize = 0;
    while i < 5
        invariant
            i <= 5,
            i == 0 ==> most == 0,
            forall|k: int|
                0 <= k < 5 ==> sizes@[k] == rank_count(cards@, (#[trigger] cards@[k]).rank as int),
            forall|k: int|
                0 <= k < i ==> rank_count(cards@, (#[trigger] cards@[k]).rank as int) <= most,
            i > 0 ==> exists|k: int|
                0 <= k < i && rank_count(cards@, (#[trigger] cards@[k]).rank as int) == most,
        decreases 5 - i,
    {
        assert(sizes@[i as int] == rank_count(cards@, cards@[i as int].rank as int));
        if sizes[i] > most {
            most = sizes[i];
        }
        i += 1;
    }
    proof {
        lemma_largest_group(cards@, most as nat);
        lemma_two_pairs(cards@);
    }
    match most {
        4 => Ok(Role::FourCard),
        3 => Ok(Role::ThreeCard),
        2 => {
            if count_paired(cards, &sizes) == 4 {
                Ok(Role::TwoPair)
            } else {
                Ok(Role::OnePair)
            }
        },
        1 => Ok(Role::NoPair),
        _ => Err(FIVE_OF_A_RANK),
    }
}

/// The category of a hand, whatever the order of its cards. A copy of the
/// hand is sorted by rank and put to the tests in their fixed order: royal
/// straight flush, straight flush, straight, flush, full house, and then the
/// groups of equal rank. The first test that holds decides. Five cards of one
/// rank that are not of one suit pass none of the tests and count as no pair.
pub fn classify(cards: &[Card; 5]) -> (role: Role)
    ensures
        role == hand_role(cards@),
{
    let mut sorted: [Card; 5] = *cards;
    sort_by_rank(&mut sorted);
    proof {
        lemma_hand_role_permutation(sorted@, cards@);
    }
    if is_royalflush(&sorted).is_some() {
        Role::RoyalStraightFlush
    } else if is_straitflush(&mut sorted).is_some() {
        Role::StraightFlush
    } else if is_strait(&mut sorted).is_some() {
        Role::Straight
    } else if is_flush(&sorted).is_some() {
        Role::Flush
    } else if is_fulhouse(&mut sorted).is_some() {
        Role::FullHouse
    } else {
        match is_pair(&sorted) {
            Ok(role) => role,
            Err(_) => {
                proof {
                    lemma_no_group_in_five_of_a_rank(sorted@);
                }
                Role::NoPair
            },
        }
    }
}

/// Five cards of one rank hold no group of four, three or two.
pub proof fn lemma_no_group_in_five_of_a_rank(hand: Seq<Card>)
    requires
        hand.len() == 5,
        has_group(hand, 5),
    ensures
        pair_role(hand) == Role::NoPair,
        !full_house_ranks(hand),
{
    lemma_rank_count_five(hand);
    let rank = choose|rank: int| #[trigger] rank_count(hand, rank) == 5;
    assert(rank_count(hand, rank) == 5);
    assert(rank_count(hand, hand[0].rank as int) == 5);
    lemma_largest_group(hand, 5);
}

/// Decides the category of the hand and adds one to its place in the tally.
/// The hand is left as it is, and so is every other place of the tally.
pub fn count_judge_role(cards: &mut [Card; 5], role_count: &mut [u32; 10])
    requires
        old(role_count)@[hand_role(old(cards)@).index()] < u32::MAX,
    ensures
        *final(cards) == *old(cards),
        final(role_count)@ == old(role_count)@.update(
            hand_role(old(cards)@).index(),
            (old(role_count)@[hand_role(old(cards)@).index()] + 1) as u32,
        ),
{
    let role = classify(cards);
    let place = role.tally_index();
    role_count[place] += 1;
}

} // verus!
