//! Dealing five cards from a pool.
//!
//! A pool is a list of card identifiers. A deal takes five different
//! positions of the list, so an identifier that the pool holds twice can be
//! dealt twice. Positions are picked at random and a position that was taken
//! before is picked again, as often as it takes; only after very many picks
//! are the places still open filled by choosing directly among the free
//! positions, which is just as fair and always ends.
//!
//! A [`Sampler`] owns the random number generator of one run. It is seeded by
//! the system, or from a number where a run has to be repeatable.
//!
//! The random number generator and the hash map that remembers the taken
//! positions come from outside: what is said of them below is believed, not
//! proved.

use vstd::prelude::*;
use rand::rngs::StdRng;
use rand::{Rng, SeedableRng};
use rustc_hash::{FxBuildHasher, FxHashMap};

verus! {

/// `rustc_hash::FxBuildHasher`, the hasher behind `FxHashMap`. Nothing is
/// said of what is inside it.
#[verifier::external_type_specification]
#[verifier::external_body]
pub struct ExFxBuildHasher(FxBuildHasher);

/// `rand::rngs::StdRng`, the random number generator. Nothing is said of what
/// is inside it.
#[verifier::external_type_specification]
#[verifier::external_body]
pub struct ExStdRng(StdRng);

/// `SeedableRng::from_entropy` for `StdRng`: a new generator, seeded by the
/// operating system. Nothing is claimed of it. The call fails only when the
/// system has no randomness to give.
#[verifier::external_body]
fn entropy_rng() -> (rng: StdRng) {
    StdRng::from_entropy()
}

/// `SeedableRng::seed_from_u64` for `StdRng`: a new generator, seeded from the
/// number. Nothing is claimed of it.
#[verifier::external_body]
fn seeded_rng(seed: u64) -> (rng: StdRng) {
    StdRng::seed_from_u64(seed)
}

/// `Rng::gen_range` on the range `0..len`: some number below `len`. Which one
/// is left open: it is meant to be uniform, and no two calls need agree. The
/// range must not be empty.
#[verifier::external_body]
fn random_index(rng: &mut StdRng, len: usize) -> (index: usize)
    requires
        len > 0,
    ensures
        index < len,
{
    rng.gen_range(0..len)
}

/// `HashMap::len` on an `FxHashMap`: the number of keys.
#[verifier::external_body]
fn slots_len(slots: &FxHashMap<usize, usize>) -> (len: usize)
    ensures
        len == slots@.len(),
{
    slots.len()
}

/// `HashMap::contains_key` on an `FxHashMap`: whether the key is in the map.
#[verifier::external_body]
fn slots_contains(slots: &FxHashMap<usize, usize>, key: usize) -> (found: bool)
    ensures
        found == slots@.contains_key(key),
{
    slots.contains_key(&key)
}

/// `HashMap::insert` on an `FxHashMap`: afterwards the key has the value, and
/// every other key is as before.
#[verifier::external_body]
fn slots_insert(slots: &mut FxHashMap<usize, usize>, key: usize, value: usize)
    ensures
        final(slots)@ == old(slots)@.insert(key, value),
{
    slots.insert(key, value);
}

/// `HashMap::iter` on an `FxHashMap`, collected: every pair of a key and its
/// value, each once. The order in which they come is left open.
#[verifier::external_body]
fn slots_entries(slots: &FxHashMap<usize, usize>) -> (entries: Vec<(usize, usize)>)
    ensures
        entries@.len() == slots@.len(),
        forall|i: int|
            0 <= i < entries@.len() ==> slots@.contains_pair(
                (#[trigger] entries@[i]).0,
                entries@[i].1,
            ),
        forall|key: usize| #[trigger]
            slots@.contains_key(key) ==> exists|i: int|
                0 <= i < entries@.len() && #[trigger] entries@[i] == (key, slots@[key]),
{
    slots.iter().map(|(key, value)| (*key, *value)).collect()
}

/// How often a position is picked at random before the places still open are
/// filled from the free positions directly.
pub const MAX_ATTEMPTS: usize = 256;

/// A pool with fewer than five positions: no hand can be dealt from it.
#[derive(Debug, Clone, Copy, PartialEq, Eq, Structural)]
pub struct InsufficientPoolError {
    /// The number of positions that the pool has.
    pub len: usize,
}

/// The positions taken so far in one deal, in the order in which they were
/// taken.
pub struct Draw {
    /// For each taken position, its place in the order of taking.
    taken: FxHashMap<usize, usize>,
    order: Ghost<Seq<usize>>,
}

impl View for Draw {
    type V = Seq<usize>;

    /// The taken positions, first taken first.
    closed spec fn view(&self) -> Seq<usize> {
        self.order@
    }
}

/// `ids` can be dealt from `pool`: it holds what lies at five different
/// positions of the pool.
pub open spec fn dealt_from(pool: Seq<u32>, ids: Seq<u32>) -> bool {
    exists|positions: Seq<usize>| #[trigger] lies_at(pool, positions, ids)
}

/// `ids` is what lies in `pool` at the five different positions `positions`,
/// in their order.
pub open spec fn lies_at(pool: Seq<u32>, positions: Seq<usize>, ids: Seq<u32>) -> bool {
    &&& positions.len() == 5
    &&& ids.len() == 5
    &&& positions.no_duplicates()
    &&& forall|j: int| 0 <= j < 5 ==> positions[j] < pool.len()
    &&& forall|j: int| 0 <= j < 5 ==> ids[j] == pool[positions[j] as int]
}

/// How many of the positions below `limit` are not in `taken`.
pub open spec fn free_before(taken: Seq<usize>, limit: int) -> nat
    decreases limit,
{
    if limit <= 0 {
        0
    } else {
        free_before(taken, limit - 1) + if taken.contains((limit - 1) as usize) {
            0nat
        } else {
            1nat
        }
    }
}

/// Taking one more position leaves one free position fewer below every limit
/// above it, and as many as before below the others.
proof fn lemma_free_before_push(taken: Seq<usize>, position: usize, limit: int)
    requires
        !taken.contains(position),
        0 <= limit <= usize::MAX + 1,
    ensures
        free_before(taken, limit) == free_before(taken.push(position), limit) + if position
            < limit {
            1nat
        } else {
            0nat
        },
    decreases limit,
{
    if limit > 0 {
        lemma_free_before_push(taken, position, limit - 1);
        let p = (limit - 1) as usize;
        let more = taken.push(position);
        assert(more.contains(p) == (taken.contains(p) || p == position)) by {
            if taken.contains(p) {
                let j = choose|j: int| 0 <= j < taken.len() && taken[j] == p;
                assert(more[j] == p);
            }
            if p == position {
                assert(more[taken.len() as int] == p);
            }
        }
    }
}

/// Below a limit that all taken positions stay under, the free positions are
/// those that were not taken: the limit less the number taken.
pub proof fn lemma_free_count(taken: Seq<usize>, limit: int)
    requires
        taken.no_duplicates(),
        0 <= limit <= usize::MAX + 1,
        forall|j: int| 0 <= j < taken.len() ==> taken[j] < limit,
    ensures
        free_before(taken, limit) + taken.len() == limit,
    decreases taken.len(),
{
    if taken.len() == 0 {
        lemma_free_before_none(taken, limit);
    } else {
        let rest = taken.drop_last();
        let last = taken.last();
        assert(taken =~= rest.push(last));
        assert(!rest.contains(last)) by {
            if rest.contains(last) {
                let j = choose|j: int| 0 <= j < rest.len() && rest[j] == last;
                assert(taken[j] == taken[taken.len() - 1]);
            }
        }
        assert forall|j: int| 0 <= j < rest.len() implies rest[j] < limit by {
            assert(rest[j] == taken[j]);
        }
        lemma_free_count(rest, limit);
        lemma_free_before_push(rest, last, limit);
    }
}

/// While nothing is taken, every position is free.
proof fn lemma_free_before_none(taken: Seq<usize>, limit: int)
    requires
        taken.len() == 0,
        0 <= limit,
    ensures
        free_before(taken, limit) == limit,
    decreases limit,
{
    if limit > 0 {
        lemma_free_before_none(taken, limit - 1);
    }
}

impl Draw {
    /// The map and the order of taking say the same: the map sends each taken
    /// position to its place in the order, and holds nothing else.
    pub closed spec fn wf(&self) -> bool {
        &&& self.taken@.dom().finite()
        &&& self.taken@.len() == self.order@.len()
        &&& forall|j: int|
            0 <= j < self.order@.len() ==> self.taken@.contains_key(#[trigger] self.order@[j])
                && self.taken@[self.order@[j]] == j
        &&& forall|key: usize| #[trigger]
            self.taken@.contains_key(key) ==> self.taken@[key] < self.order@.len()
                && self.order@[self.taken@[key] as int] == key
    }

    /// No position is taken twice.
    pub proof fn lemma_distinct(&self)
        requires
            self.wf(),
        ensures
            self@.no_duplicates(),
    {
        let order = self.order@;
        assert forall|i: int, j: int|
            0 <= i < order.len() && 0 <= j < order.len() && i != j implies order[i] != order[j] by {
            assert(self.taken@[order[i]] == i);
            assert(self.taken@[order[j]] == j);
        }
    }

    /// A deal in which nothing is taken yet.
    pub fn new() -> (draw: Draw)
        ensures
            draw.wf(),
            draw@ == Seq::<usize>::empty(),
    {
        let taken: FxHashMap<usize, usize> = FxHashMap::default();
        Draw { taken, order: Ghost(Seq::empty()) }
    }

    /// The number of positions taken.
    pub fn len(&self) -> (len: usize)
        requires
            self.wf(),
        ensures
            len == self@.len(),
    {
        slots_len(&self.taken)
    }

    /// Whether the position is taken.
    pub fn contains(&self, position: usize) -> (found: bool)
        requires
            self.wf(),
        ensures
            found == self@.contains(position),
    {
        let found = slots_contains(&self.taken, position);
        proof {
            if found {
                assert(self.order@[self.taken@[position] as int] == position);
            }
            if self@.contains(position) {
                let j = choose|j: int| 0 <= j < self.order@.len() && self.order@[j] == position;
                assert(self.taken@.contains_key(self.order@[j]));
            }
        }
        found
    }

    /// Offers a position to the deal. A position that is not taken yet is
    /// taken, as the last so far, and the answer is `true`; one that is taken
    /// is turned down and the deal stays as it is.
    pub fn offer(&mut self, position: usize) -> (accepted: bool)
        requires
            old(self).wf(),
        ensures
            final(self).wf(),
            accepted == !old(self)@.contains(position),
            final(self)@ == if accepted {
                old(self)@.push(position)
            } else {
                old(self)@
            },
    {
        if self.contains(position) {
            return false;
        }
        let place = slots_len(&self.taken);
        slots_insert(&mut self.taken, position, place);
        proof {
            let before = self.order@;
            self.order@ = before.push(position);
            assert forall|j: int| 0 <= j < self.order@.len() implies self.taken@.contains_key(
                #[trigger] self.order@[j],
            ) && self.taken@[self.order@[j]] == j by {
                if j < before.len() {
                    assert(old(self).taken@.contains_key(before[j]));
                }
            }
        }
        true
    }

    /// Among the positions below `limit` that are not taken, the one with
    /// `nth` free positions before it.
    pub fn nth_free(&self, limit: usize, nth: usize) -> (position: usize)
        requires
            self.wf(),
            forall|j: int| 0 <= j < self@.len() ==> self@[j] < limit,
            nth + self@.len() < limit,
        ensures
            position < limit,
            !self@.contains(position),
            free_before(self@, position as int) == nth,
    {
        let mut position: usize = 0;
        let mut passed: usize = 0;
        while position < limit
            invariant
                self.wf(),
                position <= limit,
                passed <= nth,
                passed == free_before(self@, position as int),
            decreases limit - position,
        {
            if !self.contains(position) {
                if passed == nth {
                    return position;
                }
                passed += 1;
            }
            position += 1;
        }
        proof {
            self.lemma_distinct();
            lemma_free_count(self@, limit as int);
        }
        position
    }

    /// The hand that the deal gives: what lies in the pool at the five taken
    /// positions, in the order in which they were taken.
    pub fn hand(&self, pool: &Vec<u32>) -> (ids: [u32; 5])
        requires
            self.wf(),
            self@.len() == 5,
            forall|j: int| 0 <= j < 5 ==> self@[j] < pool@.len(),
        ensures
            lies_at(pool@, self@, ids@),
    {
        let entries = slots_entries(&self.taken);
        let mut ids: [u32; 5] = [0; 5];
        let mut i: usize = 0;
        while i < entries.len()
            invariant
                self.wf(),
                self@.len() == 5,
                forall|j: int| 0 <= j < 5 ==> self@[j] < pool@.len(),
                i <= entries@.len(),
                forall|k: int|
                    0 <= k < entries@.len() ==> self.taken@.contains_pair(
                        (#[trigger] entries@[k]).0,
                        entries@[k].1,
                    ),
                forall|k: int|
                    0 <= k < i ==> ids@[(#[trigger] entries@[k]).1 as int]
                        == pool@[entries@[k].0 as int],
            decreases entries@.len() - i,
        {
            let (position, place) = entries[i];
            assert(self.taken@.contains_pair(entries@[i as int].0, entries@[i as int].1));
            assert(self.order@[place as int] == position);
            let ghost before = ids@;
            ids[place] = pool[position];
            assert forall|k: int| 0 <= k < i + 1 implies ids@[(#[trigger] entries@[k]).1 as int]
                == pool@[entries@[k].0 as int] by {
                assert(self.taken@.contains_pair(entries@[k].0, entries@[k].1));
                if entries@[k].1 == place {
                    assert(entries@[k].0 == position);
                } else {
                    assert(ids@[entries@[k].1 as int] == before[entries@[k].1 as int]);
                }
            }
            i += 1;
        }
        proof {
            self.lemma_distinct();
            assert forall|j: int| 0 <= j < 5 implies ids@[j] == pool@[self@[j] as int] by {
                let key = self.order@[j];
                assert(self.taken@.contains_key(key) && self.taken@[key] == j);
                let k = choose|k: int|
                    0 <= k < entries@.len() && #[trigger] entries@[k] == (key, self.taken@[key]);
                assert(ids@[entries@[k].1 as int] == pool@[entries@[k].0 as int]);
            }
        }
        ids
    }
}

/// The source of the random picks of one run.
pub struct Sampler {
    rng: StdRng,
}

impl Sampler {
    /// A sampler that the system seeds: no two need pick alike. Its generator
    /// is in a state that nobody can foretell, so nothing is promised of it.
    pub fn new() -> (sampler: Sampler) {
        Sampler { rng: entropy_rng() }
    }

    /// A sampler seeded from a number, for runs that have to be repeatable:
    /// within one build of the program, samplers made from the same number
    /// pick alike. That rests on the generator, which does not promise the
    /// same picks on another machine or in a later version, so it is no part
    /// of the contract.
    pub fn from_seed(seed: u64) -> (sampler: Sampler) {
        Sampler { rng: seeded_rng(seed) }
    }

    /// Deals five cards from the pool: what lies at five different positions
    /// of `use_cards`, in the order in which the positions were taken. A pool
    /// with fewer than five positions is turned down.
    ///
    /// Which positions are taken is decided by the random number generator;
    /// it is meant to make every choice of five positions, in every order,
    /// equally likely.
    pub fn handout_cards(&mut self, use_cards: &Vec<u32>) -> (hand: Result<
        [u32; 5],
        InsufficientPoolError,
    >)
        ensures
            use_cards@.len() < 5 ==> hand == Err::<[u32; 5], InsufficientPoolError>(
                InsufficientPoolError { len: use_cards@.len() as usize },
            ),
            use_cards@.len() >= 5 ==> hand is Ok && dealt_from(use_cards@, hand->Ok_0@),
    {
        let len = use_cards.len();
        if len < 5 {
            return Err(InsufficientPoolError { len });
        }
        let mut draw = Draw::new();
        let mut attempts: usize = 0;
        while draw.len() < 5 && attempts < MAX_ATTEMPTS
            invariant
                draw.wf(),
                draw@.len() <= 5,
                len == use_cards@.len(),
                len >= 5,
                forall|j: int| 0 <= j < draw@.len() ==> draw@[j] < len,
            decreases MAX_ATTEMPTS - attempts,
        {
            let position = random_index(&mut self.rng, len);
            draw.offer(position);
            attempts += 1;
        }
        while draw.len() < 5
            invariant
                draw.wf(),
                draw@.len() <= 5,
                len == use_cards@.len(),
                len >= 5,
                forall|j: int| 0 <= j < draw@.len() ==> draw@[j] < len,
            decreases 5 - draw@.len(),
        {
            let nth = random_index(&mut self.rng, len - draw.len());
            let position = draw.nth_free(len, nth);
            draw.offer(position);
        }
        let ids = draw.hand(use_cards);
        assert(lies_at(use_cards@, draw@, ids@));
        Ok(ids)
    }
}

/// Deals five cards from the pool with a sampler of its own, seeded by the
/// system: what lies at five different positions of `use_cards`, in the order
/// in which the positions were taken. A pool with fewer than five positions is
/// turned down.
pub fn handout_cards(use_cards: &Vec<u32>) -> (hand: Result<[u32; 5], InsufficientPoolError>)
    ensures
        use_cards@.len() < 5 ==> hand == Err::<[u32; 5], InsufficientPoolError>(
            InsufficientPoolError { len: use_cards@.len() as usize },
        ),
        use_cards@.len() >= 5 ==> hand is Ok && dealt_from(use_cards@, hand->Ok_0@),
{
    let mut sampler = Sampler::new();
    sampler.handout_cards(use_cards)
}

} // verus!
