//! Drawing places at random, without replacement, from a seed.

use vstd::prelude::*;

verus! {

/// A generator of pseudo-random numbers. It is not meant for secrets.
struct Generator {
    state: u64,
}

impl View for Generator {
    type V = u64;

    /// The state that the generator is in.
    closed spec fn view(&self) -> u64 {
        self.state
    }
}

/// The state that follows a state: the sequence goes on by a fixed odd step,
/// round the 64 bits.
pub open spec fn stepped(state: u64) -> u64 {
    state.wrapping_add(0x9E37_79B9_7F4A_7C15u64)
}

/// The number that a state gives: its bits, mixed three times.
pub open spec fn mixed(state: u64) -> u64 {
    let once = (state ^ (state >> 30u64)).wrapping_mul(0xBF58_476D_1CE4_E5B9u64);
    let twice = (once ^ (once >> 27u64)).wrapping_mul(0x94D0_49BB_1331_11EBu64);
    twice ^ (twice >> 31u64)
}

impl Generator {
    /// A generator that starts from `seed`.
    fn new(seed: u64) -> (generator: Self)
        ensures
            generator@ == seed,
    {
        Generator { state: seed }
    }

    /// The next number of the sequence: the generator steps on, and gives
    /// the number of the state that it comes to.
    fn next(&mut self) -> (drawn: u64)
        ensures
            final(self)@ == stepped(old(self)@),
            drawn == mixed(final(self)@),
    {
        self.state = self.state.wrapping_add(0x9E37_79B9_7F4A_7C15u64);
        let mut z: u64 = self.state;
        z = (z ^ (z >> 30u64)).wrapping_mul(0xBF58_476D_1CE4_E5B9u64);
        z = (z ^ (z >> 27u64)).wrapping_mul(0x94D0_49BB_1331_11EBu64);
        z ^ (z >> 31u64)
    }

    /// The next number of the sequence, brought below `bound`: what is left
    /// of it when it is divided by `bound`.
    fn below(&mut self, bound: usize) -> (drawn: usize)
        requires
            bound > 0,
        ensures
            final(self)@ == stepped(old(self)@),
            drawn == mixed(stepped(old(self)@)) % (bound as u64),
            drawn < bound,
    {
        let wide: u64 = self.next() % (bound as u64);
        wide as usize
    }
}

/// Whether `places` holds `count` different places of `0..len`, or all of
/// them where `len` is less than `count`.
pub open spec fn is_sample(places: Seq<usize>, len: nat, count: nat) -> bool {
    &&& places.len() == if len < count {
        len
    } else {
        count
    }
    &&& forall|i: int| 0 <= i < places.len() ==> #[trigger] places[i] < len
    &&& forall|i: int, j: int|
        0 <= i < j < places.len() ==> #[trigger] places[i] != #[trigger] places[j]
}

/// The state that a generator started from `seed` is in after `steps`
/// numbers.
pub open spec fn state_after(seed: u64, steps: nat) -> u64
    decreases steps,
{
    if steps == 0 {
        seed
    } else {
        stepped(state_after(seed, (steps - 1) as nat))
    }
}

/// The places `0..len` as `rounds` rounds of drawing leave them: they
/// start in their order, and each round, the first being round 0, takes the
/// next number of the generator and changes the place at the round's number
/// with one from there on, as far on as the number leaves when divided by the
/// count of places from there on.
pub open spec fn shuffled(len: nat, rounds: nat, seed: u64) -> Seq<usize>
    decreases rounds,
{
    if rounds == 0 {
        Seq::new(len, |i: int| i as usize)
    } else {
        let round = (rounds - 1) as nat;
        let before = shuffled(len, round, seed);
        if round < len {
            let other = round + mixed(state_after(seed, rounds)) % ((len - round) as u64);
            before.update(round as int, before[other]).update(other, before[round as int])
        } else {
            before
        }
    }
}

/// How many places a draw of `count` out of `len` gives: `count`, or all
/// where `len` is less.
pub open spec fn drawn_count(len: nat, count: nat) -> nat {
    if len < count {
        len
    } else {
        count
    }
}

/// The places that a draw of `count` out of `0..len` gives for a seed: what
/// stands first after as many rounds as places are drawn.
pub open spec fn drawn_places(len: nat, count: nat, seed: u64) -> Seq<usize> {
    shuffled(len, drawn_count(len, count), seed).take(drawn_count(len, count) as int)
}

/// The candidates at the places, in the order of the places.
pub open spec fn picked<A>(candidates: Seq<A>, places: Seq<usize>) -> Seq<A> {
    Seq::new(places.len(), |k: int| candidates[places[k] as int])
}

/// What a draw of up to `limit` of the candidates gives for a seed.
pub open spec fn drawing<A>(candidates: Seq<A>, limit: nat, seed: u64) -> Seq<A> {
    picked(candidates, drawn_places(candidates.len(), limit, seed))
}

/// Rounds of drawing leave every place of `0..len` standing once.
pub proof fn shuffled_holds_each_once(len: nat, rounds: nat, seed: u64)
    requires
        len <= usize::MAX,
    ensures
        shuffled(len, rounds, seed).len() == len,
        forall|i: int| 0 <= i < len ==> #[trigger] shuffled(len, rounds, seed)[i] < len,
        forall|i: int, j: int|
            0 <= i < j < len ==> #[trigger] shuffled(len, rounds, seed)[i] != #[trigger] shuffled(
                len,
                rounds,
                seed,
            )[j],
    decreases rounds,
{
    if rounds > 0 {
        shuffled_holds_each_once(len, (rounds - 1) as nat, seed);
    }
}

/// What a draw gives are different places of `0..len`: as many as `count`
/// asks for, or all.
pub proof fn drawn_places_are_a_sample(len: nat, count: nat, seed: u64)
    requires
        len <= usize::MAX,
    ensures
        is_sample(drawn_places(len, count, seed), len, count),
{
    shuffled_holds_each_once(len, drawn_count(len, count), seed);
}

/// Draws `count` places out of `0..len` without replacement; all of them, in
/// a drawn order, where there are no more than `count`. Which places are
/// drawn goes by the seed.
pub fn draw(len: usize, count: usize, seed: u64) -> (places: Vec<usize>)
    ensures
        places@ == drawn_places(len as nat, count as nat, seed),
        is_sample(places@, len as nat, count as nat),
{
    let wanted: usize = if len < count {
        len
    } else {
        count
    };
    let mut pool: Vec<usize> = Vec::new();
    let mut n: usize = 0;
    while n < len
        invariant
            n <= len,
            pool.len() == n,
            forall|i: int| 0 <= i < n ==> pool@[i] == i,
        decreases len - n,
    {
        pool.push(n);
        n += 1;
    }
    assert(pool@ =~= shuffled(len as nat, 0, seed));
    let mut generator = Generator::new(seed);
    let mut places: Vec<usize> = Vec::new();
    let mut k: usize = 0;
    while k < wanted
        invariant
            k <= wanted <= len,
            pool.len() == len,
            places.len() == k,
            pool@ == shuffled(len as nat, k as nat, seed),
            generator@ == state_after(seed, k as nat),
            forall|i: int| 0 <= i < k ==> places@[i] == pool@[i],
        decreases wanted - k,
    {
        let offset: usize = generator.below(len - k);
        let j: usize = k + offset;
        let at_k: usize = pool[k];
        let at_j: usize = pool[j];
        pool.set(k, at_j);
        pool.set(j, at_k);
        places.push(at_j);
        k += 1;
    }
    proof {
        assert(places@ =~= pool@.take(wanted as int));
        drawn_places_are_a_sample(len as nat, count as nat, seed);
    }
    places
}

/// Whether `found` holds the candidates at `places`, and `places` are
/// different places of the candidates: as many as `limit` asks for, or all.
pub open spec fn drawn_from<A>(found: Seq<A>, candidates: Seq<A>, places: Seq<usize>, limit: nat) -> bool {
    &&& is_sample(places, candidates.len(), limit)
    &&& found.len() == places.len()
    &&& forall|k: int| 0 <= k < found.len() ==> found[k] == candidates[#[trigger] places[k] as int]
}

/// Whether `found` is a listing of up to `limit` of the candidates, none of
/// them twice.
pub open spec fn is_listing<A>(found: Seq<A>, candidates: Seq<A>, limit: nat) -> bool {
    exists|places: Seq<usize>| drawn_from(found, candidates, places, limit)
}

/// A listing holds `limit` candidates, or all of them where they are fewer,
/// and nothing but candidates.
pub proof fn listing_is_within<A>(found: Seq<A>, candidates: Seq<A>, limit: nat)
    requires
        is_listing(found, candidates, limit),
    ensures
        found.len() == if candidates.len() < limit {
            candidates.len()
        } else {
            limit
        },
        forall|k: int| 0 <= k < found.len() ==> candidates.contains(#[trigger] found[k]),
{
    let places = choose|places: Seq<usize>| drawn_from(found, candidates, places, limit);
    assert forall|k: int| 0 <= k < found.len() implies candidates.contains(#[trigger] found[k]) by {
        assert(found[k] == candidates[places[k] as int]);
    }
}

/// What a draw gives is a listing of the candidates.
pub proof fn drawing_is_listing<A>(candidates: Seq<A>, limit: nat, seed: u64)
    requires
        candidates.len() <= usize::MAX,
    ensures
        is_listing(drawing(candidates, limit, seed), candidates, limit),
{
    drawn_places_are_a_sample(candidates.len(), limit, seed);
    assert(drawn_from(
        drawing(candidates, limit, seed),
        candidates,
        drawn_places(candidates.len(), limit, seed),
        limit,
    ));
}

/// Up to `limit` of the strings, drawn without replacement: those that the
/// draw gives for the seed.
pub fn draw_strings(candidates: &Vec<String>, limit: usize, seed: u64) -> (found: Vec<String>)
    ensures
        crate::text::texts(found@) == drawing(crate::text::texts(candidates@), limit as nat, seed),
{
    let places = draw(candidates.len(), limit, seed);
    let mut found: Vec<String> = Vec::new();
    let mut k: usize = 0;
    while k < places.len()
        invariant
            k <= places.len(),
            found.len() == k,
            is_sample(places@, candidates@.len(), limit as nat),
            forall|j: int| 0 <= j < k ==> found@[j]@ == candidates@[places@[j] as int]@,
        decreases places.len() - k,
    {
        found.push(candidates[places[k]].clone());
        k += 1;
    }
    assert(crate::text::texts(found@) =~= drawing(
        crate::text::texts(candidates@),
        limit as nat,
        seed,
    ));
    found
}

} // verus!
