//! Turning supplied randomness into an index over a finite population.
use parity_scale_codec::{Decode, Encode};
use vstd::prelude::*;

verus! {

/// The four little-endian bytes of `x`.
pub open spec fn u32_le_bytes(x: u32) -> Seq<u8> {
    seq![
        (x % 0x100) as u8,
        ((x / 0x100) % 0x100) as u8,
        ((x / 0x1_0000) % 0x100) as u8,
        ((x / 0x100_0000) % 0x100) as u8,
    ]
}

/// The integer whose little-endian encoding starts `b`.
pub open spec fn u32_from_le(b: Seq<u8>) -> u32 {
    (b[0] + b[1] * 0x100 + b[2] * 0x1_0000 + b[3] * 0x100_0000) as u32
}

/// The subject handed to the randomness source for `seed` under the
/// configuration identifier `id`: the identifier, then the seed.
pub open spec fn random_subject(id: Seq<u8>, seed: u32) -> Seq<u8> {
    id + u32_le_bytes(seed)
}

/// Relies on parity-scale-codec's `Encode` for `([u8; 8], u32)`: a tuple is
/// its fields in order, a byte array its bytes, a `u32` its four
/// little-endian bytes.
#[verifier::external_body]
fn encode_subject(id: [u8; 8], seed: u32) -> (r: Vec<u8>)
    ensures
        r@ == random_subject(id@, seed),
{
    (id, seed).encode()
}

/// Relies on parity-scale-codec's `Decode` for `u32` on a byte slice: it
/// reads the first four bytes little-endian, and fails on fewer.
#[verifier::external_body]
fn decode_u32(bytes: &[u8]) -> (r: Option<u32>)
    ensures
        bytes@.len() >= 4 ==> r == Some(u32_from_le(bytes@)),
        bytes@.len() < 4 ==> r is None,
{
    let mut input = bytes;
    u32::decode(&mut input).ok()
}

/// A source of randomness that, for a given subject, returns the same
/// fixed-width value on every replica executing the same block.
pub trait Randomness {
    /// The value the source holds for `subject`.
    spec fn output(&self, subject: Seq<u8>) -> Seq<u8>;

    fn random(&self, subject: &[u8]) -> (r: [u8; 32])
        ensures
            r@ == self.output(subject@),
    ;
}

/// The random number the source `rng` yields for `seed` under the
/// configuration identifier `id`.
pub open spec fn drawn<R: Randomness>(rng: &R, id: Seq<u8>, seed: u32) -> u32 {
    u32_from_le(rng.output(random_subject(id, seed)))
}

/// The random number carried by an output of the randomness source.
pub fn draw_from_output(output: &[u8; 32]) -> (r: u32)
    ensures
        r == u32_from_le(output@),
{
    let bytes: &[u8] = output.as_slice();
    match decode_u32(bytes) {
        Some(v) => v,
        None => 0,
    }
}

/// Draws the random number for `seed` under the configuration identifier
/// `id`: the first four bytes of the source's value for the encoded
/// identifier and seed, read little-endian.
pub fn generate_random_number<R: Randomness>(rng: &R, id: [u8; 8], seed: u32) -> (r: u32)
    ensures
        r == drawn(rng, id@, seed),
{
    let subject = encode_subject(id, seed);
    let output = rng.random(subject.as_slice());
    draw_from_output(&output)
}

/// Below this bound a draw reduced modulo `total` favours no index: it is
/// the largest multiple of `total` that the value space allows for.
pub open spec fn fair_bound(total: u32) -> int {
    u32::MAX - u32::MAX % total
}

/// The draw kept from `draws`: the first one below the fair bound, or the
/// last one when none is.
pub open spec fn kept_draw(total: u32, draws: Seq<u32>) -> u32
    decreases draws.len(),
{
    if draws.len() <= 1 || draws[0] < fair_bound(total) {
        draws[0]
    } else {
        kept_draw(total, draws.drop_first())
    }
}

/// The index chosen among `total` from the draws made for seeds `0, 1, ...`.
pub open spec fn fair_choice(total: u32, draws: Seq<u32>) -> Option<u32> {
    if total == 0 || draws.len() == 0 {
        None
    } else {
        Some((kept_draw(total, draws) % total) as u32)
    }
}

/// Number of draws a choice may make: the retry budget, and at least one.
pub open spec fn draw_budget(max_generate: u32) -> int {
    if max_generate == 0 {
        1
    } else {
        max_generate as int
    }
}

/// Replaying a choice on the same population and the same draws picks the
/// same index, and a picked index is always below the population.
pub proof fn lemma_choice_deterministic(total: u32, first: Seq<u32>, second: Seq<u32>)
    requires
        first == second,
    ensures
        fair_choice(total, first) == fair_choice(total, second),
        fair_choice(total, first) matches Some(i) ==> i < total,
{
}

/// A kept draw is one of the draws, and it is below the fair bound unless
/// every draw before the last one was not.
pub proof fn lemma_kept_draw(total: u32, draws: Seq<u32>)
    requires
        draws.len() > 0,
    ensures
        draws.contains(kept_draw(total, draws)),
        kept_draw(total, draws) >= fair_bound(total) ==> forall|k: int|
            0 <= k < draws.len() ==> #[trigger] draws[k] >= fair_bound(total),
    decreases draws.len(),
{
    if draws.len() > 1 && draws[0] >= fair_bound(total) {
        let rest = draws.drop_first();
        lemma_kept_draw(total, rest);
        let k = choose|k: int| 0 <= k < rest.len() && rest[k] == kept_draw(total, rest);
        assert(draws[k + 1] == kept_draw(total, draws));
        assert forall|k: int| 0 <= k < draws.len() && kept_draw(total, draws) >= fair_bound(total) implies #[trigger] draws[k] >= fair_bound(total) by {
            if k > 0 {
                assert(draws[k] == rest[k - 1]);
            }
        }
    } else {
        assert(draws[0] == kept_draw(total, draws));
    }
}

/// Chooses an index below `total` from draws already made for seeds
/// `0, 1, ...`, keeping the first draw below the fair bound. No index is
/// chosen from an empty population or from no draws.
pub fn choose_from_draws(total: u32, draws: &[u32]) -> (r: Option<u32>)
    ensures
        r == fair_choice(total, draws@),
        r matches Some(i) ==> i < total,
{
    if total == 0 || draws.len() == 0 {
        return None;
    }
    let bound: u32 = u32::MAX - u32::MAX % total;
    let last: usize = draws.len() - 1;
    let mut i: usize = 0;
    assert(draws@.subrange(0, draws@.len() as int) =~= draws@);
    while i < last && draws[i] >= bound
        invariant
            0 <= i <= last,
            last == draws@.len() - 1,
            total > 0,
            bound == fair_bound(total),
            kept_draw(total, draws@.subrange(i as int, draws@.len() as int)) == kept_draw(
                total,
                draws@,
            ),
        decreases draws@.len() - i,
    {
        let ghost rest = draws@.subrange(i as int, draws@.len() as int);
        assert(rest.drop_first() =~= draws@.subrange(i + 1, draws@.len() as int));
        i = i + 1;
    }
    let ghost rest = draws@.subrange(i as int, draws@.len() as int);
    assert(rest[0] == draws@[i as int]);
    Some(draws[i] % total)
}

/// The outcome of a choice made from a live randomness source: the index
/// chosen and the draws made, in the order of their seeds.
pub struct TicketDraw {
    pub ticket: Option<u32>,
    pub draws: Vec<u32>,
}

/// Chooses an index below `total`, drawing for seeds `0, 1, ...` until a
/// draw falls below the fair bound or `max_generate` draws were made; the
/// last draw is then used even if it is biased. An empty population draws
/// nothing and gets no index.
pub fn choose_ticket<R: Randomness>(rng: &R, id: [u8; 8], total: u32, max_generate: u32) -> (r:
    TicketDraw)
    ensures
        r.ticket == fair_choice(total, r.draws@),
        total == 0 ==> r.draws@.len() == 0,
        total > 0 ==> 1 <= r.draws@.len() <= draw_budget(max_generate),
        forall|k: int| 0 <= k < r.draws@.len() - 1 ==> r.draws@[k] >= fair_bound(total),
        total > 0 && r.draws@.len() < draw_budget(max_generate) ==> r.draws@.last() < fair_bound(
            total,
        ),
        forall|k: int| 0 <= k < r.draws@.len() ==> #[trigger] r.draws@[k] == drawn(rng, id@, k as u32),
{
    let mut draws: Vec<u32> = Vec::new();
    if total == 0 {
        return TicketDraw { ticket: None, draws };
    }
    let bound: u32 = u32::MAX - u32::MAX % total;
    let first = generate_random_number(rng, id, 0);
    draws.push(first);
    let mut current = first;
    let mut seed: u32 = 1;
    while seed < max_generate && current >= bound
        invariant
            total > 0,
            bound == fair_bound(total),
            1 <= seed,
            draws@.len() == seed,
            seed <= draw_budget(max_generate),
            current == draws@.last(),
            forall|k: int| 0 <= k < draws@.len() - 1 ==> draws@[k] >= fair_bound(total),
            forall|k: int| 0 <= k < draws@.len() ==> #[trigger] draws@[k] == drawn(rng, id@, k as u32),
        decreases max_generate - seed,
    {
        current = generate_random_number(rng, id, seed);
        draws.push(current);
        seed = seed + 1;
    }
    let ticket = choose_from_draws(total, draws.as_slice());
    TicketDraw { ticket, draws }
}

} // verus!
