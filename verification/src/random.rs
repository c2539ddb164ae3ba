//! Random match scores, drawn from the chain's randomness.
use vstd::prelude::*;
use parity_scale_codec::{Decode, Encode};

verus! {

/// A source of randomness: for a subject, a hash that the caller cannot
/// predict. Nothing is promised of what it returns.
pub trait Randomness {
    /// A random hash for `subject`.
    fn random(&self, subject: &[u8]) -> [u8; 32];
}

/// The four bytes of `x`, least significant first.
pub open spec fn le_bytes_u32(x: u32) -> Seq<u8> {
    seq![
        (x % 256) as u8,
        ((x / 256) % 256) as u8,
        ((x / 65536) % 256) as u8,
        ((x / 16777216) % 256) as u8,
    ]
}

/// The `u32` whose bytes, least significant first, are the first four of `b`.
pub open spec fn le_u32(b: Seq<u8>) -> int {
    b[0] + 256 * b[1] + 65536 * b[2] + 16777216 * b[3]
}

/// Calls `parity_scale_codec::Encode::encode` on the pair `(pallet_id, seed)`.
/// The SCALE encoding of a pair is that of its first element followed by
/// that of its second; a byte array is encoded as its bytes and a `u32` as
/// its four bytes, least significant first. The contract states that.
#[verifier::external_body]
fn encode_subject(pallet_id: [u8; 8], seed: u32) -> (r: Vec<u8>)
    ensures
        r@ == pallet_id@ + le_bytes_u32(seed),
{
    (pallet_id, seed).encode()
}

/// Calls `parity_scale_codec::Decode::decode` for a `u32` on `bytes`. The
/// source reads the first four bytes, least significant first, and fails
/// when there are fewer; the contract states that.
#[verifier::external_body]
fn decode_u32(bytes: &[u8]) -> (r: Option<u32>)
    ensures
        r == (if bytes@.len() >= 4 {
            Some(le_u32(bytes@) as u32)
        } else {
            None::<u32>
        }),
{
    let mut input = bytes;
    u32::decode(&mut input).ok()
}

/// The random number that a hash stands for: its first four bytes, least
/// significant first.
pub fn random_number_from_hash(hash: &[u8; 32]) -> (r: u32)
    ensures
        r == le_u32(hash@),
{
    match decode_u32(hash.as_slice()) {
        Some(n) => n,
        None => {
            proof {
                assert(hash@.len() == 32);
                assert(false);
            }
            0
        },
    }
}

/// The bytes from which the random number for `seed` is drawn: the
/// pallet's id followed by the seed's four bytes, least significant first.
pub open spec fn random_subject_spec(pallet_id: [u8; 8], seed: u32) -> Seq<u8> {
    pallet_id@ + le_bytes_u32(seed)
}

/// The bytes from which the random number for `seed` is drawn.
pub fn random_subject(pallet_id: [u8; 8], seed: u32) -> (r: Vec<u8>)
    ensures
        r@ == random_subject_spec(pallet_id, seed),
{
    encode_subject(pallet_id, seed)
}

/// Whether `n` is a number that `randomness` may give for `seed`: the one
/// that stands for a hash that `random` may return for the subject of `seed`.
pub open spec fn drawn_for<R: Randomness>(randomness: &R, pallet_id: [u8; 8], seed: u32, n: u32) -> bool {
    exists|subject: &[u8], hash: [u8; 32]|
        #![trigger call_ensures(R::random, (randomness, subject), hash)]
        subject@ == random_subject_spec(pallet_id, seed) && call_ensures(
            R::random,
            (randomness, subject),
            hash,
        ) && n == le_u32(hash@)
}

/// A random number: the one that stands for the hash that `randomness`
/// gives for the pallet's id followed by `seed`.
pub fn generate_random_number<R: Randomness>(randomness: &R, pallet_id: [u8; 8], seed: u32) -> (r: u32)
    ensures
        drawn_for(randomness, pallet_id, seed, r),
{
    let subject = random_subject(pallet_id, seed);
    let random = R::random;
    let random_seed = random(randomness, subject.as_slice());
    random_number_from_hash(&random_seed)
}

/// The highest score plus one.
pub const MAX_SCORE: u32 = 9;

/// How many random numbers are drawn at most for one score.
pub const MAX_TRIALS: u32 = 10;

/// Whether `n` lies below the bound under which `n % MAX_SCORE` is unbiased.
pub open spec fn unbiased(n: u32) -> bool {
    n < u32::MAX - u32::MAX % MAX_SCORE
}

/// Whether `draws` are the numbers that rejection sampling draws: at least
/// one and at most `MAX_TRIALS`, all but the last biased, and the last
/// unbiased unless `MAX_TRIALS` were drawn.
pub open spec fn rejection_draws(draws: Seq<u32>) -> bool {
    &&& 1 <= draws.len() <= MAX_TRIALS
    &&& forall|k: int| 0 <= k < draws.len() - 1 ==> !unbiased(#[trigger] draws[k])
    &&& draws.len() < MAX_TRIALS ==> unbiased(draws.last())
}

/// The draw that rejection sampling keeps, looking from index `i` on: the
/// first unbiased draw among the first `MAX_TRIALS - 1`, else the tenth
/// draw, or the last of fewer.
pub open spec fn kept_draw(draws: Seq<u32>, i: int) -> u32
    decreases draws.len() - i,
{
    if i < 0 || i + 1 >= draws.len() || i + 1 >= MAX_TRIALS || unbiased(draws[i]) {
        draws[i]
    } else {
        kept_draw(draws, i + 1)
    }
}

/// The score that the draws give: the kept draw modulo 9.
pub open spec fn score_spec(draws: Seq<u32>) -> u32 {
    (kept_draw(draws, 0) % MAX_SCORE) as u32
}

/// The score that the draws `draws` give: the first of the first nine
/// that lies below the bound under which the modulus is unbiased, else the
/// tenth (or the last of fewer), modulo 9.
pub fn score_from_draws(draws: &Vec<u32>) -> (r: u32)
    requires
        draws@.len() >= 1,
    ensures
        r == score_spec(draws@),
        r < MAX_SCORE,
{
    let mut i: usize = 0;
    loop
        invariant
            0 <= i < draws@.len(),
            i < MAX_TRIALS,
            kept_draw(draws@, 0) == kept_draw(draws@, i as int),
        ensures
            0 <= i < draws@.len(),
            kept_draw(draws@, 0) == draws@[i as int],
        decreases draws@.len() - i,
    {
        if i + 1 >= draws.len() || i + 1 >= MAX_TRIALS as usize || draws[i] < u32::MAX - u32::MAX
            % MAX_SCORE {
            break;
        }
        i = i + 1;
    }
    draws[i] % MAX_SCORE
}

/// In rejection-sampling draws, the kept draw is the last.
proof fn lemma_kept_is_last(draws: Seq<u32>, i: int)
    requires
        rejection_draws(draws),
        0 <= i < draws.len(),
    ensures
        kept_draw(draws, i) == draws.last(),
    decreases draws.len() - i,
{
    if i + 1 < draws.len() {
        assert(!unbiased(draws[i]));
        lemma_kept_is_last(draws, i + 1);
    }
}

/// Whether `draws` are the numbers that rejection sampling took from
/// `randomness`: a rejection-sampling sequence whose draw `k` is a number
/// that `randomness` may give for seed `seed_diff + k`.
pub open spec fn random_draws<R: Randomness>(
    randomness: &R,
    pallet_id: [u8; 8],
    seed_diff: u32,
    draws: Seq<u32>,
) -> bool {
    &&& rejection_draws(draws)
    &&& forall|k: int|
        0 <= k < draws.len() ==> drawn_for(randomness, pallet_id, (seed_diff + k) as u32, #[trigger] draws[k])
}

/// Whether `score` is a score that rejection sampling from `randomness`,
/// starting at seed `seed_diff`, may give.
pub open spec fn random_score<R: Randomness>(
    randomness: &R,
    pallet_id: [u8; 8],
    seed_diff: u32,
    score: u32,
) -> bool {
    exists|draws: Seq<u32>| random_draws(randomness, pallet_id, seed_diff, draws) && score == score_spec(draws)
}

/// A random score from 0 to 8. Numbers are drawn for the seeds `seed_diff`,
/// `seed_diff + 1`, ... until one lies below the bound under which the
/// modulus is unbiased, and at most `MAX_TRIALS` of them; the score is the
/// last number drawn modulo 9.
pub fn generate_random_score<R: Randomness>(randomness: &R, pallet_id: [u8; 8], seed_diff: u32) -> (r: u32)
    requires
        seed_diff + (MAX_TRIALS - 1) <= u32::MAX,
    ensures
        r < MAX_SCORE,
        random_score(randomness, pallet_id, seed_diff, r),
{
    let mut random_number = generate_random_number(randomness, pallet_id, seed_diff);
    let mut draws: Vec<u32> = Vec::new();
    draws.push(random_number);
    proof {
        assert(drawn_for(randomness, pallet_id, (seed_diff + 0) as u32, draws@[0]));
    }
    let mut i: u32 = 1;
    while i < MAX_TRIALS
        invariant_except_break
            1 <= i <= MAX_TRIALS,
            seed_diff + (MAX_TRIALS - 1) <= u32::MAX,
            draws@.len() == i,
            draws@.last() == random_number,
            forall|k: int| 0 <= k < draws@.len() - 1 ==> !unbiased(#[trigger] draws@[k]),
            forall|k: int|
                0 <= k < draws@.len() ==> drawn_for(
                    randomness,
                    pallet_id,
                    (seed_diff + k) as u32,
                    #[trigger] draws@[k],
                ),
        ensures
            random_draws(randomness, pallet_id, seed_diff, draws@),
        decreases MAX_TRIALS - i,
    {
        if random_number < u32::MAX - u32::MAX % MAX_SCORE {
            break;
        }
        random_number = generate_random_number(randomness, pallet_id, seed_diff + i);
        let ghost before = draws@;
        draws.push(random_number);
        proof {
            assert forall|k: int| 0 <= k < draws@.len() implies drawn_for(
                randomness,
                pallet_id,
                (seed_diff + k) as u32,
                #[trigger] draws@[k],
            ) by {
                if k < before.len() {
                    assert(draws@[k] == before[k]);
                }
            }
            assert forall|k: int| 0 <= k < draws@.len() - 1 implies !unbiased(#[trigger] draws@[k]) by {
                if k < before.len() - 1 {
                    assert(draws@[k] == before[k]);
                }
            }
        }
        i = i + 1;
    }
    let r = score_from_draws(&draws);
    proof {
        lemma_kept_is_last(draws@, 0);
    }
    r
}

} // verus!
