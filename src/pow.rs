use vstd::prelude::*;
use crate::encoding::{blake3_digest, blake3_of};
use crate::node_id::{count_leading_zero_bits, leading_zero_bits};
use crate::types::Timestamp;
use vstd::arithmetic::power2::{lemma2_to64, lemma2_to64_rest, lemma_pow2_strictly_increases, lemma_pow2_unfold, pow2};

verus! {

/// Little-endian bytes of a `u64`.
pub open spec fn le_bytes(x: u64) -> Seq<u8> {
    Seq::new(8, |i: int| ((x as nat / pow256(i)) % 256) as u8)
}

pub open spec fn pow256(i: int) -> nat
    decreases i,
{
    if i <= 0 {
        1
    } else {
        256 * pow256(i - 1)
    }
}

/// Writes `x` little-endian.
pub fn u64_le_bytes(x: u64) -> (r: Vec<u8>)
    ensures
        r@ == le_bytes(x),
{
    let mut out: Vec<u8> = Vec::new();
    let mut rest: u64 = x;
    let mut i: usize = 0;
    assert(pow256(0) == 1);
    while i < 8
        invariant
            0 <= i <= 8,
            out@.len() == i,
            rest as nat == x as nat / pow256(i as int),
            forall|j: int| 0 <= j < i ==> out@[j] == le_bytes(x)[j],
        decreases 8 - i,
    {
        proof {
            lemma_pow256_positive(i as int);
            vstd::arithmetic::div_mod::lemma_div_denominator(x as int, pow256(i as int) as int, 256);
            assert(pow256(i + 1) == pow256(i as int) * 256);
        }
        out.push((rest % 256) as u8);
        rest = rest / 256;
        i = i + 1;
    }
    assert(out@ =~= le_bytes(x));
    out
}

pub proof fn lemma_pow256_positive(i: int)
    ensures
        pow256(i) > 0,
    decreases i,
{
    if i > 0 {
        lemma_pow256_positive(i - 1);
    }
}

/// The bytes that a proof of work hashes: key, nonce and time, the two
/// numbers little-endian.
pub open spec fn pow_input(public_key: Seq<u8>, nonce: u64, timestamp: u64) -> Seq<u8> {
    public_key + le_bytes(nonce) + le_bytes(timestamp)
}

/// Leading zero bits of the work hash, capped at 255.
pub open spec fn pow_zero_bits(public_key: Seq<u8>, nonce: u64, timestamp: u64) -> nat {
    let z = leading_zero_bits(blake3_of(pow_input(public_key, nonce, timestamp)));
    if z > 255 {
        255
    } else {
        z
    }
}

/// `nonce` meets `difficulty` for the key at that time.
pub open spec fn pow_meets(public_key: Seq<u8>, nonce: u64, difficulty: u8, timestamp: u64) -> bool {
    pow_zero_bits(public_key, nonce, timestamp) >= difficulty
}

/// Credits granted for a proof of the given difficulty.
pub open spec fn credits_for(difficulty: u8) -> nat {
    if difficulty < 8 {
        100
    } else {
        1000 * pow2(((difficulty - 8) / 4) as nat)
    }
}

/// Evidence of work bound to a key: the hash of key, nonce and time has at
/// least `difficulty` leading zero bits.
#[derive(Debug, Clone, Copy, PartialEq, Eq, Structural)]
pub struct ProofOfWork {
    pub nonce: u64,
    pub difficulty: u8,
    pub timestamp: u64,
}

impl ProofOfWork {
    /// Searches nonces upward from zero, at the current time, for the first
    /// that meets `difficulty`. Where none below `u64::MAX` does, the result
    /// carries the nonce `u64::MAX`.
    pub fn mine(public_key: &[u8; 32], difficulty: u8) -> (r: ProofOfWork)
        ensures
            r.difficulty == difficulty,
            r.nonce < u64::MAX ==> pow_meets(public_key@, r.nonce, difficulty, r.timestamp),
            forall|n: u64| n < r.nonce ==> !pow_meets(public_key@, n, difficulty, r.timestamp),
    {
        let timestamp = Timestamp::now().as_secs();
        ProofOfWork::mine_at(public_key, difficulty, timestamp)
    }

    /// `mine` at a given time.
    pub fn mine_at(public_key: &[u8; 32], difficulty: u8, timestamp: u64) -> (r: ProofOfWork)
        ensures
            r.difficulty == difficulty,
            r.timestamp == timestamp,
            r.nonce < u64::MAX ==> pow_meets(public_key@, r.nonce, difficulty, timestamp),
            forall|n: u64| n < r.nonce ==> !pow_meets(public_key@, n, difficulty, timestamp),
    {
        let mut nonce: u64 = 0;
        while nonce < u64::MAX
            invariant
                forall|n: u64| n < nonce ==> !pow_meets(public_key@, n, difficulty, timestamp),
            decreases u64::MAX - nonce,
        {
            if ProofOfWork::verify_nonce(public_key, nonce, difficulty, timestamp) {
                return ProofOfWork { nonce, difficulty, timestamp };
            }
            nonce = nonce + 1;
        }
        ProofOfWork { nonce, difficulty, timestamp }
    }

    /// Whether `nonce` meets `difficulty`.
    pub fn verify_nonce(public_key: &[u8; 32], nonce: u64, difficulty: u8, timestamp: u64) -> (r: bool)
        ensures
            r == pow_meets(public_key@, nonce, difficulty, timestamp),
    {
        let hash = ProofOfWork::hash_with_nonce(public_key, nonce, timestamp);
        ProofOfWork::count_leading_zero_bits(&hash) >= difficulty
    }

    /// The work hash of key, nonce and time.
    pub fn hash_with_nonce(public_key: &[u8; 32], nonce: u64, timestamp: u64) -> (r: [u8; 32])
        ensures
            r@ == blake3_of(pow_input(public_key@, nonce, timestamp)),
    {
        let mut input: Vec<u8> = Vec::new();
        let mut i: usize = 0;
        while i < 32
            invariant
                0 <= i <= 32,
                input@ == public_key@.subrange(0, i as int),
            decreases 32 - i,
        {
            input.push(public_key[i]);
            i = i + 1;
        }
        assert(input@ =~= public_key@);
        let mut n = u64_le_bytes(nonce);
        let mut t = u64_le_bytes(timestamp);
        input.append(&mut n);
        input.append(&mut t);
        blake3_digest(input.as_slice())
    }

    /// Leading zero bits of a hash, capped at 255.
    pub fn count_leading_zero_bits(hash: &[u8; 32]) -> (r: u8)
        ensures
            r == if leading_zero_bits(hash@) > 255 { 255 } else { leading_zero_bits(hash@) },
    {
        let count = count_leading_zero_bits(hash);
        if count > 255 {
            255
        } else {
            count as u8
        }
    }

    /// Whether this proof holds for `public_key`.
    pub fn verify(&self, public_key: &[u8; 32]) -> (r: bool)
        ensures
            r == pow_meets(public_key@, self.nonce, self.difficulty, self.timestamp),
    {
        ProofOfWork::verify_nonce(public_key, self.nonce, self.difficulty, self.timestamp)
    }

    /// Credits granted at genesis: 100 below difficulty 8, else
    /// `1000 * 2^((difficulty - 8) / 4)`.
    pub fn calculate_credits(&self) -> (r: u64)
        ensures
            r == if credits_for(self.difficulty) > u64::MAX { u64::MAX as nat } else { credits_for(self.difficulty) },
            self.difficulty <= 227 ==> r == credits_for(self.difficulty),
    {
        if self.difficulty < 8 {
            return 100;
        }
        if self.difficulty > 227 {
            proof {
                let f = ((self.difficulty - 8) / 4) as nat;
                lemma2_to64();
                lemma2_to64_rest();
                lemma_pow2_unfold(55);
                if f > 55 {
                    lemma_pow2_strictly_increases(55, f);
                }
                assert(credits_for(self.difficulty) > u64::MAX);
            }
            return u64::MAX;
        }
        let factor: u8 = (self.difficulty - 8) / 4;
        let mut credits: u64 = 1000;
        let mut k: u8 = 0;
        proof {
            lemma2_to64();
            lemma2_to64_rest();
            if factor < 54 {
                lemma_pow2_strictly_increases(factor as nat, 54);
            }
        }
        while k < factor
            invariant
                k <= factor <= 54,
                factor == (self.difficulty - 8) / 4,
                pow2(factor as nat) <= pow2(54),
                pow2(54) == 0x40000000000000,
                credits == 1000 * pow2(k as nat),
            decreases factor - k,
        {
            proof {
                lemma_pow2_unfold((k + 1) as nat);
                if k + 1 < factor {
                    lemma_pow2_strictly_increases((k + 1) as nat, factor as nat);
                }
            }
            credits = credits * 2;
            k = k + 1;
        }
        assert(credits_for(self.difficulty) <= u64::MAX);
        credits
    }

    pub fn recommended_difficulty() -> (r: u8)
        ensures
            r == 12,
    {
        12
    }

    pub fn minimum_difficulty() -> (r: u8)
        ensures
            r == 8,
    {
        8
    }

    pub fn maximum_difficulty() -> (r: u8)
        ensures
            r == 28,
    {
        28
    }
}

} // verus!
