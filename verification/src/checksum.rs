//! The checksum engine: a salted seed MD5 followed by `2^passes`
//! password-mixing rounds, the work factor of the phpass scheme.

use vstd::arithmetic::power2::{lemma2_to64, lemma_pow2_unfold, pow2};
use vstd::bits::{lemma_u64_pow2_no_overflow, lemma_u64_shl_is_mul};
use vstd::prelude::*;

verus! {

/// What `md5::compute` returns for a given byte sequence. The digest is
/// a function of the input bytes alone, so it is named rather than
/// spelled out.
pub uninterp spec fn md5_of(data: Seq<u8>) -> Seq<u8>;

/// Relies on `md5::compute` of the `md5` crate: the 16-byte MD5 digest
/// of the input, a function of the input bytes alone.
#[verifier::external_body]
fn md5_digest(data: &Vec<u8>) -> (r: Vec<u8>)
    ensures
        r@ == md5_of(data@),
        r@.len() == 16,
{
    md5::compute(data.as_slice()).0.to_vec()
}

/// `seed` pushed through `n` further rounds of `MD5(previous ++ pass)`.
pub open spec fn md5_chain(pass: Seq<u8>, seed: Seq<u8>, n: nat) -> Seq<u8>
    decreases n,
{
    if n == 0 {
        seed
    } else {
        md5_of(md5_chain(pass, seed, (n - 1) as nat) + pass)
    }
}

/// The phpass checksum: `MD5(salt ++ pass)` as the seed, then `2^passes`
/// rounds of `MD5(previous ++ pass)`.
pub open spec fn checksum_spec(pass: Seq<u8>, salt: Seq<u8>, passes: nat) -> Seq<u8> {
    md5_chain(pass, md5_of(salt + pass), pow2(passes))
}

/// Chaining distributes over addition of round counts.
pub proof fn lemma_md5_chain_adds(pass: Seq<u8>, seed: Seq<u8>, m: nat, n: nat)
    ensures
        md5_chain(pass, seed, m + n) == md5_chain(pass, md5_chain(pass, seed, m), n),
    decreases n,
{
    if n > 0 {
        lemma_md5_chain_adds(pass, seed, m, (n - 1) as nat);
    }
}

/// Raising the exponent by one doubles the round count: the checksum for
/// exponent `e + 1` is the checksum for `e` pushed through `2^e` further
/// rounds.
pub proof fn lemma_iteration_doubling(pass: Seq<u8>, salt: Seq<u8>, e: nat)
    ensures
        pow2(e + 1) == 2 * pow2(e),
        checksum_spec(pass, salt, e + 1) == md5_chain(
            pass,
            checksum_spec(pass, salt, e),
            pow2(e),
        ),
{
    lemma_pow2_unfold(e + 1);
    lemma_md5_chain_adds(pass, md5_of(salt + pass), pow2(e), pow2(e));
}

/// Exponent zero performs exactly one round beyond the salted seed hash.
pub proof fn lemma_exponent_zero(pass: Seq<u8>, salt: Seq<u8>)
    ensures
        checksum_spec(pass, salt, 0) == md5_of(md5_of(salt + pass) + pass),
{
    lemma2_to64();
    assert(pow2(0) == 1);
    let seed = md5_of(salt + pass);
    assert(md5_chain(pass, seed, 0) == seed);
    assert(md5_chain(pass, seed, 1) == md5_of(md5_chain(pass, seed, 0) + pass));
}

/// Join two byte strings.
fn concat_bytes(a: &[u8], b: &[u8]) -> (r: Vec<u8>)
    ensures
        r@ == a@ + b@,
{
    let mut r: Vec<u8> = Vec::new();
    let mut i: usize = 0;
    while i < a.len()
        invariant
            i <= a.len(),
            r@ == a@.take(i as int),
        decreases a.len() - i,
    {
        r.push(a[i]);
        proof {
            assert(a@.take(i as int).push(a@[i as int]) =~= a@.take(i as int + 1));
        }
        i = i + 1;
    }
    proof {
        assert(a@.take(a@.len() as int) =~= a@);
    }
    let mut j: usize = 0;
    while j < b.len()
        invariant
            j <= b.len(),
            r@ == a@ + b@.take(j as int),
        decreases b.len() - j,
    {
        r.push(b[j]);
        proof {
            assert((a@ + b@.take(j as int)).push(b@[j as int]) =~= a@ + b@.take(j as int + 1));
        }
        j = j + 1;
    }
    proof {
        assert(a@ + b@.take(b@.len() as int) =~= a@ + b@);
    }
    r
}

/// Compute the phpass checksum of a password under a salt and an
/// iteration exponent.
pub fn checksum(pass: &[u8], salt: &[u8], passes: usize) -> (r: Vec<u8>)
    requires
        passes < 64,
    ensures
        r@ == checksum_spec(pass@, salt@, passes as nat),
        r@.len() == 16,
{
    let seed_input = concat_bytes(salt, pass);
    let mut h = md5_digest(&seed_input);
    let rounds: u64 = 1u64 << (passes as u64);
    proof {
        lemma_u64_pow2_no_overflow(passes as nat);
        lemma_u64_shl_is_mul(1u64, passes as u64);
        assert(rounds == pow2(passes as nat));
    }
    let mut i: u64 = 0;
    while i < rounds
        invariant
            i <= rounds,
            rounds == pow2(passes as nat),
            h@ == md5_chain(pass@, md5_of(salt@ + pass@), i as nat),
            h@.len() == 16,
        decreases rounds - i,
    {
        let input = concat_bytes(h.as_slice(), pass);
        h = md5_digest(&input);
        i = i + 1;
    }
    h
}

} // verus!
