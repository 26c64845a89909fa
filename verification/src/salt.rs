//! Fresh-salt generation: six random bytes spread over eight symbols of
//! the legacy alphabet, so a generated salt is drawn from the same
//! character set as the rest of the record.

use crate::alphabet::{is_symbol, lemma_symbol_value_inverse, value_to_symbol};
use crate::codec::{encode_digits, lemma_encode_vals_digits, lemma_encode_vals_len};
use rand::Rng;
use vstd::prelude::*;

verus! {

/// Relies on `rand::thread_rng` and `rand::Rng::gen` of the `rand`
/// crate: six bytes from the thread-local generator. Nothing is assumed
/// of their values.
#[verifier::external_body]
fn random_salt_bytes() -> (r: Vec<u8>)
    ensures
        r@.len() == 6,
{
    rand::thread_rng().gen::<[u8; 6]>().to_vec()
}

/// A fresh 8-character salt: six random bytes spread into eight 6-bit
/// values by the group codec, each written as a legacy-alphabet symbol.
pub fn fresh_salt() -> (r: Vec<u8>)
    ensures
        r@.len() == 8,
        forall|i: int| 0 <= i < r@.len() ==> is_symbol(#[trigger] r@[i]),
{
    let bytes = random_salt_bytes();
    let digits = encode_digits(&bytes);
    proof {
        lemma_encode_vals_len(bytes@);
        lemma_encode_vals_digits(bytes@);
    }
    let mut r: Vec<u8> = Vec::new();
    let mut i: usize = 0;
    while i < digits.len()
        invariant
            i <= digits@.len(),
            digits@.len() == 8,
            forall|k: int| 0 <= k < digits@.len() ==> digits@[k] < 64,
            r@.len() == i,
            forall|k: int| 0 <= k < i ==> is_symbol(#[trigger] r@[k]),
        decreases digits.len() - i,
    {
        let sym = value_to_symbol(digits[i]);
        proof {
            lemma_symbol_value_inverse(digits@[i as int]);
        }
        r.push(sym);
        i = i + 1;
    }
    r
}

} // verus!
