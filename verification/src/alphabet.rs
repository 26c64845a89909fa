//! The 64-symbol legacy alphabet `./0123456789A-Za-z` and the mapping
//! between its ASCII bytes and the 6-bit values they stand for.

use vstd::prelude::*;

verus! {

/// The alphabet symbol (as an ASCII byte) standing for a 6-bit value:
/// index 0 is `.` (46), 1 is `/` (47), 2..=11 are `0`..`9`,
/// 12..=37 are `A`..`Z`, and 38..=63 are `a`..`z`.
pub open spec fn symbol_of(v: u8) -> u8
    recommends
        v < 64,
{
    if v < 12 {
        (46 + v) as u8
    } else if v < 38 {
        (53 + v) as u8
    } else {
        (59 + v) as u8
    }
}

/// Whether an ASCII byte is a symbol of the legacy alphabet.
pub open spec fn is_symbol(b: u8) -> bool {
    (46 <= b && b <= 57) || (65 <= b && b <= 90) || (97 <= b && b <= 122)
}

/// The 6-bit value a legacy-alphabet byte stands for.
pub open spec fn value_of(b: u8) -> u8
    recommends
        is_symbol(b),
{
    if b <= 57 {
        (b - 46) as u8
    } else if b <= 90 {
        (b - 53) as u8
    } else {
        (b - 59) as u8
    }
}

/// The two spec maps invert each other over their valid domains.
pub proof fn lemma_symbol_value_inverse(v: u8)
    requires
        v < 64,
    ensures
        is_symbol(symbol_of(v)),
        value_of(symbol_of(v)) == v,
{
}

/// On alphabet bytes, `symbol_of` also inverts `value_of`.
pub proof fn lemma_value_symbol_inverse(b: u8)
    requires
        is_symbol(b),
    ensures
        value_of(b) < 64,
        symbol_of(value_of(b)) == b,
{
}

/// Turn a 6-bit value into its alphabet symbol.
pub fn value_to_symbol(v: u8) -> (r: u8)
    requires
        v < 64,
    ensures
        r == symbol_of(v),
{
    if v < 12 {
        46 + v
    } else if v < 38 {
        53 + v
    } else {
        59 + v
    }
}

/// Turn an ASCII byte into the 6-bit value it stands for, or `None`
/// if it is not a symbol of the legacy alphabet.
pub fn symbol_to_value(b: u8) -> (r: Option<u8>)
    ensures
        match r {
            Some(v) => is_symbol(b) && v == value_of(b) && v < 64,
            None => !is_symbol(b),
        },
{
    if 46 <= b && b <= 57 {
        Some(b - 46)
    } else if 65 <= b && b <= 90 {
        Some(b - 53)
    } else if 97 <= b && b <= 122 {
        Some(b - 59)
    } else {
        None
    }
}

} // verus!
