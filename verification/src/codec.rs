//! The legacy group codec. Bytes are packed to and from 6-bit digit
//! values little-endian: the first digit of a group carries the low bits
//! of the first byte. Read as standard base64 this is each 3-byte group
//! reversed on the way in and each 4-symbol group reversed on the way
//! out, which is the quirk the phpass format is built on.

use vstd::arithmetic::div_mod::{
    lemma_div_denominator, lemma_fundamental_div_mod, lemma_fundamental_div_mod_converse_div,
    lemma_fundamental_div_mod_converse_mod,
};
use vstd::prelude::*;

verus! {

/// The 24-bit value a full group of four 6-bit digits stands for,
/// the first digit giving the lowest bits.
pub open spec fn group_of_four(d0: u8, d1: u8, d2: u8, d3: u8) -> int {
    d0 + 64 * d1 + 4096 * d2 + 262144 * d3
}

/// Decode a sequence of 6-bit digits into bytes: each full group of four
/// digits yields the three little-endian bytes of its 24-bit value; a
/// final partial group of three or two digits yields two bytes or one,
/// the leftover high bits discarded; a single trailing digit yields
/// nothing.
pub open spec fn decode_vals(vs: Seq<u8>) -> Seq<u8>
    decreases vs.len(),
{
    if vs.len() >= 4 {
        let n = group_of_four(vs[0], vs[1], vs[2], vs[3]);
        seq![(n % 256) as u8, ((n / 256) % 256) as u8, ((n / 65536) % 256) as u8]
            + decode_vals(vs.skip(4))
    } else if vs.len() == 3 {
        let n = vs[0] + 64 * vs[1] + 4096 * vs[2];
        seq![(n % 256) as u8, ((n / 256) % 256) as u8]
    } else if vs.len() == 2 {
        let n = vs[0] + 64 * vs[1];
        seq![(n % 256) as u8]
    } else {
        Seq::empty()
    }
}

/// Encode bytes into 6-bit digits: each group of three bytes is read as
/// a little-endian 24-bit value and emitted as four little-endian
/// digits; a final group of two bytes or one is emitted as three digits
/// or two, the fewest that carry all its bits.
pub open spec fn encode_vals(bs: Seq<u8>) -> Seq<u8>
    decreases bs.len(),
{
    if bs.len() >= 3 {
        let n = bs[0] + 256 * bs[1] + 65536 * bs[2];
        seq![(n % 64) as u8, ((n / 64) % 64) as u8, ((n / 4096) % 64) as u8, (n / 262144) as u8]
            + encode_vals(bs.skip(3))
    } else if bs.len() == 2 {
        let n = bs[0] + 256 * bs[1];
        seq![(n % 64) as u8, ((n / 64) % 64) as u8, (n / 4096) as u8]
    } else if bs.len() == 1 {
        seq![(bs[0] % 64) as u8, (bs[0] / 64) as u8]
    } else {
        Seq::empty()
    }
}

/// How many bytes a digit sequence of length `m` decodes to.
pub open spec fn decoded_len(m: int) -> int {
    3 * (m / 4) + if m % 4 >= 2 {
        m % 4 - 1
    } else {
        0
    }
}

/// A 24-bit value comes apart into four little-endian 6-bit digits.
proof fn lemma_digits_of(n: int)
    requires
        0 <= n < 16777216,
    ensures
        0 <= n % 64 < 64,
        0 <= (n / 64) % 64 < 64,
        0 <= (n / 4096) % 64 < 64,
        0 <= n / 262144 < 64,
        n % 64 + 64 * ((n / 64) % 64) + 4096 * ((n / 4096) % 64) + 262144 * (n / 262144) == n,
{
    lemma_fundamental_div_mod(n, 64);
    lemma_fundamental_div_mod(n / 64, 64);
    lemma_fundamental_div_mod(n / 4096, 64);
    lemma_fundamental_div_mod(n, 262144);
    lemma_div_denominator(n, 64, 64);
    lemma_div_denominator(n, 4096, 64);
}

/// A 16-bit value (with up to two spare bits) comes apart into three
/// little-endian 6-bit digits, the last one taken whole.
proof fn lemma_digits_of_three(n: int)
    requires
        0 <= n < 262144,
    ensures
        0 <= n % 64 < 64,
        0 <= (n / 64) % 64 < 64,
        0 <= n / 4096 < 64,
        n % 64 + 64 * ((n / 64) % 64) + 4096 * (n / 4096) == n,
{
    lemma_fundamental_div_mod(n, 64);
    lemma_fundamental_div_mod(n / 64, 64);
    lemma_fundamental_div_mod(n, 4096);
    lemma_div_denominator(n, 64, 64);
}

/// Three bytes determine their little-endian 24-bit value and are
/// recovered from it.
proof fn lemma_bytes_of(x: int, y: int, z: int)
    requires
        0 <= x < 256,
        0 <= y < 256,
        0 <= z < 256,
    ensures
        (x + 256 * y + 65536 * z) % 256 == x,
        ((x + 256 * y + 65536 * z) / 256) % 256 == y,
        ((x + 256 * y + 65536 * z) / 65536) % 256 == z,
        (x + 256 * y + 65536 * z) / 65536 == z,
{
    let n = x + 256 * y + 65536 * z;
    assert(n == (y + 256 * z) * 256 + x);
    lemma_fundamental_div_mod_converse_mod(n, 256, y + 256 * z, x);
    lemma_fundamental_div_mod_converse_div(n, 256, y + 256 * z, x);
    assert(y + 256 * z == z * 256 + y);
    lemma_fundamental_div_mod_converse_mod(y + 256 * z, 256, z, y);
    lemma_fundamental_div_mod_converse_div(y + 256 * z, 256, z, y);
    lemma_div_denominator(n, 256, 256);
}

/// The length of the decoding depends on the input length alone.
pub proof fn lemma_decode_vals_len(vs: Seq<u8>)
    ensures
        decode_vals(vs).len() == decoded_len(vs.len() as int),
    decreases vs.len(),
{
    if vs.len() >= 4 {
        lemma_decode_vals_len(vs.skip(4));
    }
}

/// The length of the encoding depends on the byte count alone:
/// four digits for every three bytes, and one more digit than the
/// bytes a partial final group holds.
pub proof fn lemma_encode_vals_len(bs: Seq<u8>)
    ensures
        bs.len() % 3 == 0 ==> encode_vals(bs).len() == 4 * (bs.len() / 3),
        bs.len() % 3 == 1 ==> encode_vals(bs).len() == 4 * (bs.len() / 3) + 2,
        bs.len() % 3 == 2 ==> encode_vals(bs).len() == 4 * (bs.len() / 3) + 3,
    decreases bs.len(),
{
    if bs.len() >= 3 {
        lemma_encode_vals_len(bs.skip(3));
    }
}

/// Every digit the encoder emits is a valid 6-bit value.
pub proof fn lemma_encode_vals_digits(bs: Seq<u8>)
    ensures
        forall|i: int| 0 <= i < encode_vals(bs).len() ==> encode_vals(bs)[i] < 64,
    decreases bs.len(),
{
    let e = encode_vals(bs);
    if bs.len() >= 3 {
        let n = bs[0] + 256 * bs[1] + 65536 * bs[2];
        lemma_digits_of(n);
        lemma_encode_vals_digits(bs.skip(3));
        let rest = encode_vals(bs.skip(3));
        assert forall|i: int| 0 <= i < e.len() implies e[i] < 64 by {
            if i >= 4 {
                assert(e[i] == rest[i - 4]);
            }
        }
    } else if bs.len() == 2 {
        let n = bs[0] + 256 * bs[1];
        lemma_digits_of_three(n);
    } else if bs.len() == 1 {
        lemma_fundamental_div_mod(bs[0] as int, 64);
    }
}

/// Decoding undoes encoding exactly, whatever the byte count.
pub proof fn lemma_decode_encode(bs: Seq<u8>)
    ensures
        decode_vals(encode_vals(bs)) == bs,
    decreases bs.len(),
{
    let e = encode_vals(bs);
    if bs.len() >= 3 {
        let n = bs[0] + 256 * bs[1] + 65536 * bs[2];
        lemma_digits_of(n);
        lemma_bytes_of(bs[0] as int, bs[1] as int, bs[2] as int);
        lemma_decode_encode(bs.skip(3));
        let ds = seq![
            (n % 64) as u8,
            ((n / 64) % 64) as u8,
            ((n / 4096) % 64) as u8,
            (n / 262144) as u8,
        ];
        assert(e == ds + encode_vals(bs.skip(3)));
        assert(e[0] == ds[0] && e[1] == ds[1] && e[2] == ds[2] && e[3] == ds[3]);
        assert(group_of_four(e[0], e[1], e[2], e[3]) == n);
        assert(e.skip(4) =~= encode_vals(bs.skip(3)));
        assert(decode_vals(e) =~= bs);
    } else if bs.len() == 2 {
        let n = bs[0] + 256 * bs[1];
        lemma_digits_of_three(n);
        lemma_bytes_of(bs[0] as int, bs[1] as int, 0);
        assert(e.len() == 3);
        assert(e[0] + 64 * e[1] + 4096 * e[2] == n);
        assert(decode_vals(e) =~= bs);
    } else if bs.len() == 1 {
        let b = bs[0];
        lemma_fundamental_div_mod(b as int, 64);
        assert(e.len() == 2);
        assert(e[0] + 64 * e[1] == b);
        assert(decode_vals(e) =~= bs);
    } else {
        assert(decode_vals(encode_vals(bs)) =~= bs);
    }
}

/// Decode 6-bit digit values into bytes, as `decode_vals` describes.
#[verifier::rlimit(50)]
pub fn decode_digits(vs: &Vec<u8>) -> (r: Vec<u8>)
    ensures
        r@ == decode_vals(vs@),
{
    let mut r: Vec<u8> = Vec::new();
    let mut i: usize = 0;
    proof {
        assert(vs@.skip(0) =~= vs@);
        assert(r@ + decode_vals(vs@) =~= decode_vals(vs@));
    }
    while vs.len() - i >= 4
        invariant
            i <= vs.len(),
            decode_vals(vs@) == r@ + decode_vals(vs@.skip(i as int)),
        decreases vs.len() - i,
    {
        let n: u32 = vs[i] as u32 + 64 * (vs[i + 1] as u32) + 4096 * (vs[i + 2] as u32) + 262144
            * (vs[i + 3] as u32);
        let ghost rest = vs@.skip(i as int);
        proof {
            assert(rest[0] == vs@[i as int]);
            assert(rest[1] == vs@[i as int + 1]);
            assert(rest[2] == vs@[i as int + 2]);
            assert(rest[3] == vs@[i as int + 3]);
            assert(n as int == group_of_four(rest[0], rest[1], rest[2], rest[3]));
            assert(rest.skip(4) =~= vs@.skip(i as int + 4));
            assert(decode_vals(rest) == seq![
                ((n as int) % 256) as u8,
                (((n as int) / 256) % 256) as u8,
                (((n as int) / 65536) % 256) as u8,
            ] + decode_vals(vs@.skip(i as int + 4)));
        }
        let ghost r_before = r@;
        r.push((n % 256) as u8);
        r.push(((n / 256) % 256) as u8);
        r.push(((n / 65536) % 256) as u8);
        proof {
            assert(r@ =~= r_before + seq![
                ((n as int) % 256) as u8,
                (((n as int) / 256) % 256) as u8,
                (((n as int) / 65536) % 256) as u8,
            ]);
            assert(decode_vals(vs@) =~= r@ + decode_vals(vs@.skip(i as int + 4)));
        }
        i = i + 4;
    }
    let ghost rest = vs@.skip(i as int);
    let rem = vs.len() - i;
    if rem == 3 {
        let n: u32 = vs[i] as u32 + 64 * (vs[i + 1] as u32) + 4096 * (vs[i + 2] as u32);
        proof {
            assert(rest[0] == vs@[i as int]);
            assert(rest[1] == vs@[i as int + 1]);
            assert(rest[2] == vs@[i as int + 2]);
        }
        r.push((n % 256) as u8);
        r.push(((n / 256) % 256) as u8);
        proof {
            assert(r@ =~= decode_vals(vs@));
        }
    } else if rem == 2 {
        let n: u32 = vs[i] as u32 + 64 * (vs[i + 1] as u32);
        proof {
            assert(rest[0] == vs@[i as int]);
            assert(rest[1] == vs@[i as int + 1]);
        }
        r.push((n % 256) as u8);
        proof {
            assert(r@ =~= decode_vals(vs@));
        }
    } else {
        proof {
            assert(decode_vals(rest) =~= Seq::<u8>::empty());
            assert(r@ =~= decode_vals(vs@));
        }
    }
    r
}

/// Encode bytes into 6-bit digit values, as `encode_vals` describes.
#[verifier::rlimit(50)]
pub fn encode_digits(bs: &Vec<u8>) -> (r: Vec<u8>)
    ensures
        r@ == encode_vals(bs@),
{
    let mut r: Vec<u8> = Vec::new();
    let mut i: usize = 0;
    proof {
        assert(bs@.skip(0) =~= bs@);
        assert(r@ + encode_vals(bs@) =~= encode_vals(bs@));
    }
    while bs.len() - i >= 3
        invariant
            i <= bs.len(),
            encode_vals(bs@) == r@ + encode_vals(bs@.skip(i as int)),
        decreases bs.len() - i,
    {
        let n: u32 = bs[i] as u32 + 256 * (bs[i + 1] as u32) + 65536 * (bs[i + 2] as u32);
        let ghost rest = bs@.skip(i as int);
        proof {
            assert(rest[0] == bs@[i as int]);
            assert(rest[1] == bs@[i as int + 1]);
            assert(rest[2] == bs@[i as int + 2]);
            assert(rest.skip(3) =~= bs@.skip(i as int + 3));
            assert(encode_vals(rest) == seq![
                ((n as int) % 64) as u8,
                (((n as int) / 64) % 64) as u8,
                (((n as int) / 4096) % 64) as u8,
                ((n as int) / 262144) as u8,
            ] + encode_vals(bs@.skip(i as int + 3)));
        }
        let ghost r_before = r@;
        r.push((n % 64) as u8);
        r.push(((n / 64) % 64) as u8);
        r.push(((n / 4096) % 64) as u8);
        r.push((n / 262144) as u8);
        proof {
            assert(r@ =~= r_before + seq![
                ((n as int) % 64) as u8,
                (((n as int) / 64) % 64) as u8,
                (((n as int) / 4096) % 64) as u8,
                ((n as int) / 262144) as u8,
            ]);
            assert(encode_vals(bs@) =~= r@ + encode_vals(bs@.skip(i as int + 3)));
        }
        i = i + 3;
    }
    let ghost rest = bs@.skip(i as int);
    let rem = bs.len() - i;
    if rem == 2 {
        let n: u32 = bs[i] as u32 + 256 * (bs[i + 1] as u32);
        proof {
            assert(rest[0] == bs@[i as int]);
            assert(rest[1] == bs@[i as int + 1]);
        }
        r.push((n % 64) as u8);
        r.push(((n / 64) % 64) as u8);
        r.push((n / 4096) as u8);
        proof {
            assert(r@ =~= encode_vals(bs@));
        }
    } else if rem == 1 {
        let b = bs[i];
        proof {
            assert(rest[0] == bs@[i as int]);
        }
        r.push(b % 64);
        r.push(b / 64);
        proof {
            assert(r@ =~= encode_vals(bs@));
        }
    } else {
        proof {
            assert(encode_vals(rest) =~= Seq::<u8>::empty());
            assert(r@ =~= encode_vals(bs@));
        }
    }
    r
}

} // verus!

