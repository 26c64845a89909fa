//! Parsing, verification and generation of legacy phpass password-hash
//! records: ASCII strings of the form `$P$<passes><salt><digest>` that
//! encode an iterated, salted MD5 checksum with a non-standard
//! base64-like alphabet and reversed byte order inside each group.

pub mod alphabet;
pub mod checksum;
pub mod codec;
pub mod error;
pub mod salt;

use crate::alphabet::{
    is_symbol, lemma_symbol_value_inverse, symbol_of, symbol_to_value, value_of, value_to_symbol,
};
use crate::checksum::{checksum, checksum_spec};
use crate::codec::{
    decode_digits, decode_vals, encode_digits, encode_vals, lemma_decode_encode,
    lemma_encode_vals_digits, lemma_encode_vals_len,
};
use crate::error::Error;
use crate::salt::fresh_salt;
use vstd::prelude::*;
use vstd::string::StringSliceAdditionalSpecFns;

verus! {

/// The default iteration exponent for freshly created records.
pub const DEFAULT_PASSES: usize = 13;

/// The mathematical shape of a record: an iteration exponent, the raw
/// salt bytes and the raw digest bytes.
#[verifier::ext_equal]
pub struct PhPassView {
    pub passes: nat,
    pub salt: Seq<u8>,
    pub hash: Seq<u8>,
}

impl PhPassView {
    /// The record invariant: a valid alphabet index for the exponent,
    /// an 8-byte salt and a 16-byte digest.
    pub open spec fn wf(self) -> bool {
        self.passes < 64 && self.salt.len() == 8 && self.hash.len() == 16
    }

    /// Whether every salt byte is ASCII, as the canonical textual form
    /// assumes.
    pub open spec fn salt_ascii(self) -> bool {
        forall|i: int| 0 <= i < self.salt.len() ==> self.salt[i] < 128
    }

    /// Whether every salt byte is a symbol of the legacy alphabet, as
    /// freshly generated salts are.
    pub open spec fn salt_legacy(self) -> bool {
        forall|i: int| 0 <= i < self.salt.len() ==> is_symbol(#[trigger] self.salt[i])
    }
}

/// The record a password, salt and exponent generate: the checksum
/// under that salt and exponent, carried beside them.
pub open spec fn generated(pass: Seq<u8>, salt: Seq<u8>, passes: nat) -> PhPassView {
    PhPassView { passes, salt, hash: checksum_spec(pass, salt, passes) }
}

/// A record verifies against a password exactly when its digest equals
/// the checksum recomputed from that password.
pub open spec fn verifies(v: PhPassView, pass: Seq<u8>) -> bool {
    v.hash == checksum_spec(pass, v.salt, v.passes)
}

/// The 6-bit values behind a run of legacy-alphabet bytes.
pub open spec fn vals_of(s: Seq<u8>) -> Seq<u8> {
    s.map_values(|b: u8| value_of(b))
}

/// The legacy-alphabet bytes of a run of 6-bit values.
pub open spec fn syms_of(vs: Seq<u8>) -> Seq<u8> {
    vs.map_values(|v: u8| symbol_of(v))
}

/// What parsing a textual record (given as bytes) must yield: the
/// typed failure the first violated constraint dictates, or the record
/// whose fields the text spells out.
pub open spec fn parse_spec(s: Seq<u8>) -> Result<PhPassView, Error> {
    if s.len() < 34 {
        Err(Error::OldFormat)
    } else if !(s[0] == 36 && s[1] == 80 && s[2] == 36) {  // the bytes of `$P$`
        Err(Error::InvalidIdentifier)
    } else if !is_symbol(s[3]) {
        Err(Error::InvalidIterationCount)
    } else if exists|i: int| 12 <= i < s.len() && !is_symbol(#[trigger] s[i]) {
        Err(Error::DecodeFailure)
    } else if decode_vals(vals_of(s.skip(12))).len() != 16 {
        Err(Error::MalformedDigest)
    } else {
        Ok(PhPassView {
            passes: value_of(s[3]) as nat,
            salt: s.subrange(4, 12),
            hash: decode_vals(vals_of(s.skip(12))),
        })
    }
}

/// The canonical 34 bytes of a record: `$P$`, the exponent symbol, the
/// salt verbatim, and the digest bytes spread over 22 symbols.
pub open spec fn encode_spec(v: PhPassView) -> Seq<u8> {
    seq![36u8, 80u8, 36u8, symbol_of(v.passes as u8)] + v.salt + syms_of(encode_vals(v.hash))
}

/// A parsed or generated phpass record.
#[derive(Debug, PartialEq, Eq)]
pub struct PhPass {
    passes: usize,
    salt: Vec<u8>,
    hash: Vec<u8>,
}

impl View for PhPass {
    type V = PhPassView;

    closed spec fn view(&self) -> PhPassView {
        PhPassView { passes: self.passes as nat, salt: self.salt@, hash: self.hash@ }
    }
}

impl PhPass {
    /// The record invariant, stated on the view.
    pub open spec fn wf(&self) -> bool {
        self@.wf()
    }

    /// The iteration exponent: the cost is `2^passes` rounds.
    pub fn passes(&self) -> (r: usize)
        ensures
            r as nat == self@.passes,
    {
        self.passes
    }

    /// The raw salt bytes.
    pub fn salt(&self) -> (r: &Vec<u8>)
        ensures
            r@ == self@.salt,
    {
        &self.salt
    }

    /// The raw 16-byte digest.
    pub fn hash(&self) -> (r: &Vec<u8>)
        ensures
            r@ == self@.hash,
    {
        &self.hash
    }

    /// Whether every salt byte is ASCII, which `encode` assumes of a
    /// record in canonical form.
    pub fn salt_is_ascii(&self) -> (r: bool)
        ensures
            r == self@.salt_ascii(),
    {
        let mut i: usize = 0;
        while i < self.salt.len()
            invariant
                i <= self.salt@.len(),
                forall|k: int| 0 <= k < i ==> self.salt@[k] < 128,
            decreases self.salt.len() - i,
        {
            if self.salt[i] >= 128 {
                proof {
                    assert(!(self@.salt[i as int] < 128));
                }
                return false;
            }
            i = i + 1;
        }
        true
    }

    /// Parse a textual record, taken as its raw bytes.
    pub fn parse_bytes(s: &[u8]) -> (r: Result<PhPass, Error>)
        ensures
            match r {
                Ok(p) => parse_spec(s@) == Ok::<PhPassView, Error>(p@) && p.wf(),
                Err(e) => parse_spec(s@) == Err::<PhPassView, Error>(e),
            },
    {
        if s.len() < 34 {
            return Err(Error::OldFormat);
        }
        if !(s[0] == 36 && s[1] == 80 && s[2] == 36) {  // the bytes of `$P$`
            return Err(Error::InvalidIdentifier);
        }
        let passes: u8 = match symbol_to_value(s[3]) {
            Some(v) => v,
            None => {
                return Err(Error::InvalidIterationCount);
            },
        };
        let mut salt: Vec<u8> = Vec::new();
        let mut i: usize = 4;
        while i < 12
            invariant
                4 <= i <= 12,
                s@.len() >= 34,
                salt@ == s@.subrange(4, i as int),
            decreases 12 - i,
        {
            salt.push(s[i]);
            proof {
                assert(s@.subrange(4, i as int).push(s@[i as int]) =~= s@.subrange(
                    4,
                    i as int + 1,
                ));
            }
            i = i + 1;
        }
        let mut vals: Vec<u8> = Vec::new();
        let mut j: usize = 12;
        while j < s.len()
            invariant
                12 <= j <= s@.len(),
                s@.len() >= 34,
                s@[0] == 36 && s@[1] == 80 && s@[2] == 36,
                is_symbol(s@[3]),
                value_of(s@[3]) == passes,
                passes < 64,
                salt@ == s@.subrange(4, 12),
                vals@ == vals_of(s@.subrange(12, j as int)),
                forall|k: int| 12 <= k < j ==> is_symbol(#[trigger] s@[k]),
            decreases s.len() - j,
        {
            match symbol_to_value(s[j]) {
                Some(v) => {
                    vals.push(v);
                    proof {
                        assert(vals_of(s@.subrange(12, j as int)).push(value_of(s@[j as int]))
                            =~= vals_of(s@.subrange(12, j as int + 1)));
                    }
                },
                None => {
                    proof {
                        assert(!is_symbol(s@[j as int]));
                        assert(exists|i: int| 12 <= i < s@.len() && !is_symbol(#[trigger] s@[i]));
                    }
                    return Err(Error::DecodeFailure);
                },
            }
            j = j + 1;
        }
        proof {
            assert(s@.subrange(12, s@.len() as int) =~= s@.skip(12));
        }
        let hash = decode_digits(&vals);
        if hash.len() != 16 {
            return Err(Error::MalformedDigest);
        }
        Ok(PhPass { passes: passes as usize, salt, hash })
    }

    /// Parse a textual record.
    pub fn parse(s: &str) -> (r: Result<PhPass, Error>)
        ensures
            match r {
                Ok(p) => parse_spec(s.spec_bytes()) == Ok::<PhPassView, Error>(p@) && p.wf(),
                Err(e) => parse_spec(s.spec_bytes()) == Err::<PhPassView, Error>(e),
            },
    {
        Self::parse_bytes(s.as_bytes())
    }

    /// Build the record for a password under a chosen salt and
    /// iteration exponent.
    pub fn generate(pass: &[u8], passes: usize, salt: &[u8]) -> (r: PhPass)
        requires
            passes < 64,
            salt@.len() == 8,
        ensures
            r@ == generated(pass@, salt@, passes as nat),
            r.wf(),
    {
        let hash = checksum(pass, salt, passes);
        let salt_owned = vstd::slice::slice_to_vec(salt);
        PhPass { passes, salt: salt_owned, hash }
    }

    /// Build a record for a password with the default cost and a fresh
    /// random salt.
    pub fn new(pass: &[u8]) -> (r: PhPass)
        ensures
            r.wf(),
            r@.salt_legacy(),
            r@.salt_ascii(),
            r@.passes == DEFAULT_PASSES as nat,
            r@ == generated(pass@, r@.salt, DEFAULT_PASSES as nat),
    {
        let salt = fresh_salt();
        let r = Self::generate(pass, DEFAULT_PASSES, salt.as_slice());
        proof {
            assert forall|i: int| 0 <= i < r@.salt.len() implies r@.salt[i] < 128 by {
                assert(is_symbol(r@.salt[i]));
            }
        }
        r
    }

    /// Check a candidate password against the record's digest.
    pub fn verify(&self, pass: &[u8]) -> (r: Result<(), Error>)
        requires
            self.wf(),
        ensures
            r is Ok <==> verifies(self@, pass@),
            r is Err ==> r->Err_0 == Error::VerificationFailure,
    {
        let expected = checksum(pass, self.salt.as_slice(), self.passes);
        if eq_bytes(&self.hash, &expected) {
            Ok(())
        } else {
            Err(Error::VerificationFailure)
        }
    }

    /// Serialize the record to its canonical 34-character textual form.
    pub fn encode(&self) -> (r: String)
        requires
            self.wf(),
            self@.salt_ascii(),
        ensures
            r@.len() == 34,
            vstd::utf8::is_ascii_chars(r@),
            vstd::utf8::encode_utf8(r@) == encode_spec(self@),
            forall|i: int|
                0 <= i < r@.len() ==> ((#[trigger] r@[i]) as u8 == encode_spec(self@)[i] && (
                r@[i] as nat) < 128),
    {
        let mut rec: Vec<u8> = Vec::new();
        rec.push(36);
        rec.push(80);
        rec.push(36);
        rec.push(value_to_symbol(self.passes as u8));
        let ghost prefix = seq![36u8, 80u8, 36u8, symbol_of(self@.passes as u8)];
        proof {
            assert(rec@ =~= prefix);
        }
        let mut i: usize = 0;
        while i < self.salt.len()
            invariant
                i <= self.salt@.len(),
                self.wf(),
                rec@ == prefix + self.salt@.take(i as int),
            decreases self.salt.len() - i,
        {
            rec.push(self.salt[i]);
            proof {
                assert((prefix + self.salt@.take(i as int)).push(self.salt@[i as int]) =~= prefix
                    + self.salt@.take(i as int + 1));
            }
            i = i + 1;
        }
        proof {
            assert(prefix + self.salt@.take(self.salt@.len() as int) =~= prefix + self.salt@);
        }
        let digits = encode_digits(&self.hash);
        proof {
            lemma_encode_vals_digits(self.hash@);
            lemma_encode_vals_len(self.hash@);
        }
        let mut j: usize = 0;
        while j < digits.len()
            invariant
                j <= digits@.len(),
                digits@ == encode_vals(self@.hash),
                forall|k: int| 0 <= k < digits@.len() ==> digits@[k] < 64,
                rec@ == prefix + self@.salt + syms_of(digits@.take(j as int)),
            decreases digits.len() - j,
        {
            rec.push(value_to_symbol(digits[j]));
            proof {
                assert(syms_of(digits@.take(j as int)).push(symbol_of(digits@[j as int]))
                    =~= syms_of(digits@.take(j as int + 1)));
                assert((prefix + self@.salt + syms_of(digits@.take(j as int))).push(
                    symbol_of(digits@[j as int]),
                ) =~= prefix + self@.salt + syms_of(digits@.take(j as int + 1)));
            }
            j = j + 1;
        }
        proof {
            assert(digits@.take(digits@.len() as int) =~= digits@);
            assert(rec@ =~= encode_spec(self@));
            lemma_encode_spec_ascii(self@);
        }
        let out = ascii_string(rec);
        proof {
            vstd::utf8::is_ascii_chars_encode_utf8(out@);
            assert(vstd::utf8::encode_utf8(out@) =~= encode_spec(self@));
        }
        out
    }
}

/// Whether two byte strings are equal.
fn eq_bytes(a: &Vec<u8>, b: &Vec<u8>) -> (r: bool)
    ensures
        r == (a@ == b@),
{
    if a.len() != b.len() {
        return false;
    }
    let mut i: usize = 0;
    while i < a.len()
        invariant
            i <= a@.len(),
            a@.len() == b@.len(),
            forall|k: int| 0 <= k < i ==> a@[k] == b@[k],
        decreases a.len() - i,
    {
        if a[i] != b[i] {
            return false;
        }
        i = i + 1;
    }
    proof {
        assert(a@ =~= b@);
    }
    true
}

/// The canonical form of a well-formed record is exactly 34 bytes:
/// three for the prefix, one exponent symbol, eight salt bytes and 22
/// digest symbols.
pub proof fn lemma_encode_spec_len(v: PhPassView)
    requires
        v.wf(),
    ensures
        encode_spec(v).len() == 34,
{
    lemma_encode_vals_len(v.hash);
}

/// Every byte of a well-formed ASCII-salted record's canonical form is
/// ASCII.
pub proof fn lemma_encode_spec_ascii(v: PhPassView)
    requires
        v.wf(),
        v.salt_ascii(),
    ensures
        forall|i: int| 0 <= i < encode_spec(v).len() ==> encode_spec(v)[i] < 128,
{
    let s = encode_spec(v);
    let syms = syms_of(encode_vals(v.hash));
    lemma_encode_vals_digits(v.hash);
    assert forall|i: int| 0 <= i < s.len() implies s[i] < 128 by {
        if i < 4 {
        } else if i < 4 + v.salt.len() {
            assert(s[i] == v.salt[i - 4]);
        } else {
            assert(s[i] == syms[i - 4 - v.salt.len()]);
            assert(syms[i - 4 - v.salt.len()] == symbol_of(
                encode_vals(v.hash)[i - 4 - v.salt.len()],
            ));
        }
    }
}

/// Relies on `String::from_utf8` of std: bytes below 128 are ASCII,
/// hence valid UTF-8, and decode to one character per byte with the
/// same value.
#[verifier::external_body]
fn ascii_string(bytes: Vec<u8>) -> (r: String)
    requires
        forall|i: int| 0 <= i < bytes@.len() ==> bytes@[i] < 128,
    ensures
        r@.len() == bytes@.len(),
        vstd::utf8::is_ascii_chars(r@),
        forall|i: int|
            0 <= i < r@.len() ==> ((#[trigger] r@[i]) as u8 == bytes@[i] && (r@[i] as nat) < 128),
{
    match String::from_utf8(bytes) {
        Ok(s) => s,
        Err(_) => String::new(),
    }
}

/// Serializing a well-formed record and parsing the result yields the
/// record back, field for field.
pub proof fn lemma_round_trip(v: PhPassView)
    requires
        v.wf(),
    ensures
        parse_spec(encode_spec(v)) == Ok::<PhPassView, Error>(v),
{
    let s = encode_spec(v);
    let digits = encode_vals(v.hash);
    let syms = syms_of(digits);
    lemma_encode_vals_len(v.hash);
    lemma_encode_vals_digits(v.hash);
    lemma_decode_encode(v.hash);
    assert(s.len() == 34);
    assert(s[0] == 36 && s[1] == 80 && s[2] == 36);
    assert(s[3] == symbol_of(v.passes as u8));
    lemma_symbol_value_inverse(v.passes as u8);
    assert forall|i: int| 12 <= i < s.len() implies is_symbol(#[trigger] s[i]) && value_of(s[i])
        == digits[i - 12] by {
        assert(s[i] == syms[i - 12]);
        assert(syms[i - 12] == symbol_of(digits[i - 12]));
        lemma_symbol_value_inverse(digits[i - 12]);
    }
    assert(s.subrange(4, 12) =~= v.salt);
    assert(vals_of(s.skip(12)) =~= digits);
    assert(parse_spec(s) == Ok::<PhPassView, Error>(v));
}

/// A record that parses successfully is exactly 34 bytes long: any
/// longer run of valid symbols decodes to more than 16 digest bytes and
/// is refused as malformed.
pub proof fn lemma_parsed_len(s: Seq<u8>)
    requires
        parse_spec(s) is Ok,
    ensures
        s.len() == 34,
{
    let m = s.len() - 12;
    crate::codec::lemma_decode_vals_len(vals_of(s.skip(12)));
    vstd::arithmetic::div_mod::lemma_fundamental_div_mod(m, 4);
}

/// A freshly generated record always verifies against the password it
/// was generated from.
pub proof fn lemma_verify_generate(pass: Seq<u8>, salt: Seq<u8>, passes: nat)
    ensures
        verifies(generated(pass, salt, passes), pass),
{
}

/// A generated record verifies against a candidate password exactly
/// when the candidate's checksum equals the original password's: a
/// wrong password is rejected precisely when the two checksums differ.
pub proof fn lemma_verify_mismatch(pass: Seq<u8>, other: Seq<u8>, salt: Seq<u8>, passes: nat)
    ensures
        verifies(generated(pass, salt, passes), other) <==> checksum_spec(other, salt, passes)
            == checksum_spec(pass, salt, passes),
{
}

/// Generating a record, serializing it and parsing the text back yields
/// exactly the generated record: exponent, salt and checksum all
/// survive the round trip. (The digest-length premise is what the
/// checksum engine returns for every input.)
pub proof fn lemma_generate_round_trip(pass: Seq<u8>, salt: Seq<u8>, passes: nat)
    requires
        passes < 64,
        salt.len() == 8,
        checksum_spec(pass, salt, passes).len() == 16,
    ensures
        parse_spec(encode_spec(generated(pass, salt, passes))) == Ok::<PhPassView, Error>(
            generated(pass, salt, passes),
        ),
{
    lemma_round_trip(generated(pass, salt, passes));
}

} // verus!
