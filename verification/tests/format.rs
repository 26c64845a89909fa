use phpass::alphabet::{symbol_to_value, value_to_symbol};
use phpass::error::Error;
use phpass::PhPass;

#[test]
fn generate_round_trips_exactly() {
    let rec = PhPass::generate(b"password", 8, b"abcdefgh");
    let text = rec.encode();
    assert_eq!(text.len(), 34);
    let back = PhPass::parse(&text).unwrap();
    assert_eq!(back.passes(), 8);
    assert_eq!(back.salt().as_slice(), b"abcdefgh");
    assert_eq!(back.hash(), rec.hash());
    assert_eq!(back, rec);
}

#[test]
fn known_vector_fields() {
    let rec = PhPass::parse("$P$BgUdq1RzEBYd9Tm/uZC7mz/l5F.x4N1").unwrap();
    assert_eq!(rec.passes(), 13);
    assert_eq!(rec.salt().as_slice(), b"gUdq1RzE");
    assert_eq!(rec.hash().len(), 16);
}

#[test]
fn encode_reproduces_canonical_text() {
    let text = "$P$BgUdq1RzEBYd9Tm/uZC7mz/l5F.x4N1";
    let rec = PhPass::parse(text).unwrap();
    assert_eq!(rec.encode(), text);
}

#[test]
fn wrong_password_fails() {
    let rec = PhPass::generate(b"pw", 5, b"saltsalt");
    assert!(rec.verify(b"pw").is_ok());
    assert_eq!(rec.verify(b"pwx").unwrap_err(), Error::VerificationFailure);
    assert_eq!(rec.verify(b"pw ").unwrap_err(), Error::VerificationFailure);
}

#[test]
fn rejects_wrong_identifier() {
    // This input is one character short of a full record, so the length
    // check fires before the identifier is ever looked at.
    let r = PhPass::parse("$1$abcdefgh0123456789012345678901");
    assert_eq!(r.unwrap_err(), Error::OldFormat);
    let r = PhPass::parse("$1$abcdefgh01234567890123456789012");
    assert_eq!(r.unwrap_err(), Error::InvalidIdentifier);
}

#[test]
fn rejects_short_input() {
    let r = PhPass::parse("$P$short");
    assert_eq!(r.unwrap_err(), Error::OldFormat);
}

#[test]
fn rejects_bad_exponent_character() {
    let r = PhPass::parse("$P$!aaaaaaaa0123456789012345678901");
    assert_eq!(r.unwrap_err(), Error::InvalidIterationCount);
}

#[test]
fn rejects_bad_digest_character() {
    let r = PhPass::parse("$P$Baaaaaaaa01234567890123456789!1");
    assert_eq!(r.unwrap_err(), Error::DecodeFailure);
}

#[test]
fn rejects_overlong_digest() {
    let r = PhPass::parse("$P$Baaaaaaaa01234567890123456789012");
    assert_eq!(r.unwrap_err(), Error::MalformedDigest);
}

#[test]
fn alphabet_round_trips() {
    let mut v: u8 = 0;
    while v < 64 {
        let sym = value_to_symbol(v);
        assert_eq!(symbol_to_value(sym), Some(v));
        v += 1;
    }
    assert_eq!(value_to_symbol(0), b'.');
    assert_eq!(value_to_symbol(1), b'/');
    assert_eq!(value_to_symbol(13), b'B');
    assert_eq!(value_to_symbol(63), b'z');
    assert_eq!(symbol_to_value(b'!'), None);
}

#[test]
fn messages_name_each_failure() {
    assert_eq!(
        Error::OldFormat.message(),
        "Old WP one-pass md5 encoding not supported"
    );
    assert_eq!(
        Error::VerificationFailure.message(),
        "digest does not match password"
    );
}

#[test]
fn fresh_salt_uses_legacy_alphabet() {
    let rec = PhPass::new(b"abc");
    assert_eq!(rec.salt().len(), 8);
    for &b in rec.salt().iter() {
        assert!(symbol_to_value(b).is_some());
    }
}
