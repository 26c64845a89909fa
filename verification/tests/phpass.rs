use phpass::PhPass;

#[test]
fn test_round_trip() {
    let random_salt = PhPass::new(b"hello").encode();
    let phpass = PhPass::parse(&random_salt).unwrap();
    assert!(
        phpass.verify(b"hello").is_ok(),
        "Failed to verify random-salt password hash"
    )
}

#[test]
fn test_verify_parse() {
    let phpass = PhPass::parse("$P$BgUdq1RzEBYd9Tm/uZC7mz/l5F.x4N1").unwrap();

    assert!(
        phpass.verify(b"development").is_ok(),
        "Failed to verify parsed password hash"
    )
}

#[test]
fn test_verify_new() {
    let phpass = PhPass::new(b"world!");

    assert!(
        phpass.verify(b"world!").is_ok(),
        "Failed to verify random-salt password hash"
    )
}
