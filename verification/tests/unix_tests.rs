use argsplitter::unix::badly_encoded;
use argsplitter::unix::split_valid;
use argsplitter::unix::utf8_valid;
use argsplitter::RawString;

fn raw(bytes: &[u8]) -> RawString {
    RawString::new(bytes.to_vec())
}

#[test]
fn test_split_valid() {
    let good = String::from("GOOD");
    let bad = badly_encoded();
    let mut v = good.as_bytes().to_vec();
    v.extend_from_slice(bad.as_bytes());
    let input = RawString::new(v);

    let (head, tail) = split_valid(&input);
    assert_eq!(head, good);
    assert_eq!(tail, bad);
}

#[test]
fn test_split_valid_edges() {
    // empty input
    let (head, tail) = split_valid(&raw(b""));
    assert_eq!(head, "");
    assert_eq!(tail, raw(b""));

    // fully valid input with multi-byte characters
    let s = "a\u{e9}\u{20ac}\u{1f600}b";
    let (head, tail) = split_valid(&raw(s.as_bytes()));
    assert_eq!(head, s);
    assert_eq!(tail, raw(b""));

    // invalid at position 0
    let (head, tail) = split_valid(&raw(b"\x80abc"));
    assert_eq!(head, "");
    assert_eq!(tail, raw(b"\x80abc"));

    // truncated two-byte sequence at the end
    let (head, tail) = split_valid(&raw(b"ok\xc3"));
    assert_eq!(head, "ok");
    assert_eq!(tail, raw(b"\xc3"));

    // truncated three-byte sequence in the middle stops the prefix
    let (head, tail) = split_valid(&raw(b"a\xe2\x82xyz"));
    assert_eq!(head, "a");
    assert_eq!(tail, raw(b"\xe2\x82xyz"));

    // overlong encoding of '/' is not accepted
    let (head, tail) = split_valid(&raw(b"\xc0\xaf"));
    assert_eq!(head, "");
    assert_eq!(tail, raw(b"\xc0\xaf"));

    // an encoded surrogate is not accepted
    let (head, tail) = split_valid(&raw(b"\xed\xa0\x80"));
    assert_eq!(head, "");
    assert_eq!(tail, raw(b"\xed\xa0\x80"));

    // beyond the last scalar value is not accepted
    let (head, tail) = split_valid(&raw(b"\xf4\x90\x80\x80"));
    assert_eq!(head, "");
    assert_eq!(tail, raw(b"\xf4\x90\x80\x80"));
}

#[test]
fn test_split_valid_agrees_with_std() {
    // the split point must agree with std's UTF-8 validation
    let cases: &[&[u8]] = &[
        b"",
        b"plain",
        b"\x80BAD",
        b"a\xc3\xa9b",
        b"a\xc3",
        b"\xe2\x82\xac",
        b"\xe2\x82",
        b"\xf0\x9f\x98\x80",
        b"\xf0\x9f\x98",
        b"\xff",
        b"ab\xffcd",
        b"\xc0\xaf",
        b"\xed\xa0\x80x",
        b"\xf4\x8f\xbf\xbf",
    ];
    for c in cases {
        let (head, tail) = split_valid(&raw(c));
        let expected = match std::str::from_utf8(c) {
            Ok(_) => c.len(),
            Err(e) => e.valid_up_to(),
        };
        assert_eq!(head.as_bytes().len(), expected, "input {:?}", c);
        assert_eq!(head.as_bytes(), &c[..expected]);
        assert_eq!(tail.as_bytes().as_slice(), &c[expected..]);
    }
}

#[test]
fn test_utf8_valid() {
    assert!(utf8_valid(&raw(b"")));
    assert!(utf8_valid(&raw(b"hello")));
    assert!(utf8_valid(&raw("a\u{e9}\u{1f600}".as_bytes())));
    assert!(!utf8_valid(&raw(b"\x80")));
    assert!(!utf8_valid(&raw(b"ok\xc3")));
    assert!(!utf8_valid(&raw(b"\xed\xa0\x80")));
}
