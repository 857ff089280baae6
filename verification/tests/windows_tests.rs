use argsplitter::windows::find_invalid;
use argsplitter::windows::split_valid;
use argsplitter::windows::Kind;

fn generate_variants(pattern: &[&[u16]], buffer: &mut Vec<u16>, output: &mut Vec<Vec<u16>>) {
    if pattern.is_empty() {
        output.push(buffer.clone());
        return;
    }
    let first = pattern[0];
    let rest = &pattern[1..];
    for &u in first {
        buffer.push(u);
        generate_variants(rest, buffer, output);
        buffer.pop().unwrap();
    }
}

fn verify(pattern: &[&[u16]], expected: Option<usize>) {
    let mut buffer: Vec<u16> = vec![];
    let mut testcases: Vec<Vec<u16>> = vec![];
    generate_variants(pattern, &mut buffer, &mut testcases);
    for testcase in testcases {
        verify_one(testcase, expected);
    }
}

fn verify_one(testcase: Vec<u16>, expected: Option<usize>) {
    let mut text = String::new();
    for u in &testcase {
        text += &format!("{:04x}({:?}) ", u, Kind::of(*u));
    }
    let text = text.trim_end();
    let solution = find_invalid(&testcase);
    assert_eq!(
        solution, expected,
        "find_invalid does not give expected result for input {:?}",
        text
    );
    let actually_valid = String::from_utf16(&testcase).is_ok();
    assert_eq!(solution.is_none(), actually_valid);
}

#[test]
fn test_find_invalid() {
    // example code units
    let ok = &[0x0000, 0x0040, 0xD7FF, 0xE000, 0xFFFF];
    let hi = &[0xD800, 0xD840, 0xDBFF];
    let lo = &[0xDC00, 0xDC40, 0xDFFF];

    verify(&[], None);

    verify(&[ok], None);
    verify(&[hi], Some(0));
    verify(&[lo], Some(0));

    // all pairs
    verify(&[ok, ok], None);
    verify(&[ok, hi], Some(1));
    verify(&[ok, lo], Some(1));
    verify(&[hi, ok], Some(0));
    verify(&[hi, hi], Some(0));
    verify(&[hi, lo], None);
    verify(&[lo, ok], Some(0));
    verify(&[lo, hi], Some(0));
    verify(&[lo, lo], Some(0));

    // all pairs, with something valid after
    verify(&[ok, ok, ok], None);
    verify(&[ok, hi, ok], Some(1));
    verify(&[ok, lo, ok], Some(1));
    verify(&[hi, ok, ok], Some(0));
    verify(&[hi, hi, ok], Some(0));
    verify(&[hi, lo, ok], None);
    verify(&[lo, ok, ok], Some(0));
    verify(&[lo, hi, ok], Some(0));
    verify(&[lo, lo, ok], Some(0));
    //
    verify(&[ok, ok, hi, lo], None);
    verify(&[ok, hi, hi, lo], Some(1));
    verify(&[ok, lo, hi, lo], Some(1));
    verify(&[hi, ok, hi, lo], Some(0));
    verify(&[hi, hi, hi, lo], Some(0));
    verify(&[hi, lo, hi, lo], None);
    verify(&[lo, ok, hi, lo], Some(0));
    verify(&[lo, hi, hi, lo], Some(0));
    verify(&[lo, lo, hi, lo], Some(0));

    // all pairs, with something valid before
    verify(&[ok, ok, ok], None);
    verify(&[ok, ok, hi], Some(2));
    verify(&[ok, ok, lo], Some(2));
    verify(&[ok, hi, ok], Some(1));
    verify(&[ok, hi, hi], Some(1));
    verify(&[ok, hi, lo], None);
    verify(&[ok, lo, ok], Some(1));
    verify(&[ok, lo, hi], Some(1));
    verify(&[ok, lo, lo], Some(1));
    //
    verify(&[hi, lo, ok, ok], None);
    verify(&[hi, lo, ok, hi], Some(3));
    verify(&[hi, lo, ok, lo], Some(3));
    verify(&[hi, lo, hi, ok], Some(2));
    verify(&[hi, lo, hi, hi], Some(2));
    verify(&[hi, lo, hi, lo], None);
    verify(&[hi, lo, lo, ok], Some(2));
    verify(&[hi, lo, lo, hi], Some(2));
    verify(&[hi, lo, lo, lo], Some(2));
}

#[test]
fn test_kind_of() {
    assert_eq!(Kind::of(0x0000), Kind::Normal);
    assert_eq!(Kind::of(0xD7FF), Kind::Normal);
    assert_eq!(Kind::of(0xD800), Kind::HighSurrogate);
    assert_eq!(Kind::of(0xDBFF), Kind::HighSurrogate);
    assert_eq!(Kind::of(0xDC00), Kind::LowSurrogate);
    assert_eq!(Kind::of(0xDFFF), Kind::LowSurrogate);
    assert_eq!(Kind::of(0xE000), Kind::Normal);
    assert_eq!(Kind::of(0xFFFF), Kind::Normal);
}

#[test]
fn test_split_valid_wide() {
    // fully valid input, including a surrogate pair
    let all_ok: Vec<u16> = vec![0x0041, 0xD800, 0xDC00, 0x0042];
    let (head, tail) = split_valid(&all_ok);
    assert_eq!(head, "A\u{10000}B");
    assert_eq!(tail, Vec::<u16>::new());

    // invalid at position 2: a lone high surrogate
    let broken: Vec<u16> = vec![0x0041, 0x0042, 0xD800, 0x0043];
    let (head, tail) = split_valid(&broken);
    assert_eq!(head, "AB");
    assert_eq!(tail, vec![0xD800, 0x0043]);

    // invalid at position 0
    let front: Vec<u16> = vec![0xDC00, 0x0041];
    let (head, tail) = split_valid(&front);
    assert_eq!(head, "");
    assert_eq!(tail, front);

    // empty input
    let empty: Vec<u16> = vec![];
    let (head, tail) = split_valid(&empty);
    assert_eq!(head, "");
    assert_eq!(tail, Vec::<u16>::new());

    // the example badly encoded sequence is invalid at position 0
    let bad = argsplitter::windows::badly_encoded();
    let (head, tail) = split_valid(&bad);
    assert_eq!(head, "");
    assert_eq!(tail, bad);

    // the split agrees with std's UTF-16 decoding on the valid prefix
    let cases: &[&[u16]] = &[
        &[],
        &[0x0041, 0x00E9, 0x20AC],
        &[0xD83D, 0xDE00, 0x0021],
        &[0x0041, 0xD800],
        &[0xDFFF],
        &[0xD800, 0xD800, 0xDC00],
    ];
    for c in cases {
        let (head, tail) = split_valid(&c.to_vec());
        let p = c.len() - tail.len();
        assert_eq!(head, String::from_utf16(&c[..p]).unwrap(), "input {:?}", c);
        assert_eq!(&c[p..], &tail[..]);
    }
}
