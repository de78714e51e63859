use ytrs::framing::LineBuffer;
use ytrs::text::fmt_u64;
use ytrs::text::parse_u64;
use ytrs::text::str_chars;

#[test]
fn lines_split_across_chunks() {
    let mut b = LineBuffer::new();
    b.feed(b"{\"request_id\"");
    assert_eq!(b.next_line(), None);
    b.feed(b":1}\n{\"ev");
    assert_eq!(b.next_line(), Some(b"{\"request_id\":1}".to_vec()));
    assert_eq!(b.next_line(), None);
    b.feed(b"ent\":\"x\"}\n");
    assert_eq!(b.next_line(), Some(b"{\"event\":\"x\"}".to_vec()));
    assert_eq!(b.next_line(), None);
    assert_eq!(b.pending(), 0);
}

#[test]
fn several_lines_in_one_chunk() {
    let mut b = LineBuffer::new();
    b.feed(b"a\nbb\n\nccc");
    assert_eq!(b.next_line(), Some(b"a".to_vec()));
    assert_eq!(b.next_line(), Some(b"bb".to_vec()));
    assert_eq!(b.next_line(), Some(b"".to_vec()));
    assert_eq!(b.next_line(), None);
    assert_eq!(b.pending(), 3);
}

#[test]
fn decimal_formatting() {
    assert_eq!(fmt_u64(0), vec!['0']);
    assert_eq!(fmt_u64(7), vec!['7']);
    assert_eq!(fmt_u64(1234567890), "1234567890".chars().collect::<Vec<char>>());
    assert_eq!(
        fmt_u64(u64::MAX),
        "18446744073709551615".chars().collect::<Vec<char>>()
    );
}

#[test]
fn decimal_parsing() {
    let v = str_chars("18446744073709551615");
    assert_eq!(parse_u64(&v, 0, v.len()), Some(u64::MAX));
    let v = str_chars("18446744073709551616");
    assert_eq!(parse_u64(&v, 0, v.len()), None);
    let v = str_chars("00042x");
    assert_eq!(parse_u64(&v, 0, 5), Some(42));
    assert_eq!(parse_u64(&v, 0, 6), None);
    assert_eq!(parse_u64(&v, 3, 3), None);
}
