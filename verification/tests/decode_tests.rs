use scel_rime::decode::read_string;

fn utf16le(s: &str) -> Vec<u8> {
    let mut v = Vec::new();
    for u in s.encode_utf16() {
        v.push((u & 0xFF) as u8);
        v.push((u >> 8) as u8);
    }
    v
}

#[test]
fn plain_ascii_text() {
    let b = utf16le("abc");
    assert_eq!(read_string(&b, 0, b.len()), "abc");
}

#[test]
fn trailing_nul_padding_stripped() {
    let b = utf16le("ab\u{0}\u{0}\u{0}");
    assert_eq!(read_string(&b, 0, b.len()), "ab");
}

#[test]
fn interior_nul_kept() {
    let b = utf16le("a\u{0}b");
    assert_eq!(read_string(&b, 0, b.len()), "a\u{0}b");
}

#[test]
fn ideographic_space_removed() {
    let b = utf16le("a\u{3000}b\u{3000}");
    assert_eq!(read_string(&b, 0, b.len()), "ab");
}

#[test]
fn carriage_return_becomes_space() {
    let b = utf16le("a\rb");
    assert_eq!(read_string(&b, 0, b.len()), "a b");
}

#[test]
fn surrogate_pair_decoded() {
    // U+1D11E musical symbol, stored as the pair D834 DD1E
    let b = utf16le("\u{1D11E}");
    assert_eq!(b, vec![0x34, 0xD8, 0x1E, 0xDD]);
    assert_eq!(read_string(&b, 0, b.len()), "\u{1D11E}");
}

#[test]
fn lone_high_surrogate_replaced() {
    let b = vec![0x34, 0xD8, 0x61, 0x00];
    assert_eq!(read_string(&b, 0, b.len()), "\u{FFFD}a");
}

#[test]
fn lone_low_surrogate_replaced() {
    let b = vec![0x1E, 0xDD];
    assert_eq!(read_string(&b, 0, b.len()), "\u{FFFD}");
}

#[test]
fn odd_trailing_byte_ignored() {
    let b = vec![0x61, 0x00, 0x62];
    assert_eq!(read_string(&b, 0, b.len()), "a");
}

#[test]
fn subrange_only() {
    let b = utf16le("xxabyy");
    assert_eq!(read_string(&b, 4, 8), "ab");
}

#[test]
fn empty_range() {
    let b = utf16le("abc");
    assert_eq!(read_string(&b, 2, 2), "");
}

#[test]
fn redecoding_cleaned_text_changes_nothing() {
    let b = utf16le("one\u{3000}two\rthree\u{0}\u{0}");
    let once = read_string(&b, 0, b.len());
    let again_bytes = utf16le(&once);
    let twice = read_string(&again_bytes, 0, again_bytes.len());
    assert_eq!(once, twice);
    assert_eq!(once, "onetwo three");
}
