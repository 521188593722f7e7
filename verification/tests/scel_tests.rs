use scel_rime::FormatError;
use scel_rime::emit::emit_body;
use scel_rime::emit::emit_document;
use scel_rime::emit::emit_preamble;
use scel_rime::parse_scel;

const PINYIN_TABLE_OFFSET: usize = 0x1544;
const WORD_TABLE_OFFSET: usize = 0x2628;

fn utf16le(s: &str) -> Vec<u8> {
    let mut v = Vec::new();
    for u in s.encode_utf16() {
        v.push((u & 0xFF) as u8);
        v.push((u >> 8) as u8);
    }
    v
}

fn put(buf: &mut Vec<u8>, at: usize, bytes: &[u8]) {
    for (i, b) in bytes.iter().enumerate() {
        buf[at + i] = *b;
    }
}

fn put_u16(buf: &mut Vec<u8>, at: usize, v: u16) {
    buf[at] = (v & 0xFF) as u8;
    buf[at + 1] = (v >> 8) as u8;
}

fn push_u16(buf: &mut Vec<u8>, v: u16) {
    buf.push((v & 0xFF) as u8);
    buf.push((v >> 8) as u8);
}

const PRIMARY: [u8; 12] = [0x40, 0x15, 0x00, 0x00, 0x44, 0x43, 0x53, 0x01, 0x01, 0x00, 0x00, 0x00];
const SECONDARY: [u8; 4] = [0x9D, 0x01, 0x00, 0x00];

/// A buffer with valid signatures and a pinyin table holding `pinyins` plus
/// one empty filler entry sized so the table ends exactly at the word table's
/// documented start.
fn base_buffer(pinyins: &[&str]) -> Vec<u8> {
    let mut buf = vec![0u8; WORD_TABLE_OFFSET];
    put(&mut buf, 0, &PRIMARY);
    put(&mut buf, 0x1540, &SECONDARY);
    let mut pos = PINYIN_TABLE_OFFSET;
    for (i, p) in pinyins.iter().enumerate() {
        let enc = utf16le(p);
        put_u16(&mut buf, pos, i as u16);
        put_u16(&mut buf, pos + 2, enc.len() as u16);
        put(&mut buf, pos + 4, &enc);
        pos += 4 + enc.len();
    }
    // filler entry of NUL bytes, decoding to the empty string
    let fill = WORD_TABLE_OFFSET - pos - 4;
    put_u16(&mut buf, pos, pinyins.len() as u16);
    put_u16(&mut buf, pos + 2, fill as u16);
    buf
}

/// Appends one word group: the shared index list, then each (word, frequency).
fn push_group(buf: &mut Vec<u8>, idxs: &[u16], words: &[(&str, u16)]) {
    let l = (idxs.len() * 2) as u16;
    push_u16(buf, words.len() as u16);
    push_u16(buf, l);
    for &ix in idxs {
        push_u16(buf, ix);
    }
    for &(w, freq) in words {
        let enc = utf16le(w);
        assert_eq!(enc.len(), l as usize, "test word length must match the index count");
        push_u16(buf, l);
        buf.extend_from_slice(&enc);
        push_u16(buf, 10);
        push_u16(buf, freq);
        buf.extend_from_slice(&[0u8; 8]);
    }
}

#[test]
fn synthetic_buffer_emits_expected_line() {
    // pinyin table ["pin", "yin"], one word referencing both indices
    let mut buf = base_buffer(&["pin", "yin"]);
    push_group(&mut buf, &[0, 1], &[("\u{6D4B}\u{8BD5}", 42)]);
    let parsed = parse_scel(&buf).unwrap();
    assert_eq!(parsed.records.len(), 1);
    assert_eq!(parsed.records[0].word, "\u{6D4B}\u{8BD5}");
    assert_eq!(parsed.records[0].pinyin, "pin yin");
    assert_eq!(parsed.records[0].frequency, 42);
    assert_eq!(parsed.truncation, None);
    assert_eq!(emit_body(&parsed.records), "\u{6D4B}\u{8BD5}\tpin yin\t42");
}

#[test]
fn pinyin_table_parsed_in_order() {
    let buf = base_buffer(&["pin", "yin"]);
    let parsed = parse_scel(&buf).unwrap();
    assert_eq!(parsed.pinyin, vec!["pin", "yin", ""]);
    assert_eq!(parsed.records.len(), 0);
    assert_eq!(parsed.truncation, None);
}

#[test]
fn corrupted_primary_signature_rejected() {
    let mut buf = base_buffer(&["pin"]);
    buf[0] = 0x41;
    assert_eq!(parse_scel(&buf).unwrap_err(), FormatError::BadSignature);
}

#[test]
fn corrupted_secondary_signature_rejected() {
    let mut buf = base_buffer(&["pin"]);
    buf[0x1540] = 0x00;
    assert_eq!(parse_scel(&buf).unwrap_err(), FormatError::BadSignature);
}

#[test]
fn short_buffer_rejected() {
    let buf = vec![0u8; 0x100];
    assert_eq!(parse_scel(&buf).unwrap_err(), FormatError::BadSignature);
}

#[test]
fn misplaced_table_boundary_rejected() {
    let mut buf = base_buffer(&["pin"]);
    // shrink the filler entry: the scan now stops two bytes early
    let fill_at = PINYIN_TABLE_OFFSET + 4 + 6;
    let declared = (buf[fill_at + 2] as u16) | ((buf[fill_at + 3] as u16) << 8);
    put_u16(&mut buf, fill_at + 2, declared - 2);
    assert_eq!(parse_scel(&buf).unwrap_err(), FormatError::TableBoundaryMismatch);
}

#[test]
fn header_fields_extracted() {
    let mut buf = base_buffer(&["pin"]);
    put(&mut buf, 0x1C, &utf16le("id-7"));
    put_u16(&mut buf, 0x124, 123);
    put(&mut buf, 0x130, &utf16le("some name"));
    put(&mut buf, 0x338, &utf16le("a category"));
    put(&mut buf, 0xD40, &utf16le("an example"));
    let parsed = parse_scel(&buf).unwrap();
    assert_eq!(parsed.header.id, "id-7");
    assert_eq!(parsed.header.declared_count, 123);
    assert_eq!(parsed.header.name, "some name");
    assert_eq!(parsed.header.category, "a category");
    assert_eq!(parsed.header.example, "an example");
}

#[test]
fn odd_pinyin_length_truncates_after_valid_records() {
    let mut buf = base_buffer(&["pin", "yin"]);
    push_group(&mut buf, &[0], &[("a", 1)]);
    push_group(&mut buf, &[1], &[("b", 2)]);
    // a third group with an odd pinyin byte length, padded past the minimum
    push_u16(&mut buf, 1);
    push_u16(&mut buf, 3);
    buf.extend_from_slice(&[0u8; 32]);
    let parsed = parse_scel(&buf).unwrap();
    assert_eq!(parsed.records.len(), 2);
    assert_eq!(parsed.records[0].word, "a");
    assert_eq!(parsed.records[1].word, "b");
    assert_eq!(parsed.truncation, Some(FormatError::OddPinyinLength));
}

#[test]
fn index_out_of_range_truncates() {
    let mut buf = base_buffer(&["pin", "yin"]);
    push_group(&mut buf, &[0], &[("a", 1)]);
    push_group(&mut buf, &[9], &[("b", 2)]);
    let parsed = parse_scel(&buf).unwrap();
    assert_eq!(parsed.records.len(), 1);
    assert_eq!(parsed.records[0].word, "a");
    assert_eq!(parsed.truncation, Some(FormatError::IndexOutOfRange));
}

#[test]
fn word_length_mismatch_truncates() {
    let mut buf = base_buffer(&["pin", "yin"]);
    push_group(&mut buf, &[0], &[("a", 1)]);
    // group whose word declares a length different from the pinyin byte length
    push_u16(&mut buf, 1);
    push_u16(&mut buf, 2);
    push_u16(&mut buf, 0);
    push_u16(&mut buf, 4);
    buf.extend_from_slice(&[0u8; 24]);
    let parsed = parse_scel(&buf).unwrap();
    assert_eq!(parsed.records.len(), 1);
    assert_eq!(parsed.truncation, Some(FormatError::WordLengthMismatch));
}

#[test]
fn bad_extension_marker_truncates() {
    let mut buf = base_buffer(&["pin", "yin"]);
    push_group(&mut buf, &[0], &[("a", 1)]);
    push_group(&mut buf, &[1], &[("b", 2)]);
    // corrupt the second word's extension marker (12 bytes of extension and
    // 2 bytes of frequency stand before the end)
    let marker_at = buf.len() - 12;
    put_u16(&mut buf, marker_at, 11);
    let parsed = parse_scel(&buf).unwrap();
    assert_eq!(parsed.records.len(), 1);
    assert_eq!(parsed.records[0].word, "a");
    assert_eq!(parsed.truncation, Some(FormatError::BadExtensionMarker));
}

#[test]
fn multiple_words_in_one_group_share_pinyin() {
    let mut buf = base_buffer(&["pin"]);
    push_group(&mut buf, &[0], &[("a", 1), ("b", 2), ("c", 3)]);
    let parsed = parse_scel(&buf).unwrap();
    assert_eq!(parsed.records.len(), 3);
    for r in &parsed.records {
        assert_eq!(r.pinyin, "pin");
    }
    assert_eq!(parsed.records[2].word, "c");
    assert_eq!(parsed.records[2].frequency, 3);
    assert_eq!(emit_body(&parsed.records), "a\tpin\t1\nb\tpin\t2\nc\tpin\t3");
}

#[test]
fn frequency_extremes_emitted_exactly() {
    let mut buf = base_buffer(&["pin", "yin"]);
    push_group(&mut buf, &[0], &[("a", 0), ("b", 65535)]);
    let parsed = parse_scel(&buf).unwrap();
    assert_eq!(emit_body(&parsed.records), "a\tpin\t0\nb\tpin\t65535");
}

#[test]
fn declared_count_and_body_lines_may_differ() {
    let mut buf = base_buffer(&["pin", "yin"]);
    put_u16(&mut buf, 0x124, 999);
    push_group(&mut buf, &[0], &[("a", 1)]);
    push_group(&mut buf, &[9], &[("b", 2)]);
    let parsed = parse_scel(&buf).unwrap();
    // the soft stop kept one record; the declared count stays as the header
    // declares it and neither number is adjusted to match the other
    assert_eq!(parsed.header.declared_count, 999);
    assert_eq!(parsed.records.len(), 1);
    let doc = emit_document(&parsed.header, &parsed.records, "stem", "0");
    assert!(doc.contains(": 999\n"));
    let body = emit_body(&parsed.records);
    assert_eq!(body.lines().count(), 1);
}

#[test]
fn preamble_has_fixed_directives() {
    let mut buf = base_buffer(&["pin"]);
    put(&mut buf, 0x130, &utf16le("nm"));
    let parsed = parse_scel(&buf).unwrap();
    let pre = emit_preamble(&parsed.header, "mydict", "1700000000");
    assert!(pre.starts_with("# Rime Sogou\n# encoding: utf-8\n#\n"));
    assert!(pre.contains("name: luna_pinyin.sogou.mydict\n"));
    assert!(pre.contains("version: \"1700000000\"\n"));
    assert!(pre.contains("sort: by_weight\n"));
    assert!(pre.contains("use_preset_vocabulary: true\n"));
}

#[test]
fn identical_input_gives_identical_output() {
    let mut buf = base_buffer(&["pin", "yin"]);
    push_group(&mut buf, &[0, 1], &[("\u{6D4B}\u{8BD5}", 42)]);
    let first = parse_scel(&buf).unwrap();
    let second = parse_scel(&buf).unwrap();
    let doc1 = emit_document(&first.header, &first.records, "s", "777");
    let doc2 = emit_document(&second.header, &second.records, "s", "777");
    assert_eq!(doc1, doc2);
}

#[test]
fn differing_versions_differ_only_in_version_field() {
    let mut buf = base_buffer(&["pin"]);
    push_group(&mut buf, &[0], &[("a", 1)]);
    let parsed = parse_scel(&buf).unwrap();
    let doc1 = emit_document(&parsed.header, &parsed.records, "s", "1111");
    let doc2 = emit_document(&parsed.header, &parsed.records, "s", "2222");
    let at = doc1.find("version: \"").unwrap() + "version: \"".len();
    assert_eq!(doc1[..at], doc2[..at]);
    assert_eq!(doc1[at + 4..], doc2[at + 4..]);
    assert_eq!(&doc1[at..at + 4], "1111");
    assert_eq!(&doc2[at..at + 4], "2222");
}

#[test]
fn empty_word_table_gives_no_records() {
    let buf = base_buffer(&["pin"]);
    let parsed = parse_scel(&buf).unwrap();
    assert_eq!(parsed.records.len(), 0);
    assert_eq!(parsed.truncation, None);
    assert_eq!(emit_body(&parsed.records), "");
}
