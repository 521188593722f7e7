//! Text decoding: UTF-16LE byte ranges to cleaned strings.
//!
//! Every text field of the cell format is stored as 16-bit little-endian code
//! units.  Decoding is lossy (unpaired surrogates become U+FFFD), then the
//! text is cleaned: trailing NUL padding is stripped, every ideographic space
//! (U+3000) is removed, and every carriage return becomes an ordinary space.
use vstd::prelude::*;

verus! {

/// The 16-bit little-endian value stored at byte offset `i` of `b`.
pub open spec fn le16_at(b: Seq<u8>, i: int) -> u16 {
    (b[i] + b[i + 1] * 0x100) as u16
}

/// The 16-bit code units stored in `b`, two bytes each, little-endian.
/// A trailing odd byte carries no unit and is ignored.
pub open spec fn units_of(b: Seq<u8>) -> Seq<u16> {
    Seq::new((b.len() / 2) as nat, |i: int| le16_at(b, 2 * i))
}

pub open spec fn is_high_surrogate(u: u16) -> bool {
    0xD800 <= u < 0xDC00
}

pub open spec fn is_low_surrogate(u: u16) -> bool {
    0xDC00 <= u < 0xE000
}

/// The scalar value encoded by a UTF-16 surrogate pair.
pub open spec fn combined_scalar(hi: u16, lo: u16) -> char {
    (0x10000 + (hi - 0xD800) * 0x400 + (lo - 0xDC00)) as char
}

/// Lossy UTF-16 decoding: a high surrogate followed by a low surrogate forms
/// one supplementary character; any other surrogate becomes U+FFFD.
pub open spec fn utf16_decode(u: Seq<u16>) -> Seq<char>
    decreases u.len(),
{
    if u.len() == 0 {
        Seq::empty()
    } else if is_high_surrogate(u[0]) {
        if u.len() >= 2 && is_low_surrogate(u[1]) {
            seq![combined_scalar(u[0], u[1])] + utf16_decode(u.skip(2))
        } else {
            seq!['\u{FFFD}'] + utf16_decode(u.skip(1))
        }
    } else if is_low_surrogate(u[0]) {
        seq!['\u{FFFD}'] + utf16_decode(u.skip(1))
    } else {
        seq![u[0] as char] + utf16_decode(u.skip(1))
    }
}

/// Removes the run of NUL characters at the end of `s`.
pub open spec fn strip_trailing_nul(s: Seq<char>) -> Seq<char>
    decreases s.len(),
{
    if s.len() > 0 && s.last() == '\u{0}' {
        strip_trailing_nul(s.drop_last())
    } else {
        s
    }
}

/// Removes every ideographic space and turns every carriage return into an
/// ordinary space.
pub open spec fn scrub(s: Seq<char>) -> Seq<char>
    decreases s.len(),
{
    if s.len() == 0 {
        Seq::empty()
    } else {
        let rest = scrub(s.drop_last());
        if s.last() == '\u{3000}' {
            rest
        } else if s.last() == '\r' {
            rest.push(' ')
        } else {
            rest.push(s.last())
        }
    }
}

/// The cleaning pass applied to every decoded text field.
pub open spec fn clean(s: Seq<char>) -> Seq<char> {
    scrub(strip_trailing_nul(s))
}

/// What `read_string` returns for the byte range `b`.
pub open spec fn decoded_text(b: Seq<u8>) -> Seq<char> {
    clean(utf16_decode(units_of(b)))
}

/// The UTF-16 code units encoding `c`: one unit below 0x10000, a surrogate
/// pair above.
pub open spec fn utf16_encode_char(c: char) -> Seq<u16> {
    if (c as int) < 0x10000 {
        seq![c as u16]
    } else {
        seq![
            (0xD800 + ((c as int) - 0x10000) / 0x400) as u16,
            (0xDC00 + ((c as int) - 0x10000) % 0x400) as u16,
        ]
    }
}

/// The UTF-16 encoding of a character sequence.
pub open spec fn utf16_encode(s: Seq<char>) -> Seq<u16>
    decreases s.len(),
{
    if s.len() == 0 {
        Seq::empty()
    } else {
        utf16_encode_char(s[0]) + utf16_encode(s.skip(1))
    }
}

/// The little-endian byte serialization of a unit sequence.
pub open spec fn bytes_of_units(u: Seq<u16>) -> Seq<u8> {
    Seq::new(
        u.len() * 2,
        |i: int|
            if i % 2 == 0 {
                (u[i / 2] % 0x100) as u8
            } else {
                (u[i / 2] / 0x100) as u8
            },
    )
}

/// Serializing units to little-endian bytes and reading them back is the
/// identity.
pub proof fn lemma_units_of_bytes_of_units(u: Seq<u16>)
    ensures
        units_of(bytes_of_units(u)) == u,
{
    let b = bytes_of_units(u);
    assert(b.len() == u.len() * 2);
    assert forall|i: int| 0 <= i < u.len() implies units_of(b)[i] == u[i] by {
        assert(b[2 * i] == (u[i] % 0x100) as u8);
        assert(b[2 * i + 1] == (u[i] / 0x100) as u8);
        assert(u[i] % 0x100 + (u[i] / 0x100) * 0x100 == u[i]) by {
            vstd::arithmetic::div_mod::lemma_fundamental_div_mod(u[i] as int, 0x100);
        }
    }
    assert(units_of(b) =~= u);
}

/// Decoding the UTF-16 encoding of any character sequence gives it back:
/// encoding never produces an unpaired surrogate.
pub proof fn lemma_utf16_round_trip(s: Seq<char>)
    ensures
        utf16_decode(utf16_encode(s)) == s,
    decreases s.len(),
{
    if s.len() == 0 {
    } else {
        let c = s[0];
        let u = utf16_encode(s);
        let rest = utf16_encode(s.skip(1));
        lemma_utf16_round_trip(s.skip(1));
        vstd::utf8::char_is_scalar(c);
        vstd::utf8::char_u32_cast(c, c as u32);
        assert(c as int == (c as u32) as int);
        assert(!(0xD800 <= c as int && c as int <= 0xDFFF));
        assert(c as int <= 0x10FFFF);
        if (c as int) < 0x10000 {
            assert(u =~= seq![c as u16] + rest);
            assert(u[0] == c as u16);
            assert((c as u16) as int == c as int);
            assert(!is_high_surrogate(u[0]) && !is_low_surrogate(u[0]));
            assert(u.skip(1) =~= rest);
            assert((u[0] as char) == c);
            assert(utf16_decode(u) == seq![c] + utf16_decode(rest));
            assert(seq![c] + s.skip(1) =~= s);
        } else {
            let v = (c as int) - 0x10000;
            assert(0 <= v && v <= 0xFFFFF);
            assert(0x400 * (v / 0x400) + v % 0x400 == v) by {
                vstd::arithmetic::div_mod::lemma_fundamental_div_mod(v, 0x400);
            }
            assert(0 <= v / 0x400 && v / 0x400 <= 0x3FF);
            let hi = (0xD800 + v / 0x400) as u16;
            let lo = (0xDC00 + v % 0x400) as u16;
            assert(u =~= seq![hi, lo] + rest);
            assert(u[0] == hi && u[1] == lo);
            assert(is_high_surrogate(hi) && is_low_surrogate(lo));
            assert(u.skip(2) =~= rest);
            assert(combined_scalar(hi, lo) == c) by {
                assert(0x10000 + (hi - 0xD800) * 0x400 + (lo - 0xDC00) == c as int);
            }
            assert(utf16_decode(u) == seq![c] + utf16_decode(rest));
            assert(seq![c] + s.skip(1) =~= s);
        }
    }
}

/// Nothing `scrub` returns is an ideographic space or a carriage return.
pub proof fn lemma_scrub_no_artifacts(s: Seq<char>)
    ensures
        forall|i: int|
            0 <= i < scrub(s).len() ==> #[trigger] scrub(s)[i] != '\u{3000}' && scrub(s)[i] != '\r',
    decreases s.len(),
{
    if s.len() == 0 {
    } else {
        lemma_scrub_no_artifacts(s.drop_last());
        let rest = scrub(s.drop_last());
        assert forall|i: int|
            0 <= i < scrub(s).len() implies #[trigger] scrub(s)[i] != '\u{3000}' && scrub(s)[i]
            != '\r' by {
            if i < rest.len() {
                assert(scrub(s)[i] == rest[i]);
            }
        }
    }
}

/// `scrub` leaves a sequence without ideographic spaces and carriage returns
/// unchanged.
pub proof fn lemma_scrub_identity(s: Seq<char>)
    requires
        forall|i: int| 0 <= i < s.len() ==> s[i] != '\u{3000}' && s[i] != '\r',
    ensures
        scrub(s) == s,
    decreases s.len(),
{
    if s.len() == 0 {
        assert(scrub(s) =~= s);
    } else {
        lemma_scrub_identity(s.drop_last());
        assert(s.last() != '\u{3000}' && s.last() != '\r');
        assert(scrub(s) =~= s);
    }
}

/// Law: the cleaning pass is idempotent.  The one exception is an input whose
/// removed ideographic spaces expose NUL characters at the end, so the
/// hypothesis rules a trailing NUL out.
pub proof fn lemma_clean_idempotent(s: Seq<char>)
    requires
        clean(s).len() == 0 || clean(s).last() != '\u{0}',
    ensures
        clean(clean(s)) == clean(s),
{
    let r = clean(s);
    assert(strip_trailing_nul(r) == r);
    lemma_scrub_no_artifacts(strip_trailing_nul(s));
    lemma_scrub_identity(r);
}

/// Law: decoding is idempotent on its own output.  Re-encoding a decoded text
/// as UTF-16LE bytes and decoding those bytes again changes nothing, and the
/// decoded text never holds an ideographic space or a carriage return.  The
/// hypothesis rules out the one corner where removing ideographic spaces
/// exposes NUL padding at the end of the text.
pub proof fn lemma_decode_idempotent(b: Seq<u8>)
    requires
        decoded_text(b).len() == 0 || decoded_text(b).last() != '\u{0}',
    ensures
        decoded_text(bytes_of_units(utf16_encode(decoded_text(b)))) == decoded_text(b),
        forall|i: int|
            0 <= i < decoded_text(b).len() ==> #[trigger] decoded_text(b)[i] != '\u{3000}'
                && decoded_text(b)[i] != '\r',
{
    let r = decoded_text(b);
    lemma_units_of_bytes_of_units(utf16_encode(r));
    lemma_utf16_round_trip(r);
    lemma_clean_idempotent(utf16_decode(units_of(b)));
    lemma_scrub_no_artifacts(strip_trailing_nul(utf16_decode(units_of(b))));
}

/// Relies on `char::from_u32`: for a value outside the surrogate range and at
/// most 0x10FFFF it returns `Some` of exactly that scalar value.
#[verifier::external_body]
fn char_from_scalar(u: u32) -> (c: char)
    requires
        u < 0xD800 || (0xE000 <= u && u <= 0x10FFFF),
    ensures
        c == (u as char),
{
    char::from_u32(u).unwrap()
}

/// Relies on `String`'s `FromIterator<char>` impl: collecting yields a string
/// holding exactly the given characters in order.
#[verifier::external_body]
pub(crate) fn string_from_chars(cs: &Vec<char>) -> (r: String)
    ensures
        r@ == cs@,
{
    cs.iter().collect()
}

/// The code units of `buffer[start..end]`, in order.
pub(crate) fn units_from_range(buffer: &[u8], start: usize, end: usize) -> (r: Vec<u16>)
    requires
        start <= end <= buffer@.len(),
    ensures
        r@ == units_of(buffer@.subrange(start as int, end as int)),
{
    let ghost sub = buffer@.subrange(start as int, end as int);
    let n: usize = (end - start) / 2;
    let mut r: Vec<u16> = Vec::new();
    let mut k: usize = 0;
    while k < n
        invariant
            start <= end <= buffer@.len(),
            n == (end - start) / 2,
            sub == buffer@.subrange(start as int, end as int),
            k <= n,
            r@.len() == k,
            forall|j: int| 0 <= j < k ==> r@[j] == le16_at(sub, 2 * j),
        decreases n - k,
    {
        let lo = buffer[start + 2 * k];
        let hi = buffer[start + 2 * k + 1];
        let unit: u16 = lo as u16 + hi as u16 * 0x100;
        proof {
            assert(sub[2 * (k as int)] == buffer@[start + 2 * (k as int)]);
            assert(sub[2 * (k as int) + 1] == buffer@[start + 2 * (k as int) + 1]);
        }
        r.push(unit);
        k = k + 1;
    }
    proof {
        assert(r@ =~= units_of(sub));
    }
    r
}

/// Lossy UTF-16 decoding of a unit sequence, as `utf16_decode` states.
fn decode_units(units: &Vec<u16>) -> (r: Vec<char>)
    ensures
        r@ == utf16_decode(units@),
{
    let n = units.len();
    let mut r: Vec<char> = Vec::new();
    let mut i: usize = 0;
    proof {
        assert(units@.skip(0) =~= units@);
    }
    while i < n
        invariant
            n == units@.len(),
            i <= n,
            utf16_decode(units@) == r@ + utf16_decode(units@.skip(i as int)),
        decreases n - i,
    {
        let ghost pre = r@;
        let ghost tail = units@.skip(i as int);
        let u = units[i];
        if 0xD800 <= u && u < 0xDC00 {
            if i + 1 < n && 0xDC00 <= units[i + 1] && units[i + 1] < 0xE000 {
                let lo = units[i + 1];
                let scalar: u32 = 0x10000 + (u - 0xD800) as u32 * 0x400 + (lo - 0xDC00) as u32;
                let c = char_from_scalar(scalar);
                proof {
                    assert(tail[0] == u && tail[1] == lo);
                    assert(tail.skip(2) =~= units@.skip(i + 2));
                    assert(c == combined_scalar(u, lo));
                    assert(utf16_decode(tail) == seq![c] + utf16_decode(units@.skip(i + 2)));
                }
                r.push(c);
                i = i + 2;
                proof {
                    assert(pre + (seq![c] + utf16_decode(units@.skip(i as int)))
                        =~= r@ + utf16_decode(units@.skip(i as int)));
                }
            } else {
                proof {
                    assert(tail[0] == u);
                    assert(tail.skip(1) =~= units@.skip(i + 1));
                    assert(tail.len() >= 2 ==> tail[1] == units@[i + 1]);
                    assert(utf16_decode(tail) == seq!['\u{FFFD}'] + utf16_decode(units@.skip(i + 1)));
                }
                r.push('\u{FFFD}');
                i = i + 1;
                proof {
                    assert(pre + (seq!['\u{FFFD}'] + utf16_decode(units@.skip(i as int)))
                        =~= r@ + utf16_decode(units@.skip(i as int)));
                }
            }
        } else if 0xDC00 <= u && u < 0xE000 {
            proof {
                assert(tail[0] == u);
                assert(tail.skip(1) =~= units@.skip(i + 1));
                assert(utf16_decode(tail) == seq!['\u{FFFD}'] + utf16_decode(units@.skip(i + 1)));
            }
            r.push('\u{FFFD}');
            i = i + 1;
            proof {
                assert(pre + (seq!['\u{FFFD}'] + utf16_decode(units@.skip(i as int)))
                    =~= r@ + utf16_decode(units@.skip(i as int)));
            }
        } else {
            let c = char_from_scalar(u as u32);
            proof {
                assert(tail[0] == u);
                assert(tail.skip(1) =~= units@.skip(i + 1));
                assert(c == (u as char));
                assert(utf16_decode(tail) == seq![c] + utf16_decode(units@.skip(i + 1)));
            }
            r.push(c);
            i = i + 1;
            proof {
                assert(pre + (seq![c] + utf16_decode(units@.skip(i as int)))
                    =~= r@ + utf16_decode(units@.skip(i as int)));
            }
        }
    }
    proof {
        assert(units@.skip(n as int) =~= Seq::<u16>::empty());
        assert(r@ + utf16_decode(units@.skip(n as int)) =~= r@);
    }
    r
}

/// The cleaning pass, as `clean` states.
fn clean_chars(cs: Vec<char>) -> (r: Vec<char>)
    ensures
        r@ == clean(cs@),
{
    let mut t = cs;
    let ghost orig = t@;
    while t.len() > 0 && t[t.len() - 1] == '\u{0}'
        invariant
            strip_trailing_nul(orig) == strip_trailing_nul(t@),
        decreases t@.len(),
    {
        proof {
            assert(t@.last() == '\u{0}');
        }
        t.pop();
    }
    proof {
        assert(strip_trailing_nul(t@) == t@);
    }
    let mut r: Vec<char> = Vec::new();
    let mut i: usize = 0;
    while i < t.len()
        invariant
            i <= t@.len(),
            r@ == scrub(t@.take(i as int)),
        decreases t@.len() - i,
    {
        let c = t[i];
        proof {
            assert(t@.take(i + 1).drop_last() =~= t@.take(i as int));
            assert(t@.take(i + 1).last() == c);
        }
        if c == '\u{3000}' {
        } else if c == '\r' {
            r.push(' ');
        } else {
            r.push(c);
        }
        i = i + 1;
    }
    proof {
        assert(t@.take(t@.len() as int) =~= t@);
    }
    r
}

/// Decodes `buffer[start..end]` as UTF-16LE text and cleans it: trailing NUL
/// padding is stripped, ideographic spaces are removed, and carriage returns
/// become ordinary spaces.
pub fn read_string(buffer: &[u8], start: usize, end: usize) -> (r: String)
    requires
        start <= end <= buffer@.len(),
    ensures
        r@ == decoded_text(buffer@.subrange(start as int, end as int)),
{
    let units = units_from_range(buffer, start, end);
    let raw = decode_units(&units);
    let cleaned = clean_chars(raw);
    string_from_chars(&cleaned)
}

} // verus!
