//! Pinyin table parsing: a sequential, self-indexing list of phonetic strings.
//!
//! Each entry is a 16-bit declared index, a 16-bit byte length, and that many
//! bytes of UTF-16LE text.  Entries are written in strictly increasing index
//! order starting at 0; the first entry whose declared index does not equal
//! the number of entries already collected ends the table.
use vstd::prelude::*;

use crate::decode::decoded_text;
use crate::decode::le16_at;
use crate::decode::read_string;

verus! {

/// The table entries starting at `pos` when `count` entries stand before
/// them, together with the byte offset just past the last entry read.
/// The scan also ends where an entry would run past the end of the buffer.
pub open spec fn pinyin_scan(b: Seq<u8>, pos: int, count: nat) -> (Seq<Seq<char>>, int)
    decreases b.len() - pos,
{
    if pos < 0 || pos + 4 > b.len() {
        (Seq::empty(), pos)
    } else if le16_at(b, pos) != count as u16 {
        (Seq::empty(), pos)
    } else {
        let len = le16_at(b, pos + 2) as int;
        if pos + 4 + len > b.len() {
            (Seq::empty(), pos)
        } else {
            let entry = decoded_text(b.subrange(pos + 4, pos + 4 + len));
            let rest = pinyin_scan(b, pos + 4 + len, count + 1);
            (seq![entry] + rest.0, rest.1)
        }
    }
}

/// Scans the pinyin table that starts at `start`.  Returns the entries in
/// table order and the byte offset where the scan stopped; the caller checks
/// that offset against the documented start of the word table.
pub fn read_pinyin_table(buffer: &[u8], start: usize) -> (r: (Vec<String>, usize))
    requires
        start <= buffer@.len(),
    ensures
        r.0.deep_view() == pinyin_scan(buffer@, start as int, 0).0,
        r.1 as int == pinyin_scan(buffer@, start as int, 0).1,
        r.1 <= buffer@.len(),
{
    let ghost b = buffer@;
    let mut table: Vec<String> = Vec::new();
    let mut pos: usize = start;
    loop
        invariant
            pos <= b.len(),
            b == buffer@,
            pinyin_scan(b, start as int, 0).0
                == table.deep_view() + pinyin_scan(b, pos as int, table@.len() as nat).0,
            pinyin_scan(b, start as int, 0).1
                == pinyin_scan(b, pos as int, table@.len() as nat).1,
        decreases b.len() - pos,
    {
        let ghost count = table@.len() as nat;
        let ghost tdv = table.deep_view();
        proof {
            assert(tdv + Seq::<Seq<char>>::empty() =~= tdv);
        }
        if buffer.len() - pos < 4 {
            return (table, pos);
        }
        let idx: u16 = buffer[pos] as u16 + buffer[pos + 1] as u16 * 0x100;
        if idx != (#[verifier::truncate] (table.len() as u16)) {
            proof {
                assert(idx == le16_at(b, pos as int));
            }
            return (table, pos);
        }
        let len: usize = (buffer[pos + 2] as u16 + buffer[pos + 3] as u16 * 0x100) as usize;
        if len > buffer.len() - pos - 4 {
            proof {
                assert(le16_at(b, pos as int + 2) as int == len);
            }
            return (table, pos);
        }
        let entry = read_string(buffer, pos + 4, pos + 4 + len);
        proof {
            assert(idx == le16_at(b, pos as int));
            assert(len == le16_at(b, pos as int + 2) as int);
        }
        let ghost step = pinyin_scan(b, pos as int, count);
        let ghost rest = pinyin_scan(b, pos as int + 4 + len as int, count + 1);
        table.push(entry);
        pos = pos + 4 + len;
        proof {
            assert(step.0 == seq![entry@] + rest.0);
            assert(step.1 == rest.1);
            assert(table.deep_view() =~= tdv + seq![entry@]);
            assert((tdv + seq![entry@]) + rest.0 =~= tdv + (seq![entry@] + rest.0));
        }
    }
}

} // verus!
