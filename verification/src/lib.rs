//! Verified decoder for the Sogou "cell" (scel) binary dictionary format and
//! emitter for the Rime plain-text dictionary format.
//!
//! The library parses an in-memory byte buffer: two fixed magic signatures, a
//! fixed-offset metadata header, a self-indexing pinyin string table, and a
//! variable-length word-record table.  All parsing is verified against a
//! mathematical model of the byte layout; reading the file, choosing a version
//! timestamp and writing the output are left to the caller.
use vstd::prelude::*;

pub mod decode;
pub mod emit;
pub mod header;
pub mod pinyin;
pub mod words;

use crate::header::Header;
use crate::header::PINYIN_TABLE_OFFSET;
use crate::header::has_signatures;
use crate::header::header_of;
use crate::header::read_header;
use crate::pinyin::pinyin_scan;
use crate::pinyin::read_pinyin_table;
use crate::words::WordRecord;
use crate::words::read_word_table;
use crate::words::word_scan;

verus! {

/// A structural fault found while decoding a cell buffer.
///
/// `BadSignature` and `TableBoundaryMismatch` are fatal: the layout constants
/// do not fit the buffer and nothing can be decoded.  The remaining kinds are
/// soft end-of-data signals from the word table: scanning stops and the
/// records collected so far are still valid (`BadExtensionMarker` additionally
/// means the last record boundary was miscomputed, so it is worth reporting).
#[derive(Clone, Copy, Debug, PartialEq, Eq, Structural)]
pub enum FormatError {
    BadSignature,
    TableBoundaryMismatch,
    OddPinyinLength,
    IndexOutOfRange,
    WordLengthMismatch,
    BadExtensionMarker,
}

/// Documented start offset of the word table; the pinyin table scan must end
/// exactly here or the layout constants do not fit the file.
pub const WORD_TABLE_OFFSET: usize = 0x2628;

/// A buffer the fixed layout constants fit: both signatures match and the
/// pinyin table ends exactly at the word table's documented start.
pub open spec fn layout_ok(b: Seq<u8>) -> bool {
    &&& has_signatures(b)
    &&& pinyin_scan(b, PINYIN_TABLE_OFFSET as int, 0).1 == WORD_TABLE_OFFSET as int
}

/// Everything decoded from one cell buffer.
#[derive(Debug)]
pub struct Parsed {
    /// The fixed-offset metadata.
    pub header: Header,
    /// The pinyin table, position = lookup index.
    pub pinyin: Vec<String>,
    /// The word records, in source order.
    pub records: Vec<WordRecord>,
    /// `None` when the word table's data ran out cleanly; `Some` of the soft
    /// fault that truncated the record list otherwise.
    pub truncation: Option<FormatError>,
}

/// Decodes a whole cell buffer: validates both signatures, reads the header
/// metadata, scans the pinyin table, checks that it ends exactly at the word
/// table's documented start, and scans the word table.
pub fn parse_scel(buffer: &[u8]) -> (r: Result<Parsed, FormatError>)
    ensures
        r is Ok <==> layout_ok(buffer@),
        r matches Ok(p) ==> {
            let table = pinyin_scan(buffer@, PINYIN_TABLE_OFFSET as int, 0).0;
            &&& p.header@ == header_of(buffer@)
            &&& p.pinyin.deep_view() == table
            &&& p.records.deep_view() == word_scan(buffer@, table, WORD_TABLE_OFFSET as int).0
            &&& p.truncation == word_scan(buffer@, table, WORD_TABLE_OFFSET as int).1
        },
        r is Err ==> r == Err::<Parsed, FormatError>(
            if !has_signatures(buffer@) {
                FormatError::BadSignature
            } else {
                FormatError::TableBoundaryMismatch
            },
        ),
{
    let header = match read_header(buffer) {
        Ok(h) => h,
        Err(e) => {
            return Err(e);
        },
    };
    let (pinyin, end) = read_pinyin_table(buffer, PINYIN_TABLE_OFFSET);
    if end != WORD_TABLE_OFFSET {
        return Err(FormatError::TableBoundaryMismatch);
    }
    let (records, truncation) = read_word_table(buffer, WORD_TABLE_OFFSET, &pinyin);
    Ok(Parsed { header, pinyin, records, truncation })
}

} // verus!
