//! Header reading: the two magic signatures and the fixed-offset metadata
//! fields of a cell buffer.
use vstd::prelude::*;

use crate::FormatError;
use crate::decode::decoded_text;
use crate::decode::le16_at;
use crate::decode::read_string;

verus! {

/// Start of the identifier field.
pub const ID_START: usize = 0x1C;

/// End of the identifier field.
pub const ID_END: usize = 0x11B;

/// Offset of the 16-bit declared record count.
pub const COUNT_OFFSET: usize = 0x124;

/// Start of the display-name field.
pub const NAME_START: usize = 0x130;

/// End of the display-name field, which is also the start of the category field.
pub const NAME_END: usize = 0x338;

/// End of the category field.
pub const CATEGORY_END: usize = 0x540;

/// Start of the example-text field.
pub const EXAMPLE_START: usize = 0xD40;

/// End of the example-text field, which is where the secondary signature stands.
pub const EXAMPLE_END: usize = 0x1540;

/// First byte offset after the secondary signature: the pinyin table starts here.
pub const PINYIN_TABLE_OFFSET: usize = 0x1544;

/// The 12-byte magic sequence at the very start of a cell file.
pub open spec fn has_primary_signature(b: Seq<u8>) -> bool {
    &&& b.len() >= 12
    &&& b[0] == 0x40
    &&& b[1] == 0x15
    &&& b[2] == 0x00
    &&& b[3] == 0x00
    &&& b[4] == 0x44
    &&& b[5] == 0x43
    &&& b[6] == 0x53
    &&& b[7] == 0x01
    &&& b[8] == 0x01
    &&& b[9] == 0x00
    &&& b[10] == 0x00
    &&& b[11] == 0x00
}

/// The 4-byte magic sequence immediately preceding the pinyin table.
pub open spec fn has_secondary_signature(b: Seq<u8>) -> bool {
    &&& b.len() >= PINYIN_TABLE_OFFSET
    &&& b[0x1540] == 0x9D
    &&& b[0x1541] == 0x01
    &&& b[0x1542] == 0x00
    &&& b[0x1543] == 0x00
}

/// A buffer whose fixed layout constants can be trusted: both signatures match.
pub open spec fn has_signatures(b: Seq<u8>) -> bool {
    has_primary_signature(b) && has_secondary_signature(b)
}

/// The fixed-offset metadata of a cell buffer.
#[derive(Debug)]
pub struct Header {
    /// Internal identifier text.
    pub id: String,
    /// Record count the header declares; the word table may hold fewer when
    /// it was truncated by a soft error.
    pub declared_count: u16,
    /// Display name of the dictionary.
    pub name: String,
    /// Category text.
    pub category: String,
    /// Example text.
    pub example: String,
}

/// The mathematical content of a `Header`.
pub struct HeaderModel {
    pub id: Seq<char>,
    pub declared_count: u16,
    pub name: Seq<char>,
    pub category: Seq<char>,
    pub example: Seq<char>,
}

impl View for Header {
    type V = HeaderModel;

    open spec fn view(&self) -> HeaderModel {
        HeaderModel {
            id: self.id@,
            declared_count: self.declared_count,
            name: self.name@,
            category: self.category@,
            example: self.example@,
        }
    }
}

/// The header a well-formed cell buffer holds.
pub open spec fn header_of(b: Seq<u8>) -> HeaderModel {
    HeaderModel {
        id: decoded_text(b.subrange(ID_START as int, ID_END as int)),
        declared_count: le16_at(b, COUNT_OFFSET as int),
        name: decoded_text(b.subrange(NAME_START as int, NAME_END as int)),
        category: decoded_text(b.subrange(NAME_END as int, CATEGORY_END as int)),
        example: decoded_text(b.subrange(EXAMPLE_START as int, EXAMPLE_END as int)),
    }
}

/// Validates both magic signatures and extracts the fixed-offset metadata.
/// Returns `BadSignature` exactly when a signature byte differs or the buffer
/// is too short to hold the header at all.
pub fn read_header(buffer: &[u8]) -> (r: Result<Header, FormatError>)
    ensures
        r is Ok <==> has_signatures(buffer@),
        r matches Ok(h) ==> h@ == header_of(buffer@),
        r is Err ==> r == Err::<Header, FormatError>(FormatError::BadSignature),
{
    if buffer.len() < PINYIN_TABLE_OFFSET {
        return Err(FormatError::BadSignature);
    }
    let primary_ok = buffer[0] == 0x40 && buffer[1] == 0x15 && buffer[2] == 0x00
        && buffer[3] == 0x00 && buffer[4] == 0x44 && buffer[5] == 0x43 && buffer[6] == 0x53
        && buffer[7] == 0x01 && buffer[8] == 0x01 && buffer[9] == 0x00 && buffer[10] == 0x00
        && buffer[11] == 0x00;
    let secondary_ok = buffer[0x1540] == 0x9D && buffer[0x1541] == 0x01
        && buffer[0x1542] == 0x00 && buffer[0x1543] == 0x00;
    if !(primary_ok && secondary_ok) {
        return Err(FormatError::BadSignature);
    }
    let count_lo = buffer[COUNT_OFFSET];
    let count_hi = buffer[COUNT_OFFSET + 1];
    Ok(Header {
        id: read_string(buffer, ID_START, ID_END),
        declared_count: count_lo as u16 + count_hi as u16 * 0x100,
        name: read_string(buffer, NAME_START, NAME_END),
        category: read_string(buffer, NAME_END, CATEGORY_END),
        example: read_string(buffer, EXAMPLE_START, EXAMPLE_END),
    })
}

} // verus!
