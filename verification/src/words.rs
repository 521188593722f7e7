//! Word table parsing: variable-length groups of words, each group annotated
//! with a list of pinyin-table indices and each word with a frequency.
//!
//! A group starts with a 16-bit word count and a 16-bit pinyin byte length,
//! followed by that many bytes of 16-bit pinyin-table indices.  Each word in
//! the group is a 16-bit length (required to equal the group's pinyin byte
//! length), the word text, and a 12-byte extension block whose first 16-bit
//! value must be 10 and whose next 16-bit value is the frequency.
//!
//! Structural surprises never abort the conversion: scanning stops and the
//! records collected so far are kept.  The stop kind is reported so a caller
//! can tell clean exhaustion from a truncated table.
use vstd::prelude::*;

use crate::FormatError;
use crate::decode::decoded_text;
use crate::decode::le16_at;
use crate::decode::read_string;
use crate::decode::units_of;

verus! {

/// One converted dictionary entry.
#[derive(Debug)]
pub struct WordRecord {
    /// The word text.
    pub word: String,
    /// The space-joined resolved pinyin strings of the word's group.
    pub pinyin: String,
    /// The 16-bit frequency from the word's extension block.
    pub frequency: u16,
}

/// The mathematical content of a `WordRecord`.
pub struct RecordModel {
    pub word: Seq<char>,
    pub pinyin: Seq<char>,
    pub frequency: u16,
}

impl View for WordRecord {
    type V = RecordModel;

    open spec fn view(&self) -> RecordModel {
        RecordModel { word: self.word@, pinyin: self.pinyin@, frequency: self.frequency }
    }
}

impl DeepView for WordRecord {
    type V = RecordModel;

    open spec fn deep_view(&self) -> RecordModel {
        self.view()
    }
}

/// How one group of words ended.
#[derive(Clone, Copy, Debug, PartialEq, Eq, Structural)]
pub enum GroupEnd {
    /// Every word of the group was read.
    Completed,
    /// A word would run past the end of the buffer.
    DataEnd,
    /// A structural surprise ended the whole scan.
    Stopped(FormatError),
}

/// The resolved pinyin strings of `idxs`, joined with single spaces.
pub open spec fn join_pinyin(table: Seq<Seq<char>>, idxs: Seq<u16>) -> Seq<char>
    decreases idxs.len(),
{
    if idxs.len() == 0 {
        Seq::empty()
    } else if idxs.len() == 1 {
        table[idxs[0] as int]
    } else {
        join_pinyin(table, idxs.drop_last()) + seq![' '] + table[idxs.last() as int]
    }
}

/// The records of one group: `n` words expected at `pos`, each of byte length
/// `len` and annotated with `pinyin`.  Yields the records read, the offset
/// just past the last byte consumed, and how the group ended.
pub open spec fn words_in_group(
    b: Seq<u8>,
    pos: int,
    n: nat,
    len: int,
    pinyin: Seq<char>,
) -> (Seq<RecordModel>, int, GroupEnd)
    decreases n,
{
    if n == 0 {
        (Seq::empty(), pos, GroupEnd::Completed)
    } else if pos + 2 + len + 12 > b.len() {
        (Seq::empty(), pos, GroupEnd::DataEnd)
    } else if le16_at(b, pos) as int != len {
        (Seq::empty(), pos, GroupEnd::Stopped(FormatError::WordLengthMismatch))
    } else if le16_at(b, pos + 2 + len) != 10 {
        (Seq::empty(), pos, GroupEnd::Stopped(FormatError::BadExtensionMarker))
    } else {
        let rec = RecordModel {
            word: decoded_text(b.subrange(pos + 2, pos + 2 + len)),
            pinyin: pinyin,
            frequency: le16_at(b, pos + 2 + len + 2),
        };
        let rest = words_in_group(b, pos + 2 + len + 12, (n - 1) as nat, len, pinyin);
        (seq![rec] + rest.0, rest.1, rest.2)
    }
}

/// A group scan never moves the cursor backwards nor past the buffer's end.
pub proof fn lemma_words_in_group_bounds(
    b: Seq<u8>,
    pos: int,
    n: nat,
    len: int,
    pinyin: Seq<char>,
)
    requires
        0 <= pos <= b.len(),
        0 <= len,
    ensures
        pos <= words_in_group(b, pos, n, len, pinyin).1 <= b.len(),
    decreases n,
{
    if n == 0 {
    } else if pos + 2 + len + 12 > b.len() {
    } else if le16_at(b, pos) as int != len {
    } else if le16_at(b, pos + 2 + len) != 10 {
    } else {
        lemma_words_in_group_bounds(b, pos + 2 + len + 12, (n - 1) as nat, len, pinyin);
    }
}

/// The records of the word table starting at `pos`, resolving pinyin indices
/// against `table`, together with the stop kind: `None` when the data ran
/// out, `Some` of the soft error that ended the scan otherwise.
pub open spec fn word_scan(b: Seq<u8>, table: Seq<Seq<char>>, pos: int) -> (
    Seq<RecordModel>,
    Option<FormatError>,
)
    decreases b.len() - pos,
    via word_scan_decreases
{
    if pos < 0 || pos + 22 > b.len() {
        (Seq::empty(), None)
    } else {
        let n = le16_at(b, pos) as nat;
        let len = le16_at(b, pos + 2) as int;
        if len % 2 != 0 {
            (Seq::empty(), Some(FormatError::OddPinyinLength))
        } else if pos + 4 + len > b.len() {
            (Seq::empty(), None)
        } else {
            let idxs = units_of(b.subrange(pos + 4, pos + 4 + len));
            if exists|i: int| 0 <= i < idxs.len() && idxs[i] as int >= table.len() {
                (Seq::empty(), Some(FormatError::IndexOutOfRange))
            } else {
                let g = words_in_group(b, pos + 4 + len, n, len, join_pinyin(table, idxs));
                match g.2 {
                    GroupEnd::Completed => {
                        let rest = word_scan(b, table, g.1);
                        (g.0 + rest.0, rest.1)
                    },
                    GroupEnd::DataEnd => (g.0, None),
                    GroupEnd::Stopped(e) => (g.0, Some(e)),
                }
            }
        }
    }
}

#[via_fn]
proof fn word_scan_decreases(b: Seq<u8>, table: Seq<Seq<char>>, pos: int) {
    if !(pos < 0 || pos + 22 > b.len()) {
        let n = le16_at(b, pos) as nat;
        let len = le16_at(b, pos + 2) as int;
        if len % 2 == 0 && pos + 4 + len <= b.len() {
            let idxs = units_of(b.subrange(pos + 4, pos + 4 + len));
            lemma_words_in_group_bounds(b, pos + 4 + len, n, len, join_pinyin(table, idxs));
        }
    }
}

/// The record's pinyin text was resolved purely from indices that lie inside
/// the pinyin table.
pub open spec fn pinyin_from_valid_indices(table: Seq<Seq<char>>, r: RecordModel) -> bool {
    exists|idxs: Seq<u16>|
        (forall|i: int| 0 <= i < idxs.len() ==> (idxs[i] as int) < table.len()) && r.pinyin
            == join_pinyin(table, idxs)
}

/// Every record of one group carries the group's pinyin annotation.
proof fn lemma_group_records_pinyin(b: Seq<u8>, pos: int, n: nat, len: int, pinyin: Seq<char>)
    ensures
        forall|k: int|
            0 <= k < words_in_group(b, pos, n, len, pinyin).0.len() ==> (#[trigger] words_in_group(
                b,
                pos,
                n,
                len,
                pinyin,
            ).0[k]).pinyin == pinyin,
    decreases n,
{
    if n == 0 {
    } else if pos + 2 + len + 12 > b.len() {
    } else if le16_at(b, pos) as int != len {
    } else if le16_at(b, pos + 2 + len) != 10 {
    } else {
        lemma_group_records_pinyin(b, pos + 2 + len + 12, (n - 1) as nat, len, pinyin);
        let g = words_in_group(b, pos, n, len, pinyin);
        let rest = words_in_group(b, pos + 2 + len + 12, (n - 1) as nat, len, pinyin);
        assert forall|k: int| 0 <= k < g.0.len() implies (#[trigger] g.0[k]).pinyin == pinyin by {
            if k > 0 {
                assert(g.0[k] == rest.0[k - 1]);
            }
        }
    }
}

/// Law: every record the word table scan yields resolves its pinyin text
/// purely from indices that lie inside the pinyin table — an out-of-range
/// index ends the scan before any record of its group is kept.
pub proof fn lemma_word_scan_indices_in_range(b: Seq<u8>, table: Seq<Seq<char>>, pos: int)
    ensures
        forall|k: int|
            0 <= k < word_scan(b, table, pos).0.len() ==> pinyin_from_valid_indices(
                table,
                #[trigger] word_scan(b, table, pos).0[k],
            ),
    decreases b.len() - pos,
{
    if pos < 0 || pos + 22 > b.len() {
    } else {
        let n = le16_at(b, pos) as nat;
        let len = le16_at(b, pos + 2) as int;
        if len % 2 != 0 {
        } else if pos + 4 + len > b.len() {
        } else {
            let idxs = units_of(b.subrange(pos + 4, pos + 4 + len));
            if exists|i: int| 0 <= i < idxs.len() && idxs[i] as int >= table.len() {
            } else {
                let py = join_pinyin(table, idxs);
                let g = words_in_group(b, pos + 4 + len, n, len, py);
                lemma_group_records_pinyin(b, pos + 4 + len, n, len, py);
                assert(forall|i: int| 0 <= i < idxs.len() ==> (idxs[i] as int) < table.len());
                assert forall|k: int| 0 <= k < g.0.len() implies pinyin_from_valid_indices(
                    table,
                    g.0[k],
                ) by {
                    assert(g.0[k].pinyin == py);
                    assert((forall|i: int| 0 <= i < idxs.len() ==> (idxs[i] as int) < table.len())
                        && g.0[k].pinyin == join_pinyin(table, idxs));
                }
                match g.2 {
                    GroupEnd::Completed => {
                        lemma_words_in_group_bounds(b, pos + 4 + len, n, len, py);
                        lemma_word_scan_indices_in_range(b, table, g.1);
                        let rest = word_scan(b, table, g.1);
                        let scan = word_scan(b, table, pos);
                        assert(scan.0 == g.0 + rest.0);
                        assert forall|k: int| 0 <= k < scan.0.len() implies pinyin_from_valid_indices(
                            table,
                            scan.0[k],
                        ) by {
                            if k < g.0.len() {
                                assert(scan.0[k] == g.0[k]);
                            } else {
                                assert(scan.0[k] == rest.0[k - g.0.len()]);
                            }
                        }
                    },
                    GroupEnd::DataEnd => {
                        assert(word_scan(b, table, pos).0 == g.0);
                    },
                    GroupEnd::Stopped(e) => {
                        assert(word_scan(b, table, pos).0 == g.0);
                    },
                }
            }
        }
    }
}

/// Whether some index in `idxs` falls outside a table of `table_len` entries.
fn some_index_out_of_range(idxs: &Vec<u16>, table_len: usize) -> (r: bool)
    ensures
        r == exists|i: int| 0 <= i < idxs@.len() && idxs@[i] as int >= table_len as int,
{
    let mut k: usize = 0;
    while k < idxs.len()
        invariant
            k <= idxs@.len(),
            forall|i: int| 0 <= i < k ==> (idxs@[i] as int) < table_len as int,
        decreases idxs@.len() - k,
    {
        if idxs[k] as usize >= table_len {
            proof {
                assert(0 <= (k as int) && (k as int) < idxs@.len() && (idxs@[k as int] as int)
                    >= table_len as int);
            }
            return true;
        }
        k = k + 1;
    }
    false
}

/// Joins the table entries picked by `idxs` with single spaces, as
/// `join_pinyin` states.
fn join_pinyin_strings(table: &Vec<String>, idxs: &Vec<u16>) -> (r: String)
    requires
        forall|i: int| 0 <= i < idxs@.len() ==> (idxs@[i] as int) < table@.len(),
    ensures
        r@ == join_pinyin(table.deep_view(), idxs@),
{
    let ghost t = table.deep_view();
    let mut s = String::new();
    let mut k: usize = 0;
    proof {
        assert(idxs@.take(0) =~= Seq::<u16>::empty());
    }
    while k < idxs.len()
        invariant
            k <= idxs@.len(),
            t == table.deep_view(),
            forall|i: int| 0 <= i < idxs@.len() ==> (idxs@[i] as int) < table@.len(),
            s@ == join_pinyin(t, idxs@.take(k as int)),
        decreases idxs@.len() - k,
    {
        let ghost pre = s@;
        let idx = idxs[k] as usize;
        if k > 0 {
            s.append(" ");
        }
        s.append(table[idx].as_str());
        proof {
            reveal_strlit(" ");
            assert(" "@ =~= seq![' ']);
            assert(idxs@.take(k + 1).drop_last() =~= idxs@.take(k as int));
            assert(idxs@.take(k + 1).last() == idxs@[k as int]);
            assert(t[idx as int] == table@[idx as int]@);
            if k == 0 {
                assert(pre =~= Seq::<char>::empty());
                assert(s@ =~= t[idx as int]);
            } else {
                assert(s@ =~= join_pinyin(t, idxs@.take(k as int)) + seq![' '] + t[idx as int]);
            }
        }
        k = k + 1;
    }
    proof {
        assert(idxs@.take(idxs@.len() as int) =~= idxs@);
    }
    s
}

/// Reads the `n` words of one group, as `words_in_group` states.
fn read_group_words(buffer: &[u8], start: usize, n: u16, len: u16, pinyin: &String) -> (r: (
    Vec<WordRecord>,
    usize,
    GroupEnd,
))
    requires
        start <= buffer@.len(),
    ensures
        ({
            let (recs, e, st) = words_in_group(buffer@, start as int, n as nat, len as int, pinyin@);
            &&& r.0.deep_view() == recs
            &&& r.1 as int == e
            &&& r.2 == st
            &&& start <= r.1 <= buffer@.len()
        }),
{
    let ghost b = buffer@;
    let ghost py = pinyin@;
    let mut recs: Vec<WordRecord> = Vec::new();
    let mut pos: usize = start;
    let mut j: u16 = 0;
    while j < n
        invariant
            b == buffer@,
            py == pinyin@,
            j <= n,
            start <= pos <= b.len(),
            ({
                let whole = words_in_group(b, start as int, n as nat, len as int, py);
                let tail = words_in_group(b, pos as int, (n - j) as nat, len as int, py);
                &&& whole.0 == recs.deep_view() + tail.0
                &&& whole.1 == tail.1
                &&& whole.2 == tail.2
            }),
        decreases n - j,
    {
        let ghost rdv = recs.deep_view();
        proof {
            assert(rdv + Seq::<RecordModel>::empty() =~= rdv);
        }
        if (len as usize) + 14 > buffer.len() - pos {
            return (recs, pos, GroupEnd::DataEnd);
        }
        let wl: u16 = buffer[pos] as u16 + buffer[pos + 1] as u16 * 0x100;
        if wl != len {
            proof {
                assert(wl == le16_at(b, pos as int));
            }
            return (recs, pos, GroupEnd::Stopped(FormatError::WordLengthMismatch));
        }
        let ext_off = pos + 2 + len as usize;
        let marker: u16 = buffer[ext_off] as u16 + buffer[ext_off + 1] as u16 * 0x100;
        if marker != 10 {
            proof {
                assert(marker == le16_at(b, pos as int + 2 + len as int));
            }
            return (recs, pos, GroupEnd::Stopped(FormatError::BadExtensionMarker));
        }
        let word = read_string(buffer, pos + 2, pos + 2 + len as usize);
        let freq: u16 = buffer[ext_off + 2] as u16 + buffer[ext_off + 3] as u16 * 0x100;
        let rec = WordRecord { word, pinyin: pinyin.clone(), frequency: freq };
        let ghost tail = words_in_group(b, pos as int, (n - j) as nat, len as int, py);
        let ghost rest = words_in_group(
            b,
            pos as int + 2 + len as int + 12,
            (n - j - 1) as nat,
            len as int,
            py,
        );
        proof {
            assert(le16_at(b, pos as int) as int == len as int);
            assert(le16_at(b, pos as int + 2 + len as int) == 10);
            assert(freq == le16_at(b, pos as int + 2 + len as int + 2));
            assert(tail.0 == seq![rec@] + rest.0);
        }
        recs.push(rec);
        pos = pos + 2 + len as usize + 12;
        j = j + 1;
        proof {
            assert(recs.deep_view() =~= rdv + seq![rec@]);
            assert((rdv + seq![rec@]) + rest.0 =~= rdv + (seq![rec@] + rest.0));
        }
    }
    proof {
        let done = words_in_group(b, pos as int, 0, len as int, py);
        assert(done.0 =~= Seq::<RecordModel>::empty());
        assert(recs.deep_view() + Seq::<RecordModel>::empty() =~= recs.deep_view());
    }
    (recs, pos, GroupEnd::Completed)
}

/// Scans the word table that starts at `start`, resolving pinyin indices
/// against `table`.  Returns the records in source order and the stop kind,
/// as `word_scan` states: `None` when the buffer's data ran out, `Some` of
/// the fault that ended the scan otherwise; the collected prefix is valid
/// either way.
pub fn read_word_table(buffer: &[u8], start: usize, table: &Vec<String>) -> (r: (
    Vec<WordRecord>,
    Option<FormatError>,
))
    requires
        start <= buffer@.len(),
    ensures
        r.0.deep_view() == word_scan(buffer@, table.deep_view(), start as int).0,
        r.1 == word_scan(buffer@, table.deep_view(), start as int).1,
{
    let ghost b = buffer@;
    let ghost t = table.deep_view();
    let mut records: Vec<WordRecord> = Vec::new();
    let mut pos: usize = start;
    loop
        invariant
            b == buffer@,
            t == table.deep_view(),
            pos <= b.len(),
            word_scan(b, t, start as int).0 == records.deep_view() + word_scan(b, t, pos as int).0,
            word_scan(b, t, start as int).1 == word_scan(b, t, pos as int).1,
        decreases b.len() - pos,
    {
        let ghost rdv = records.deep_view();
        proof {
            assert(rdv + Seq::<RecordModel>::empty() =~= rdv);
        }
        if buffer.len() - pos < 22 {
            return (records, None);
        }
        let n: u16 = buffer[pos] as u16 + buffer[pos + 1] as u16 * 0x100;
        let l: u16 = buffer[pos + 2] as u16 + buffer[pos + 3] as u16 * 0x100;
        proof {
            assert(n == le16_at(b, pos as int));
            assert(l == le16_at(b, pos as int + 2));
        }
        if l % 2 != 0 {
            return (records, Some(FormatError::OddPinyinLength));
        }
        if (l as usize) > buffer.len() - pos - 4 {
            return (records, None);
        }
        let idxs = crate::decode::units_from_range(buffer, pos + 4, pos + 4 + l as usize);
        let ghost sidxs = units_of(b.subrange(pos as int + 4, pos as int + 4 + l as int));
        if some_index_out_of_range(&idxs, table.len()) {
            proof {
                assert(word_scan(b, t, pos as int).1 == Some(FormatError::IndexOutOfRange));
            }
            return (records, Some(FormatError::IndexOutOfRange));
        }
        let pinyin = join_pinyin_strings(table, &idxs);
        let group = read_group_words(buffer, pos + 4 + l as usize, n, l, &pinyin);
        let (mut grecs, gpos, gend) = group;
        let ghost g = words_in_group(b, pos as int + 4 + l as int, n as nat, l as int, pinyin@);
        proof {
            assert(g.0 == grecs.deep_view());
        }
        records.append(&mut grecs);
        proof {
            assert(records.deep_view() =~= rdv + g.0);
        }
        match gend {
            GroupEnd::Completed => {
                proof {
                    let rest = word_scan(b, t, gpos as int);
                    assert(word_scan(b, t, pos as int).0 == g.0 + rest.0);
                    assert(word_scan(b, t, pos as int).1 == rest.1);
                    assert((rdv + g.0) + rest.0 =~= rdv + (g.0 + rest.0));
                }
                pos = gpos;
            },
            GroupEnd::DataEnd => {
                proof {
                    assert(word_scan(b, t, pos as int).0 == g.0);
                    assert(word_scan(b, t, pos as int).1 == None::<FormatError>);
                }
                return (records, None);
            },
            GroupEnd::Stopped(e) => {
                proof {
                    assert(word_scan(b, t, pos as int).0 == g.0);
                    assert(word_scan(b, t, pos as int).1 == Some(e));
                }
                return (records, Some(e));
            },
        }
    }
}

} // verus!
