//! Dictionary emission: the Rime plain-text dictionary a decoded buffer turns
//! into.
//!
//! The output is a comment block documenting the header metadata, a YAML-like
//! frontmatter block, and one `word<TAB>pinyin<TAB>frequency` line per record
//! in source order.  The version string is supplied by the caller (the
//! reference tooling uses the current time), so the body is a pure function
//! of the decoded data while the frontmatter carries one caller-chosen field.
use vstd::prelude::*;

use crate::decode::string_from_chars;
use crate::header::Header;
use crate::header::HeaderModel;
use crate::words::RecordModel;
use crate::words::WordRecord;
use vstd::string::StringExecFns;

verus! {

/// The character of a single decimal digit.
pub open spec fn digit_char(d: nat) -> char {
    (d + 0x30) as char
}

/// The decimal digits of `n`, most significant first, no leading zeros
/// (a single zero for 0).
pub open spec fn dec_digits(n: nat) -> Seq<char>
    decreases n,
{
    if n < 10 {
        seq![digit_char(n)]
    } else {
        dec_digits(n / 10) + seq![digit_char(n % 10)]
    }
}

/// The decimal digits of `n`, as `dec_digits` states.
pub fn decimal_chars(n: u16) -> (r: Vec<char>)
    ensures
        r@ == dec_digits(n as nat),
    decreases n,
{
    if n < 10 {
        let mut v: Vec<char> = Vec::new();
        v.push((n as u8 + 0x30) as char);
        proof {
            assert(v@ =~= seq![digit_char(n as nat)]);
        }
        v
    } else {
        let mut v = decimal_chars(n / 10);
        v.push(((n % 10) as u8 + 0x30) as char);
        proof {
            assert(v@ =~= dec_digits((n / 10) as nat) + seq![digit_char((n % 10) as nat)]);
        }
        v
    }
}

/// One body line: `word<TAB>pinyin<TAB>frequency`.
pub open spec fn record_line(r: RecordModel) -> Seq<char> {
    r.word + "\t"@ + r.pinyin + "\t"@ + dec_digits(r.frequency as nat)
}

/// The record lines joined with single newlines, in source order.
pub open spec fn body_text(recs: Seq<RecordModel>) -> Seq<char>
    decreases recs.len(),
{
    if recs.len() == 0 {
        Seq::empty()
    } else if recs.len() == 1 {
        record_line(recs[0])
    } else {
        body_text(recs.drop_last()) + "\n"@ + record_line(recs.last())
    }
}

/// The comment block and frontmatter preceding the body.
pub open spec fn preamble_text(h: HeaderModel, stem: Seq<char>, version: Seq<char>) -> Seq<char> {
    "# Rime Sogou\n# encoding: utf-8\n#\n# \u{540D}\u{5B57}: "@ + h.name
        + "\n# ID: "@ + h.id
        + "\n# \u{7C7B}\u{578B}: "@ + h.category
        + "\n# \u{4F8B}\u{5B50}: "@ + h.example
        + "\n# \u{8BCD}\u{6761}\u{6570}\u{76EE}: "@ + dec_digits(h.declared_count as nat)
        + "\n---\nname: luna_pinyin.sogou."@ + stem
        + "\nversion: \""@ + version
        + "\"\nsort: by_weight\nuse_preset_vocabulary: true\n...\n    "@
}

/// The whole output document: preamble, one newline, body.
pub open spec fn document_text(
    h: HeaderModel,
    recs: Seq<RecordModel>,
    stem: Seq<char>,
    version: Seq<char>,
) -> Seq<char> {
    preamble_text(h, stem, version) + "\n"@ + body_text(recs)
}

/// Everything of the document that precedes the version value: a pure
/// function of the header and the stem.
pub open spec fn document_before_version(h: HeaderModel, stem: Seq<char>) -> Seq<char> {
    "# Rime Sogou\n# encoding: utf-8\n#\n# \u{540D}\u{5B57}: "@ + h.name
        + "\n# ID: "@ + h.id
        + "\n# \u{7C7B}\u{578B}: "@ + h.category
        + "\n# \u{4F8B}\u{5B50}: "@ + h.example
        + "\n# \u{8BCD}\u{6761}\u{6570}\u{76EE}: "@ + dec_digits(h.declared_count as nat)
        + "\n---\nname: luna_pinyin.sogou."@ + stem
        + "\nversion: \""@
}

/// Everything of the document that follows the version value: a pure
/// function of the records.
pub open spec fn document_after_version(recs: Seq<RecordModel>) -> Seq<char> {
    "\"\nsort: by_weight\nuse_preset_vocabulary: true\n...\n    "@ + "\n"@ + body_text(recs)
}

/// Law: emission is deterministic and pure in its inputs, and the version
/// value is the only place the caller-chosen version reaches.  The document
/// splits as a fixed function of the header and stem, then the version, then
/// a fixed function of the records: two byte-identical inputs emitted with
/// different versions yield documents that differ in that segment alone.
pub proof fn lemma_document_splits_at_version(
    h: HeaderModel,
    recs: Seq<RecordModel>,
    stem: Seq<char>,
    version: Seq<char>,
)
    ensures
        document_text(h, recs, stem, version) == document_before_version(h, stem) + version
            + document_after_version(recs),
{
    assert(document_text(h, recs, stem, version) =~= document_before_version(h, stem) + version
        + document_after_version(recs));
}

/// Builds the comment block and frontmatter for `header`, as `preamble_text`
/// states.  The declared record count is emitted as the header declares it,
/// whether or not it matches the number of records that were actually read.
pub fn emit_preamble(header: &Header, stem: &str, version: &str) -> (r: String)
    ensures
        r@ == preamble_text(header@, stem@, version@),
{
    let count = decimal_chars(header.declared_count);
    let count_str = string_from_chars(&count);
    let mut s = String::new();
    s.append("# Rime Sogou\n# encoding: utf-8\n#\n# \u{540D}\u{5B57}: ");
    s.append(header.name.as_str());
    s.append("\n# ID: ");
    s.append(header.id.as_str());
    s.append("\n# \u{7C7B}\u{578B}: ");
    s.append(header.category.as_str());
    s.append("\n# \u{4F8B}\u{5B50}: ");
    s.append(header.example.as_str());
    s.append("\n# \u{8BCD}\u{6761}\u{6570}\u{76EE}: ");
    s.append(count_str.as_str());
    s.append("\n---\nname: luna_pinyin.sogou.");
    s.append(stem);
    s.append("\nversion: \"");
    s.append(version);
    s.append("\"\nsort: by_weight\nuse_preset_vocabulary: true\n...\n    ");
    proof {
        assert(s@ =~= preamble_text(header@, stem@, version@));
    }
    s
}

/// Builds the tab-separated body for `records`, as `body_text` states: no
/// reordering, no deduplication.
pub fn emit_body(records: &Vec<WordRecord>) -> (r: String)
    ensures
        r@ == body_text(records.deep_view()),
{
    let ghost recs = records.deep_view();
    let mut s = String::new();
    let mut k: usize = 0;
    while k < records.len()
        invariant
            recs == records.deep_view(),
            k <= recs.len(),
            s@ == body_text(recs.take(k as int)),
        decreases recs.len() - k,
    {
        let ghost pre = s@;
        if k > 0 {
            s.append("\n");
        }
        let freq = decimal_chars(records[k].frequency);
        let freq_str = string_from_chars(&freq);
        s.append(records[k].word.as_str());
        s.append("\t");
        s.append(records[k].pinyin.as_str());
        s.append("\t");
        s.append(freq_str.as_str());
        proof {
            assert(recs.take(k + 1).drop_last() =~= recs.take(k as int));
            assert(recs.take(k + 1).last() == recs[k as int]);
            if k == 0 {
                assert(pre =~= Seq::<char>::empty());
                assert(s@ =~= record_line(recs[0]));
            } else {
                assert(s@ =~= body_text(recs.take(k as int)) + "\n"@ + record_line(recs[k as int]));
            }
        }
        k = k + 1;
    }
    proof {
        assert(recs.take(recs.len() as int) =~= recs);
    }
    s
}

/// Builds the whole output document, as `document_text` states.
pub fn emit_document(header: &Header, records: &Vec<WordRecord>, stem: &str, version: &str) -> (r:
    String)
    ensures
        r@ == document_text(header@, records.deep_view(), stem@, version@),
{
    let mut s = emit_preamble(header, stem, version);
    s.append("\n");
    let body = emit_body(records);
    s.append(body.as_str());
    s
}

} // verus!
