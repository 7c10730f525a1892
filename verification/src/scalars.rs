//! Scalar extraction: applying a position list to one line, indexed either
//! by Unicode character or by raw byte.  Byte selections may split
//! multi-byte characters; the result is then decoded lossily, never with an
//! error.

use crate::positions::{selected, select_items, IndexRange, lemma_select_full_range};
use vstd::prelude::*;
use vstd::string::StringSliceAdditionalSpecFns;
use vstd::string::StrSliceExecFns;
use vstd::utf8::{decode_utf8, valid_utf8};

verus! {

broadcast use vstd::string::group_string_axioms;

/// What `String::from_utf8_lossy` yields on an arbitrary byte sequence: the
/// bytes decoded as UTF-8, with every ill-formed subsequence replaced.
pub uninterp spec fn lossy_decode(bytes: Seq<u8>) -> Seq<char>;

/// Relies on `String::from_utf8_lossy`: the result is a function of the
/// bytes alone, and well-formed UTF-8 input comes back decoded unchanged.
#[verifier::external_body]
fn utf8_lossy(bytes: &Vec<u8>) -> (r: String)
    ensures
        r@ == lossy_decode(bytes@),
        valid_utf8(bytes@) ==> r@ == decode_utf8(bytes@),
{
    String::from_utf8_lossy(bytes).into_owned()
}

/// Relies on `str::chars`: iterating a string yields exactly its characters,
/// in order.
#[verifier::external_body]
pub(crate) fn str_chars(s: &str) -> (r: Vec<char>)
    ensures
        r@ == s@,
{
    s.chars().collect()
}

/// Selects the characters of `line` named by the position list, in list
/// order, skipping indices past the end of the line and preserving
/// duplicates.  Selecting the single range `[0, len)` gives the line back.
pub fn extract_chars(line: &str, position_list: &Vec<IndexRange>) -> (r: String)
    ensures
        r@ == selected(line@, position_list@),
        position_list@ == seq![IndexRange { start: 0, end: line@.len() as usize }] ==> r@
            == line@,
{
    let chars = str_chars(line);
    let sel = select_items(&chars, position_list);
    proof {
        broadcast use vstd::std_specs::vec::axiom_spec_len;

        assert(chars.len() == chars@.len());
        lemma_select_full_range(line@);
    }
    crate::numbers::chars_to_string(&sel)
}

/// Selects the bytes of `line` named by the position list, in list order,
/// then decodes the accumulated bytes lossily.  A selection that is valid
/// UTF-8 decodes exactly; selecting the single full byte range of an ASCII
/// line gives the line back.
pub fn extract_bytes(line: &str, position_list: &Vec<IndexRange>) -> (r: String)
    ensures
        r@ == lossy_decode(selected(line.spec_bytes(), position_list@)),
        valid_utf8(selected(line.spec_bytes(), position_list@)) ==> r@ == decode_utf8(
            selected(line.spec_bytes(), position_list@),
        ),
        line.is_ascii() && position_list@ == seq![
            IndexRange { start: 0, end: line@.len() as usize },
        ] ==> r@ == line@,
{
    let bytes = line.as_bytes_vec();
    let sel = select_items(&bytes, position_list);
    proof {
        broadcast use vstd::utf8::group_utf8_lib;
        broadcast use vstd::std_specs::vec::axiom_spec_len;

        assert(bytes.len() == bytes@.len());
        if line.is_ascii() {
            assert(line.spec_bytes().len() == line@.len());
            lemma_select_full_range(line.spec_bytes());
            assert(decode_utf8(vstd::utf8::encode_utf8(line@)) == line@);
        }
    }
    utf8_lossy(&sel)
}

} // verus!
