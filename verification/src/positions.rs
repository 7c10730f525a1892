//! Position specifications: a comma-separated list of 1-based indices and
//! `start-end` ranges is parsed into an ordered list of half-open 0-based
//! ranges, kept in clause order, never merged or deduplicated.

use crate::numbers::{
    dec_str, digits_val, is_digit, is_digits, lemma_dec_str_is_digits, lemma_dec_str_val,
    parse_digits, usize_to_string,
};
use vstd::prelude::*;
use vstd::string::StrSliceExecFns;
use vstd::string::StringExecFns;

verus! {

/// A half-open interval `[start, end)` of 0-based positions.  Ranges built
/// by the parser always satisfy `start < end`.
#[derive(Clone, Copy, Debug, PartialEq, Eq, Structural)]
pub struct IndexRange {
    pub start: usize,
    pub end: usize,
}

/// Ordered sequence of ranges, in the order the clauses were written.
pub type PositionList = Vec<IndexRange>;

/// The active selection mode together with its parsed position list.
#[derive(Debug)]
pub enum Extract {
    Fields(PositionList),
    Bytes(PositionList),
    Chars(PositionList),
}

/// The elements of `s` selected by one range: indices from `r.start` up to
/// `r.end`, clipped at the length of `s`; empty if `r.start` is past the end.
pub open spec fn range_slice<T>(s: Seq<T>, r: IndexRange) -> Seq<T> {
    let hi = if r.end <= s.len() {
        r.end as int
    } else {
        s.len() as int
    };
    if r.start < hi {
        s.subrange(r.start as int, hi)
    } else {
        Seq::empty()
    }
}

/// The elements selected by a whole position list: the concatenation of the
/// slices of each range, in list order, duplicates preserved.
pub open spec fn selected<T>(s: Seq<T>, rs: Seq<IndexRange>) -> Seq<T>
    decreases rs.len(),
{
    if rs.len() == 0 {
        Seq::empty()
    } else {
        range_slice(s, rs[0]) + selected(s, rs.drop_first())
    }
}

/// Selecting the single full range `[0, len)` reproduces the sequence.
pub proof fn lemma_select_full_range<T>(s: Seq<T>)
    requires
        s.len() <= usize::MAX,
    ensures
        selected(s, seq![IndexRange { start: 0, end: s.len() as usize }]) == s,
{
    let rs = seq![IndexRange { start: 0, end: s.len() as usize }];
    assert(rs.drop_first() =~= Seq::<IndexRange>::empty());
    assert(range_slice(s, rs[0]) =~= s);
    assert(selected(s, rs.drop_first()) =~= Seq::<T>::empty());
    assert(selected(s, rs) =~= s);
}

/// Appending one range to a list appends that range's slice to the selection.
pub proof fn lemma_selected_push<T>(s: Seq<T>, rs: Seq<IndexRange>, r: IndexRange)
    ensures
        selected(s, rs.push(r)) == selected(s, rs) + range_slice(s, r),
    decreases rs.len(),
{
    if rs.len() == 0 {
        assert(rs.push(r).drop_first() =~= Seq::<IndexRange>::empty());
        assert(rs.push(r)[0] == r);
        assert(selected(s, rs.push(r)) == range_slice(s, r) + selected(
            s,
            rs.push(r).drop_first(),
        ));
        assert(selected(s, rs.push(r)) =~= selected(s, rs) + range_slice(s, r));
    } else {
        lemma_selected_push(s, rs.drop_first(), r);
        assert(rs.push(r).drop_first() =~= rs.drop_first().push(r));
        assert(rs.push(r)[0] == rs[0]);
        assert(selected(s, rs.push(r)) == range_slice(s, rs[0]) + selected(
            s,
            rs.drop_first().push(r),
        ));
        assert(selected(s, rs.push(r)) =~= selected(s, rs) + range_slice(s, r));
    }
}

/// Applies a position list to a sequence of items: for each range in list
/// order, the items at its in-bounds indices, duplicates preserved.
pub fn select_items<T: Copy>(items: &Vec<T>, position_list: &Vec<IndexRange>) -> (r: Vec<T>)
    ensures
        r@ == selected(items@, position_list@),
{
    let len = items.len();
    let mut sel: Vec<T> = Vec::new();
    let mut ri: usize = 0;
    while ri < position_list.len()
        invariant
            ri <= position_list@.len(),
            len == items@.len(),
            sel@ == selected(items@, position_list@.subrange(0, ri as int)),
        decreases position_list@.len() - ri,
    {
        let rng = position_list[ri];
        let ghost prefix = position_list@.subrange(0, ri as int);
        let mut i: usize = rng.start;
        while i < rng.end && i < len
            invariant
                len == items@.len(),
                rng.start <= i,
                i <= rng.end || i == rng.start,
                rng.start < len ==> i <= len,
                rng.start >= len ==> i == rng.start,
                sel@ == selected(items@, prefix) + (if rng.start < i {
                    items@.subrange(rng.start as int, i as int)
                } else {
                    Seq::<T>::empty()
                }),
            decreases rng.end - i,
        {
            sel.push(items[i]);
            proof {
                if rng.start < i {
                    assert(items@.subrange(rng.start as int, i as int + 1) =~= items@.subrange(
                        rng.start as int,
                        i as int,
                    ).push(items@[i as int]));
                } else {
                    assert(items@.subrange(rng.start as int, i as int + 1) =~= Seq::<
                        T,
                    >::empty().push(items@[i as int]));
                }
            }
            i = i + 1;
        }
        proof {
            lemma_selected_push(items@, prefix, rng);
            assert(position_list@.subrange(0, ri as int + 1) =~= prefix.push(rng));
            assert((if rng.start < i {
                items@.subrange(rng.start as int, i as int)
            } else {
                Seq::<T>::empty()
            }) =~= range_slice(items@, rng));
        }
        ri = ri + 1;
    }
    proof {
        assert(position_list@.subrange(0, position_list@.len() as int) =~= position_list@);
    }
    sel
}

/// Index of the first occurrence of `c` in `s`, or `s.len()` if absent.
pub open spec fn first_pos(s: Seq<char>, c: char) -> int
    decreases s.len(),
{
    if s.len() == 0 {
        0
    } else if s[0] == c {
        0
    } else {
        1 + first_pos(s.drop_first(), c)
    }
}

pub proof fn lemma_first_pos(s: Seq<char>, c: char)
    ensures
        0 <= first_pos(s, c) <= s.len(),
        first_pos(s, c) < s.len() ==> s[first_pos(s, c)] == c,
        forall|i: int| 0 <= i < first_pos(s, c) ==> s[i] != c,
    decreases s.len(),
{
    if s.len() != 0 && s[0] != c {
        lemma_first_pos(s.drop_first(), c);
        assert(forall|i: int| 1 <= i < first_pos(s, c) ==> s[i] == s.drop_first()[i - 1]);
    }
}

/// `first_pos` is the only position with nothing equal to `c` before it and
/// `c` (or the end of the sequence) at it.
pub proof fn lemma_first_pos_unique(s: Seq<char>, c: char, m: int)
    requires
        0 <= m <= s.len(),
        forall|j: int| 0 <= j < m ==> s[j] != c,
        m < s.len() ==> s[m] == c,
    ensures
        first_pos(s, c) == m,
    decreases s.len(),
{
    if m > 0 {
        lemma_first_pos_unique(s.drop_first(), c, m - 1);
        assert(forall|j: int| 0 <= j < m - 1 ==> s.drop_first()[j] == s[j + 1]);
    }
}

/// The comma-separated clauses of `s`, in order.  An empty string is one
/// empty clause; a trailing comma contributes a trailing empty clause.
pub open spec fn split_clauses(s: Seq<char>) -> Seq<Seq<char>>
    decreases s.len(),
    via split_clauses_decreases
{
    let i = first_pos(s, ',');
    if i == s.len() {
        seq![s]
    } else {
        seq![s.subrange(0, i)] + split_clauses(s.subrange(i + 1, s.len() as int))
    }
}

#[via_fn]
proof fn split_clauses_decreases(s: Seq<char>) {
    lemma_first_pos(s, ',');
}

/// `c` has the shape `<digits>-<digits>`.
pub open spec fn is_range_form(c: Seq<char>) -> bool {
    let d = first_pos(c, '-');
    &&& d < c.len()
    &&& is_digits(c.subrange(0, d))
    &&& is_digits(c.subrange(d + 1, c.len() as int))
}

/// A valid single index clause: digits denoting a value in `1 ..= usize::MAX`.
pub open spec fn index_ok(c: Seq<char>) -> bool {
    &&& is_digits(c)
    &&& 1 <= digits_val(c) <= usize::MAX
}

/// How one clause is understood: a selected range; an illegal token, quoted
/// in the diagnostic; or a misordered range — one whose first 1-based bound
/// is not lower than its second — with both bounds.
pub enum ClauseOutcome {
    Selected(IndexRange),
    Illegal(Seq<char>),
    Misordered(nat, nat),
}

/// The meaning of one comma-separated clause.  A bare index `n` selects
/// `[n-1, n)`; a range `a-b` with `a < b` selects `[a-1, b-1)`, which is
/// never empty; a range whose first bound is not lower than its second is
/// misordered, reported with its 1-based bounds; anything else is illegal,
/// the offending token being the failing sub-token of a range, or else the
/// whole clause.
pub open spec fn clause_outcome(c: Seq<char>) -> ClauseOutcome {
    if index_ok(c) {
        ClauseOutcome::Selected(
            IndexRange { start: (digits_val(c) - 1) as usize, end: digits_val(c) as usize },
        )
    } else if is_range_form(c) {
        let lo = c.subrange(0, first_pos(c, '-'));
        let hi = c.subrange(first_pos(c, '-') + 1, c.len() as int);
        if !index_ok(lo) {
            ClauseOutcome::Illegal(lo)
        } else if !index_ok(hi) {
            ClauseOutcome::Illegal(hi)
        } else if digits_val(lo) >= digits_val(hi) {
            ClauseOutcome::Misordered(digits_val(lo), digits_val(hi))
        } else {
            ClauseOutcome::Selected(
                IndexRange {
                    start: (digits_val(lo) - 1) as usize,
                    end: (digits_val(hi) - 1) as usize,
                },
            )
        }
    } else {
        ClauseOutcome::Illegal(c)
    }
}

pub open spec fn clause_ok(c: Seq<char>) -> bool {
    clause_outcome(c) is Selected
}

pub open spec fn clause_range(c: Seq<char>) -> IndexRange {
    clause_outcome(c)->Selected_0
}

/// Why a position specification was rejected.
#[derive(Debug)]
pub enum ParseError {
    /// A clause (or sub-token of a range) that is not a valid 1-based index.
    IllegalListValue { value: String },
    /// A range whose first 1-based bound is not lower than its second.
    InvalidRangeOrder { first: usize, second: usize },
}

/// The diagnostic for an illegal list value.
pub open spec fn illegal_value_msg(v: Seq<char>) -> Seq<char> {
    "illegal list value: \""@ + v + "\""@
}

/// The diagnostic for a reversed range.
pub open spec fn range_order_msg(first: nat, second: nat) -> Seq<char> {
    "First number ("@ + dec_str(first) + ") in range must be lower than second value ("@
        + dec_str(second) + ")"@
}

impl ParseError {
    /// The diagnostic line this error carries.
    pub open spec fn spec_message(self) -> Seq<char> {
        match self {
            ParseError::IllegalListValue { value } => illegal_value_msg(value@),
            ParseError::InvalidRangeOrder { first, second } => range_order_msg(
                first as nat,
                second as nat,
            ),
        }
    }

    /// Renders the diagnostic line.
    pub fn message(&self) -> (r: String)
        ensures
            r@ == self.spec_message(),
    {
        match self {
            ParseError::IllegalListValue { value } => {
                let mut m = String::from_str("illegal list value: \"");
                m.append(value.as_str());
                m.append("\"");
                m
            },
            ParseError::InvalidRangeOrder { first, second } => {
                let first_str = usize_to_string(*first);
                let second_str = usize_to_string(*second);
                let mut m = String::from_str("First number (");
                m.append(first_str.as_str());
                m.append(") in range must be lower than second value (");
                m.append(second_str.as_str());
                m.append(")");
                m
            },
        }
    }
}

/// `e` is exactly the error that clause `c` produces.
pub open spec fn error_matches(e: ParseError, c: Seq<char>) -> bool {
    match clause_outcome(c) {
        ClauseOutcome::Selected(_) => false,
        ClauseOutcome::Illegal(v) => e matches ParseError::IllegalListValue { value }
            && value@ == v,
        ClauseOutcome::Misordered(a, b) => e matches ParseError::InvalidRangeOrder { first,
            second } && first == a && second == b,
    }
}

/// A successful parse of `s` produced `ranges`: every clause is valid and
/// `ranges` lists each clause's range in clause order.
pub open spec fn parse_ok_matches(s: Seq<char>, ranges: Seq<IndexRange>) -> bool {
    let clauses = split_clauses(s);
    &&& ranges.len() == clauses.len()
    &&& forall|k: int| 0 <= k < clauses.len() ==> clause_ok(#[trigger] clauses[k])
    &&& forall|k: int| 0 <= k < clauses.len() ==> ranges[k] == clause_range(#[trigger] clauses[k])
}

/// A failed parse of `s` produced `e`: some first invalid clause exists and
/// `e` is its error; nothing is reported past it.
pub open spec fn parse_err_matches(s: Seq<char>, e: ParseError) -> bool {
    let clauses = split_clauses(s);
    exists|k: int|
        {
            &&& 0 <= k < clauses.len()
            &&& !clause_ok(#[trigger] clauses[k])
            &&& (forall|j: int| 0 <= j < k ==> clause_ok(#[trigger] clauses[j]))
            &&& error_matches(e, clauses[k])
        }
}

/// Parses one 1-based index token and returns its 0-based value: digits
/// denoting `n >= 1` yield `n - 1`; anything else (a sign, a non-digit,
/// zero, or a value past `usize::MAX`) is an illegal list value, quoted in
/// the error message.
pub fn parse_index(input: &str) -> (r: Result<usize, String>)
    ensures
        match r {
            Ok(n) => index_ok(input@) && n + 1 == digits_val(input@),
            Err(m) => !index_ok(input@) && m@ == illegal_value_msg(input@),
        },
{
    match parse_digits(input) {
        Some(v) if v >= 1 => Ok(v - 1),
        _ => {
            let e = ParseError::IllegalListValue { value: input.to_owned() };
            Err(e.message())
        },
    }
}

/// `s` consists of digit characters only (and is non-empty).
fn all_digits(s: &str) -> (b: bool)
    ensures
        b == is_digits(s@),
{
    let len = s.unicode_len();
    if len == 0 {
        return false;
    }
    let mut i: usize = 0;
    while i < len
        invariant
            i <= len,
            len == s@.len(),
            forall|k: int| 0 <= k < i ==> is_digit(#[trigger] s@[k]),
        decreases len - i,
    {
        let u = s.get_char(i) as u32;
        if u < 48 || u > 57 {
            return false;
        }
        i = i + 1;
    }
    true
}

/// Parses one clause: a single 1-based index or a `start-end` range.
fn parse_clause(clause: &str) -> (r: Result<IndexRange, ParseError>)
    ensures
        match r {
            Ok(rng) => clause_outcome(clause@) == ClauseOutcome::Selected(rng) && rng.start
                < rng.end,
            Err(e) => !clause_ok(clause@) && error_matches(e, clause@),
        },
{
    match parse_digits(clause) {
        Some(v) => {
            if v >= 1 {
                return Ok(IndexRange { start: v - 1, end: v });
            }
        },
        None => {},
    }
    let n = clause.unicode_len();
    let mut d: usize = 0;
    while d < n && clause.get_char(d) != '-'
        invariant
            d <= n,
            n == clause@.len(),
            forall|k: int| 0 <= k < d ==> #[trigger] clause@[k] != '-',
        decreases n - d,
    {
        d = d + 1;
    }
    proof {
        lemma_first_pos_unique(clause@, '-', d as int);
    }
    if d == n {
        return Err(ParseError::IllegalListValue { value: clause.to_owned() });
    }
    let lo = clause.substring_char(0, d);
    let hi = clause.substring_char(d + 1, n);
    if !all_digits(lo) || !all_digits(hi) {
        return Err(ParseError::IllegalListValue { value: clause.to_owned() });
    }
    match parse_digits(lo) {
        Some(v1) if v1 >= 1 => match parse_digits(hi) {
            Some(v2) if v2 >= 1 => {
                if v1 >= v2 {
                    Err(ParseError::InvalidRangeOrder { first: v1, second: v2 })
                } else {
                    Ok(IndexRange { start: v1 - 1, end: v2 - 1 })
                }
            },
            _ => Err(ParseError::IllegalListValue { value: hi.to_owned() }),
        },
        _ => Err(ParseError::IllegalListValue { value: lo.to_owned() }),
    }
}

/// Parses a whole position specification.  On success the returned list has
/// one range per clause, in clause order, each non-empty (`start < end`);
/// on failure the error describes the first invalid clause.
pub fn parse_positions(list: &str) -> (r: Result<PositionList, ParseError>)
    ensures
        match r {
            Ok(ranges) => parse_ok_matches(list@, ranges@) && forall|k: int|
                0 <= k < ranges@.len() ==> (#[trigger] ranges@[k]).start < ranges@[k].end,
            Err(e) => parse_err_matches(list@, e),
        },
    decreases list@.len(),
{
    let n = list.unicode_len();
    let mut i: usize = 0;
    while i < n && list.get_char(i) != ','
        invariant
            i <= n,
            n == list@.len(),
            forall|k: int| 0 <= k < i ==> #[trigger] list@[k] != ',',
        decreases n - i,
    {
        i = i + 1;
    }
    proof {
        lemma_first_pos_unique(list@, ',', i as int);
    }
    let clause = list.substring_char(0, i);
    let head = match parse_clause(clause) {
        Ok(rng) => rng,
        Err(e) => {
            proof {
                let clauses = split_clauses(list@);
                if i == n {
                    assert(clause@ =~= list@);
                    assert(clauses =~= seq![list@]);
                } else {
                    assert(clauses[0] == clause@);
                }
                assert(!clause_ok(clauses[0]) && error_matches(e, clauses[0]));
            }
            return Err(e);
        },
    };
    if i == n {
        proof {
            assert(clause@ =~= list@);
            assert(split_clauses(list@) =~= seq![list@]);
        }
        let mut ranges: PositionList = Vec::new();
        ranges.push(head);
        return Ok(ranges);
    }
    let tail = list.substring_char(i + 1, n);
    proof {
        assert(tail@ =~= list@.subrange(i as int + 1, n as int));
        assert(split_clauses(list@) =~= seq![clause@] + split_clauses(tail@));
    }
    match parse_positions(tail) {
        Ok(mut ranges) => {
            ranges.insert(0, head);
            proof {
                let clauses = split_clauses(list@);
                let tail_clauses = split_clauses(tail@);
                assert(forall|k: int|
                    1 <= k < clauses.len() ==> clauses[k] == tail_clauses[k - 1]);
            }
            Ok(ranges)
        },
        Err(e) => {
            proof {
                let clauses = split_clauses(list@);
                let tail_clauses = split_clauses(tail@);
                let k = choose|k: int|
                    {
                        &&& 0 <= k < tail_clauses.len()
                        &&& !clause_ok(#[trigger] tail_clauses[k])
                        &&& (forall|j: int| 0 <= j < k ==> clause_ok(#[trigger] tail_clauses[j]))
                        &&& error_matches(e, tail_clauses[k])
                    };
                assert(forall|k2: int|
                    1 <= k2 < clauses.len() ==> clauses[k2] == tail_clauses[k2 - 1]);
                assert(clauses[k + 1] == tail_clauses[k]);
                assert(forall|j: int| 0 <= j < k + 1 ==> clause_ok(#[trigger] clauses[j]));
            }
            Err(e)
        },
    }
}

/// Writing a single index clause as the numeral of `n` selects exactly
/// `[n-1, n)`, and the map from the 1-based value to the range is injective:
/// the value any diagnostic would display can be read back from the range.
pub proof fn lemma_single_clause_injective(n1: nat, n2: nat)
    requires
        1 <= n1 <= usize::MAX,
        1 <= n2 <= usize::MAX,
    ensures
        clause_outcome(dec_str(n1)) == ClauseOutcome::Selected(
            IndexRange { start: (n1 - 1) as usize, end: n1 as usize },
        ),
        clause_outcome(dec_str(n1)) == clause_outcome(dec_str(n2)) ==> n1 == n2,
{
    lemma_dec_str_is_digits(n1);
    lemma_dec_str_val(n1);
    lemma_dec_str_is_digits(n2);
    lemma_dec_str_val(n2);
}

/// Picks the single active mode from the three optional specifications, in
/// the same precedence the original wiring uses: bytes, then characters,
/// then fields.
pub fn resolve_extract(
    bytes: Option<PositionList>,
    chars: Option<PositionList>,
    fields: Option<PositionList>,
) -> (r: Result<Extract, String>)
    ensures
        match r {
            Ok(e) => match e {
                Extract::Bytes(p) => bytes matches Some(b) && p@ == b@,
                Extract::Chars(p) => bytes is None && (chars matches Some(c) && p@ == c@),
                Extract::Fields(p) => bytes is None && chars is None && (fields matches Some(f)
                    && p@ == f@),
            },
            Err(m) => bytes is None && chars is None && fields is None && m@
                == "Must have --fields, --bytes or --chars"@,
        },
{
    if let Some(b) = bytes {
        Ok(Extract::Bytes(b))
    } else if let Some(c) = chars {
        Ok(Extract::Chars(c))
    } else if let Some(f) = fields {
        Ok(Extract::Fields(f))
    } else {
        Err("Must have --fields, --bytes or --chars".to_owned())
    }
}

} // verus!
