//! Line, word, byte and character counting over one text, as the counting
//! tool reports it: a trailing fragment without a newline still counts as a
//! line, and words are maximal runs of non-whitespace characters.

use crate::numbers::{chars_to_string, dec_str, usize_to_string};
use vstd::prelude::*;
use vstd::string::StringExecFns;
use vstd::string::StringSliceAdditionalSpecFns;
use vstd::string::StrSliceExecFns;

verus! {

/// Unicode `White_Space` characters, as `char::is_whitespace` reports them.
pub open spec fn is_space(c: char) -> bool {
    let u = c as u32;
    ||| (9 <= u && u <= 13)
    ||| u == 32
    ||| u == 0x85
    ||| u == 0xA0
    ||| u == 0x1680
    ||| (0x2000 <= u && u <= 0x200A)
    ||| u == 0x2028
    ||| u == 0x2029
    ||| u == 0x202F
    ||| u == 0x205F
    ||| u == 0x3000
}

fn is_space_char(c: char) -> (b: bool)
    ensures
        b == is_space(c),
{
    let u = c as u32;
    (9 <= u && u <= 13) || u == 32 || u == 0x85 || u == 0xA0 || u == 0x1680 || (0x2000 <= u && u
        <= 0x200A) || u == 0x2028 || u == 0x2029 || u == 0x202F || u == 0x205F || u == 0x3000
}

/// Number of newline characters in `s`.
pub open spec fn newline_count(s: Seq<char>) -> nat
    decreases s.len(),
{
    if s.len() == 0 {
        0
    } else {
        newline_count(s.drop_last()) + (if s.last() == '\n' {
            1nat
        } else {
            0nat
        })
    }
}

/// Number of lines the text holds: every newline ends a line, and a final
/// fragment without one still counts.
pub open spec fn line_count(s: Seq<char>) -> nat {
    newline_count(s) + (if s.len() > 0 && s.last() != '\n' {
        1nat
    } else {
        0nat
    })
}

/// A word begins at `i`: a non-whitespace character not preceded by one.
pub open spec fn word_start(s: Seq<char>, i: int) -> bool {
    &&& !is_space(s[i])
    &&& (i == 0 || is_space(s[i - 1]))
}

/// Number of maximal runs of non-whitespace characters in `s`.
pub open spec fn word_count(s: Seq<char>) -> nat
    decreases s.len(),
{
    if s.len() == 0 {
        0
    } else {
        word_count(s.drop_last()) + (if word_start(s, s.len() - 1) {
            1nat
        } else {
            0nat
        })
    }
}

/// A text has no more newlines than characters.
pub proof fn lemma_newline_count_le(s: Seq<char>)
    ensures
        newline_count(s) <= s.len(),
    decreases s.len(),
{
    if s.len() > 0 {
        lemma_newline_count_le(s.drop_last());
    }
}

/// The per-text counts the counting tool prints.
#[derive(Debug, PartialEq, Eq, Structural)]
pub struct FileInfo {
    pub num_lines: usize,
    pub num_words: usize,
    pub num_bytes: usize,
    pub num_chars: usize,
}

/// Counts lines, words, bytes and characters of one text.
pub fn count(text: &str) -> (r: FileInfo)
    ensures
        r.num_lines == line_count(text@),
        r.num_words == word_count(text@),
        r.num_bytes == text.spec_bytes().len(),
        r.num_chars == text@.len(),
{
    let num_bytes = text.as_bytes().len();
    let chars = crate::scalars::str_chars(text);
    let num_chars = chars.len();
    let mut newlines: usize = 0;
    let mut words: usize = 0;
    let mut i: usize = 0;
    while i < num_chars
        invariant
            i <= num_chars,
            num_chars == text@.len(),
            chars@ == text@,
            newlines <= i,
            words <= i,
            newlines == newline_count(text@.subrange(0, i as int)),
            words == word_count(text@.subrange(0, i as int)),
        decreases num_chars - i,
    {
        let c = chars[i];
        proof {
            let p = text@.subrange(0, i as int + 1);
            assert(p.drop_last() =~= text@.subrange(0, i as int));
            assert(p.last() == text@[i as int]);
            if i > 0 {
                assert(p[i as int - 1] == text@[i as int - 1]);
            }
        }
        if c == '\n' {
            newlines = newlines + 1;
        }
        let starts = if i == 0 {
            !is_space_char(c)
        } else {
            !is_space_char(c) && is_space_char(chars[i - 1])
        };
        if starts {
            words = words + 1;
        }
        i = i + 1;
    }
    proof {
        assert(text@.subrange(0, num_chars as int) =~= text@);
    }
    let num_lines = if num_chars > 0 && chars[num_chars - 1] != '\n' {
        proof {
            lemma_newline_count_le(text@.drop_last());
            assert(newline_count(text@) == newline_count(text@.drop_last()));
        }
        newlines + 1
    } else {
        newlines
    };
    FileInfo { num_lines, num_words: words, num_bytes, num_chars }
}

/// `n` space characters.
pub open spec fn spaces(n: nat) -> Seq<char>
    decreases n,
{
    if n == 0 {
        Seq::empty()
    } else {
        spaces((n - 1) as nat).push(' ')
    }
}

pub proof fn lemma_spaces_len(n: nat)
    ensures
        spaces(n).len() == n,
    decreases n,
{
    if n > 0 {
        lemma_spaces_len((n - 1) as nat);
    }
}

/// `s` right-aligned in a column of the given width.
pub open spec fn pad_left(s: Seq<char>, width: nat) -> Seq<char> {
    if s.len() >= width {
        s
    } else {
        spaces((width - s.len()) as nat) + s
    }
}

/// One report column: the count rendered in decimal, right-aligned to
/// width 8.
fn pad_number(n: usize) -> (r: String)
    ensures
        r@ == pad_left(dec_str(n as nat), 8),
{
    let digits = usize_to_string(n);
    let len = digits.as_str().unicode_len();
    if len >= 8 {
        return digits;
    }
    let mut pad_chars: Vec<char> = Vec::new();
    let mut k: usize = 0;
    while k < 8 - len
        invariant
            k <= 8 - len,
            len < 8,
            pad_chars@ =~= spaces(k as nat),
        decreases 8 - len - k,
    {
        pad_chars.push(' ');
        k = k + 1;
    }
    let mut out = chars_to_string(&pad_chars);
    out.append(digits.as_str());
    proof {
        lemma_spaces_len((8 - len) as nat);
    }
    out
}

/// The report line for one source: the requested columns in the fixed
/// order lines, words, bytes, characters, each right-aligned to width 8,
/// then a space and the source name — except for standard input's `-`,
/// which is not named.
pub open spec fn counts_line(
    lines: bool,
    words: bool,
    bytes: bool,
    chars: bool,
    info: FileInfo,
    filename: Seq<char>,
) -> Seq<char> {
    (if lines {
        pad_left(dec_str(info.num_lines as nat), 8)
    } else {
        Seq::empty()
    }) + (if words {
        pad_left(dec_str(info.num_words as nat), 8)
    } else {
        Seq::empty()
    }) + (if bytes {
        pad_left(dec_str(info.num_bytes as nat), 8)
    } else {
        Seq::empty()
    }) + (if chars {
        pad_left(dec_str(info.num_chars as nat), 8)
    } else {
        Seq::empty()
    }) + (if filename != seq!['-'] {
        seq![' '] + filename
    } else {
        Seq::empty()
    })
}

/// Renders the report line for one source.
pub fn format_counts(
    lines: bool,
    words: bool,
    bytes: bool,
    chars: bool,
    info: &FileInfo,
    filename: &str,
) -> (r: String)
    ensures
        r@ == counts_line(lines, words, bytes, chars, *info, filename@),
{
    let mut out = String::new();
    if lines {
        let column = pad_number(info.num_lines);
        out.append(column.as_str());
    }
    if words {
        let column = pad_number(info.num_words);
        out.append(column.as_str());
    }
    if bytes {
        let column = pad_number(info.num_bytes);
        out.append(column.as_str());
    }
    if chars {
        let column = pad_number(info.num_chars);
        out.append(column.as_str());
    }
    let is_stdin = filename.unicode_len() == 1 && filename.get_char(0) == '-';
    proof {
        if is_stdin {
            assert(filename@ =~= seq!['-']);
        } else if filename@ == seq!['-'] {
            assert(filename@.len() == 1 && filename@[0] == '-');
        }
    }
    if !is_stdin {
        out.append(" ");
        out.append(filename);
    }
    proof {
        reveal_strlit(" ");
        assert(" "@ =~= seq![' ']);
        assert(out@ =~= counts_line(lines, words, bytes, chars, *info, filename@));
    }
    out
}

} // verus!
