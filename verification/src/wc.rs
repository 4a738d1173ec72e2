//! Counting lines, words, bytes and characters of a text, and the
//! fixed-width field formatting used to report the counts.

use vstd::prelude::*;

use crate::text::{dec_digits, left_padded};
use crate::unicode::whitespace_char;
use vstd::string::StringSliceAdditionalSpecFns;

verus! {

/// The counts of one input: lines, words, bytes and characters.
#[derive(Debug, PartialEq, Eq, Structural)]
pub struct FileInfo {
    pub num_lines: usize,
    pub num_words: usize,
    pub num_bytes: usize,
    pub num_chars: usize,
}

/// How many line-feed characters `s` holds.
pub open spec fn nl_count(s: Seq<char>) -> nat
    decreases s.len(),
{
    if s.len() == 0 {
        0
    } else {
        (if s[0] == '\n' {
            1nat
        } else {
            0nat
        }) + nl_count(s.skip(1))
    }
}

/// How many lines `s` holds: one per line feed, and one more for a
/// final unterminated piece.
pub open spec fn spec_line_count(s: Seq<char>) -> nat {
    nl_count(s) + if s.len() > 0 && s.last() != '\n' {
        1nat
    } else {
        0nat
    }
}

/// How many words remain in `s`, a word being a maximal run of
/// non-whitespace characters; `in_word` tells whether a word was already
/// open just before `s`.
pub open spec fn spec_word_count(s: Seq<char>, in_word: bool) -> nat
    decreases s.len(),
{
    if s.len() == 0 {
        0
    } else {
        let w = !whitespace_char(s[0]);
        (if w && !in_word {
            1nat
        } else {
            0nat
        }) + spec_word_count(s.skip(1), w)
    }
}

/// No text holds more line feeds than characters; strictly fewer when
/// it does not end with one.
pub proof fn lemma_nl_count_le(s: Seq<char>)
    ensures
        nl_count(s) <= s.len(),
        s.len() > 0 && s.last() != '\n' ==> nl_count(s) < s.len(),
    decreases s.len(),
{
    if s.len() > 0 {
        lemma_nl_count_le(s.skip(1));
        if s.len() > 1 {
            assert(s.skip(1).last() == s.last());
        }
    }
}

/// Count the lines, words, bytes and characters of a text in one pass.
pub fn count(text: &str) -> (r: FileInfo)
    ensures
        r.num_lines == spec_line_count(text@),
        r.num_words == spec_word_count(text@, false),
        r.num_bytes == text.spec_bytes().len() as usize,
        r.num_chars == text@.len(),
{
    let n = text.unicode_len();
    let mut nl: usize = 0;
    let mut words: usize = 0;
    let mut in_word: bool = false;
    let mut i: usize = 0;
    proof {
        assert(text@.skip(0) =~= text@);
    }
    while i < n
        invariant
            0 <= i <= n,
            n == text@.len(),
            nl <= i,
            words <= i,
            nl + nl_count(text@.skip(i as int)) == nl_count(text@),
            words + spec_word_count(text@.skip(i as int), in_word) == spec_word_count(
                text@,
                false,
            ),
            i < n ==> text@.skip(i as int)[0] == text@[i as int],
        decreases n - i,
    {
        let c = text.get_char(i);
        proof {
            assert(text@.skip(i as int).skip(1) =~= text@.skip(i + 1 as int));
        }
        if c == '\n' {
            nl = nl + 1;
        }
        let w = !crate::unicode::is_whitespace_char(c);
        if w && !in_word {
            words = words + 1;
        }
        in_word = w;
        i = i + 1;
    }
    proof {
        assert(text@.skip(n as int) =~= Seq::<char>::empty());
    }
    let last_unterminated: bool = n > 0 && text.get_char(n - 1) != '\n';
    let num_lines = if last_unterminated {
        proof {
            lemma_nl_count_le(text@);
        }
        nl + 1
    } else {
        nl
    };
    FileInfo { num_lines, num_words: words, num_bytes: text.len(), num_chars: n }
}

/// Format a count for an eight-column right-aligned field; an empty
/// string when the field is not requested.
pub fn format_field(value: usize, show: bool) -> (r: String)
    ensures
        show ==> r@ == left_padded(dec_digits(value as nat), 8),
        !show ==> r@ == Seq::<char>::empty(),
{
    if show {
        let digits = crate::text::u64_dec_chars(value as u64);
        let padded = crate::text::pad_left(&digits, 8);
        crate::unicode::chars_to_string(&padded)
    } else {
        String::new()
    }
}

} // verus!
