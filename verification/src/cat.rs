//! Re-emitting lines with optional numbering, plain or skipping blank
//! lines.  Input lines come without terminators; each is emitted with a
//! trailing newline.

use vstd::prelude::*;

use crate::text::{dec_digits, left_padded};

verus! {

/// What remains to be emitted from line `i` on, `last_num` numbered
/// non-blank lines having come before.  With plain numbering every line
/// gets its one-based index; with non-blank numbering a blank line is
/// just a newline and the others get their own running count; with
/// neither, lines pass through.
pub open spec fn cat_rec(
    lines: Seq<Seq<char>>,
    i: int,
    last_num: nat,
    number_lines: bool,
    number_nonblank: bool,
) -> Seq<char>
    decreases lines.len() - i,
{
    if i < 0 || i >= lines.len() {
        Seq::empty()
    } else if number_lines {
        left_padded(dec_digits((i + 1) as nat), 6) + seq!['\t'] + lines[i] + seq!['\n'] + cat_rec(
            lines,
            i + 1,
            last_num,
            number_lines,
            number_nonblank,
        )
    } else if number_nonblank {
        if lines[i].len() == 0 {
            seq!['\n'] + cat_rec(lines, i + 1, last_num, number_lines, number_nonblank)
        } else {
            left_padded(dec_digits((last_num + 1) as nat), 6) + seq!['\t'] + lines[i] + seq!['\n']
                + cat_rec(lines, i + 1, last_num + 1, number_lines, number_nonblank)
        }
    } else {
        lines[i] + seq!['\n'] + cat_rec(lines, i + 1, last_num, number_lines, number_nonblank)
    }
}

/// Append the characters of `s` to `out`.
fn push_str_chars(out: &mut Vec<char>, s: &str)
    ensures
        final(out)@ == old(out)@ + s@,
{
    let cv = crate::text::chars_of(s);
    let ghost base = out@;
    let mut j: usize = 0;
    while j < cv.len()
        invariant
            0 <= j <= cv@.len(),
            cv@ == s@,
            out@ == base + cv@.subrange(0, j as int),
        decreases cv@.len() - j,
    {
        out.push(cv[j]);
        j = j + 1;
        proof {
            assert(out@ =~= base + cv@.subrange(0, j as int));
        }
    }
    proof {
        assert(cv@.subrange(0, cv@.len() as int) =~= cv@);
    }
}

/// Append one padded line number and its tab.
fn push_line_number(out: &mut Vec<char>, num: usize)
    requires
        num < usize::MAX,
    ensures
        final(out)@ == old(out)@ + left_padded(dec_digits((num + 1) as nat), 6) + seq!['\t'],
{
    let digits = crate::text::u64_dec_chars((num + 1) as u64);
    let padded = crate::text::pad_left(&digits, 6);
    let ghost base = out@;
    let mut j: usize = 0;
    while j < padded.len()
        invariant
            0 <= j <= padded@.len(),
            padded@ == left_padded(dec_digits((num + 1) as nat), 6),
            out@ == base + padded@.subrange(0, j as int),
        decreases padded@.len() - j,
    {
        out.push(padded[j]);
        j = j + 1;
        proof {
            assert(out@ =~= base + padded@.subrange(0, j as int));
        }
    }
    out.push('\t');
    proof {
        assert(padded@.subrange(0, padded@.len() as int) =~= padded@);
        assert(out@ =~= base + left_padded(dec_digits((num + 1) as nat), 6) + seq!['\t']);
    }
}

/// Emit the lines in order, numbering them all, numbering only the
/// non-blank ones, or leaving them plain.
pub fn format_lines(lines: &Vec<String>, number_lines: bool, number_nonblank: bool) -> (r: String)
    ensures
        r@ == cat_rec(lines.deep_view(), 0, 0, number_lines, number_nonblank),
{
    let ghost dv = lines.deep_view();
    let mut out: Vec<char> = Vec::new();
    let mut last_num: usize = 0;
    let n = lines.len();
    let mut i: usize = 0;
    while i < n
        invariant
            0 <= i <= n,
            n == lines@.len(),
            dv == lines.deep_view(),
            last_num <= i,
            out@ + cat_rec(dv, i as int, last_num as nat, number_lines, number_nonblank) == cat_rec(
                dv,
                0,
                0,
                number_lines,
                number_nonblank,
            ),
        decreases n - i,
    {
        proof {
            assert(dv[i as int] == lines@[i as int]@);
        }
        if number_lines {
            push_line_number(&mut out, i);
            push_str_chars(&mut out, lines[i].as_str());
            out.push('\n');
        } else if number_nonblank {
            if lines[i].as_str().is_empty() {
                out.push('\n');
            } else {
                push_line_number(&mut out, last_num);
                push_str_chars(&mut out, lines[i].as_str());
                out.push('\n');
                last_num = last_num + 1;
            }
        } else {
            push_str_chars(&mut out, lines[i].as_str());
            out.push('\n');
        }
        i = i + 1;
        proof {
            assert(out@ + cat_rec(dv, i as int, last_num as nat, number_lines, number_nonblank)
                =~= cat_rec(dv, 0, 0, number_lines, number_nonblank));
        }
    }
    crate::unicode::chars_to_string(&out)
}

} // verus!
