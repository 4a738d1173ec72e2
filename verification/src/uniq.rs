//! Collapsing runs of repeated lines, with optional occurrence counts.
//! Lines keep their terminators; repetition is judged on trimmed text.

use vstd::prelude::*;

use crate::text::{dec_digits, left_padded};
use crate::unicode::trimmed;
use vstd::string::StringExecFns;

verus! {

/// One emitted entry: nothing for a zero count, else the line, with its
/// right-aligned count in four columns when counts are shown.
pub open spec fn entry_spec(prev: Seq<char>, count: nat, show_count: bool) -> Seq<char> {
    if count == 0 {
        Seq::empty()
    } else if show_count {
        left_padded(dec_digits(count), 4) + seq![' '] + prev
    } else {
        prev
    }
}

/// Append one group's output: the held line and its count, or nothing
/// when no group is open.
pub fn write_output(buffer: &mut String, previous: &str, count: usize, print_count: bool)
    ensures
        final(buffer)@ == old(buffer)@ + entry_spec(previous@, count as nat, print_count),
{
    if count != 0 {
        if print_count {
            let digits = crate::text::u64_dec_chars(count as u64);
            let padded = crate::text::pad_left(&digits, 4);
            let ps = crate::unicode::chars_to_string(&padded);
            buffer.append(ps.as_str());
            buffer.append(" ");
            proof {
                reveal_strlit(" ");
                assert(" "@ =~= seq![' ']);
            }
        }
        buffer.append(previous);
    }
    proof {
        assert(buffer@ =~= old(buffer)@ + entry_spec(previous@, count as nat, print_count));
    }
}

/// What remains to be emitted from line `i` on, with a group of `cnt`
/// occurrences of `prev` open.  A line equal (after trimming) to the
/// held one joins its group; a different one closes the group and opens
/// its own; the last group is emitted at the end.
pub open spec fn uniq_rec(
    lines: Seq<Seq<char>>,
    i: int,
    prev: Seq<char>,
    cnt: nat,
    show_count: bool,
) -> Seq<char>
    decreases lines.len() - i,
{
    if i < 0 || i >= lines.len() {
        entry_spec(prev, cnt, show_count)
    } else if prev.len() == 0 {
        uniq_rec(lines, i + 1, lines[i], cnt + 1, show_count)
    } else if trimmed(prev) != trimmed(lines[i]) {
        entry_spec(prev, cnt, show_count) + uniq_rec(lines, i + 1, lines[i], 1, show_count)
    } else {
        uniq_rec(lines, i + 1, prev, cnt + 1, show_count)
    }
}

/// Collapse runs of repeated lines into one occurrence each, counting
/// the run when asked to.  Lines are compared after trimming, so a
/// difference only in surrounding whitespace keeps a run together.
pub fn uniq_lines(lines: &Vec<String>, show_count: bool) -> (r: String)
    ensures
        r@ == uniq_rec(lines.deep_view(), 0, Seq::empty(), 0, show_count),
{
    let ghost dv = lines.deep_view();
    let mut out = String::new();
    let mut previous = String::new();
    let mut count: usize = 0;
    let n = lines.len();
    let mut i: usize = 0;
    while i < n
        invariant
            0 <= i <= n,
            n == lines@.len(),
            dv == lines.deep_view(),
            count <= i,
            out@ + uniq_rec(dv, i as int, previous@, count as nat, show_count) == uniq_rec(
                dv,
                0,
                Seq::empty(),
                0,
                show_count,
            ),
        decreases n - i,
    {
        proof {
            assert(dv[i as int] == lines@[i as int]@);
        }
        if previous.as_str().is_empty() {
            previous = lines[i].clone();
            count = count + 1;
        } else {
            let tp = crate::unicode::trim_str(previous.as_str());
            let tl = crate::unicode::trim_str(lines[i].as_str());
            if tp != tl {
                write_output(&mut out, previous.as_str(), count, show_count);
                previous = lines[i].clone();
                count = 1;
            } else {
                count = count + 1;
            }
        }
        i = i + 1;
    }
    write_output(&mut out, previous.as_str(), count, show_count);
    out
}

} // verus!
