//! Selecting fields, byte columns or character columns from lines, and
//! parsing the one-based position lists that describe the selection.

use core::ops::Range;
use vstd::prelude::*;

use crate::text::{all_digits, dec_digits, digits_val};
use vstd::string::StringExecFns;
use vstd::string::StringSliceAdditionalSpecFns;

verus! {

/// A list of half-open zero-based index ranges.
pub type PositionList = Vec<Range<usize>>;

/// Which unit of each line a selection applies to.
#[derive(Debug)]
pub enum Extract {
    Fields(PositionList),
    Bytes(PositionList),
    Chars(PositionList),
}

/// The elements of `s` with index in `[a, b)`, clipped to the length.
pub open spec fn sel_one<T>(s: Seq<T>, a: int, b: int) -> Seq<T> {
    let lo = if a > s.len() {
        s.len() as int
    } else {
        a
    };
    let hi = if b > s.len() {
        s.len() as int
    } else {
        b
    };
    if lo >= hi {
        Seq::empty()
    } else {
        s.subrange(lo, hi)
    }
}

/// The elements selected by a position list, range by range, in order;
/// a range may repeat or overlap earlier ones.
pub open spec fn selected<T>(s: Seq<T>, ranges: Seq<Range<usize>>) -> Seq<T>
    decreases ranges.len(),
{
    if ranges.len() == 0 {
        Seq::empty()
    } else {
        sel_one(s, ranges[0].start as int, ranges[0].end as int) + selected(s, ranges.skip(1))
    }
}

/// Push `s[lo..hi]` (clipped) of the characters of `line`.
fn push_char_range(out: &mut Vec<char>, line: &str, n: usize, a: usize, b: usize)
    requires
        n == line@.len(),
    ensures
        final(out)@ == old(out)@ + sel_one(line@, a as int, b as int),
{
    let lo: usize = if a > n {
        n
    } else {
        a
    };
    let hi: usize = if b > n {
        n
    } else {
        b
    };
    let ghost base = out@;
    if lo >= hi {
        proof {
            assert(out@ =~= base + sel_one(line@, a as int, b as int));
        }
        return ;
    }
    let mut i: usize = lo;
    while i < hi
        invariant
            lo <= i <= hi <= n,
            n == line@.len(),
            out@ == base + line@.subrange(lo as int, i as int),
        decreases hi - i,
    {
        out.push(line.get_char(i));
        i = i + 1;
        proof {
            assert(out@ =~= base + line@.subrange(lo as int, i as int));
        }
    }
    proof {
        assert(out@ =~= base + sel_one(line@, a as int, b as int));
    }
}

/// Extract the characters of `line` selected by the position list.
pub fn extract_chars(line: &str, char_pos: &[Range<usize>]) -> (r: String)
    ensures
        r@ == selected(line@, char_pos@),
{
    let n = line.unicode_len();
    let mut out: Vec<char> = Vec::new();
    let m = char_pos.len();
    let mut k: usize = 0;
    proof {
        assert(char_pos@.skip(0) =~= char_pos@);
    }
    while k < m
        invariant
            0 <= k <= m,
            m == char_pos@.len(),
            n == line@.len(),
            out@ + selected(line@, char_pos@.skip(k as int)) == selected(line@, char_pos@),
        decreases m - k,
    {
        proof {
            assert(char_pos@.skip(k as int)[0] == char_pos@[k as int]);
            assert(char_pos@.skip(k as int).skip(1) =~= char_pos@.skip(k + 1 as int));
        }
        let a = char_pos[k].start;
        let b = char_pos[k].end;
        push_char_range(&mut out, line, n, a, b);
        k = k + 1;
    }
    proof {
        assert(char_pos@.skip(m as int) =~= Seq::<Range<usize>>::empty());
        assert(out@ =~= selected(line@, char_pos@));
    }
    crate::unicode::chars_to_string(&out)
}

/// Push `s[lo..hi]` (clipped) of the bytes of `line`.
fn push_byte_range(out: &mut Vec<u8>, bytes: &[u8], a: usize, b: usize)
    ensures
        final(out)@ == old(out)@ + sel_one(bytes@, a as int, b as int),
{
    let n = bytes.len();
    let lo: usize = if a > n {
        n
    } else {
        a
    };
    let hi: usize = if b > n {
        n
    } else {
        b
    };
    let ghost base = out@;
    if lo >= hi {
        proof {
            assert(out@ =~= base + sel_one(bytes@, a as int, b as int));
        }
        return ;
    }
    let mut i: usize = lo;
    while i < hi
        invariant
            lo <= i <= hi <= n,
            n == bytes@.len(),
            out@ == base + bytes@.subrange(lo as int, i as int),
        decreases hi - i,
    {
        out.push(bytes[i]);
        i = i + 1;
        proof {
            assert(out@ =~= base + bytes@.subrange(lo as int, i as int));
        }
    }
    proof {
        assert(out@ =~= base + sel_one(bytes@, a as int, b as int));
    }
}

/// Extract the bytes of `line` selected by the position list, shown
/// with lossy decoding: a selection may split a multi-byte character,
/// and the torn piece displays as a replacement character.
pub fn extract_bytes(line: &str, byte_pos: &[Range<usize>]) -> (r: String)
    ensures
        r@ == crate::unicode::lossy_of(selected(line.spec_bytes(), byte_pos@)),
{
    let bytes = line.as_bytes();
    let mut buf: Vec<u8> = Vec::new();
    let m = byte_pos.len();
    let mut k: usize = 0;
    proof {
        assert(byte_pos@.skip(0) =~= byte_pos@);
    }
    while k < m
        invariant
            0 <= k <= m,
            m == byte_pos@.len(),
            bytes@ == line.spec_bytes(),
            buf@ + selected(bytes@, byte_pos@.skip(k as int)) == selected(bytes@, byte_pos@),
        decreases m - k,
    {
        proof {
            assert(byte_pos@.skip(k as int)[0] == byte_pos@[k as int]);
            assert(byte_pos@.skip(k as int).skip(1) =~= byte_pos@.skip(k + 1 as int));
        }
        let a = byte_pos[k].start;
        let b = byte_pos[k].end;
        push_byte_range(&mut buf, bytes, a, b);
        k = k + 1;
    }
    proof {
        assert(byte_pos@.skip(m as int) =~= Seq::<Range<usize>>::empty());
        assert(buf@ =~= selected(bytes@, byte_pos@));
    }
    crate::unicode::lossy_string(&buf)
}

/// The error message for a malformed list entry.
pub open spec fn illegal_value_msg(s: Seq<char>) -> Seq<char> {
    "illegal list value: \""@ + s + "\""@
}

/// The error message for an out-of-order range, over the one-based
/// numbers the user wrote.
pub open spec fn range_order_msg(n1: int, n2: int) -> Seq<char> {
    "First number in range ("@ + dec_digits((n1 + 1) as nat) + ") must be lower than second number ("@
        + dec_digits((n2 + 1) as nat) + ")"@
}

/// The zero-based index denoted by one list entry: a positive decimal
/// number without an explicit sign, shifted down by one.
pub open spec fn parse_index_spec(s: Seq<char>) -> Option<int> {
    if s.len() > 0 && s[0] == '+' {
        None
    } else if s.len() > 0 && all_digits(s) && 1 <= digits_val(s) <= usize::MAX {
        Some(digits_val(s) - 1)
    } else {
        None
    }
}

/// Index of the first `sep` in `s`, or its length when none occurs.
pub open spec fn first_sep(s: Seq<char>, sep: char) -> int
    decreases s.len(),
{
    if s.len() == 0 {
        0
    } else if s[0] == sep {
        0
    } else {
        1 + first_sep(s.skip(1), sep)
    }
}

/// `first_sep` finds the separator where a scan finds it.
pub proof fn lemma_first_sep_at(s: Seq<char>, sep: char, j: int)
    requires
        0 <= j <= s.len(),
        forall|i: int| 0 <= i < j ==> s[i] != sep,
        j < s.len() ==> s[j] == sep,
    ensures
        first_sep(s, sep) == j,
    decreases j,
{
    if j > 0 {
        lemma_first_sep_at(s.skip(1), sep, j - 1);
    }
}

/// `first_sep` stays within the sequence.
pub proof fn lemma_first_sep_le(s: Seq<char>, sep: char)
    ensures
        0 <= first_sep(s, sep) <= s.len(),
        first_sep(s, sep) < s.len() ==> s[first_sep(s, sep)] == sep,
        forall|i: int| 0 <= i < first_sep(s, sep) ==> s[i] != sep,
    decreases s.len(),
{
    if s.len() > 0 && s[0] != sep {
        lemma_first_sep_le(s.skip(1), sep);
        assert forall|i: int| 0 <= i < first_sep(s, sep) implies s[i] != sep by {
            if i >= 1 {
                assert(s.skip(1)[i - 1] == s[i]);
                assert(s.skip(1)[i - 1] != sep);
            }
        }
    }
}

/// The comma-separated pieces of `s`; an empty text is one empty piece,
/// and a trailing comma yields a trailing empty piece.
pub open spec fn split_commas(s: Seq<char>) -> Seq<Seq<char>>
    decreases s.len(),
    via split_commas_decreases
{
    let c = first_sep(s, ',');
    if c == s.len() {
        seq![s]
    } else {
        seq![s.take(c)] + split_commas(s.skip(c + 1))
    }
}

#[via_fn]
proof fn split_commas_decreases(s: Seq<char>) {
    lemma_first_sep_le(s, ',');
}

/// What one piece of the list denotes: a single index `n` as the range
/// `[n, n+1)`; two hyphen-separated numbers as a proper ascending range;
/// anything else an error.  The hyphen form must be digits-hyphen-digits
/// exactly; its numbers go through the same single-index reading, and an
/// out-of-order pair is reported over the numbers the user wrote.
pub open spec fn piece_spec(p: Seq<char>) -> Result<(int, int), Seq<char>> {
    match parse_index_spec(p) {
        Some(n) => Ok((n, n + 1)),
        None => {
            let h = first_sep(p, '-');
            if h < p.len() && p.take(h).len() > 0 && all_digits(p.take(h)) && p.skip(h + 1).len()
                > 0 && all_digits(p.skip(h + 1)) {
                let a = p.take(h);
                let b = p.skip(h + 1);
                match parse_index_spec(a) {
                    None => Err(illegal_value_msg(a)),
                    Some(n1) => match parse_index_spec(b) {
                        None => Err(illegal_value_msg(b)),
                        Some(n2) => if n1 >= n2 {
                            Err(range_order_msg(n1, n2))
                        } else {
                            Ok((n1, n2 + 1))
                        },
                    },
                }
            } else {
                Err(illegal_value_msg(p))
            }
        },
    }
}

/// The ranges denoted by a sequence of pieces; the first bad piece's
/// error wins.
pub open spec fn pieces_spec(pieces: Seq<Seq<char>>) -> Result<Seq<(int, int)>, Seq<char>>
    decreases pieces.len(),
{
    if pieces.len() == 0 {
        Ok(Seq::empty())
    } else {
        match piece_spec(pieces[0]) {
            Err(m) => Err(m),
            Ok(pr) => match pieces_spec(pieces.skip(1)) {
                Err(m) => Err(m),
                Ok(t) => Ok(seq![pr] + t),
            },
        }
    }
}

/// The ranges denoted by a whole position list argument.
pub open spec fn parse_pos_spec(s: Seq<char>) -> Result<Seq<(int, int)>, Seq<char>> {
    pieces_spec(split_commas(s))
}

/// The view of a built range list as index pairs.
pub open spec fn range_pairs(v: Seq<Range<usize>>) -> Seq<(int, int)> {
    Seq::new(v.len(), |k: int| (v[k].start as int, v[k].end as int))
}

/// The characters of `cs[from..to]`, as their own vector.
fn collect_range(cs: &Vec<char>, from: usize, to: usize) -> (r: Vec<char>)
    requires
        from <= to <= cs@.len(),
    ensures
        r@ == cs@.subrange(from as int, to as int),
{
    let mut r: Vec<char> = Vec::new();
    let mut i: usize = from;
    while i < to
        invariant
            from <= i <= to <= cs@.len(),
            r@ == cs@.subrange(from as int, i as int),
        decreases to - i,
    {
        r.push(cs[i]);
        i = i + 1;
        proof {
            assert(r@ =~= cs@.subrange(from as int, i as int));
        }
    }
    r
}

/// The malformed-entry message for `cs[from..to]`.
fn illegal_msg(cs: &Vec<char>, from: usize, to: usize) -> (r: String)
    requires
        from <= to <= cs@.len(),
    ensures
        r@ == illegal_value_msg(cs@.subrange(from as int, to as int)),
{
    let piece = collect_range(cs, from, to);
    let mut m = String::from_str("illegal list value: \"");
    let ps = crate::unicode::chars_to_string(&piece);
    m.append(ps.as_str());
    m.append("\"");
    m
}

/// Is `cs[from..to]` a nonempty run of digits?
fn digits_only(cs: &Vec<char>, from: usize, to: usize) -> (r: bool)
    requires
        from <= to <= cs@.len(),
    ensures
        r == (from < to && all_digits(cs@.subrange(from as int, to as int))),
{
    if from >= to {
        return false;
    }
    let mut i: usize = from;
    while i < to
        invariant
            from <= i <= to <= cs@.len(),
            forall|j: int| from <= j < i ==> crate::text::is_dec_digit(#[trigger] cs@[j]),
        decreases to - i,
    {
        let c = cs[i];
        if !(c >= '0' && c <= '9') {
            proof {
                assert(cs@.subrange(from as int, to as int)[i - from] == c);
            }
            return false;
        }
        i = i + 1;
    }
    proof {
        assert forall|j: int|
            0 <= j < to - from implies crate::text::is_dec_digit(
            #[trigger] cs@.subrange(from as int, to as int)[j],
        ) by {
            assert(cs@.subrange(from as int, to as int)[j] == cs@[from + j]);
        }
    }
    true
}

/// Read one list entry of `cs[from..to]` as a zero-based index.
fn parse_index_range(cs: &Vec<char>, from: usize, to: usize) -> (r: Result<usize, String>)
    requires
        from <= to <= cs@.len(),
    ensures
        ({
            let sub = cs@.subrange(from as int, to as int);
            match parse_index_spec(sub) {
                Some(n) => r matches Ok(u) && u == n,
                None => r matches Err(e) && e@ == illegal_value_msg(sub),
            }
        }),
{
    if from < to && cs[from] == '+' {
        proof {
            assert(cs@.subrange(from as int, to as int)[0] == cs@[from as int]);
        }
        return Err(illegal_msg(cs, from, to));
    }
    match crate::text::scan_digits(cs, from, to) {
        Some(v) if 1 <= v && v <= usize::MAX as u64 => Ok((v as usize) - 1),
        _ => Err(illegal_msg(cs, from, to)),
    }
}

/// Read one list entry as a zero-based index: a positive number without
/// an explicit sign, shifted down by one.  The error carries the
/// offending entry inside the message.
pub fn parse_index(input: &str) -> (r: Result<usize, String>)
    ensures
        match parse_index_spec(input@) {
            Some(n) => r matches Ok(u) && u == n,
            None => r matches Err(e) && e@ == illegal_value_msg(input@),
        },
{
    let cs = crate::text::chars_of(input);
    proof {
        assert(cs@.subrange(0, cs@.len() as int) =~= input@);
    }
    parse_index_range(&cs, 0, cs.len())
}

/// The out-of-order range message for zero-based indexes `n1 >= n2`.
fn order_msg(n1: usize, n2: usize) -> (r: String)
    requires
        n1 < usize::MAX,
        n2 < usize::MAX,
    ensures
        r@ == range_order_msg(n1 as int, n2 as int),
{
    let mut m = String::from_str("First number in range (");
    let d1 = crate::text::u64_dec_chars((n1 + 1) as u64);
    let s1 = crate::unicode::chars_to_string(&d1);
    m.append(s1.as_str());
    m.append(") must be lower than second number (");
    let d2 = crate::text::u64_dec_chars((n2 + 1) as u64);
    let s2 = crate::unicode::chars_to_string(&d2);
    m.append(s2.as_str());
    m.append(")");
    m
}

/// Parse a comma-separated position list: each entry a positive number
/// or an ascending `low-high` pair of them, one-based in the text and
/// zero-based half-open in the result.  The first bad entry is reported.
#[verifier::rlimit(60)]
pub fn parse_pos(range_text: &str) -> (r: Result<PositionList, String>)
    ensures
        match parse_pos_spec(range_text@) {
            Ok(prs) => r matches Ok(v) && range_pairs(v@) == prs,
            Err(m) => r matches Err(e) && e@ == m,
        },
{
    let cs = crate::text::chars_of(range_text);
    let n = cs.len();
    let mut result: Vec<Range<usize>> = Vec::new();
    let mut a: usize = 0;
    proof {
        assert(cs@.skip(0) =~= cs@);
        assert(range_pairs(result@) =~= Seq::<(int, int)>::empty());
    }
    loop
        invariant_except_break
            0 <= a <= n,
            n == cs@.len(),
            cs@ == range_text@,
            match pieces_spec(split_commas(cs@.skip(a as int))) {
                Ok(t) => parse_pos_spec(range_text@) == Ok::<Seq<(int, int)>, Seq<char>>(
                    range_pairs(result@) + t,
                ),
                Err(m) => parse_pos_spec(range_text@) == Err::<Seq<(int, int)>, Seq<char>>(m),
            },
        ensures
            parse_pos_spec(range_text@) == Ok::<Seq<(int, int)>, Seq<char>>(range_pairs(result@)),
        decreases n - a,
    {
        let ghost rest = cs@.skip(a as int);
        let mut b: usize = a;
        while b < n && cs[b] != ','
            invariant
                a <= b <= n,
                n == cs@.len(),
                forall|i: int| a <= i < b ==> cs@[i] != ',',
            decreases n - b,
        {
            b = b + 1;
        }
        let ghost piece = cs@.subrange(a as int, b as int);
        proof {
            assert forall|i: int| 0 <= i < b - a implies rest[i] != ',' by {
                assert(rest[i] == cs@[a + i]);
            }
            if b < n {
                assert(rest[b - a] == cs@[b as int]);
            }
            lemma_first_sep_at(rest, ',', b - a);
            assert(rest.take(b - a) =~= piece);
            if b < n {
                assert(rest.skip(b - a + 1) =~= cs@.skip(b + 1 as int));
            } else {
                assert(rest =~= piece);
            }
        }
        // read one piece: a single index, or digits-hyphen-digits
        let pr: (usize, usize);
        match parse_index_range(&cs, a, b) {
            Ok(nn) => {
                pr = (nn, nn + 1);
            },
            Err(single_err) => {
                let mut h: usize = a;
                while h < b && cs[h] != '-'
                    invariant
                        a <= h <= b <= n,
                        n == cs@.len(),
                        forall|i: int| a <= i < h ==> cs@[i] != '-',
                    decreases b - h,
                {
                    h = h + 1;
                }
                proof {
                    assert forall|i: int| 0 <= i < h - a implies piece[i] != '-' by {
                        assert(piece[i] == cs@[a + i]);
                    }
                    if h < b {
                        assert(piece[h - a] == cs@[h as int]);
                    }
                    lemma_first_sep_at(piece, '-', h - a);
                    assert(piece.take(h - a) =~= cs@.subrange(a as int, h as int));
                    if h < b {
                        assert(piece.skip(h - a + 1) =~= cs@.subrange(h + 1 as int, b as int));
                    }
                }
                if h < b && digits_only(&cs, a, h) && digits_only(&cs, h + 1, b) {
                    match parse_index_range(&cs, a, h) {
                        Err(e) => {
                            return Err(e);
                        },
                        Ok(n1) => {
                            match parse_index_range(&cs, h + 1, b) {
                                Err(e) => {
                                    return Err(e);
                                },
                                Ok(n2) => {
                                    if n1 >= n2 {
                                        return Err(order_msg(n1, n2));
                                    }
                                    pr = (n1, n2 + 1);
                                },
                            }
                        },
                    }
                } else {
                    return Err(single_err);
                }
            },
        }
        let ghost pre_pairs = range_pairs(result@);
        result.push(Range { start: pr.0, end: pr.1 });
        proof {
            assert(piece_spec(piece) == Ok::<(int, int), Seq<char>>((pr.0 as int, pr.1 as int)));
            assert(range_pairs(result@) =~= pre_pairs + seq![(pr.0 as int, pr.1 as int)]);
        }
        if b < n {
            a = b + 1;
            proof {
                assert(split_commas(rest) == seq![piece] + split_commas(cs@.skip(a as int)));
                assert(split_commas(rest)[0] == piece);
                assert(split_commas(rest).skip(1) =~= split_commas(cs@.skip(a as int)));
                match pieces_spec(split_commas(cs@.skip(a as int))) {
                    Ok(t) => {
                        assert(pre_pairs + (seq![(pr.0 as int, pr.1 as int)] + t) =~= range_pairs(
                            result@,
                        ) + t);
                    },
                    Err(_) => {},
                }
            }
        } else {
            proof {
                assert(split_commas(rest) == seq![piece]);
                assert(split_commas(rest)[0] == piece);
                assert(seq![piece].skip(1) =~= Seq::<Seq<char>>::empty());
                assert(pieces_spec(Seq::<Seq<char>>::empty()) == Ok::<Seq<(int, int)>, Seq<char>>(
                    Seq::empty(),
                ));
                assert(pieces_spec(split_commas(rest)) == Ok::<Seq<(int, int)>, Seq<char>>(
                    seq![(pr.0 as int, pr.1 as int)] + Seq::empty(),
                ));
                assert(pre_pairs + (seq![(pr.0 as int, pr.1 as int)] + Seq::empty()) =~= range_pairs(
                    result@,
                ));
            }
            break ;
        }
    }
    Ok(result)
}

} // verus!
