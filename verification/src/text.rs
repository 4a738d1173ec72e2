//! Decimal scanning and formatting on character sequences, plus small
//! string helpers shared by the utility modules.

use vstd::prelude::*;

verus! {

/// Is `c` an ASCII decimal digit?
pub open spec fn is_dec_digit(c: char) -> bool {
    '0' <= c && c <= '9'
}

/// Numeric value of a digit character.
pub open spec fn digit_val(c: char) -> nat {
    (c as nat - '0' as nat) as nat
}

/// Every character of `s` is a decimal digit.
pub open spec fn all_digits(s: Seq<char>) -> bool {
    forall|i: int| 0 <= i < s.len() ==> is_dec_digit(#[trigger] s[i])
}

/// The number denoted by a digit string, most significant digit first.
pub open spec fn digits_val(s: Seq<char>) -> nat
    decreases s.len(),
{
    if s.len() == 0 {
        0
    } else {
        digits_val(s.drop_last()) * 10 + digit_val(s.last())
    }
}

/// The digit character for a value below ten.
pub open spec fn digit_char(d: int) -> char {
    seq!['0', '1', '2', '3', '4', '5', '6', '7', '8', '9'][d]
}

/// The decimal representation of `n`, without sign and without leading
/// zeros (except for `n == 0`, which is "0").
pub open spec fn dec_digits(n: nat) -> Seq<char>
    decreases n,
{
    if n < 10 {
        seq![digit_char(n as int)]
    } else {
        dec_digits(n / 10).push(digit_char((n % 10) as int))
    }
}

/// `n` space characters.
pub open spec fn spaces(n: nat) -> Seq<char> {
    Seq::new(n, |i: int| ' ')
}

/// `s` left-padded with spaces to width `w`; `s` unchanged when already
/// at least that wide.
pub open spec fn left_padded(s: Seq<char>, w: nat) -> Seq<char> {
    if s.len() < w {
        spaces((w - s.len()) as nat) + s
    } else {
        s
    }
}

/// `p` is a prefix of `s`.
pub open spec fn is_prefix_of(p: Seq<char>, s: Seq<char>) -> bool {
    p.len() <= s.len() && p == s.subrange(0, p.len() as int)
}

/// Appending one digit multiplies the value by ten and adds the digit.
pub proof fn lemma_digits_val_push(s: Seq<char>, c: char)
    ensures
        digits_val(s.push(c)) == digits_val(s) * 10 + digit_val(c),
{
    assert(s.push(c).drop_last() =~= s);
    assert(s.push(c).last() == c);
}

/// Exec mirror of [`digit_char`].
pub fn digit_char_of(d: u64) -> (c: char)
    requires
        d < 10,
    ensures
        c == digit_char(d as int),
{
    match d {
        0 => '0',
        1 => '1',
        2 => '2',
        3 => '3',
        4 => '4',
        5 => '5',
        6 => '6',
        7 => '7',
        8 => '8',
        _ => '9',
    }
}

/// The decimal digit characters of `n`.
pub fn u64_dec_chars(n: u64) -> (r: Vec<char>)
    ensures
        r@ == dec_digits(n as nat),
    decreases n,
{
    if n < 10 {
        let mut v: Vec<char> = Vec::new();
        v.push(digit_char_of(n));
        proof {
            assert(v@ =~= dec_digits(n as nat));
        }
        v
    } else {
        let mut v = u64_dec_chars(n / 10);
        v.push(digit_char_of(n % 10));
        v
    }
}

/// `n` spaces as characters.
pub fn space_chars(n: usize) -> (r: Vec<char>)
    ensures
        r@ == spaces(n as nat),
{
    let mut v: Vec<char> = Vec::new();
    let mut i: usize = 0;
    while i < n
        invariant
            0 <= i <= n,
            v@ == spaces(i as nat),
        decreases n - i,
    {
        v.push(' ');
        i = i + 1;
        proof {
            assert(v@ =~= spaces(i as nat));
        }
    }
    v
}

/// `v` left-padded with spaces to width `width`.
pub fn pad_left(v: &Vec<char>, width: usize) -> (r: Vec<char>)
    ensures
        r@ == left_padded(v@, width as nat),
{
    let mut r: Vec<char>;
    if v.len() < width {
        r = space_chars(width - v.len());
    } else {
        r = Vec::new();
    }
    let ghost pad = r@;
    let mut i: usize = 0;
    while i < v.len()
        invariant
            0 <= i <= v.len(),
            r@ == pad + v@.subrange(0, i as int),
        decreases v.len() - i,
    {
        r.push(v[i]);
        i = i + 1;
        proof {
            assert(r@ =~= pad + v@.subrange(0, i as int));
        }
    }
    proof {
        assert(v@.subrange(0, v@.len() as int) =~= v@);
        assert(r@ =~= left_padded(v@, width as nat));
    }
    r
}

/// The characters of `s`, in order.
pub fn chars_of(s: &str) -> (r: Vec<char>)
    ensures
        r@ == s@,
{
    let n = s.unicode_len();
    let mut r: Vec<char> = Vec::new();
    let mut i: usize = 0;
    while i < n
        invariant
            0 <= i <= n,
            n == s@.len(),
            r@ == s@.subrange(0, i as int),
        decreases n - i,
    {
        r.push(s.get_char(i));
        i = i + 1;
        proof {
            assert(r@ =~= s@.subrange(0, i as int));
        }
    }
    proof {
        assert(r@ =~= s@);
    }
    r
}

/// Scan `s[from..to]` as an unsigned decimal number.  Returns the value
/// exactly when the range is a nonempty run of digits whose value fits
/// in a `u64`.
pub fn scan_digits(s: &Vec<char>, from: usize, to: usize) -> (r: Option<u64>)
    requires
        from <= to <= s@.len(),
    ensures
        ({
            let sub = s@.subrange(from as int, to as int);
            match r {
                Some(v) => from < to && all_digits(sub) && digits_val(sub) == v,
                None => !(from < to && all_digits(sub) && digits_val(sub) <= u64::MAX),
            }
        }),
{
    if from >= to {
        return None;
    }
    let mut val: u64 = 0;
    let mut i: usize = from;
    while i < to
        invariant
            from <= i <= to <= s@.len(),
            all_digits(s@.subrange(from as int, i as int)),
            digits_val(s@.subrange(from as int, i as int)) == val,
        decreases to - i,
    {
        let c = s[i];
        if !(c >= '0' && c <= '9') {
            proof {
                assert(s@.subrange(from as int, to as int)[i - from] == c);
                assert(!is_dec_digit(c));
                assert(!all_digits(s@.subrange(from as int, to as int)));
            }
            return None;
        }
        let d: u64 = (c as u32 as u64) - ('0' as u32 as u64);
        proof {
            assert(d == digit_val(c));
        }
        if val > (u64::MAX - d) / 10 {
            proof {
                let sub = s@.subrange(from as int, to as int);
                let pre = s@.subrange(from as int, i as int);
                assert(pre.push(c) =~= s@.subrange(from as int, i + 1 as int));
                lemma_digits_val_push(pre, c);
                lemma_digits_prefix_le(sub, i + 1 - from);
                assert(sub.subrange(0, i + 1 - from) =~= s@.subrange(
                    from as int,
                    i + 1 as int,
                ));
                assert(val * 10 + d > u64::MAX) by (nonlinear_arith)
                    requires
                        val > (u64::MAX - d) / 10,
                        d < 10,
                ;
            }
            return None;
        }
        proof {
            assert(val * 10 + d <= u64::MAX) by (nonlinear_arith)
                requires
                    val <= (u64::MAX - d) / 10,
                    d < 10,
            ;
            let pre = s@.subrange(from as int, i as int);
            assert(pre.push(c) =~= s@.subrange(from as int, i + 1 as int));
            lemma_digits_val_push(pre, c);
        }
        val = val * 10 + d;
        i = i + 1;
    }
    proof {
        assert(s@.subrange(from as int, to as int) =~= s@.subrange(from as int, i as int));
    }
    Some(val)
}

/// The value of a digit string is at least the value of any of its
/// prefixes (scaled), so a value overflow seen early settles the whole.
pub proof fn lemma_digits_prefix_le(s: Seq<char>, k: int)
    requires
        0 < k <= s.len(),
    ensures
        digits_val(s) >= digits_val(s.subrange(0, k)),
    decreases s.len() - k,
{
    if k == s.len() {
        assert(s.subrange(0, k) =~= s);
    } else {
        lemma_digits_prefix_le(s, k + 1);
        let a = s.subrange(0, k + 1);
        let b = s.subrange(0, k);
        assert(a.drop_last() =~= b);
        assert(digits_val(a) == digits_val(b) * 10 + digit_val(a.last()));
        assert(digits_val(b) * 10 >= digits_val(b)) by (nonlinear_arith);
    }
}

/// The value an unsigned decimal parse accepts: at most one leading
/// `+`, then at least one digit and nothing else.
pub open spec fn unsigned_dec(s: Seq<char>) -> Option<nat> {
    let d = if s.len() > 0 && s[0] == '+' {
        s.skip(1)
    } else {
        s
    };
    if d.len() > 0 && all_digits(d) {
        Some(digits_val(d))
    } else {
        None
    }
}

/// Scan a whole string as an unsigned decimal number with an optional
/// leading `+`.  `None` means malformed text, or a value above `u64::MAX`.
pub fn parse_u64_str(s: &str) -> (r: Option<u64>)
    ensures
        match r {
            Some(v) => unsigned_dec(s@) == Some(v as nat),
            None => match unsigned_dec(s@) {
                Some(v) => v > u64::MAX,
                None => true,
            },
        },
{
    let cs = chars_of(s);
    let from: usize = if cs.len() > 0 && cs[0] == '+' {
        1
    } else {
        0
    };
    proof {
        if from == 1 {
            assert(cs@.subrange(1, cs@.len() as int) =~= s@.skip(1));
        } else {
            assert(cs@.subrange(0, cs@.len() as int) =~= s@);
        }
    }
    scan_digits(&cs, from, cs.len())
}

/// The value a signed decimal parse accepts: at most one leading `+` or
/// `-`, then at least one digit and nothing else.
pub open spec fn signed_dec(s: Seq<char>) -> Option<int> {
    let d = if s.len() > 0 && (s[0] == '+' || s[0] == '-') {
        s.skip(1)
    } else {
        s
    };
    if d.len() > 0 && all_digits(d) {
        if s.len() > 0 && s[0] == '-' {
            Some(-(digits_val(d) as int))
        } else {
            Some(digits_val(d) as int)
        }
    } else {
        None
    }
}

/// Scan a whole string as a signed decimal number.  `None` means
/// malformed text, or a value outside the signed 64-bit range.
pub fn parse_i64_str(s: &str) -> (r: Option<i64>)
    ensures
        match r {
            Some(v) => signed_dec(s@) == Some(v as int),
            None => match signed_dec(s@) {
                Some(v) => v < i64::MIN || v > i64::MAX,
                None => true,
            },
        },
{
    let cs = chars_of(s);
    let signed: bool = cs.len() > 0 && (cs[0] == '+' || cs[0] == '-');
    let neg: bool = cs.len() > 0 && cs[0] == '-';
    let from: usize = if signed {
        1
    } else {
        0
    };
    proof {
        if signed {
            assert(cs@.subrange(1, cs@.len() as int) =~= s@.skip(1));
        } else {
            assert(cs@.subrange(0, cs@.len() as int) =~= s@);
        }
    }
    match scan_digits(&cs, from, cs.len()) {
        None => None,
        Some(mag) => {
            if neg {
                if mag > 9223372036854775808u64 {
                    None
                } else if mag == 9223372036854775808u64 {
                    Some(i64::MIN)
                } else {
                    Some(-(mag as i64))
                }
            } else {
                if mag > i64::MAX as u64 {
                    None
                } else {
                    Some(mag as i64)
                }
            }
        },
    }
}

/// Is `p` a prefix of `s`?
pub fn is_char_prefix(p: &str, s: &str) -> (r: bool)
    ensures
        r == is_prefix_of(p@, s@),
{
    let pn = p.unicode_len();
    let sn = s.unicode_len();
    if pn > sn {
        return false;
    }
    let mut i: usize = 0;
    while i < pn
        invariant
            0 <= i <= pn,
            pn == p@.len(),
            sn == s@.len(),
            pn <= sn,
            forall|j: int| 0 <= j < i ==> p@[j] == s@[j],
        decreases pn - i,
    {
        if p.get_char(i) != s.get_char(i) {
            proof {
                assert(p@[i as int] != s@.subrange(0, p@.len() as int)[i as int]);
            }
            return false;
        }
        i = i + 1;
    }
    proof {
        assert(p@ =~= s@.subrange(0, p@.len() as int));
    }
    true
}

} // verus!
