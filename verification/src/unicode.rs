//! Trusted bridges to the Unicode-aware pieces of the standard library
//! that vstd gives no specification for.  Each wrapper makes exactly one
//! outside call; what it returns is named or stated over plain values.

use vstd::prelude::*;

verus! {

/// Whether the Unicode `White_Space` property holds of a character, as
/// `char::is_whitespace` decides it.
pub uninterp spec fn whitespace_char(c: char) -> bool;

/// Relies on `char::is_whitespace`: the Unicode `White_Space` property,
/// a function of the character alone; space, tab, line feed and carriage
/// return are documented members.
#[verifier::external_body]
pub fn is_whitespace_char(c: char) -> (r: bool)
    ensures
        r == whitespace_char(c),
        (c == ' ' || c == '\t' || c == '\n' || c == '\r') ==> r,
{
    c.is_whitespace()
}

/// The Unicode lowercase mapping of a character sequence, as
/// `str::to_lowercase` computes it.
pub uninterp spec fn lower_of(s: Seq<char>) -> Seq<char>;

/// Relies on `str::to_lowercase`: the Unicode lowercase mapping, a
/// function of the characters alone.
#[verifier::external_body]
pub fn lowercase_str(s: &str) -> (r: String)
    ensures
        r@ == lower_of(s@),
{
    s.to_lowercase()
}

/// The characters that lossy UTF-8 decoding yields for a byte sequence,
/// as `String::from_utf8_lossy` computes them.
pub uninterp spec fn lossy_of(bytes: Seq<u8>) -> Seq<char>;

/// Relies on `String::from_utf8_lossy`: a function of the bytes alone;
/// valid UTF-8 is documented to decode unchanged, and each invalid
/// sequence becomes a replacement character.
#[verifier::external_body]
pub fn lossy_string(bytes: &Vec<u8>) -> (r: String)
    ensures
        r@ == lossy_of(bytes@),
        vstd::utf8::valid_utf8(bytes@) ==> r@ == vstd::utf8::decode_utf8(bytes@),
{
    String::from_utf8_lossy(bytes.as_slice()).into_owned()
}

/// Relies on `String::from_iter` over `char`: collecting characters
/// yields the string of exactly those characters, in order.
#[verifier::external_body]
pub fn chars_to_string(v: &Vec<char>) -> (r: String)
    ensures
        r@ == v@,
{
    v.iter().collect()
}

/// `s` without its leading whitespace.
pub open spec fn trim_front(s: Seq<char>) -> Seq<char>
    decreases s.len(),
{
    if s.len() > 0 && whitespace_char(s[0]) {
        trim_front(s.skip(1))
    } else {
        s
    }
}

/// `s` without its trailing whitespace.
pub open spec fn trim_back(s: Seq<char>) -> Seq<char>
    decreases s.len(),
{
    if s.len() > 0 && whitespace_char(s.last()) {
        trim_back(s.drop_last())
    } else {
        s
    }
}

/// `s` without leading and trailing whitespace.
pub open spec fn trimmed(s: Seq<char>) -> Seq<char> {
    trim_back(trim_front(s))
}

/// The characters of `cs[from..to]` without leading and trailing
/// whitespace.
pub fn trim_range(cs: &Vec<char>, from: usize, to: usize) -> (r: Vec<char>)
    requires
        from <= to <= cs@.len(),
    ensures
        r@ == trimmed(cs@.subrange(from as int, to as int)),
{
    let ghost sub = cs@.subrange(from as int, to as int);
    let mut i: usize = from;
    while i < to && is_whitespace_char(cs[i])
        invariant
            from <= i <= to <= cs@.len(),
            trim_front(cs@.subrange(i as int, to as int)) == trim_front(sub),
            sub == cs@.subrange(from as int, to as int),
        decreases to - i,
    {
        proof {
            let cur = cs@.subrange(i as int, to as int);
            assert(cur[0] == cs@[i as int]);
            assert(cur.skip(1) =~= cs@.subrange(i + 1 as int, to as int));
        }
        i = i + 1;
    }
    proof {
        let cur = cs@.subrange(i as int, to as int);
        if i < to {
            assert(cur[0] == cs@[i as int]);
        }
        assert(trim_front(cur) == cur);
    }
    let mut j: usize = to;
    while j > i && is_whitespace_char(cs[j - 1])
        invariant
            from <= i <= j <= to <= cs@.len(),
            trim_front(cs@.subrange(i as int, to as int)) == cs@.subrange(i as int, to as int),
            trim_back(cs@.subrange(i as int, j as int)) == trim_back(
                cs@.subrange(i as int, to as int),
            ),
        decreases j,
    {
        proof {
            let cur = cs@.subrange(i as int, j as int);
            assert(cur.last() == cs@[j - 1]);
            assert(cur.drop_last() =~= cs@.subrange(i as int, j - 1));
        }
        j = j - 1;
    }
    proof {
        let cur = cs@.subrange(i as int, j as int);
        if j > i {
            assert(cur.last() == cs@[j - 1]);
        }
        assert(trim_back(cur) == cur);
        assert(trimmed(sub) == cs@.subrange(i as int, j as int));
    }
    let mut r: Vec<char> = Vec::new();
    let mut k: usize = i;
    while k < j
        invariant
            i <= k <= j <= cs@.len(),
            r@ == cs@.subrange(i as int, k as int),
        decreases j - k,
    {
        r.push(cs[k]);
        k = k + 1;
        proof {
            assert(r@ =~= cs@.subrange(i as int, k as int));
        }
    }
    r
}

/// `s` without leading and trailing whitespace.
pub fn trim_str(s: &str) -> (r: String)
    ensures
        r@ == trimmed(s@),
{
    let cs = crate::text::chars_of(s);
    proof {
        assert(cs@.subrange(0, cs@.len() as int) =~= s@);
    }
    let t = trim_range(&cs, 0, cs.len());
    chars_to_string(&t)
}

} // verus!
