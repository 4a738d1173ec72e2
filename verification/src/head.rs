//! Parsing the positive count argument of the head utility, including
//! its `K` (multiply by 1024) suffix convention.

use vstd::prelude::*;

use crate::text::{all_digits, digits_val, unsigned_dec};
use vstd::string::StringExecFns;

verus! {

/// `s` with every `K` removed.
pub open spec fn strip_k(s: Seq<char>) -> Seq<char>
    decreases s.len(),
{
    if s.len() == 0 {
        Seq::empty()
    } else {
        (if s[0] == 'K' {
            Seq::<char>::empty()
        } else {
            seq![s[0]]
        }) + strip_k(s.skip(1))
    }
}

/// Does `s` mention `K` anywhere?
pub open spec fn has_k(s: Seq<char>) -> bool {
    exists|i: int| 0 <= i < s.len() && s[i] == 'K'
}

/// The count a textual argument denotes, if any.  With a `K` the digits
/// around it are read and multiplied by 1024; otherwise the text is read
/// as a plain positive number.  Zero, malformed text, and a product
/// beyond the machine word are rejected.
pub open spec fn positive_int_spec(s: Seq<char>) -> Option<int> {
    if has_k(s) {
        match unsigned_dec(strip_k(s)) {
            Some(v) => if v > 0 && v * 1024 <= usize::MAX {
                Some(v * 1024 as int)
            } else {
                None
            },
            None => None,
        }
    } else {
        match unsigned_dec(s) {
            Some(v) => if 0 < v <= usize::MAX {
                Some(v as int)
            } else {
                None
            },
            None => None,
        }
    }
}

/// Parse a positive count, honouring the `K` suffix convention; the
/// error carries the original text verbatim.
pub fn parse_positive_int(val: &str) -> (r: Result<usize, String>)
    ensures
        match positive_int_spec(val@) {
            Some(v) => r matches Ok(u) && u == v,
            None => r matches Err(e) && e@ == val@,
        },
{
    let cs = crate::text::chars_of(val);
    let mut stripped: Vec<char> = Vec::new();
    let mut saw_k: bool = false;
    let mut i: usize = 0;
    let n = cs.len();
    proof {
        assert(val@.skip(0) =~= val@);
    }
    while i < n
        invariant
            0 <= i <= n,
            n == val@.len(),
            cs@ == val@,
            stripped@ + strip_k(val@.skip(i as int)) == strip_k(val@),
            saw_k == exists|j: int| 0 <= j < i && val@[j] == 'K',
        decreases n - i,
    {
        let c = cs[i];
        proof {
            assert(val@.skip(i as int)[0] == val@[i as int]);
            assert(val@.skip(i as int).skip(1) =~= val@.skip(i + 1 as int));
        }
        if c == 'K' {
            saw_k = true;
        } else {
            stripped.push(c);
        }
        proof {
            assert(stripped@ + strip_k(val@.skip(i + 1 as int)) =~= strip_k(val@));
        }
        i = i + 1;
    }
    proof {
        assert(val@.skip(n as int) =~= Seq::<char>::empty());
        assert(stripped@ + Seq::<char>::empty() =~= stripped@);
        assert(stripped@ =~= strip_k(val@));
        assert(saw_k == has_k(val@));
    }
    if saw_k {
        let from: usize = if stripped.len() > 0 && stripped[0] == '+' {
            1
        } else {
            0
        };
        proof {
            if from == 1 {
                assert(stripped@.subrange(1, stripped@.len() as int) =~= strip_k(val@).skip(1));
            } else {
                assert(stripped@.subrange(0, stripped@.len() as int) =~= strip_k(val@));
            }
        }
        match crate::text::scan_digits(&stripped, from, stripped.len()) {
            Some(v) if v > 0 && v <= usize::MAX as u64 / 1024 => {
                proof {
                    assert(v * 1024 <= usize::MAX) by (nonlinear_arith)
                        requires
                            v <= usize::MAX as u64 / 1024,
                    ;
                }
                Ok((v as usize) * 1024)
            },
            Some(v) => {
                proof {
                    if v > 0 {
                        assert(v * 1024 > usize::MAX) by (nonlinear_arith)
                            requires
                                v > usize::MAX as u64 / 1024,
                        ;
                    }
                }
                Err(String::from_str(val))
            },
            None => Err(String::from_str(val)),
        }
    } else {
        let from: usize = if cs.len() > 0 && cs[0] == '+' {
            1
        } else {
            0
        };
        proof {
            if from == 1 {
                assert(cs@.subrange(1, cs@.len() as int) =~= val@.skip(1));
            } else {
                assert(cs@.subrange(0, cs@.len() as int) =~= val@);
            }
        }
        match crate::text::scan_digits(&cs, from, cs.len()) {
            Some(v) if v > 0 && v <= usize::MAX as u64 => Ok(v as usize),
            _ => Err(String::from_str(val)),
        }
    }
}

/// The first `n` bytes of `data`, or all of it when fewer exist.
pub fn head_bytes(data: &Vec<u8>, n: usize) -> (r: Vec<u8>)
    ensures
        r@ == if n <= data@.len() {
            data@.take(n as int)
        } else {
            data@
        },
{
    let limit: usize = if n <= data.len() {
        n
    } else {
        data.len()
    };
    let mut r: Vec<u8> = Vec::new();
    let mut i: usize = 0;
    while i < limit
        invariant
            0 <= i <= limit <= data@.len(),
            r@ == data@.subrange(0, i as int),
        decreases limit - i,
    {
        r.push(data[i]);
        i = i + 1;
        proof {
            assert(r@ =~= data@.subrange(0, i as int));
        }
    }
    proof {
        assert(data@.subrange(0, data@.len() as int) =~= data@);
    }
    r
}

/// The first `n` characters of `text`, or all of it when fewer exist.
pub fn head_chars(text: &str, n: usize) -> (r: String)
    ensures
        r@ == if n <= text@.len() {
            text@.take(n as int)
        } else {
            text@
        },
{
    let len = text.unicode_len();
    let limit: usize = if n <= len {
        n
    } else {
        len
    };
    let mut v: Vec<char> = Vec::new();
    let mut i: usize = 0;
    while i < limit
        invariant
            0 <= i <= limit <= text@.len(),
            v@ == text@.subrange(0, i as int),
        decreases limit - i,
    {
        v.push(text.get_char(i));
        i = i + 1;
        proof {
            assert(v@ =~= text@.subrange(0, i as int));
        }
    }
    proof {
        assert(text@.subrange(0, text@.len() as int) =~= text@);
    }
    crate::unicode::chars_to_string(&v)
}

/// The prefix of `data` holding its first `n` newline-terminated
/// pieces; all of `data` when fewer newlines exist.
pub open spec fn first_lines(data: Seq<u8>, n: nat) -> Seq<u8>
    decreases data.len(),
{
    if n == 0 || data.len() == 0 {
        Seq::empty()
    } else if data[0] == 10 {
        seq![10u8] + first_lines(data.skip(1), (n - 1) as nat)
    } else {
        seq![data[0]] + first_lines(data.skip(1), n)
    }
}

/// The first `n` lines of `data`, each kept with its terminator; the
/// last piece comes unterminated when the stream ends without one.
pub fn head_lines(data: &Vec<u8>, n: usize) -> (r: Vec<u8>)
    ensures
        r@ == first_lines(data@, n as nat),
{
    let mut r: Vec<u8> = Vec::new();
    let mut i: usize = 0;
    let mut seen: usize = 0;
    let len = data.len();
    proof {
        assert(data@.skip(0) =~= data@);
    }
    while i < len && seen < n
        invariant
            0 <= i <= len,
            len == data@.len(),
            seen <= n,
            r@ + first_lines(data@.skip(i as int), (n - seen) as nat) == first_lines(
                data@,
                n as nat,
            ),
        decreases len - i,
    {
        proof {
            assert(data@.skip(i as int)[0] == data@[i as int]);
            assert(data@.skip(i as int).skip(1) =~= data@.skip(i + 1 as int));
        }
        let b = data[i];
        r.push(b);
        if b == 10 {
            seen = seen + 1;
        }
        i = i + 1;
        proof {
            assert(r@ + first_lines(data@.skip(i as int), (n - seen) as nat) =~= first_lines(
                data@,
                n as nat,
            ));
        }
    }
    proof {
        if i == len {
            assert(data@.skip(i as int) =~= Seq::<u8>::empty());
        }
        assert(r@ + Seq::<u8>::empty() =~= r@);
        assert(first_lines(data@.skip(i as int), (n - seen) as nat) =~= Seq::<u8>::empty());
    }
    r
}

} // verus!
