//! The three-column comparison of two sorted line lists: lines only in
//! the first, lines only in the second, and lines in both.

use vstd::prelude::*;

use crate::unicode::lower_of;
use vstd::string::StringExecFns;
use vstd::string::StringSliceAdditionalSpecFns;

verus! {

/// Lexicographic byte order: -1, 0 or 1 as `a` sorts before, equal to
/// or after `b`.  This is the order `str` comparison uses.
pub open spec fn lex_cmp_bytes(a: Seq<u8>, b: Seq<u8>) -> int
    decreases a.len(),
{
    if a.len() == 0 && b.len() == 0 {
        0
    } else if a.len() == 0 {
        -1
    } else if b.len() == 0 {
        1
    } else if a[0] < b[0] {
        -1
    } else if a[0] > b[0] {
        1
    } else {
        lex_cmp_bytes(a.skip(1), b.skip(1))
    }
}

/// Compare two texts in lexicographic byte order.
pub fn str_compare(a: &str, b: &str) -> (r: i32)
    ensures
        r == lex_cmp_bytes(a.spec_bytes(), b.spec_bytes()),
{
    let ab = a.as_bytes();
    let bb = b.as_bytes();
    let an = ab.len();
    let bn = bb.len();
    let mut i: usize = 0;
    proof {
        assert(ab@.skip(0) =~= ab@);
        assert(bb@.skip(0) =~= bb@);
    }
    while i < an && i < bn
        invariant
            0 <= i <= an,
            i <= bn,
            an == ab@.len(),
            bn == bb@.len(),
            ab@ == a.spec_bytes(),
            bb@ == b.spec_bytes(),
            lex_cmp_bytes(ab@.skip(i as int), bb@.skip(i as int)) == lex_cmp_bytes(ab@, bb@),
            forall|k: int| 0 <= k < i ==> ab@[k] == bb@[k],
        decreases an - i,
    {
        proof {
            assert(ab@.skip(i as int)[0] == ab@[i as int]);
            assert(bb@.skip(i as int)[0] == bb@[i as int]);
            assert(ab@.skip(i as int).skip(1) =~= ab@.skip(i + 1 as int));
            assert(bb@.skip(i as int).skip(1) =~= bb@.skip(i + 1 as int));
        }
        if ab[i] < bb[i] {
            proof {
                assert(lex_cmp_bytes(ab@.skip(i as int), bb@.skip(i as int)) == -1);
            }
            return -1;
        }
        if ab[i] > bb[i] {
            proof {
                assert(lex_cmp_bytes(ab@.skip(i as int), bb@.skip(i as int)) == 1);
            }
            return 1;
        }
        i = i + 1;
    }
    proof {
        if i == an {
            assert(ab@.skip(i as int) =~= Seq::<u8>::empty());
        } else {
            assert(bb@.skip(i as int) =~= Seq::<u8>::empty());
            assert(ab@.skip(i as int).len() > 0);
        }
    }
    if an == bn {
        0
    } else if an < bn {
        -1
    } else {
        1
    }
}

/// The lines as compared and shown: lowercased when the comparison is
/// case-insensitive, untouched otherwise.
pub open spec fn cased(lines: Seq<Seq<char>>, insensitive: bool) -> Seq<Seq<char>> {
    Seq::new(
        lines.len(),
        |i: int|
            if insensitive {
                lower_of(lines[i])
            } else {
                lines[i]
            },
    )
}

/// Apply the comparison casing to every line.
pub fn case_lines(lines: &Vec<String>, insensitive: bool) -> (r: Vec<String>)
    ensures
        r.deep_view() == cased(lines.deep_view(), insensitive),
{
    let mut r: Vec<String> = Vec::new();
    let n = lines.len();
    let mut i: usize = 0;
    while i < n
        invariant
            0 <= i <= n,
            n == lines@.len(),
            r.deep_view() == cased(lines.deep_view(), insensitive).take(i as int),
        decreases n - i,
    {
        let ghost pre = r.deep_view();
        let line: String = if insensitive {
            crate::unicode::lowercase_str(lines[i].as_str())
        } else {
            lines[i].clone()
        };
        let ghost lv = line@;
        r.push(line);
        i = i + 1;
        proof {
            assert(r.deep_view() =~= pre.push(lv));
            assert(pre.push(lv) =~= cased(lines.deep_view(), insensitive).take(i as int));
        }
    }
    proof {
        assert(cased(lines.deep_view(), insensitive).take(n as int) =~= cased(
            lines.deep_view(),
            insensitive,
        ));
    }
    r
}

/// A line shown in the first column: the value alone.
pub open spec fn col1_out(val: Seq<char>, s1: bool) -> Seq<char> {
    if s1 {
        val + seq!['\n']
    } else {
        Seq::empty()
    }
}

/// A line shown in the second column: behind one delimiter when the
/// first column is shown.
pub open spec fn col2_out(val: Seq<char>, s1: bool, s2: bool, delim: Seq<char>) -> Seq<char> {
    if s2 {
        (if s1 {
            delim
        } else {
            Seq::empty()
        }) + val + seq!['\n']
    } else {
        Seq::empty()
    }
}

/// A line shown in the third column: behind one delimiter per shown
/// column before it.
pub open spec fn col3_out(val: Seq<char>, s1: bool, s2: bool, s3: bool, delim: Seq<char>) -> Seq<
    char,
> {
    if s3 {
        (if s1 {
            delim
        } else {
            Seq::empty()
        }) + (if s2 {
            delim
        } else {
            Seq::empty()
        }) + val + seq!['\n']
    } else {
        Seq::empty()
    }
}

/// The comparison output from positions `i` and `j` on: the smaller
/// line goes to its own file's column, equal lines go together to the
/// third, and an exhausted side drains the other.
pub open spec fn comm_rec(
    l1: Seq<Seq<char>>,
    l2: Seq<Seq<char>>,
    i: int,
    j: int,
    s1: bool,
    s2: bool,
    s3: bool,
    delim: Seq<char>,
) -> Seq<char>
    decreases l1.len() + l2.len() - i - j,
{
    if i < 0 || j < 0 || i > l1.len() || j > l2.len() || (i == l1.len() && j == l2.len()) {
        Seq::empty()
    } else if i < l1.len() && j < l2.len() {
        let c = lex_cmp_bytes(vstd::utf8::encode_utf8(l1[i]), vstd::utf8::encode_utf8(l2[j]));
        if c == 0 {
            col3_out(l1[i], s1, s2, s3, delim) + comm_rec(l1, l2, i + 1, j + 1, s1, s2, s3, delim)
        } else if c > 0 {
            col2_out(l2[j], s1, s2, delim) + comm_rec(l1, l2, i, j + 1, s1, s2, s3, delim)
        } else {
            col1_out(l1[i], s1) + comm_rec(l1, l2, i + 1, j, s1, s2, s3, delim)
        }
    } else if i < l1.len() {
        col1_out(l1[i], s1) + comm_rec(l1, l2, i + 1, j, s1, s2, s3, delim)
    } else {
        col2_out(l2[j], s1, s2, delim) + comm_rec(l1, l2, i, j + 1, s1, s2, s3, delim)
    }
}

/// Append one column entry: any leading delimiters, the value, and the
/// line break.
fn push_entry(out: &mut String, lead1: bool, lead2: bool, delim: &str, val: &str)
    ensures
        final(out)@ == old(out)@ + (if lead1 {
            delim@
        } else {
            Seq::<char>::empty()
        }) + (if lead2 {
            delim@
        } else {
            Seq::<char>::empty()
        }) + val@ + seq!['\n'],
{
    if lead1 {
        out.append(delim);
    }
    if lead2 {
        out.append(delim);
    }
    out.append(val);
    out.append("\n");
    proof {
        reveal_strlit("\n");
        assert("\n"@ =~= seq!['\n']);
        assert(out@ =~= old(out)@ + (if lead1 {
            delim@
        } else {
            Seq::<char>::empty()
        }) + (if lead2 {
            delim@
        } else {
            Seq::<char>::empty()
        }) + val@ + seq!['\n']);
    }
}

/// Compare two sorted line lists, emitting each line into its column:
/// only-in-first, only-in-second, or in-both, with the chosen columns
/// shown and the others suppressed along with their delimiters.
#[verifier::rlimit(100)]
pub fn comm_lines(
    lines1: &Vec<String>,
    lines2: &Vec<String>,
    show_col1: bool,
    show_col2: bool,
    show_col3: bool,
    insensitive: bool,
    delimiter: &str,
) -> (r: String)
    ensures
        r@ == comm_rec(
            cased(lines1.deep_view(), insensitive),
            cased(lines2.deep_view(), insensitive),
            0,
            0,
            show_col1,
            show_col2,
            show_col3,
            delimiter@,
        ),
{
    let c1 = case_lines(lines1, insensitive);
    let c2 = case_lines(lines2, insensitive);
    let ghost d1 = c1.deep_view();
    let ghost d2 = c2.deep_view();
    let ghost goal = comm_rec(d1, d2, 0, 0, show_col1, show_col2, show_col3, delimiter@);
    let mut out = String::new();
    let n1 = c1.len();
    let n2 = c2.len();
    let mut i: usize = 0;
    let mut j: usize = 0;
    while i < n1 || j < n2
        invariant
            0 <= i <= n1,
            0 <= j <= n2,
            n1 == c1@.len(),
            n2 == c2@.len(),
            d1 == c1.deep_view(),
            d2 == c2.deep_view(),
            out@ + comm_rec(d1, d2, i as int, j as int, show_col1, show_col2, show_col3, delimiter@)
                == goal,
        decreases n1 + n2 - i - j,
    {
        let ghost oi = i as int;
        let ghost oj = j as int;
        let ghost pre = out@;
        let ghost entry: Seq<char>;
        if i < n1 && j < n2 {
            proof {
                assert(d1[oi] == c1@[oi]@);
                assert(d2[oj] == c2@[oj]@);
            }
            let c = str_compare(c1[i].as_str(), c2[j].as_str());
            if c == 0 {
                proof {
                    entry = col3_out(d1[oi], show_col1, show_col2, show_col3, delimiter@);
                }
                if show_col3 {
                    push_entry(&mut out, show_col1, show_col2, delimiter, c1[i].as_str());
                    proof {
                        assert(out@ =~= pre + entry);
                    }
                }
                i = i + 1;
                j = j + 1;
            } else if c > 0 {
                proof {
                    entry = col2_out(d2[oj], show_col1, show_col2, delimiter@);
                }
                if show_col2 {
                    push_entry(&mut out, show_col1, false, delimiter, c2[j].as_str());
                    proof {
                        assert(out@ =~= pre + entry);
                    }
                }
                j = j + 1;
            } else {
                proof {
                    entry = col1_out(d1[oi], show_col1);
                }
                if show_col1 {
                    push_entry(&mut out, false, false, delimiter, c1[i].as_str());
                    proof {
                        assert(out@ =~= pre + entry);
                    }
                }
                i = i + 1;
            }
        } else if i < n1 {
            proof {
                assert(d1[oi] == c1@[oi]@);
                entry = col1_out(d1[oi], show_col1);
            }
            if show_col1 {
                push_entry(&mut out, false, false, delimiter, c1[i].as_str());
                proof {
                    assert(out@ =~= pre + entry);
                }
            }
            i = i + 1;
        } else {
            proof {
                assert(d2[oj] == c2@[oj]@);
                entry = col2_out(d2[oj], show_col1, show_col2, delimiter@);
            }
            if show_col2 {
                push_entry(&mut out, show_col1, false, delimiter, c2[j].as_str());
                proof {
                    assert(out@ =~= pre + entry);
                }
            }
            j = j + 1;
        }
        proof {
            assert(comm_rec(d1, d2, oi, oj, show_col1, show_col2, show_col3, delimiter@) == entry
                + comm_rec(d1, d2, i as int, j as int, show_col1, show_col2, show_col3, delimiter@));
            assert(out@ =~= pre + entry);
            assert(out@ + comm_rec(d1, d2, i as int, j as int, show_col1, show_col2, show_col3,
                delimiter@) =~= goal);
        }
    }
    out
}

} // verus!
