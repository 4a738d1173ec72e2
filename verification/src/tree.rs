//! Rendering walked directory entries as the familiar tree listing.

use vstd::prelude::*;

verus! {

/// `s` repeated `n` times.
pub open spec fn repeat_seq(s: Seq<char>, n: nat) -> Seq<char>
    decreases n,
{
    if n == 0 {
        Seq::empty()
    } else {
        s + repeat_seq(s, (n - 1) as nat)
    }
}

/// One rendered entry: the root shows its path plain; a first-level
/// entry gets the branch marker; a deeper one gets the trunk, one
/// three-space pad per level below the first, and the branch marker.
pub open spec fn tree_line(depth: nat, name: Seq<char>) -> Seq<char> {
    if depth == 0 {
        name
    } else if depth == 1 {
        "├── "@ + name
    } else {
        "│"@ + repeat_seq("   "@, (depth - 1) as nat) + "├── "@ + name
    }
}

/// Append `s` to `out`, `n` times.
fn append_repeated(out: &mut String, s: &str, n: usize)
    ensures
        final(out)@ == old(out)@ + repeat_seq(s@, n as nat),
{
    let mut k: usize = 0;
    while k < n
        invariant
            0 <= k <= n,
            out@ == old(out)@ + repeat_seq(s@, k as nat),
        decreases n - k,
    {
        vstd::string::StringExecFns::append(out, s);
        k = k + 1;
        proof {
            lemma_repeat_snoc(s@, k as nat);
            assert(out@ =~= old(out)@ + repeat_seq(s@, k as nat));
        }
    }
}

/// Repetition grows the same at either end.
proof fn lemma_repeat_snoc(s: Seq<char>, n: nat)
    requires
        n >= 1,
    ensures
        repeat_seq(s, n) == repeat_seq(s, (n - 1) as nat) + s,
    decreases n,
{
    if n == 1 {
        assert(repeat_seq(s, 1) =~= Seq::empty() + s + Seq::empty());
        assert(repeat_seq(s, 0) + s =~= Seq::empty() + s + Seq::empty());
    } else {
        lemma_repeat_snoc(s, (n - 1) as nat);
        assert(repeat_seq(s, n) == s + repeat_seq(s, (n - 1) as nat));
        assert(s + (repeat_seq(s, (n - 2) as nat) + s) =~= (s + repeat_seq(s, (n - 2) as nat))
            + s);
    }
}

/// Render walked entries, each a depth and a display name, as the tree
/// listing's lines.
pub fn tree_lines(entries: &Vec<(usize, String)>) -> (r: Vec<String>)
    ensures
        r@.len() == entries@.len(),
        forall|k: int|
            0 <= k < r@.len() ==> (#[trigger] r@[k])@ == tree_line(
                entries@[k].0 as nat,
                entries@[k].1@,
            ),
{
    let mut r: Vec<String> = Vec::new();
    let n = entries.len();
    let mut i: usize = 0;
    while i < n
        invariant
            0 <= i <= n,
            n == entries@.len(),
            r@.len() == i,
            forall|k: int|
                0 <= k < i ==> (#[trigger] r@[k])@ == tree_line(
                    entries@[k].0 as nat,
                    entries@[k].1@,
                ),
        decreases n - i,
    {
        let depth = entries[i].0;
        let name = &entries[i].1;
        let line: String;
        if depth == 0 {
            line = name.clone();
        } else if depth == 1 {
            let mut s = String::new();
            vstd::string::StringExecFns::append(&mut s, "├── ");
            vstd::string::StringExecFns::append(&mut s, name.as_str());
            proof {
                assert(s@ =~= "├── "@ + name@);
            }
            line = s;
        } else {
            let mut s = String::new();
            vstd::string::StringExecFns::append(&mut s, "│");
            append_repeated(&mut s, "   ", depth - 1);
            vstd::string::StringExecFns::append(&mut s, "├── ");
            vstd::string::StringExecFns::append(&mut s, name.as_str());
            proof {
                assert(s@ =~= "│"@ + repeat_seq("   "@, (depth - 1) as nat) + "├── "@ + name@);
            }
            line = s;
        }
        r.push(line);
        i = i + 1;
    }
    r
}

} // verus!
