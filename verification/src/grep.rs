//! Selecting the lines of an input that match, or fail to match, a
//! compiled pattern.

use vstd::prelude::*;

verus! {

#[verifier::external_type_specification]
#[verifier::external_body]
pub struct ExRegex(regex::Regex);

/// Relies on `regex::Regex::is_match`; nothing is assumed of which
/// texts a given pattern matches.
#[verifier::external_body]
fn regex_is_match(pattern: &regex::Regex, text: &str) -> bool {
    pattern.is_match(text)
}

/// Does a line with this match result get kept?
pub fn keep_line(matched: bool, invert_match: bool) -> (r: bool)
    ensures
        r == (matched != invert_match),
{
    matched != invert_match
}

/// The lines selected by a per-line match mask: those whose mask bit
/// differs from `invert_match`, in order.
pub open spec fn selected_by_mask(lines: Seq<Seq<char>>, mask: Seq<bool>, invert_match: bool) -> Seq<
    Seq<char>,
>
    decreases lines.len(),
{
    if lines.len() == 0 {
        Seq::empty()
    } else {
        (if mask[0] != invert_match {
            seq![lines[0]]
        } else {
            Seq::<Seq<char>>::empty()
        }) + selected_by_mask(lines.skip(1), mask.skip(1), invert_match)
    }
}

/// Keep exactly the lines whose match result differs from
/// `invert_match`, in their original order.
pub fn filter_lines(lines: &Vec<String>, matched: &Vec<bool>, invert_match: bool) -> (r: Vec<
    String,
>)
    requires
        matched@.len() == lines@.len(),
    ensures
        r.deep_view() == selected_by_mask(lines.deep_view(), matched@, invert_match),
{
    let ghost dv = lines.deep_view();
    let mut r: Vec<String> = Vec::new();
    let n = lines.len();
    let mut i: usize = 0;
    proof {
        assert(dv.skip(0) =~= dv);
        assert(matched@.skip(0) =~= matched@);
    }
    while i < n
        invariant
            0 <= i <= n,
            n == lines@.len() == matched@.len(),
            dv == lines.deep_view(),
            r.deep_view() + selected_by_mask(dv.skip(i as int), matched@.skip(i as int), invert_match)
                == selected_by_mask(dv, matched@, invert_match),
        decreases n - i,
    {
        let ghost pre = r.deep_view();
        proof {
            assert(dv.skip(i as int)[0] == dv[i as int]);
            assert(matched@.skip(i as int)[0] == matched@[i as int]);
            assert(dv.skip(i as int).skip(1) =~= dv.skip(i + 1 as int));
            assert(matched@.skip(i as int).skip(1) =~= matched@.skip(i + 1 as int));
            assert(dv[i as int] == lines@[i as int]@);
        }
        if keep_line(matched[i], invert_match) {
            r.push(lines[i].clone());
            proof {
                assert(r.deep_view() =~= pre.push(dv[i as int]));
            }
        }
        i = i + 1;
        proof {
            assert(pre + (if matched@[i - 1] != invert_match {
                seq![dv[i - 1]]
            } else {
                Seq::<Seq<char>>::empty()
            }) =~= r.deep_view());
        }
    }
    proof {
        assert(dv.skip(n as int) =~= Seq::<Seq<char>>::empty());
        assert(matched@.skip(n as int) =~= Seq::<bool>::empty());
        assert(r.deep_view() =~= selected_by_mask(dv, matched@, invert_match));
    }
    r
}

/// Keep the lines the pattern selects: the matching ones, or with
/// `invert_match` the non-matching ones.  Which lines the pattern
/// matches is the pattern's affair; whatever it decides, the result is
/// that selection of the input lines, in order.
pub fn find_lines(lines: &Vec<String>, pattern: &regex::Regex, invert_match: bool) -> (r: Vec<
    String,
>)
    ensures
        exists|mask: Seq<bool>|
            mask.len() == lines@.len() && r.deep_view() == selected_by_mask(
                lines.deep_view(),
                mask,
                invert_match,
            ),
{
    let mut matched: Vec<bool> = Vec::new();
    let n = lines.len();
    let mut i: usize = 0;
    while i < n
        invariant
            0 <= i <= n,
            n == lines@.len(),
            matched@.len() == i,
        decreases n - i,
    {
        matched.push(regex_is_match(pattern, lines[i].as_str()));
        i = i + 1;
    }
    let r = filter_lines(lines, &matched, invert_match);
    proof {
        assert(matched@.len() == lines@.len() && r.deep_view() == selected_by_mask(
            lines.deep_view(),
            matched@,
            invert_match,
        ));
    }
    r
}

} // verus!
