//! Fortune files: parsing the seed argument, splitting a file's text
//! into its percent-separated fortunes, and picking one at random.

use vstd::prelude::*;

use crate::cut::{first_sep, lemma_first_sep_at, lemma_first_sep_le};
use crate::text::unsigned_dec;
use crate::unicode::trimmed;
use vstd::string::StringExecFns;

verus! {

/// One fortune: the name of the file it came from, and its text.
#[derive(Debug)]
pub struct Fortune {
    pub source: String,
    pub text: String,
}

/// The not-an-integer message for a seed argument.
pub open spec fn bad_seed_msg(s: Seq<char>) -> Seq<char> {
    seq!['"'] + s + "\" not a valid integer"@
}

/// Parse a random-seed argument as an unsigned 64-bit number.
pub fn parse_seed_num(val: &str) -> (r: Result<u64, String>)
    ensures
        match unsigned_dec(val@) {
            Some(v) => if v <= u64::MAX {
                r matches Ok(u) && u == v
            } else {
                r matches Err(e) && e@ == bad_seed_msg(val@)
            },
            None => r matches Err(e) && e@ == bad_seed_msg(val@),
        },
{
    match crate::text::parse_u64_str(val) {
        Some(v) => Ok(v),
        None => {
            let mut m = String::from_str("\"");
            m.append(val);
            m.append("\" not a valid integer");
            proof {
                reveal_strlit("\"");
                assert("\""@ =~= seq!['"']);
            }
            Err(m)
        },
    }
}

/// The fortunes of one file's text: the percent-separated pieces,
/// trimmed, with the empty ones dropped.
pub open spec fn kept_pieces(s: Seq<char>) -> Seq<Seq<char>>
    decreases s.len(),
    via kept_pieces_decreases
{
    let c = first_sep(s, '%');
    let piece = trimmed(s.take(c));
    let head: Seq<Seq<char>> = if piece.len() > 0 {
        seq![piece]
    } else {
        Seq::empty()
    };
    if c == s.len() {
        head
    } else {
        head + kept_pieces(s.skip(c + 1))
    }
}

#[via_fn]
proof fn kept_pieces_decreases(s: Seq<char>) {
    lemma_first_sep_le(s, '%');
}

/// Split one file's text into fortunes, each carrying the file's name.
pub fn fortunes_from_text(source: &String, text: &str) -> (r: Vec<Fortune>)
    ensures
        r@.len() == kept_pieces(text@).len(),
        forall|k: int|
            0 <= k < r@.len() ==> (#[trigger] r@[k]).source@ == source@ && r@[k].text@
                == kept_pieces(text@)[k],
{
    let cs = crate::text::chars_of(text);
    let n = cs.len();
    let mut r: Vec<Fortune> = Vec::new();
    let mut a: usize = 0;
    proof {
        assert(cs@.skip(0) =~= cs@);
    }
    loop
        invariant_except_break
            0 <= a <= n,
            n == cs@.len(),
            cs@ == text@,
            r@.len() + kept_pieces(cs@.skip(a as int)).len() == kept_pieces(text@).len(),
            forall|k: int|
                0 <= k < r@.len() ==> (#[trigger] r@[k]).source@ == source@ && r@[k].text@
                    == kept_pieces(text@)[k],
            forall|k: int|
                0 <= k < kept_pieces(cs@.skip(a as int)).len() ==> #[trigger] kept_pieces(
                    cs@.skip(a as int),
                )[k] == kept_pieces(text@)[r@.len() + k],
        ensures
            r@.len() == kept_pieces(text@).len(),
            forall|k: int|
                0 <= k < r@.len() ==> (#[trigger] r@[k]).source@ == source@ && r@[k].text@
                    == kept_pieces(text@)[k],
        decreases n - a,
    {
        let ghost a0 = a as int;
        let ghost rest = cs@.skip(a as int);
        let mut b: usize = a;
        while b < n && cs[b] != '%'
            invariant
                a <= b <= n,
                n == cs@.len(),
                forall|i: int| a <= i < b ==> cs@[i] != '%',
            decreases n - b,
        {
            b = b + 1;
        }
        proof {
            assert forall|i: int| 0 <= i < b - a implies rest[i] != '%' by {
                assert(rest[i] == cs@[a + i]);
            }
            if b < n {
                assert(rest[b - a] == cs@[b as int]);
            }
            lemma_first_sep_at(rest, '%', b - a);
            assert(rest.take(b - a) =~= cs@.subrange(a as int, b as int));
        }
        let piece = crate::unicode::trim_range(&cs, a, b);
        let ghost pre = r@;
        let ghost piece_t = trimmed(rest.take(b - a0));
        let ghost head: Seq<Seq<char>> = if piece_t.len() > 0 {
            seq![piece_t]
        } else {
            Seq::empty()
        };
        proof {
            assert(piece_t == piece@);
        }
        if piece.len() > 0 {
            let text_s = crate::unicode::chars_to_string(&piece);
            r.push(Fortune { source: source.clone(), text: text_s });
            proof {
                assert(r@ =~= pre.push(r@[pre.len() as int]));
                assert(r@[pre.len() as int].text@ == piece_t);
                assert(r@[pre.len() as int].source@ == source@);
            }
        }
        proof {
            assert(r@.len() == pre.len() + head.len());
            assert forall|k: int|
                0 <= k < r@.len() implies (#[trigger] r@[k]).source@ == source@ && r@[k].text@
                == kept_pieces(text@)[k] by {
                if k < pre.len() {
                    assert(r@[k] == pre[k]);
                } else {
                    assert(kept_pieces(rest)[0] == kept_pieces(text@)[pre.len() as int]);
                    assert(kept_pieces(rest)[0] == piece_t);
                }
            }
        }
        if b < n {
            a = b + 1;
            proof {
                assert(rest.skip((b - a0) + 1) =~= cs@.skip(a as int));
                assert(kept_pieces(rest) == head + kept_pieces(cs@.skip(a as int)));
                assert forall|k: int|
                    0 <= k < kept_pieces(cs@.skip(a as int)).len() implies #[trigger] kept_pieces(
                    cs@.skip(a as int),
                )[k] == kept_pieces(text@)[r@.len() + k] by {
                    assert(kept_pieces(rest)[head.len() + k] == kept_pieces(cs@.skip(a as int))[k]);
                    assert(kept_pieces(rest)[head.len() + k] == kept_pieces(text@)[pre.len()
                        + head.len() + k]);
                }
            }
        } else {
            proof {
                assert(kept_pieces(rest) == head);
            }
            break ;
        }
    }
    r
}

/// Relies on `rand::rngs::StdRng::seed_from_u64` and
/// `SliceRandom::choose`: choosing from a slice yields one of its
/// elements, and `None` exactly when it is empty.
#[verifier::external_body]
fn choose_seeded<'a>(fortunes: &'a Vec<Fortune>, seed: u64) -> (r: Option<&'a Fortune>)
    ensures
        r is None <==> fortunes@.len() == 0,
        r matches Some(f) ==> exists|i: int| 0 <= i < fortunes@.len() && *f == fortunes@[i],
{
    let mut rng = <rand::rngs::StdRng as rand::SeedableRng>::seed_from_u64(seed);
    rand::seq::SliceRandom::choose(fortunes.as_slice(), &mut rng)
}

/// Relies on `rand::thread_rng` and `SliceRandom::choose`: choosing
/// from a slice yields one of its elements, and `None` exactly when it
/// is empty.
#[verifier::external_body]
fn choose_unseeded<'a>(fortunes: &'a Vec<Fortune>) -> (r: Option<&'a Fortune>)
    ensures
        r is None <==> fortunes@.len() == 0,
        r matches Some(f) ==> exists|i: int| 0 <= i < fortunes@.len() && *f == fortunes@[i],
{
    let mut rng = rand::thread_rng();
    rand::seq::SliceRandom::choose(fortunes.as_slice(), &mut rng)
}

/// Pick one fortune's text: none exactly when there are no fortunes.
/// With a seed the pick is driven by a seeded generator, without one by
/// the thread's; either way the result is one of the given texts.
pub fn pick_fortune(fortunes: &Vec<Fortune>, seed: Option<u64>) -> (r: Option<String>)
    ensures
        r is Some <==> fortunes@.len() > 0,
        r matches Some(t) ==> exists|i: int|
            0 <= i < fortunes@.len() && t@ == (#[trigger] fortunes@[i]).text@,
{
    let chosen = match seed {
        Some(state) => choose_seeded(fortunes, state),
        None => choose_unseeded(fortunes),
    };
    match chosen {
        Some(f) => Some(f.text.clone()),
        None => None,
    }
}

} // verus!
