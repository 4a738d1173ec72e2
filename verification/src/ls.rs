//! Rendering Unix permission bits as the familiar `rwxr-xr-x` triples.

use vstd::prelude::*;

use vstd::string::StringExecFns;

verus! {

/// Whose permission triple of a file mode is being read.
#[derive(Debug, Clone, Copy, PartialEq, Eq, Structural)]
pub enum Owner {
    User,
    Group,
    Other,
}

impl Owner {
    /// The read, write and execute mask bits for this owner class.
    pub open spec fn spec_masks(self) -> (u32, u32, u32) {
        match self {
            Owner::User => (0o400u32, 0o200u32, 0o100u32),
            Owner::Group => (0o040u32, 0o020u32, 0o010u32),
            Owner::Other => (0o004u32, 0o002u32, 0o001u32),
        }
    }

    /// The read, write and execute mask bits for this owner class.
    pub fn masks(&self) -> (r: (u32, u32, u32))
        ensures
            r == self.spec_masks(),
    {
        match self {
            Owner::User => (0o400, 0o200, 0o100),
            Owner::Group => (0o040, 0o020, 0o010),
            Owner::Other => (0o004, 0o002, 0o001),
        }
    }
}

/// Is this a hidden entry name: one that starts with a dot?
pub fn is_hidden_name(name: &str) -> (r: bool)
    ensures
        r == (name@.len() > 0 && name@[0] == '.'),
{
    if name.unicode_len() == 0 {
        return false;
    }
    name.get_char(0) == '.'
}

/// The `rwx` triple selected from `mode` by the three mask bits: each
/// position shows its letter when its bit is set and `-` otherwise.
pub open spec fn triple_chars(mode: u32, r: u32, w: u32, x: u32) -> Seq<char> {
    seq![
        if mode & r == 0 {
            '-'
        } else {
            'r'
        },
        if mode & w == 0 {
            '-'
        } else {
            'w'
        },
        if mode & x == 0 {
            '-'
        } else {
            'x'
        },
    ]
}

/// The triple of `mode` for one owner class.
pub open spec fn spec_mk_triple(mode: u32, owner: Owner) -> Seq<char> {
    triple_chars(mode, owner.spec_masks().0, owner.spec_masks().1, owner.spec_masks().2)
}

/// Given a file mode in octal form like `0o751`, render one owner
/// class's permissions, like `rwx`.
pub fn mk_triple(mode: u32, owner: Owner) -> (res: String)
    ensures
        res@ == spec_mk_triple(mode, owner),
{
    let m = owner.masks();
    let mut v: Vec<char> = Vec::new();
    v.push(if mode & m.0 == 0 {
        '-'
    } else {
        'r'
    });
    v.push(if mode & m.1 == 0 {
        '-'
    } else {
        'w'
    });
    v.push(if mode & m.2 == 0 {
        '-'
    } else {
        'x'
    });
    proof {
        assert(v@ =~= spec_mk_triple(mode, owner));
    }
    crate::unicode::chars_to_string(&v)
}

/// One owner class's triple as `format_mode` derives it from a single
/// read mask: the write and execute bits are the mask shifted down.
pub open spec fn shifted_triple(mode: u32, mask: u32) -> Seq<char> {
    seq![
        if mode & mask == mask {
            'r'
        } else {
            '-'
        },
        if mode & (mask >> 1) == (mask >> 1) {
            'w'
        } else {
            '-'
        },
        if mode & (mask >> 2) == (mask >> 2) {
            'x'
        } else {
            '-'
        },
    ]
}

/// The nine-character permission string of `mode`: the user, group and
/// other triples in order.
pub open spec fn spec_format_mode(mode: u32) -> Seq<char> {
    shifted_triple(mode, 0o400) + shifted_triple(mode, 0o040) + shifted_triple(mode, 0o004)
}

/// Given a file mode in octal form like `0o751`, return a string like
/// `rwxr-x--x`.
pub fn format_mode(mode: u32) -> (res: String)
    ensures
        res@ == spec_format_mode(mode),
{
    let mut v: Vec<char> = Vec::new();
    push_shifted_triple(&mut v, mode, 0o400);
    push_shifted_triple(&mut v, mode, 0o040);
    push_shifted_triple(&mut v, mode, 0o004);
    proof {
        assert(v@ =~= spec_format_mode(mode));
    }
    crate::unicode::chars_to_string(&v)
}

/// Append one owner class's triple, derived from its read mask.
fn push_shifted_triple(v: &mut Vec<char>, mode: u32, mask: u32)
    ensures
        final(v)@ == old(v)@ + shifted_triple(mode, mask),
{
    v.push(if mode & mask == mask {
        'r'
    } else {
        '-'
    });
    v.push(if mode & (mask >> 1) == (mask >> 1) {
        'w'
    } else {
        '-'
    });
    v.push(if mode & (mask >> 2) == (mask >> 2) {
        'x'
    } else {
        '-'
    });
    proof {
        assert(v@ =~= old(v)@ + shifted_triple(mode, mask));
    }
}

/// The nine-character permission string assembled from the three owner
/// triples of [`mk_triple`].
pub fn formate_mode_og(mode: u32) -> (res: String)
    ensures
        res@ == spec_mk_triple(mode, Owner::User) + spec_mk_triple(mode, Owner::Group)
            + spec_mk_triple(mode, Owner::Other),
{
    let mut s = mk_triple(mode, Owner::User);
    let g = mk_triple(mode, Owner::Group);
    let o = mk_triple(mode, Owner::Other);
    s.append(g.as_str());
    s.append(o.as_str());
    s
}

} // verus!
