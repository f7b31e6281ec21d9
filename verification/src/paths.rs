//! File-system paths as text, joined the way `std::path::Path::join` joins
//! them on Unix.
use vstd::prelude::*;
use crate::text::{push_str, chars_of};

verus! {

broadcast use vstd::string::group_string_axioms;

/// `comp` appended to `base`: an absolute `comp` replaces `base`; otherwise a
/// `/` goes between them unless `base` is empty or already ends with one.
pub open spec fn joined(base: Seq<char>, comp: Seq<char>) -> Seq<char> {
    if comp.len() > 0 && comp[0] == '/' {
        comp
    } else if base.len() == 0 || base.last() == '/' {
        base + comp
    } else {
        base + "/"@ + comp
    }
}

/// Joins a path component onto a base path.
pub fn join_path(base: &str, comp: &str) -> (r: String)
    ensures
        r@ == joined(base@, comp@),
{
    proof {
        reveal_strlit("/");
    }
    let b = chars_of(base);
    let c = chars_of(comp);
    let mut r = String::new();
    if c.len() > 0 && c[0] == '/' {
        push_str(&mut r, comp);
    } else if b.len() == 0 || b[b.len() - 1] == '/' {
        push_str(&mut r, base);
        push_str(&mut r, comp);
    } else {
        push_str(&mut r, base);
        push_str(&mut r, "/");
        push_str(&mut r, comp);
    }
    assert(r@ =~= joined(base@, comp@));
    r
}

} // verus!
