//! Numbered identifiers such as `poi-007` and `mark-012`: reading their
//! numbers back and choosing the next one.
use vstd::prelude::*;
use crate::text::{
    u32_text, read_u32_text, chars_of, dec, dec_pad, pad_left, digits_value, all_digits, pow10, lemma_digits_concat, lemma_zeros,
    lemma_dec_digits, push_str, push_dec_pad, owned, is_digit,
};

verus! {

broadcast use vstd::string::group_string_axioms;

/// The number of an identifier made of `prefix` and a `u32` (as
/// `u32::from_str` reads it); none for any other identifier.
pub open spec fn id_number(id: Seq<char>, prefix: Seq<char>) -> Option<u32> {
    if prefix.len() <= id.len() && id.take(prefix.len() as int) == prefix {
        u32_text(id.skip(prefix.len() as int))
    } else {
        None
    }
}

/// The largest number among the identifiers, if any has one.
pub open spec fn max_number(ids: Seq<Seq<char>>, prefix: Seq<char>) -> Option<u32>
    decreases ids.len(),
{
    if ids.len() == 0 {
        None
    } else {
        let m = max_number(ids.drop_last(), prefix);
        match id_number(ids.last(), prefix) {
            None => m,
            Some(n) => match m {
                None => Some(n),
                Some(k) => Some(if n >= k { n } else { k }),
            },
        }
    }
}

/// The number of the next identifier: one past the largest, or 1.
pub open spec fn next_number(ids: Seq<Seq<char>>, prefix: Seq<char>) -> int {
    match max_number(ids, prefix) {
        Some(n) => n + 1,
        None => 1,
    }
}

/// The identifier numbered `n`: `prefix` and `n` with at least three digits.
pub open spec fn numbered_id(prefix: Seq<char>, n: u32) -> Seq<char> {
    prefix + dec_pad(n as nat, 3)
}

/// The number of an identifier (see `id_number`).
pub fn read_id_number(id: &str, prefix: &str) -> (r: Option<u32>)
    ensures
        r == id_number(id@, prefix@),
{
    let c = chars_of(id);
    let p = chars_of(prefix);
    if p.len() > c.len() {
        return None;
    }
    let mut k: usize = 0;
    while k < p.len()
        invariant
            k <= p.len() <= c.len(),
            c@ == id@,
            p@ == prefix@,
            forall|q: int| 0 <= q < k ==> c@[q] == p@[q],
        decreases p.len() - k,
    {
        if c[k] != p[k] {
            assert(c@.take(p.len() as int)[k as int] != p@[k as int]);
            return None;
        }
        k += 1;
    }
    assert(c@.take(p.len() as int) =~= p@);
    let mut rest: Vec<char> = Vec::new();
    let mut j: usize = p.len();
    while j < c.len()
        invariant
            p.len() <= j <= c.len(),
            rest@ == c@.subrange(p.len() as int, j as int),
        decreases c.len() - j,
    {
        rest.push(c[j]);
        assert(rest@ =~= c@.subrange(p.len() as int, j + 1));
        j += 1;
    }
    assert(rest@ =~= c@.skip(p.len() as int));
    read_u32_text(&rest)
}

/// The largest number bounds every identifier's number.
pub proof fn lemma_max_number(ids: Seq<Seq<char>>, prefix: Seq<char>)
    ensures
        forall|i: int|
            0 <= i < ids.len() ==> (#[trigger] id_number(ids[i], prefix) matches Some(k) ==> (
            max_number(ids, prefix) matches Some(m) && k <= m)),
    decreases ids.len(),
{
    if ids.len() > 0 {
        lemma_max_number(ids.drop_last(), prefix);
        assert forall|i: int|
            0 <= i < ids.len() implies (#[trigger] id_number(ids[i], prefix) matches Some(k) ==> (
            max_number(ids, prefix) matches Some(m) && k <= m)) by {
            if i < ids.len() - 1 {
                assert(ids[i] == ids.drop_last()[i]);
            }
        }
    }
}

/// A numbered identifier reads back as its number.
pub proof fn lemma_numbered_id(prefix: Seq<char>, n: u32)
    ensures
        id_number(numbered_id(prefix, n), prefix) == Some(n),
{
    let d = dec(n as nat);
    lemma_dec_digits(n as nat);
    let s = dec_pad(n as nat, 3);
    let id = numbered_id(prefix, n);
    assert(id.take(prefix.len() as int) =~= prefix);
    assert(id.skip(prefix.len() as int) =~= s);
    if d.len() < 3 {
        let z = Seq::new((3 - d.len()) as nat, |_i: int| '0');
        lemma_zeros((3 - d.len()) as nat);
        lemma_digits_concat(z, d);
        assert(s == z + d);
        assert forall|i: int| 0 <= i < s.len() implies is_digit(#[trigger] s[i]) by {
            if i < z.len() {
                assert(s[i] == z[i]);
            } else {
                assert(s[i] == d[i - z.len()]);
            }
        }
    }
    assert(s.len() > 0);
    assert(s[0] != '+');
    assert(s.subrange(0, s.len() as int) =~= s);
    assert(all_digits(s));
    assert(digits_value(s) == n);
}

/// The identifier chosen next is new: no existing identifier has it.
pub proof fn law_next_id_is_fresh(ids: Seq<Seq<char>>, prefix: Seq<char>)
    requires
        next_number(ids, prefix) <= u32::MAX,
    ensures
        forall|i: int| 0 <= i < ids.len() ==> #[trigger] ids[i] != numbered_id(prefix, next_number(ids, prefix) as u32),
{
    let n = next_number(ids, prefix) as u32;
    lemma_numbered_id(prefix, n);
    lemma_max_number(ids, prefix);
    assert forall|i: int| 0 <= i < ids.len() implies #[trigger] ids[i] != numbered_id(prefix, n) by {
        if ids[i] == numbered_id(prefix, n) {
            assert(id_number(ids[i], prefix) == Some(n));
        }
    }
}

/// Formats a numbered identifier (see `numbered_id`).
pub fn format_id(prefix: &str, n: u32) -> (r: String)
    ensures
        r@ == numbered_id(prefix@, n),
{
    let mut r = owned(prefix);
    push_dec_pad(&mut r, n as u64, 3);
    r
}

} // verus!
