use vstd::prelude::*;

verus! {

broadcast use vstd::string::group_string_axioms;

// ---------------------------------------------------------------------------
// Characters and strings
// ---------------------------------------------------------------------------

/// Appends one character to a string.
#[verifier::external_body]
pub(crate) fn push_char(s: &mut String, c: char)
    ensures
        final(s)@ == old(s)@.push(c),
{
    s.push(c);
}

/// Appends the characters of `t` to a string.
pub fn push_str(s: &mut String, t: &str)
    ensures
        final(s)@ == old(s)@ + t@,
{
    s.append(t);
}

/// The characters of a string slice, in order.
pub fn chars_of(s: &str) -> (v: Vec<char>)
    ensures
        v@ == s@,
{
    let mut v: Vec<char> = Vec::new();
    for c in it: s.chars()
        invariant
            v@ == it.seq().take(it.index() as int),
            it.seq() == s@,
    {
        v.push(c);
    }
    v
}

/// Builds a string from a sequence of characters.
pub fn string_of(v: &[char]) -> (s: String)
    ensures
        s@ == v@,
{
    let mut s = String::new();
    let mut i: usize = 0;
    while i < v.len()
        invariant
            i <= v.len(),
            s@ == v@.take(i as int),
        decreases v.len() - i,
    {
        push_char(&mut s, v[i]);
        assert(v@.take(i as int).push(v@[i as int]) =~= v@.take(i + 1));
        i += 1;
    }
    assert(v@.take(v.len() as int) =~= v@);
    s
}

/// A copy of a string slice as an owned string.
pub fn owned(s: &str) -> (r: String)
    ensures
        r@ == s@,
{
    let mut r = String::new();
    r.append(s);
    assert(r@ =~= s@);
    r
}

/// A copy of a string.
pub fn copy_string(s: &String) -> (r: String)
    ensures
        r@ == s@,
{
    s.clone()
}

/// Character-wise equality of two string slices.
pub fn str_eq(a: &str, b: &str) -> (r: bool)
    ensures
        r == (a@ == b@),
{
    let x = chars_of(a);
    let y = chars_of(b);
    chars_eq(&x, &y)
}

/// Element-wise equality of two character slices.
pub fn chars_eq(x: &[char], y: &[char]) -> (r: bool)
    ensures
        r == (x@ == y@),
{
    if x.len() != y.len() {
        return false;
    }
    let mut i: usize = 0;
    while i < x.len()
        invariant
            i <= x.len(),
            x.len() == y.len(),
            forall|j: int| 0 <= j < i ==> x@[j] == y@[j],
        decreases x.len() - i,
    {
        if x[i] != y[i] {
            return false;
        }
        i += 1;
    }
    assert(x@ =~= y@);
    true
}

// ---------------------------------------------------------------------------
// Decimal notation
// ---------------------------------------------------------------------------

/// The ASCII digit for `d` (meaningful for `d < 10`).
pub open spec fn digit_char(d: nat) -> char {
    (48 + d) as char
}

/// Whether `c` is an ASCII decimal digit.
pub open spec fn is_digit(c: char) -> bool {
    '0' <= c && c <= '9'
}

/// The value of an ASCII decimal digit.
pub open spec fn digit_value(c: char) -> nat {
    (c as int - 48) as nat
}

/// The shortest decimal notation of `n`, without sign or leading zeros.
pub open spec fn dec(n: nat) -> Seq<char>
    decreases n,
{
    if n < 10 {
        seq![digit_char(n)]
    } else {
        dec(n / 10).push(digit_char(n % 10))
    }
}

/// `s` preceded by as many copies of `c` as make it `width` long.
pub open spec fn pad_left(s: Seq<char>, width: nat, c: char) -> Seq<char> {
    if s.len() >= width {
        s
    } else {
        Seq::new((width - s.len()) as nat, |_i: int| c) + s
    }
}

/// Decimal notation of `n`, zero-padded to at least `width` characters.
pub open spec fn dec_pad(n: nat, width: nat) -> Seq<char> {
    pad_left(dec(n), width, '0')
}

/// Whether every character of `s` is an ASCII digit.
pub open spec fn all_digits(s: Seq<char>) -> bool {
    forall|i: int| 0 <= i < s.len() ==> is_digit(#[trigger] s[i])
}

/// The value of a string of ASCII digits.
pub open spec fn digits_value(s: Seq<char>) -> nat
    decreases s.len(),
{
    if s.len() == 0 {
        0
    } else {
        digits_value(s.drop_last()) * 10 + digit_value(s.last())
    }
}

/// The length of `dec(n)` is at least one.
pub proof fn lemma_dec_len(n: nat)
    ensures
        dec(n).len() >= 1,
        n < 10 ==> dec(n).len() == 1,
        10 <= n < 100 ==> dec(n).len() == 2,
        100 <= n < 1000 ==> dec(n).len() == 3,
    decreases n,
{
    if n >= 10 {
        lemma_dec_len(n / 10);
    }
}

/// `dec(n)` is made of digits and reads back as `n`.
pub proof fn lemma_dec_digits(n: nat)
    ensures
        all_digits(dec(n)),
        digits_value(dec(n)) == n,
    decreases n,
{
    if n < 10 {
        assert(dec(n).drop_last() =~= Seq::<char>::empty());
        assert(digit_value(digit_char(n)) == n);
        let s = dec(n);
        assert(s.last() == digit_char(n));
        assert(digits_value(s.drop_last()) == 0);
        assert(digits_value(s) == digits_value(s.drop_last()) * 10 + digit_value(s.last()));
    } else {
        assert((n / 10) * 10 + n % 10 == n) by (nonlinear_arith);
        lemma_dec_digits(n / 10);
        let s = dec(n);
        assert(s.drop_last() =~= dec(n / 10));
        assert(digit_value(digit_char(n % 10)) == n % 10);
        assert(s.last() == digit_char(n % 10));
        assert(digits_value(s) == digits_value(s.drop_last()) * 10 + digit_value(s.last()));
        assert(digits_value(s) == (n / 10) * 10 + n % 10);
        assert(all_digits(s)) by {
            assert forall|i: int| 0 <= i < s.len() implies is_digit(#[trigger] s[i]) by {
                if i < s.len() - 1 {
                    assert(s[i] == dec(n / 10)[i]);
                }
            }
        }
    }
}

/// Pushes the decimal digit for `d`.
fn push_digit(s: &mut String, d: u64)
    requires
        d < 10,
    ensures
        final(s)@ == old(s)@.push(digit_char(d as nat)),
{
    let c: char = if d == 0 {
        '0'
    } else if d == 1 {
        '1'
    } else if d == 2 {
        '2'
    } else if d == 3 {
        '3'
    } else if d == 4 {
        '4'
    } else if d == 5 {
        '5'
    } else if d == 6 {
        '6'
    } else if d == 7 {
        '7'
    } else if d == 8 {
        '8'
    } else {
        '9'
    };
    push_char(s, c);
}

/// Appends the decimal notation of `n`.
pub fn push_dec(s: &mut String, n: u64)
    ensures
        final(s)@ == old(s)@ + dec(n as nat),
    decreases n,
{
    if n < 10 {
        push_digit(s, n);
        assert(old(s)@.push(digit_char(n as nat)) =~= old(s)@ + dec(n as nat));
    } else {
        push_dec(s, n / 10);
        push_digit(s, n % 10);
        assert(dec(n as nat) == dec((n / 10) as nat).push(digit_char((n % 10) as nat)));
        assert(old(s)@ + dec((n / 10) as nat) + seq![digit_char((n % 10) as nat)] =~= old(s)@
            + dec(n as nat));
    }
}

/// Appends the decimal notation of `n`, zero-padded to `width` characters.
pub fn push_dec_pad(s: &mut String, n: u64, width: usize)
    ensures
        final(s)@ == old(s)@ + dec_pad(n as nat, width as nat),
{
    let digits = dec_len(n);
    let ghost start = s@;
    if digits < width {
        let mut k: usize = 0;
        while k < width - digits
            invariant
                digits < width,
                k <= width - digits,
                s@ == start + Seq::new(k as nat, |_i: int| '0'),
            decreases width - digits - k,
        {
            push_char(s, '0');
            assert(start + Seq::new(k as nat, |_i: int| '0') + seq!['0'] =~= start + Seq::new(
                (k + 1) as nat,
                |_i: int| '0',
            ));
            k += 1;
        }
    }
    let ghost mid = s@;
    push_dec(s, n);
    proof {
        if digits < width {
            assert(start + Seq::new((width - digits) as nat, |_i: int| '0') + dec(n as nat)
                =~= start + dec_pad(n as nat, width as nat));
        } else {
            assert(mid == start);
        }
    }
}

/// The number of characters of `dec(n)`.
pub fn dec_len(n: u64) -> (r: usize)
    ensures
        r == dec(n as nat).len(),
        1 <= r <= 20,
    decreases n,
{
    proof {
        assert(pow10(20) == 100_000_000_000_000_000_000) by {
            reveal_with_fuel(pow10, 21);
        }
        lemma_dec_smaller(n as nat, 20);
        lemma_dec_len(n as nat);
    }
    if n < 10 {
        1
    } else {
        let r = dec_len(n / 10);
        assert(dec(n as nat).len() == dec((n / 10) as nat).len() + 1);
        r + 1
    }
}

/// The decimal notation of a number below `10^k` has at most `k` digits.
proof fn lemma_dec_smaller(n: nat, k: nat)
    requires
        k >= 1,
        n < pow10(k),
    ensures
        dec(n).len() <= k,
    decreases n,
{
    if n >= 10 {
        assert(k >= 2) by {
            if k == 1 {
                assert(pow10(1) == 10 * pow10(0));
            }
        }
        assert(pow10(k) == 10 * pow10((k - 1) as nat));
        assert(n / 10 < pow10((k - 1) as nat));
        lemma_dec_smaller(n / 10, (k - 1) as nat);
    }
}

/// Leading zeros do not change a number: the value of `a + b` is the value
/// of `a` shifted by the length of `b`, plus that of `b`.
pub proof fn lemma_digits_concat(a: Seq<char>, b: Seq<char>)
    ensures
        digits_value(a + b) == digits_value(a) * pow10(b.len()) + digits_value(b),
    decreases b.len(),
{
    if b.len() == 0 {
        assert(a + b =~= a);
        assert(pow10(0) == 1);
        assert(digits_value(a) * 1 == digits_value(a));
    } else {
        let b1 = b.drop_last();
        lemma_digits_concat(a, b1);
        assert((a + b).drop_last() =~= a + b1);
        assert((a + b).last() == b.last());
        let x = digits_value(a);
        let p = pow10(b1.len());
        let y = digits_value(b1);
        let d = digit_value(b.last());
        assert(digits_value(a + b) == digits_value(a + b1) * 10 + d);
        assert(digits_value(b) == y * 10 + d);
        assert(pow10(b.len()) == 10 * p);
        assert((x * p + y) * 10 + d == x * (10 * p) + (y * 10 + d)) by (nonlinear_arith);
    }
}

/// A run of `0`s is worth nothing.
pub proof fn lemma_zeros(n: nat)
    ensures
        digits_value(Seq::new(n, |_i: int| '0')) == 0,
        all_digits(Seq::new(n, |_i: int| '0')),
    decreases n,
{
    if n > 0 {
        lemma_zeros((n - 1) as nat);
        assert(Seq::new(n, |_i: int| '0').drop_last() =~= Seq::new((n - 1) as nat, |_i: int| '0'));
    }
}

/// A run of digits is worth less than `10` to the power of its length.
pub proof fn lemma_digits_below(s: Seq<char>)
    requires
        all_digits(s),
    ensures
        digits_value(s) < pow10(s.len()),
    decreases s.len(),
{
    if s.len() > 0 {
        lemma_digits_below(s.drop_last());
        assert(is_digit(s.last()));
    }
}

/// A run of digits that starts with a digit other than `0` is worth at
/// least `10` to the power of its length less one.
pub proof fn lemma_digits_leading(s: Seq<char>)
    requires
        all_digits(s),
        s.len() > 0,
        s[0] != '0',
    ensures
        digits_value(s) >= pow10((s.len() - 1) as nat),
{
    let a = seq![s[0]];
    let b = s.drop_first();
    assert(a + b =~= s);
    lemma_digits_concat(a, b);
    assert(a.drop_last() =~= Seq::<char>::empty());
    assert(digits_value(Seq::<char>::empty()) == 0);
    assert(a.last() == s[0]);
    assert(digits_value(a) == digit_value(s[0]));
    assert(digit_value(s[0]) >= 1);
    assert(digits_value(a) * pow10(b.len()) >= pow10(b.len())) by (nonlinear_arith)
        requires digits_value(a) >= 1;
}

/// A run of `0`s, however it was built, is worth nothing.
pub proof fn lemma_all_zeros(s: Seq<char>)
    requires
        forall|k: int| 0 <= k < s.len() ==> s[k] == '0',
    ensures
        digits_value(s) == 0,
    decreases s.len(),
{
    if s.len() > 0 {
        lemma_all_zeros(s.drop_last());
    }
}

/// Dropping the last `j` digits divides by `10^j`.
pub proof fn lemma_digits_shift_down(s: Seq<char>, j: nat)
    requires
        all_digits(s),
        j <= s.len(),
    ensures
        digits_value(s) / pow10(j) == digits_value(s.take(s.len() - j)),
{
    let a = s.take(s.len() - j);
    let b = s.skip(s.len() - j);
    assert(a + b =~= s);
    lemma_digits_concat(a, b);
    assert(all_digits(b));
    lemma_digits_below(b);
    lemma_pow10_positive(j);
    vstd::arithmetic::div_mod::lemma_fundamental_div_mod_converse(
        digits_value(s) as int,
        pow10(j) as int,
        digits_value(a) as int,
        digits_value(b) as int,
    );
}

/// `10^k` is positive.
pub proof fn lemma_pow10_positive(k: nat)
    ensures
        pow10(k) >= 1,
    decreases k,
{
    if k > 0 {
        lemma_pow10_positive((k - 1) as nat);
    }
}

/// `10^k` grows with `k`.
pub proof fn lemma_pow10_grows(a: nat, b: nat)
    requires
        a <= b,
    ensures
        pow10(a) <= pow10(b),
    decreases b,
{
    if a < b {
        lemma_pow10_grows(a, (b - 1) as nat);
        lemma_pow10_positive((b - 1) as nat);
    }
}

/// `10^20` passes `u64::MAX`.
pub proof fn lemma_pow10_20()
    ensures
        pow10(20) == 100_000_000_000_000_000_000,
        pow10(20) > u64::MAX,
{
    reveal_with_fuel(pow10, 21);
}

/// `10^k`.
pub open spec fn pow10(k: nat) -> nat
    decreases k,
{
    if k == 0 {
        1
    } else {
        10 * pow10((k - 1) as nat)
    }
}

} // verus!

verus! {

// ---------------------------------------------------------------------------
// UTF-8 length
// ---------------------------------------------------------------------------

/// The number of bytes of a character in UTF-8.
pub open spec fn utf8_len(c: char) -> nat {
    if (c as u32) < 0x80 {
        1
    } else if (c as u32) < 0x800 {
        2
    } else if (c as u32) < 0x10000 {
        3
    } else {
        4
    }
}

/// The number of bytes of a string in UTF-8.
pub open spec fn utf8_bytes(s: Seq<char>) -> nat
    decreases s.len(),
{
    if s.len() == 0 {
        0
    } else {
        utf8_len(s[0]) + utf8_bytes(s.drop_first())
    }
}

/// How many leading characters of `s` fit in `budget` bytes of UTF-8.
pub open spec fn fit_count(s: Seq<char>, budget: int) -> nat
    decreases s.len(),
{
    if s.len() == 0 || utf8_len(s[0]) > budget {
        0
    } else {
        1 + fit_count(s.drop_first(), budget - utf8_len(s[0]))
    }
}

/// `fit_count` takes the longest prefix that fits, and all of `s` exactly
/// when `s` fits.
#[verifier::spinoff_prover]
pub proof fn lemma_fit_count(s: Seq<char>, budget: int)
    requires
        budget >= 0,
    ensures
        fit_count(s, budget) <= s.len(),
        utf8_bytes(s.take(fit_count(s, budget) as int)) <= budget || fit_count(s, budget) == 0,
        fit_count(s, budget) == s.len() <==> utf8_bytes(s) <= budget,
        fit_count(s, budget) < s.len() ==> utf8_bytes(s.take(fit_count(s, budget) + 1int)) > budget,
    decreases s.len(),
{
    if s.len() > 0 {
        let rest = s.drop_first();
        if utf8_len(s[0]) <= budget {
            lemma_fit_count(rest, budget - utf8_len(s[0]));
            let k: int = fit_count(rest, budget - utf8_len(s[0])) as int;
            assert(s.take(k + 1).drop_first() =~= rest.take(k));
            assert(s.take(k + 1)[0] == s[0]);
            assert(utf8_bytes(s.take(k + 1)) == utf8_len(s[0]) + utf8_bytes(rest.take(k)));
            if k < rest.len() {
                assert(s.take(k + 2).drop_first() =~= rest.take(k + 1));
                assert(s.take(k + 2)[0] == s[0]);
            }
        } else {
            assert(s.take(1).drop_first() =~= Seq::<char>::empty());
            assert(s.take(1)[0] == s[0]);
            assert(utf8_bytes(s.take(0)) == 0);
        }
    }
}

/// Appending a character adds its UTF-8 length.
pub proof fn lemma_utf8_bytes_push(s: Seq<char>, c: char)
    ensures
        utf8_bytes(s.push(c)) == utf8_bytes(s) + utf8_len(c),
    decreases s.len(),
{
    if s.len() == 0 {
        assert(s.push(c).drop_first() =~= Seq::<char>::empty());
        assert(utf8_bytes(Seq::<char>::empty()) == 0);
        assert(s.push(c)[0] == c);
    } else {
        assert(s.push(c).drop_first() =~= s.drop_first().push(c));
        assert(s.push(c)[0] == s[0]);
        lemma_utf8_bytes_push(s.drop_first(), c);
    }
}

/// The number of bytes of a character in UTF-8.
pub fn char_utf8_len(c: char) -> (r: usize)
    ensures
        r == utf8_len(c),
{
    let n = c as u32;
    if n < 0x80 {
        1
    } else if n < 0x800 {
        2
    } else if n < 0x10000 {
        3
    } else {
        4
    }
}

// ---------------------------------------------------------------------------
// Joining
// ---------------------------------------------------------------------------

/// The pieces concatenated with `sep` between neighbours.
pub open spec fn join(parts: Seq<Seq<char>>, sep: Seq<char>) -> Seq<char>
    decreases parts.len(),
{
    if parts.len() == 0 {
        Seq::empty()
    } else if parts.len() == 1 {
        parts[0]
    } else {
        join(parts.drop_last(), sep) + sep + parts.last()
    }
}

/// The views of a list of strings.
pub open spec fn strings_view(v: Seq<String>) -> Seq<Seq<char>> {
    v.map_values(|s: String| s@)
}

/// Concatenates the strings with `sep` between neighbours.
pub fn join_strings(parts: &Vec<String>, sep: &str) -> (r: String)
    ensures
        r@ == join(strings_view(parts@), sep@),
{
    let ghost pv = strings_view(parts@);
    let mut r = String::new();
    let mut i: usize = 0;
    while i < parts.len()
        invariant
            i <= parts.len(),
            pv == strings_view(parts@),
            r@ == join(pv.take(i as int), sep@),
        decreases parts.len() - i,
    {
        assert(pv.take(i + 1).drop_last() =~= pv.take(i as int));
        if i > 0 {
            push_str(&mut r, sep);
        }
        push_str(&mut r, parts[i].as_str());
        proof {
            if i == 0 {
                assert(r@ =~= pv.take(1)[0]);
            }
        }
        i += 1;
    }
    assert(pv.take(parts.len() as int) =~= pv);
    r
}

// ---------------------------------------------------------------------------
// White space
// ---------------------------------------------------------------------------

/// Whether `c` has the Unicode `White_Space` property (what
/// `char::is_whitespace` and the `\s` class of regular expressions test).
pub open spec fn is_white_space(c: char) -> bool {
    let n = c as u32;
    ||| 0x09 <= n <= 0x0D
    ||| n == 0x20
    ||| n == 0x85
    ||| n == 0xA0
    ||| n == 0x1680
    ||| 0x2000 <= n <= 0x200A
    ||| n == 0x2028
    ||| n == 0x2029
    ||| n == 0x202F
    ||| n == 0x205F
    ||| n == 0x3000
}

/// Tests `c` for the Unicode `White_Space` property.
pub fn white_space(c: char) -> (r: bool)
    ensures
        r == is_white_space(c),
{
    let n = c as u32;
    (0x09 <= n && n <= 0x0D) || n == 0x20 || n == 0x85 || n == 0xA0 || n == 0x1680 || (0x2000
        <= n && n <= 0x200A) || n == 0x2028 || n == 0x2029 || n == 0x202F || n == 0x205F || n
        == 0x3000
}

/// Tests `c` for an ASCII decimal digit.
pub fn ascii_digit(c: char) -> (r: bool)
    ensures
        r == is_digit(c),
{
    '0' <= c && c <= '9'
}

/// The value of an ASCII decimal digit.
pub fn ascii_digit_value(c: char) -> (r: u64)
    requires
        is_digit(c),
    ensures
        r == digit_value(c),
        r < 10,
{
    (c as u32 - 48) as u64
}

/// The first position at or after `j` that is not white space.
pub open spec fn ws_end(s: Seq<char>, j: int) -> int
    decreases s.len() - j,
{
    if j < 0 || j >= s.len() || !is_white_space(s[j]) {
        j
    } else {
        ws_end(s, j + 1)
    }
}

/// The first position at or after `j` that is not an ASCII digit.
pub open spec fn digits_end(s: Seq<char>, j: int) -> int
    decreases s.len() - j,
{
    if j < 0 || j >= s.len() || !is_digit(s[j]) {
        j
    } else {
        digits_end(s, j + 1)
    }
}

/// `ws_end` stays in bounds and skips only white space.
pub proof fn lemma_ws_end(s: Seq<char>, j: int)
    requires
        0 <= j <= s.len(),
    ensures
        j <= ws_end(s, j) <= s.len(),
        forall|k: int| j <= k < ws_end(s, j) ==> is_white_space(#[trigger] s[k]),
    decreases s.len() - j,
{
    if j < s.len() && is_white_space(s[j]) {
        lemma_ws_end(s, j + 1);
    }
}

/// `digits_end` stays in bounds and skips only digits.
pub proof fn lemma_digits_end(s: Seq<char>, j: int)
    requires
        0 <= j <= s.len(),
    ensures
        j <= digits_end(s, j) <= s.len(),
        forall|k: int| j <= k < digits_end(s, j) ==> is_digit(#[trigger] s[k]),
    decreases s.len() - j,
{
    if j < s.len() && is_digit(s[j]) {
        lemma_digits_end(s, j + 1);
    }
}

/// Whether `c` is a Unicode decimal digit (general category `Nd`), the
/// characters that `\d` stands for in a pattern.
pub open spec fn is_decimal(c: char) -> bool {
    let n = c as u32;
    ||| 0x0030 <= n <= 0x0039
    ||| 0x0660 <= n <= 0x0669
    ||| 0x06F0 <= n <= 0x06F9
    ||| 0x07C0 <= n <= 0x07C9
    ||| 0x0966 <= n <= 0x096F
    ||| 0x09E6 <= n <= 0x09EF
    ||| 0x0A66 <= n <= 0x0A6F
    ||| 0x0AE6 <= n <= 0x0AEF
    ||| 0x0B66 <= n <= 0x0B6F
    ||| 0x0BE6 <= n <= 0x0BEF
    ||| 0x0C66 <= n <= 0x0C6F
    ||| 0x0CE6 <= n <= 0x0CEF
    ||| 0x0D66 <= n <= 0x0D6F
    ||| 0x0DE6 <= n <= 0x0DEF
    ||| 0x0E50 <= n <= 0x0E59
    ||| 0x0ED0 <= n <= 0x0ED9
    ||| 0x0F20 <= n <= 0x0F29
    ||| 0x1040 <= n <= 0x1049
    ||| 0x1090 <= n <= 0x1099
    ||| 0x17E0 <= n <= 0x17E9
    ||| 0x1810 <= n <= 0x1819
    ||| 0x1946 <= n <= 0x194F
    ||| 0x19D0 <= n <= 0x19D9
    ||| 0x1A80 <= n <= 0x1A89
    ||| 0x1A90 <= n <= 0x1A99
    ||| 0x1B50 <= n <= 0x1B59
    ||| 0x1BB0 <= n <= 0x1BB9
    ||| 0x1C40 <= n <= 0x1C49
    ||| 0x1C50 <= n <= 0x1C59
    ||| 0xA620 <= n <= 0xA629
    ||| 0xA8D0 <= n <= 0xA8D9
    ||| 0xA900 <= n <= 0xA909
    ||| 0xA9D0 <= n <= 0xA9D9
    ||| 0xA9F0 <= n <= 0xA9F9
    ||| 0xAA50 <= n <= 0xAA59
    ||| 0xABF0 <= n <= 0xABF9
    ||| 0xFF10 <= n <= 0xFF19
    ||| 0x104A0 <= n <= 0x104A9
    ||| 0x10D30 <= n <= 0x10D39
    ||| 0x10D40 <= n <= 0x10D49
    ||| 0x11066 <= n <= 0x1106F
    ||| 0x110F0 <= n <= 0x110F9
    ||| 0x11136 <= n <= 0x1113F
    ||| 0x111D0 <= n <= 0x111D9
    ||| 0x112F0 <= n <= 0x112F9
    ||| 0x11450 <= n <= 0x11459
    ||| 0x114D0 <= n <= 0x114D9
    ||| 0x11650 <= n <= 0x11659
    ||| 0x116C0 <= n <= 0x116C9
    ||| 0x116D0 <= n <= 0x116E3
    ||| 0x11730 <= n <= 0x11739
    ||| 0x118E0 <= n <= 0x118E9
    ||| 0x11950 <= n <= 0x11959
    ||| 0x11BF0 <= n <= 0x11BF9
    ||| 0x11C50 <= n <= 0x11C59
    ||| 0x11D50 <= n <= 0x11D59
    ||| 0x11DA0 <= n <= 0x11DA9
    ||| 0x11F50 <= n <= 0x11F59
    ||| 0x16130 <= n <= 0x16139
    ||| 0x16A60 <= n <= 0x16A69
    ||| 0x16AC0 <= n <= 0x16AC9
    ||| 0x16B50 <= n <= 0x16B59
    ||| 0x16D70 <= n <= 0x16D79
    ||| 0x1CCF0 <= n <= 0x1CCF9
    ||| 0x1D7CE <= n <= 0x1D7FF
    ||| 0x1E140 <= n <= 0x1E149
    ||| 0x1E2F0 <= n <= 0x1E2F9
    ||| 0x1E4F0 <= n <= 0x1E4F9
    ||| 0x1E5F1 <= n <= 0x1E5FA
    ||| 0x1E950 <= n <= 0x1E959
    ||| 0x1FBF0 <= n <= 0x1FBF9
}

/// Whether `c` is a Unicode decimal digit (see `is_decimal`).
pub fn decimal_char(c: char) -> (r: bool)
    ensures
        r == is_decimal(c),
{
    let n = c as u32;
    (0x0030 <= n && n <= 0x0039) ||
        (0x0660 <= n && n <= 0x0669) ||
        (0x06F0 <= n && n <= 0x06F9) ||
        (0x07C0 <= n && n <= 0x07C9) ||
        (0x0966 <= n && n <= 0x096F) ||
        (0x09E6 <= n && n <= 0x09EF) ||
        (0x0A66 <= n && n <= 0x0A6F) ||
        (0x0AE6 <= n && n <= 0x0AEF) ||
        (0x0B66 <= n && n <= 0x0B6F) ||
        (0x0BE6 <= n && n <= 0x0BEF) ||
        (0x0C66 <= n && n <= 0x0C6F) ||
        (0x0CE6 <= n && n <= 0x0CEF) ||
        (0x0D66 <= n && n <= 0x0D6F) ||
        (0x0DE6 <= n && n <= 0x0DEF) ||
        (0x0E50 <= n && n <= 0x0E59) ||
        (0x0ED0 <= n && n <= 0x0ED9) ||
        (0x0F20 <= n && n <= 0x0F29) ||
        (0x1040 <= n && n <= 0x1049) ||
        (0x1090 <= n && n <= 0x1099) ||
        (0x17E0 <= n && n <= 0x17E9) ||
        (0x1810 <= n && n <= 0x1819) ||
        (0x1946 <= n && n <= 0x194F) ||
        (0x19D0 <= n && n <= 0x19D9) ||
        (0x1A80 <= n && n <= 0x1A89) ||
        (0x1A90 <= n && n <= 0x1A99) ||
        (0x1B50 <= n && n <= 0x1B59) ||
        (0x1BB0 <= n && n <= 0x1BB9) ||
        (0x1C40 <= n && n <= 0x1C49) ||
        (0x1C50 <= n && n <= 0x1C59) ||
        (0xA620 <= n && n <= 0xA629) ||
        (0xA8D0 <= n && n <= 0xA8D9) ||
        (0xA900 <= n && n <= 0xA909) ||
        (0xA9D0 <= n && n <= 0xA9D9) ||
        (0xA9F0 <= n && n <= 0xA9F9) ||
        (0xAA50 <= n && n <= 0xAA59) ||
        (0xABF0 <= n && n <= 0xABF9) ||
        (0xFF10 <= n && n <= 0xFF19) ||
        (0x104A0 <= n && n <= 0x104A9) ||
        (0x10D30 <= n && n <= 0x10D39) ||
        (0x10D40 <= n && n <= 0x10D49) ||
        (0x11066 <= n && n <= 0x1106F) ||
        (0x110F0 <= n && n <= 0x110F9) ||
        (0x11136 <= n && n <= 0x1113F) ||
        (0x111D0 <= n && n <= 0x111D9) ||
        (0x112F0 <= n && n <= 0x112F9) ||
        (0x11450 <= n && n <= 0x11459) ||
        (0x114D0 <= n && n <= 0x114D9) ||
        (0x11650 <= n && n <= 0x11659) ||
        (0x116C0 <= n && n <= 0x116C9) ||
        (0x116D0 <= n && n <= 0x116E3) ||
        (0x11730 <= n && n <= 0x11739) ||
        (0x118E0 <= n && n <= 0x118E9) ||
        (0x11950 <= n && n <= 0x11959) ||
        (0x11BF0 <= n && n <= 0x11BF9) ||
        (0x11C50 <= n && n <= 0x11C59) ||
        (0x11D50 <= n && n <= 0x11D59) ||
        (0x11DA0 <= n && n <= 0x11DA9) ||
        (0x11F50 <= n && n <= 0x11F59) ||
        (0x16130 <= n && n <= 0x16139) ||
        (0x16A60 <= n && n <= 0x16A69) ||
        (0x16AC0 <= n && n <= 0x16AC9) ||
        (0x16B50 <= n && n <= 0x16B59) ||
        (0x16D70 <= n && n <= 0x16D79) ||
        (0x1CCF0 <= n && n <= 0x1CCF9) ||
        (0x1D7CE <= n && n <= 0x1D7FF) ||
        (0x1E140 <= n && n <= 0x1E149) ||
        (0x1E2F0 <= n && n <= 0x1E2F9) ||
        (0x1E4F0 <= n && n <= 0x1E4F9) ||
        (0x1E5F1 <= n && n <= 0x1E5FA) ||
        (0x1E950 <= n && n <= 0x1E959) ||
        (0x1FBF0 <= n && n <= 0x1FBF9)
}

/// The first position at or after `j` that is not a Unicode decimal digit
/// (the length when none).
pub open spec fn decimals_end(s: Seq<char>, j: int) -> int
    decreases s.len() - j,
{
    if j < 0 || j >= s.len() || !is_decimal(s[j]) {
        j
    } else {
        decimals_end(s, j + 1)
    }
}

/// `decimals_end` stays in bounds and skips only decimal digits.
pub proof fn lemma_decimals_end(s: Seq<char>, j: int)
    requires
        0 <= j <= s.len(),
    ensures
        j <= decimals_end(s, j) <= s.len(),
        forall|k: int| j <= k < decimals_end(s, j) ==> is_decimal(#[trigger] s[k]),
    decreases s.len() - j,
{
    if j < s.len() && is_decimal(s[j]) {
        lemma_decimals_end(s, j + 1);
    }
}

/// ASCII digits end no later than decimal digits, and at the same place
/// exactly when every decimal digit of the run is an ASCII digit.
pub proof fn lemma_decimals_ascii(s: Seq<char>, j: int)
    requires
        0 <= j <= s.len(),
    ensures
        digits_end(s, j) <= decimals_end(s, j),
        (digits_end(s, j) == decimals_end(s, j)) == all_digits(s.subrange(j, decimals_end(s, j))),
    decreases s.len() - j,
{
    lemma_decimals_end(s, j);
    if j < s.len() && is_decimal(s[j]) {
        lemma_decimals_end(s, j + 1);
        let e = decimals_end(s, j);
        assert(s.subrange(j, e)[0] == s[j]);
        if is_digit(s[j]) {
            lemma_decimals_ascii(s, j + 1);
            assert(s.subrange(j + 1, e) =~= s.subrange(j, e).drop_first());
            assert(all_digits(s.subrange(j, e)) == all_digits(s.subrange(j + 1, e))) by {
                if all_digits(s.subrange(j + 1, e)) {
                    assert forall|k: int| 0 <= k < s.subrange(j, e).len() implies is_digit(
                        #[trigger] s.subrange(j, e)[k],
                    ) by {
                        if k > 0 {
                            assert(s.subrange(j, e)[k] == s.subrange(j + 1, e)[k - 1]);
                        }
                    }
                }
                if all_digits(s.subrange(j, e)) {
                    assert forall|k: int| 0 <= k < s.subrange(j + 1, e).len() implies is_digit(
                        #[trigger] s.subrange(j + 1, e)[k],
                    ) by {
                        assert(s.subrange(j + 1, e)[k] == s.subrange(j, e)[k + 1]);
                    }
                }
            }
        }
    } else {
        assert(s.subrange(j, decimals_end(s, j)) =~= Seq::<char>::empty());
    }
}

/// Skips Unicode decimal digits from position `j`.
pub fn skip_decimals(c: &Vec<char>, j: usize) -> (k: usize)
    requires
        j <= c.len(),
    ensures
        k == decimals_end(c@, j as int),
{
    let mut k = j;
    while k < c.len() && decimal_char(c[k])
        invariant
            j <= k <= c.len(),
            decimals_end(c@, j as int) == decimals_end(c@, k as int),
        decreases c.len() - k,
    {
        k += 1;
    }
    k
}

/// Whether every character of `c` is an ASCII digit.
pub fn all_ascii_digits(c: &Vec<char>) -> (r: bool)
    ensures
        r == all_digits(c@),
{
    let mut k: usize = 0;
    while k < c.len()
        invariant
            k <= c.len(),
            forall|i: int| 0 <= i < k ==> is_digit(#[trigger] c@[i]),
        decreases c.len() - k,
    {
        if !ascii_digit(c[k]) {
            return false;
        }
        k += 1;
    }
    true
}

/// Skips white space from position `j`.
pub fn skip_white_space(c: &Vec<char>, j: usize) -> (k: usize)
    requires
        j <= c.len(),
    ensures
        k == ws_end(c@, j as int),
{
    let mut k = j;
    while k < c.len() && white_space(c[k])
        invariant
            j <= k <= c.len(),
            ws_end(c@, j as int) == ws_end(c@, k as int),
        decreases c.len() - k,
    {
        k += 1;
    }
    k
}

/// Skips ASCII digits from position `j`.
pub fn skip_digits(c: &Vec<char>, j: usize) -> (k: usize)
    requires
        j <= c.len(),
    ensures
        k == digits_end(c@, j as int),
{
    let mut k = j;
    while k < c.len() && ascii_digit(c[k])
        invariant
            j <= k <= c.len(),
            digits_end(c@, j as int) == digits_end(c@, k as int),
        decreases c.len() - k,
    {
        k += 1;
    }
    k
}

// ---------------------------------------------------------------------------
// Lines and trimming
// ---------------------------------------------------------------------------

/// Splitting `s` at line feeds, as far as it has been read: the finished
/// lines and the line being read.
pub open spec fn lines_acc(s: Seq<char>) -> (Seq<Seq<char>>, Seq<char>)
    decreases s.len(),
{
    if s.len() == 0 {
        (Seq::empty(), Seq::empty())
    } else {
        let (done, cur) = lines_acc(s.drop_last());
        if s.last() == '\n' {
            (done.push(cur), Seq::empty())
        } else {
            (done, cur.push(s.last()))
        }
    }
}

/// The lines of `s` (what `str::lines` yields, up to a carriage return at
/// the end of a line): the text between line feeds, where a final line feed
/// ends the last line rather than starting an empty one.
pub open spec fn lines_of(s: Seq<char>) -> Seq<Seq<char>> {
    let (done, cur) = lines_acc(s);
    if cur.len() > 0 {
        done.push(cur)
    } else {
        done
    }
}

/// The views of a list of character vectors.
pub open spec fn rows_view(v: Seq<Vec<char>>) -> Seq<Seq<char>> {
    v.map_values(|r: Vec<char>| r@)
}

/// Splits a text into its lines (see `lines_of`).
pub fn split_lines(s: &str) -> (r: Vec<Vec<char>>)
    ensures
        rows_view(r@) == lines_of(s@),
        r.len() <= s@.len(),
{
    let c = chars_of(s);
    let mut done: Vec<Vec<char>> = Vec::new();
    let mut cur: Vec<char> = Vec::new();
    let mut i: usize = 0;
    while i < c.len()
        invariant
            i <= c.len(),
            c@ == s@,
            (rows_view(done@), cur@) == lines_acc(c@.take(i as int)),
            done.len() + (if cur.len() > 0 { 1int } else { 0int }) <= i,
        decreases c.len() - i,
    {
        assert(c@.take(i + 1).drop_last() =~= c@.take(i as int));
        if c[i] == '\n' {
            let line = cur;
            cur = Vec::new();
            done.push(line);
            assert(rows_view(done@) =~= lines_acc(c@.take(i as int)).0.push(
                lines_acc(c@.take(i as int)).1,
            ));
        } else {
            cur.push(c[i]);
        }
        i += 1;
    }
    assert(c@.take(c.len() as int) =~= c@);
    if cur.len() > 0 {
        let ghost before = rows_view(done@);
        done.push(cur);
        assert(rows_view(done@) =~= before.push(lines_acc(c@).1));
    }
    done
}

/// The index just past the last character of `s` that is not white space
/// (0 when there is none).
pub open spec fn trim_end_index(s: Seq<char>) -> int
    decreases s.len(),
{
    if s.len() == 0 {
        0
    } else if is_white_space(s.last()) {
        trim_end_index(s.drop_last())
    } else {
        s.len() as int
    }
}

/// `s` without white space at either end (what `str::trim` gives).
pub open spec fn trimmed(s: Seq<char>) -> Seq<char> {
    if ws_end(s, 0) >= trim_end_index(s) {
        Seq::empty()
    } else {
        s.subrange(ws_end(s, 0), trim_end_index(s))
    }
}

pub proof fn lemma_trim_end_index(s: Seq<char>)
    ensures
        0 <= trim_end_index(s) <= s.len(),
        trim_end_index(s) > 0 ==> !is_white_space(s[trim_end_index(s) - 1]),
        forall|k: int| trim_end_index(s) <= k < s.len() ==> is_white_space(#[trigger] s[k]),
    decreases s.len(),
{
    if s.len() > 0 && is_white_space(s.last()) {
        lemma_trim_end_index(s.drop_last());
        assert forall|k: int| trim_end_index(s) <= k < s.len() implies is_white_space(
            #[trigger] s[k],
        ) by {
            if k < s.len() - 1 {
                assert(s[k] == s.drop_last()[k]);
            }
        }
    }
}

/// Trims white space from both ends of a line.
pub fn trim_chars(v: &Vec<char>) -> (r: Vec<char>)
    ensures
        r@ == trimmed(v@),
{
    let a = skip_white_space(v, 0);
    let mut b: usize = v.len();
    proof {
        lemma_ws_end(v@, 0);
        lemma_trim_end_index(v@);
        assert(v@.take(b as int) =~= v@);
    }
    while b > 0 && white_space(v[b - 1])
        invariant
            b <= v.len(),
            trim_end_index(v@) == trim_end_index(v@.take(b as int)),
        decreases b,
    {
        assert(v@.take(b as int).drop_last() =~= v@.take(b - 1));
        b -= 1;
    }
    proof {
        if b > 0 {
            assert(v@.take(b as int).last() == v@[b - 1]);
        }
    }
    let mut r: Vec<char> = Vec::new();
    if a < b {
        let mut k = a;
        while k < b
            invariant
                a <= k <= b <= v.len(),
                r@ == v@.subrange(a as int, k as int),
            decreases b - k,
        {
            r.push(v[k]);
            assert(r@ =~= v@.subrange(a as int, k + 1));
            k += 1;
        }
    }
    proof {
        if a >= b {
            assert(r@ =~= Seq::<char>::empty());
        }
    }
    r
}

/// A string without white space at either end (`str::trim`).
pub fn trim_str(s: &str) -> (r: String)
    ensures
        r@ == trimmed(s@),
{
    let c = chars_of(s);
    let t = trim_chars(&c);
    string_of(t.as_slice())
}

// ---------------------------------------------------------------------------
// Unsigned integers
// ---------------------------------------------------------------------------

/// A `u32` as `u32::from_str` reads it: an optional `+`, then ASCII digits,
/// within range.
pub open spec fn u32_text(t: Seq<char>) -> Option<u32> {
    let b: int = if t.len() > 0 && t[0] == '+' { 1 } else { 0 };
    let d = t.subrange(b, t.len() as int);
    if d.len() > 0 && crate::text::all_digits(d) && digits_value(d) <= u32::MAX {
        Some(digits_value(d) as u32)
    } else {
        None
    }
}

/// Reads a `u32` (see `u32_text`).
pub fn read_u32_text(t: &Vec<char>) -> (r: Option<u32>)
    ensures
        r == u32_text(t@),
{
    let b: usize = if t.len() > 0 && t[0] == '+' { 1 } else { 0 };
    if t.len() == b {
        return None;
    }
    let mut acc: u64 = 0;
    let mut k = b;
    while k < t.len()
        invariant
            b <= k <= t.len(),
            b == (if t.len() > 0 && t@[0] == '+' { 1int } else { 0int }),
            all_digits(t@.subrange(b as int, k as int)),
            acc == digits_value(t@.subrange(b as int, k as int)),
            acc <= u32::MAX,
        decreases t.len() - k,
    {
        if !ascii_digit(t[k]) {
            assert(!all_digits(t@.subrange(b as int, t.len() as int))) by {
                assert(t@.subrange(b as int, t.len() as int)[k - b] == t@[k as int]);
            }
            return None;
        }
        let v = ascii_digit_value(t[k]);
        assert(t@.subrange(b as int, k + 1).drop_last() =~= t@.subrange(b as int, k as int));
        assert(t@.subrange(b as int, k + 1).last() == t@[k as int]);
        acc = acc * 10 + v;
        if acc > u32::MAX as u64 {
            proof {
                lemma_prefix_value(t@.subrange(b as int, t.len() as int), (k + 1 - b) as int);
                assert(t@.subrange(b as int, t.len() as int).take((k + 1 - b) as int) =~= t@.subrange(b as int, k + 1));
            }
            return None;
        }
        k += 1;
    }
    Some(acc as u32)
}

/// A string of digits is worth at least any of its prefixes.
pub proof fn lemma_prefix_value(d: Seq<char>, n: int)
    requires
        0 <= n <= d.len(),
    ensures
        digits_value(d) >= digits_value(d.take(n)),
    decreases d.len() - n,
{
    if n < d.len() {
        lemma_prefix_value(d, n + 1);
        assert(d.take(n + 1).drop_last() =~= d.take(n));
    } else {
        assert(d.take(n) =~= d);
    }
}

} // verus!
