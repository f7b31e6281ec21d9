//! Matching free text against a transcript's words: an exact match of the
//! normalised words first, then a match that tolerates small typos.
use vstd::prelude::*;
use crate::models::{Transcript, WordView};
use crate::resolve::{all_words, flatten_words};
use crate::text::{is_white_space, white_space, chars_of, string_of, utf8_len, utf8_bytes, char_utf8_len, str_eq};

verus! {

broadcast use vstd::string::group_string_axioms;

// ---------------------------------------------------------------------------
// Normalising words
// ---------------------------------------------------------------------------

/// The lower-case form of a text, as Unicode defines it (what
/// `str::to_lowercase` returns).
pub uninterp spec fn lowercase(s: Seq<char>) -> Seq<char>;

/// Calls `str::to_lowercase`. The result is named `lowercase` of the
/// argument's characters; nothing more is stated of Unicode's case mapping.
#[verifier::external_body]
fn to_lowercase(s: &str) -> (r: String)
    ensures
        r@ == lowercase(s@),
{
    s.to_lowercase()
}

/// Whether `c` is ASCII punctuation (`char::is_ascii_punctuation`).
pub open spec fn is_ascii_punct(c: char) -> bool {
    let n = c as u32;
    (33 <= n <= 47) || (58 <= n <= 64) || (91 <= n <= 96) || (123 <= n <= 126)
}

fn ascii_punct(c: char) -> (r: bool)
    ensures
        r == is_ascii_punct(c),
{
    let n = c as u32;
    (33 <= n && n <= 47) || (58 <= n && n <= 64) || (91 <= n && n <= 96) || (123 <= n && n <= 126)
}

/// The first position at or after `j` that is not ASCII punctuation.
pub open spec fn punct_end(s: Seq<char>, j: int) -> int
    decreases s.len() - j,
{
    if j < 0 || j >= s.len() || !is_ascii_punct(s[j]) {
        j
    } else {
        punct_end(s, j + 1)
    }
}

/// The index just past the last character of `s` that is not ASCII
/// punctuation (0 when there is none).
pub open spec fn punct_start_from_end(s: Seq<char>) -> int
    decreases s.len(),
{
    if s.len() == 0 {
        0
    } else if is_ascii_punct(s.last()) {
        punct_start_from_end(s.drop_last())
    } else {
        s.len() as int
    }
}

/// `s` without ASCII punctuation at either end.
pub open spec fn trim_punct(s: Seq<char>) -> Seq<char> {
    if punct_end(s, 0) >= punct_start_from_end(s) {
        Seq::empty()
    } else {
        s.subrange(punct_end(s, 0), punct_start_from_end(s))
    }
}

/// A word in normal form: lower case, without punctuation at either end.
pub open spec fn normalized(w: Seq<char>) -> Seq<char> {
    trim_punct(lowercase(w))
}

proof fn lemma_punct_end(s: Seq<char>, j: int)
    requires
        0 <= j <= s.len(),
    ensures
        j <= punct_end(s, j) <= s.len(),
    decreases s.len() - j,
{
    if j < s.len() && is_ascii_punct(s[j]) {
        lemma_punct_end(s, j + 1);
    }
}

proof fn lemma_punct_start_from_end(s: Seq<char>)
    ensures
        0 <= punct_start_from_end(s) <= s.len(),
    decreases s.len(),
{
    if s.len() > 0 && is_ascii_punct(s.last()) {
        lemma_punct_start_from_end(s.drop_last());
    }
}

/// Lower-cases a word and strips ASCII punctuation from both ends.
pub fn normalize_word(word: &str) -> (r: String)
    ensures
        r@ == normalized(word@),
{
    let lower = to_lowercase(word);
    let v = chars_of(lower.as_str());
    let mut a: usize = 0;
    while a < v.len() && ascii_punct(v[a])
        invariant
            a <= v.len(),
            punct_end(v@, 0) == punct_end(v@, a as int),
        decreases v.len() - a,
    {
        a += 1;
    }
    let mut b: usize = v.len();
    assert(v@.take(b as int) =~= v@);
    while b > 0 && ascii_punct(v[b - 1])
        invariant
            b <= v.len(),
            punct_start_from_end(v@) == punct_start_from_end(v@.take(b as int)),
        decreases b,
    {
        assert(v@.take(b as int).drop_last() =~= v@.take(b - 1));
        b -= 1;
    }
    proof {
        if b > 0 {
            assert(v@.take(b as int).last() == v@[b - 1]);
        }
    }
    if a < b {
        let s = string_of(&v.as_slice()[a..b]);
        assert(v@.subrange(a as int, b as int) =~= trim_punct(v@));
        s
    } else {
        String::new()
    }
}

// ---------------------------------------------------------------------------
// Splitting text into words
// ---------------------------------------------------------------------------

/// Splitting `s` at white space, as far as it has been read: the finished
/// words and the word being read.
pub open spec fn words_acc(s: Seq<char>) -> (Seq<Seq<char>>, Seq<char>)
    decreases s.len(),
{
    if s.len() == 0 {
        (Seq::empty(), Seq::empty())
    } else {
        let (done, cur) = words_acc(s.drop_last());
        if is_white_space(s.last()) {
            if cur.len() > 0 {
                (done.push(cur), Seq::empty())
            } else {
                (done, cur)
            }
        } else {
            (done, cur.push(s.last()))
        }
    }
}

/// The white-space-separated words of `s` (what `str::split_whitespace`
/// yields).
pub open spec fn words_of(s: Seq<char>) -> Seq<Seq<char>> {
    let (done, cur) = words_acc(s);
    if cur.len() > 0 {
        done.push(cur)
    } else {
        done
    }
}

/// The normal forms of `ws` that are not empty, in order.
pub open spec fn normal_tokens(ws: Seq<Seq<char>>) -> Seq<Seq<char>>
    decreases ws.len(),
{
    if ws.len() == 0 {
        Seq::empty()
    } else {
        let r = normal_tokens(ws.drop_last());
        if normalized(ws.last()).len() > 0 {
            r.push(normalized(ws.last()))
        } else {
            r
        }
    }
}

/// The tokens of a text: its words in normal form, empty ones dropped.
pub open spec fn tokens(s: Seq<char>) -> Seq<Seq<char>> {
    normal_tokens(words_of(s))
}

/// The views of a list of strings.
pub open spec fn strs_view(v: Seq<String>) -> Seq<Seq<char>> {
    v.map_values(|s: String| s@)
}

/// Splits a text at white space (`str::split_whitespace`).
pub fn split_white_space(text: &str) -> (r: Vec<String>)
    ensures
        strs_view(r@) == words_of(text@),
{
    let c = chars_of(text);
    let mut words: Vec<String> = Vec::new();
    let mut cur: Vec<char> = Vec::new();
    let mut i: usize = 0;
    while i < c.len()
        invariant
            i <= c.len(),
            c@ == text@,
            (strs_view(words@), cur@) == words_acc(c@.take(i as int)),
        decreases c.len() - i,
    {
        assert(c@.take(i + 1).drop_last() =~= c@.take(i as int));
        if white_space(c[i]) {
            if cur.len() > 0 {
                let w = string_of(cur.as_slice());
                cur = Vec::new();
                let ghost before = strs_view(words@);
                words.push(w);
                assert(strs_view(words@) =~= before.push(words_acc(c@.take(i as int)).1));
            }
        } else {
            cur.push(c[i]);
        }
        i += 1;
    }
    assert(c@.take(c.len() as int) =~= c@);
    if cur.len() > 0 {
        let w = string_of(cur.as_slice());
        let ghost before = strs_view(words@);
        words.push(w);
        assert(strs_view(words@) =~= before.push(words_acc(c@).1));
    }
    words
}

/// Splits a text on white space and normalises each word, dropping the words
/// that normalise to nothing.
pub fn tokenize(text: &str) -> (r: Vec<String>)
    ensures
        strs_view(r@) == tokens(text@),
{
    let words = split_white_space(text);
    let ghost wv = strs_view(words@);
    let mut r: Vec<String> = Vec::new();
    let mut k: usize = 0;
    while k < words.len()
        invariant
            k <= words.len(),
            wv == strs_view(words@),
            wv == words_of(text@),
            strs_view(r@) == normal_tokens(wv.take(k as int)),
        decreases words.len() - k,
    {
        let n = normalize_word(words[k].as_str());
        assert(wv.take(k + 1).drop_last() =~= wv.take(k as int));
        assert(wv.take(k + 1).last() == words@[k as int]@);
        if n.unicode_len() > 0 {
            let ghost before = strs_view(r@);
            r.push(n);
            assert(strs_view(r@) =~= before.push(normalized(wv[k as int])));
        }
        k += 1;
    }
    assert(wv.take(words.len() as int) =~= wv);
    r
}

// ---------------------------------------------------------------------------
// Edit distance
// ---------------------------------------------------------------------------

/// The Levenshtein distance of two words: the fewest single-character
/// insertions, deletions and substitutions that turn one into the other.
pub open spec fn lev(a: Seq<char>, b: Seq<char>) -> nat
    decreases a.len() + b.len(),
{
    if a.len() == 0 {
        b.len()
    } else if b.len() == 0 {
        a.len()
    } else {
        let del = lev(a.drop_last(), b) + 1;
        let ins = lev(a, b.drop_last()) + 1;
        let sub = lev(a.drop_last(), b.drop_last()) + (if a.last() == b.last() { 0nat } else { 1nat });
        let m = if del <= ins { del } else { ins };
        if m <= sub { m } else { sub }
    }
}

/// The distance never exceeds the longer word's length.
proof fn lemma_lev_bound(a: Seq<char>, b: Seq<char>)
    ensures
        lev(a, b) <= (if a.len() >= b.len() { a.len() } else { b.len() }),
    decreases a.len() + b.len(),
{
    if a.len() > 0 && b.len() > 0 {
        lemma_lev_bound(a.drop_last(), b.drop_last());
    }
}

/// The Levenshtein distance of two strings, by the two-row method.
pub fn levenshtein(a: &str, b: &str) -> (r: usize)
    ensures
        r == lev(a@, b@),
{
    let ac = chars_of(a);
    let bc = chars_of(b);
    let m = ac.len();
    let n = bc.len();
    let mut prev: Vec<usize> = Vec::new();
    prev.push(0);
    assert(ac@.take(0) =~= Seq::<char>::empty());
    for j in 0..n
        invariant
            n == bc.len(),
            prev.len() == j + 1,
            forall|q: int| 0 <= q <= j ==> #[trigger] prev@[q] == lev(ac@.take(0), bc@.take(q)),
    {
        assert(ac@.take(0) =~= Seq::<char>::empty());
        prev.push(j + 1);
    }
    for i in 0..m
        invariant
            m == ac.len(),
            n == bc.len(),
            prev.len() == n + 1,
            forall|q: int| 0 <= q <= n ==> #[trigger] prev@[q] == lev(ac@.take(i as int), bc@.take(q)),
    {
        let mut curr: Vec<usize> = Vec::new();
        curr.push(i + 1);
        assert(bc@.take(0) =~= Seq::<char>::empty());
        for j in 0..n
            invariant
                m == ac.len(),
                n == bc.len(),
                i < m,
                prev.len() == n + 1,
                forall|q: int| 0 <= q <= n ==> #[trigger] prev@[q] == lev(ac@.take(i as int), bc@.take(q)),
                curr.len() == j + 1,
                forall|q: int| 0 <= q <= j ==> #[trigger] curr@[q] == lev(ac@.take(i + 1), bc@.take(q)),
        {
            let ghost x = ac@.take(i + 1);
            let ghost y = bc@.take(j + 1);
            assert(x.drop_last() =~= ac@.take(i as int));
            assert(y.drop_last() =~= bc@.take(j as int));
            assert(x.last() == ac@[i as int]);
            assert(y.last() == bc@[j as int]);
            let cost: u128 = if ac[i] == bc[j] { 0 } else { 1 };
            let del: u128 = prev[j + 1] as u128 + 1;
            let ins: u128 = curr[j] as u128 + 1;
            let sub: u128 = prev[j] as u128 + cost;
            let m1 = if del <= ins { del } else { ins };
            let v = if m1 <= sub { m1 } else { sub };
            proof {
                lemma_lev_bound(x, y);
            }
            assert(v == lev(x, y));
            curr.push(v as usize);
        }
        prev = curr;
    }
    assert(ac@.take(m as int) =~= ac@);
    assert(bc@.take(n as int) =~= bc@);
    prev[n]
}

/// Two normal-form words match when they are equal, or when both are at
/// least four bytes long (in UTF-8) and at edit distance at most one.
pub open spec fn fuzzy_match(a: Seq<char>, b: Seq<char>) -> bool {
    a == b || (utf8_bytes(a) >= 4 && utf8_bytes(b) >= 4 && lev(a, b) <= 1)
}

/// Whether a string takes at least four bytes in UTF-8.
fn four_bytes_or_more(s: &str) -> (r: bool)
    ensures
        r == (utf8_bytes(s@) >= 4),
{
    let c = chars_of(s);
    let mut total: usize = 0;
    let mut i: usize = c.len();
    assert(c@.subrange(c.len() as int, c.len() as int) =~= Seq::<char>::empty());
    while i > 0
        invariant
            i <= c.len(),
            c@ == s@,
            total == (if utf8_bytes(c@.subrange(i as int, c.len() as int)) >= 4 { 4 } else {
                utf8_bytes(c@.subrange(i as int, c.len() as int))
            }),
        decreases i,
    {
        let k = char_utf8_len(c[i - 1]);
        assert(c@.subrange(i - 1, c.len() as int).drop_first() =~= c@.subrange(i as int, c.len() as int));
        assert(c@.subrange(i - 1, c.len() as int)[0] == c@[i - 1]);
        total = if total + k >= 4 { 4 } else { total + k };
        i -= 1;
    }
    assert(c@.subrange(0, c.len() as int) =~= c@);
    total >= 4
}

/// Whether two normalised words match, allowing one typo in words of four
/// bytes or more.
pub fn words_match_fuzzy(a: &str, b: &str) -> (r: bool)
    ensures
        r == fuzzy_match(a@, b@),
{
    if str_eq(a, b) {
        return true;
    }
    if four_bytes_or_more(a) && four_bytes_or_more(b) {
        return levenshtein(a, b) <= 1;
    }
    false
}

// ---------------------------------------------------------------------------
// Matching text against a transcript
// ---------------------------------------------------------------------------

/// The index and normal form of each word, in order.
pub open spec fn normal_words(ws: Seq<WordView>) -> Seq<(u32, Seq<char>)> {
    ws.map_values(|w: WordView| (w.index, normalized(w.text)))
}

/// The views of a list of (index, word) pairs.
pub open spec fn pairs_view(v: Seq<(u32, String)>) -> Seq<(u32, Seq<char>)> {
    v.map_values(|p: (u32, String)| (p.0, p.1@))
}

/// Whether the words from position `i` on equal the tokens exactly.
pub open spec fn exact_at(all: Seq<(u32, Seq<char>)>, toks: Seq<Seq<char>>, i: int) -> bool {
    forall|j: int| 0 <= j < toks.len() ==> #[trigger] all[i + j].1 == toks[j]
}

/// How many of the first `k` tokens match the words from position `i` on.
pub open spec fn window_score(all: Seq<(u32, Seq<char>)>, toks: Seq<Seq<char>>, i: int, k: int) -> nat
    decreases k,
{
    if k <= 0 {
        0
    } else {
        window_score(all, toks, i, k - 1) + (if fuzzy_match(all[i + k - 1].1, toks[k - 1]) {
            1nat
        } else {
            0nat
        })
    }
}

/// How many tokens match the words from position `i` on.
pub open spec fn score(all: Seq<(u32, Seq<char>)>, toks: Seq<Seq<char>>, i: int) -> nat {
    window_score(all, toks, i, toks.len() as int)
}

/// The least number of matching words that makes a fuzzy match: 80 % of
/// the window, rounded up.
pub open spec fn threshold(w: nat) -> nat {
    (w - w / 5) as nat
}

/// Whether a window of the tokens' length fits in the words at all.
pub open spec fn can_match(all: Seq<(u32, Seq<char>)>, toks: Seq<Seq<char>>) -> bool {
    0 < toks.len() <= all.len()
}

/// Whether the window starting at `p` is the match: the first exact one, or,
/// when there is none, the first of the best-scoring windows, provided its
/// score reaches the threshold.
pub open spec fn match_position(all: Seq<(u32, Seq<char>)>, toks: Seq<Seq<char>>, p: int) -> bool {
    let last = all.len() - toks.len();
    &&& can_match(all, toks)
    &&& 0 <= p <= last
    &&& {
        ||| (exact_at(all, toks, p) && forall|q: int| 0 <= q < p ==> !exact_at(all, toks, q))
        ||| {
            &&& forall|q: int| 0 <= q <= last ==> !exact_at(all, toks, q)
            &&& score(all, toks, p) >= threshold(toks.len())
            &&& forall|q: int| 0 <= q <= last ==> score(all, toks, q) <= score(all, toks, p)
            &&& forall|q: int| 0 <= q < p ==> score(all, toks, q) < score(all, toks, p)
        }
    }
}

/// Whether no window matches.
pub open spec fn no_match(all: Seq<(u32, Seq<char>)>, toks: Seq<Seq<char>>) -> bool {
    let last = all.len() - toks.len();
    ||| !can_match(all, toks)
    ||| {
        &&& forall|q: int| 0 <= q <= last ==> !exact_at(all, toks, q)
        &&& forall|q: int| 0 <= q <= last ==> score(all, toks, q) < threshold(toks.len())
    }
}

/// Whether `r` is the outcome of matching tokens `toks` against words
/// `all`: the first and last word index of the matching window, or `None`
/// when no window matches.
pub open spec fn text_match(toks: Seq<Seq<char>>, all: Seq<(u32, Seq<char>)>, r: Option<(u32, u32)>) -> bool {
    match r {
        None => no_match(all, toks),
        Some((f, t)) => exists|p: int|
            match_position(all, toks, p) && f == all[p].0 && t == all[p + toks.len() - 1].0,
    }
}

/// The outcome of matching tokens against words: the first and last word
/// index of the matching window, or `None`.
pub open spec fn match_result(toks: Seq<Seq<char>>, all: Seq<(u32, Seq<char>)>) -> Option<(u32, u32)> {
    if exists|p: int| match_position(all, toks, p) {
        let p = choose|p: int| match_position(all, toks, p);
        Some((all[p].0, all[p + toks.len() - 1].0))
    } else {
        None
    }
}

/// At most one window is the match.
proof fn lemma_match_unique(toks: Seq<Seq<char>>, all: Seq<(u32, Seq<char>)>, p: int, q: int)
    requires
        match_position(all, toks, p),
        match_position(all, toks, q),
    ensures
        p == q,
{
    let ep = exact_at(all, toks, p);
    let eq = exact_at(all, toks, q);
    let sp = score(all, toks, p);
    let sq = score(all, toks, q);
    if p < q {
        assert(sp < sq || eq);
    } else if q < p {
        assert(sq < sp || ep);
    }
}

/// `text_match` pins the outcome down to `match_result`.
proof fn lemma_text_match_result(toks: Seq<Seq<char>>, all: Seq<(u32, Seq<char>)>, r: Option<(u32, u32)>)
    requires
        text_match(toks, all, r),
    ensures
        r == match_result(toks, all),
{
    match r {
        Some((f, t)) => {
            let p = choose|p: int| match_position(all, toks, p) && f == all[p].0 && t == all[p + toks.len() - 1].0;
            let p2 = choose|p: int| match_position(all, toks, p);
            lemma_match_unique(toks, all, p, p2);
        },
        None => {
            if exists|p: int| match_position(all, toks, p) {
                let p = choose|p: int| match_position(all, toks, p);
                assert(exact_at(all, toks, p) || score(all, toks, p) >= threshold(toks.len()));
            }
        },
    }
}

/// The (index, normal form) pairs of a transcript's words.
fn normal_word_list(transcript: &Transcript) -> (r: Vec<(u32, String)>)
    ensures
        pairs_view(r@) == normal_words(all_words(transcript@)),
{
    let flat = flatten_words(transcript);
    let ghost fv = flat@.map_values(|w: &crate::models::Word| w@);
    let mut r: Vec<(u32, String)> = Vec::new();
    let mut i: usize = 0;
    while i < flat.len()
        invariant
            i <= flat.len(),
            fv == flat@.map_values(|w: &crate::models::Word| w@),
            fv == all_words(transcript@),
            r.len() == i,
            pairs_view(r@) == normal_words(fv.take(i as int)),
        decreases flat.len() - i,
    {
        let w = flat[i];
        let n = normalize_word(w.text.as_str());
        assert(fv[i as int] == w@);
        let ghost before = r@;
        r.push((w.index, n));
        assert(pairs_view(r@) =~= normal_words(fv.take(i + 1))) by {
            assert forall|q: int| 0 <= q < i + 1 implies #[trigger] pairs_view(r@)[q] == normal_words(
                fv.take(i + 1),
            )[q] by {
                if q < i {
                    assert(r@[q] == before[q]);
                    assert(pairs_view(before)[q] == normal_words(fv.take(i as int))[q]);
                }
            }
        }
        i += 1;
    }
    assert(fv.take(flat.len() as int) =~= fv);
    r
}

/// Finds the contiguous range of transcript words that `text` stands for,
/// as `(first word index, last word index)`.
///
/// The text's words are normalised (lower case, punctuation stripped at both
/// ends) and compared with the normalised transcript words. The first window
/// that matches exactly wins; failing that, the first window with the most
/// words that match allowing one typo (see `fuzzy_match`) wins, if at least
/// 80 % of its words match. `None` when nothing matches.
pub fn match_text(text: &str, transcript: &Transcript) -> (r: Option<(u32, u32)>)
    ensures
        text_match(tokens(text@), normal_words(all_words(transcript@)), r),
        r == match_result(tokens(text@), normal_words(all_words(transcript@))),
{
    let r = match_text_in(text, transcript);
    proof {
        lemma_text_match_result(tokens(text@), normal_words(all_words(transcript@)), r);
    }
    r
}

/// The search behind `match_text`.
fn match_text_in(text: &str, transcript: &Transcript) -> (r: Option<(u32, u32)>)
    ensures
        text_match(tokens(text@), normal_words(all_words(transcript@)), r),
{
    let input = tokenize(text);
    let ghost toks = tokens(text@);
    if input.len() == 0 {
        return None;
    }
    let all = normal_word_list(transcript);
    let ghost av = normal_words(all_words(transcript@));
    if all.len() == 0 || input.len() > all.len() {
        return None;
    }
    let w = input.len();
    let last = all.len() - w;
    assert(strs_view(input@) == toks);
    assert(pairs_view(all@) == av);
    // Exact windows.
    let mut i: usize = 0;
    while i <= last
        invariant
            w == input.len(),
            w > 0,
            last == all.len() - w,
            strs_view(input@) == toks,
            pairs_view(all@) == av,
            i <= last + 1,
            toks == tokens(text@),
            av == normal_words(all_words(transcript@)),
            forall|q: int| 0 <= q < i ==> !exact_at(av, toks, q),
        decreases last + 1 - i,
    {
        let mut ok = true;
        let mut j: usize = 0;
        while j < w
            invariant
                w == input.len(),
                last == all.len() - w,
                i <= last,
                strs_view(input@) == toks,
                pairs_view(all@) == av,
                j <= w,
                ok <==> forall|q: int| 0 <= q < j ==> #[trigger] av[i + q].1 == toks[q],
            decreases w - j,
        {
            assert(av[i + j].1 == all@[i + j].1@);
            assert(toks[j as int] == input@[j as int]@);
            if !str_eq(all[i + j].1.as_str(), input[j].as_str()) {
                ok = false;
            }
            j += 1;
        }
        if ok {
            assert(match_position(av, toks, i as int));
            assert(av[i as int].0 == all@[i as int].0);
            assert(av[i + w - 1].0 == all@[i + w - 1].0);
            let f = all[i].0;
            let t = all[i + w - 1].0;
            assert(text_match(toks, av, Some((f, t))));
            return Some((f, t));
        }
        i += 1;
    }
    // Fuzzy windows.
    let mut best_score: usize = 0;
    let mut best_pos: Option<usize> = None;
    let mut i: usize = 0;
    while i <= last
        invariant
            w == input.len(),
            w > 0,
            last == all.len() - w,
            strs_view(input@) == toks,
            pairs_view(all@) == av,
            i <= last + 1,
            forall|q: int| 0 <= q <= last ==> !exact_at(av, toks, q),
            forall|q: int| 0 <= q < i ==> score(av, toks, q) <= best_score,
            best_pos matches Some(p) ==> {
                &&& p < i
                &&& score(av, toks, p as int) == best_score
                &&& forall|q: int| 0 <= q < p ==> score(av, toks, q) < best_score
            },
            best_pos is None ==> best_score == 0,
        decreases last + 1 - i,
    {
        let mut sc: usize = 0;
        let mut j: usize = 0;
        while j < w
            invariant
                w == input.len(),
                last == all.len() - w,
                i <= last,
                strs_view(input@) == toks,
                pairs_view(all@) == av,
                j <= w,
                sc == window_score(av, toks, i as int, j as int),
                sc <= j,
            decreases w - j,
        {
            assert(av[i + j].1 == all@[i + j].1@);
            assert(toks[j as int] == input@[j as int]@);
            if words_match_fuzzy(all[i + j].1.as_str(), input[j].as_str()) {
                sc += 1;
            }
            j += 1;
        }
        if sc > best_score {
            best_score = sc;
            best_pos = Some(i);
        }
        i += 1;
    }
    let need = w - w / 5;
    match best_pos {
        Some(pos) => {
            if best_score >= need {
                assert(match_position(av, toks, pos as int));
                assert(av[pos as int].0 == all@[pos as int].0);
                assert(av[pos + w - 1].0 == all@[pos + w - 1].0);
                let f = all[pos].0;
                let t = all[pos + w - 1].0;
                assert(text_match(toks, av, Some((f, t))));
                return Some((f, t));
            }
        },
        None => {},
    }
    None
}

} // verus!
