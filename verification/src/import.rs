//! Reading an annotated transcript back into an edit.
//!
//! The annotated markdown holds blocks such as
//!
//! ```text
//! <!-- ar-edit:src-001:w0-w8 -->
//! Welcome to the interview today we're going to talk about
//! <!-- /ar-edit:src-001 -->
//! ```
//!
//! Each block that survives (in the order it now appears) becomes one shot
//! over the words it names. The fuzzy reader also takes text found outside
//! any block and matches it against the transcript of the source whose
//! `# Source: <id> — …` header it follows.
use vstd::prelude::*;
use crate::models::{EditDocument, ShotRange, ShotView, Transcript, TranscriptView};
use crate::edit::{EditError, doc_wf, fresh_shot, generated_shot_id, edit_error_message, range_proper, range_problem};
use crate::display::{truncated, truncate_preview};
use crate::fuzzy::{match_text, match_result, tokens, normal_words};
use crate::resolve::all_words;
use crate::text::{
    push_str, push_dec, owned, copy_string, string_of, dec, is_digit, digits_value, ws_end,
    digits_end, lemma_ws_end, lemma_digits_end, skip_white_space, skip_digits, is_white_space,
    white_space, lines_of, rows_view, split_lines, trimmed, trim_chars, join, strings_view,
    join_strings, chars_of, ascii_digit_value, all_digits, all_ascii_digits, decimals_end,
    lemma_decimals_end, skip_decimals, utf8_bytes, fit_count, char_utf8_len, lemma_fit_count,
    lemma_utf8_bytes_push, utf8_len,
};

verus! {

broadcast use vstd::string::group_string_axioms;

// ---------------------------------------------------------------------------
// Errors
// ---------------------------------------------------------------------------

/// A problem found in the annotated text, with its 1-based line number.
#[derive(Debug, Clone, PartialEq)]
pub struct ParseError {
    pub line: usize,
    pub message: String,
}

pub struct ErrView {
    pub line: int,
    pub message: Seq<char>,
}

impl View for ParseError {
    type V = ErrView;

    open spec fn view(&self) -> ErrView {
        ErrView { line: self.line as int, message: self.message@ }
    }
}

/// The views of a list of parse errors.
pub open spec fn errors_view(v: Seq<ParseError>) -> Seq<ErrView> {
    v.map_values(|e: ParseError| e@)
}

/// `line N: message`.
pub open spec fn parse_error_text(e: ErrView) -> Seq<char> {
    "line "@ + dec(e.line as nat) + ": "@ + e.message
}

impl ParseError {
    /// `line N: message`.
    pub fn to_string(&self) -> (r: String)
        ensures
            r@ == parse_error_text(self@),
    {
        let mut r = owned("line ");
        push_dec(&mut r, self.line as u64);
        push_str(&mut r, ": ");
        push_str(&mut r, self.message.as_str());
        proof {
            reveal_strlit("line ");
            reveal_strlit(": ");
        }
        r
    }
}

/// What can go wrong importing an annotated transcript.
#[derive(Debug, Clone, PartialEq)]
pub enum ImportError {
    Io(String),
    Edit(EditError),
    ParseErrors(Vec<ParseError>),
}

/// The listing of parse errors: one indented `line N: message` per error.
pub open spec fn error_listing(es: Seq<ErrView>) -> Seq<Seq<char>> {
    es.map_values(|e: ErrView| "  "@ + parse_error_text(e))
}

/// The message of an import error.
pub open spec fn import_error_message(e: ImportError) -> Seq<char> {
    match e {
        ImportError::Io(m) => m@,
        ImportError::Edit(x) => edit_error_message(x),
        ImportError::ParseErrors(v) => "parse errors in annotated transcript:\n"@ + join(
            error_listing(errors_view(v@)),
            "\n"@,
        ),
    }
}

/// The listing of parse errors, one indented line per error.
pub fn format_errors(errors: &Vec<ParseError>) -> (r: String)
    ensures
        r@ == join(error_listing(errors_view(errors@)), "\n"@),
{
    let mut lines: Vec<String> = Vec::new();
    let mut i: usize = 0;
    while i < errors.len()
        invariant
            i <= errors.len(),
            lines.len() == i,
            strings_view(lines@) == error_listing(errors_view(errors@)).take(i as int),
        decreases errors.len() - i,
    {
        let mut l = owned("  ");
        let t = errors[i].to_string();
        push_str(&mut l, t.as_str());
        proof {
            reveal_strlit("  ");
        }
        assert(errors_view(errors@)[i as int] == errors@[i as int]@);
        assert(l@ == error_listing(errors_view(errors@))[i as int]);
        let ghost before = lines@;
        lines.push(l);
        assert(strings_view(lines@) =~= error_listing(errors_view(errors@)).take(i + 1)) by {
            assert forall|q: int| 0 <= q < i + 1 implies #[trigger] strings_view(lines@)[q]
                == error_listing(errors_view(errors@)).take(i + 1)[q] by {
                if q < i {
                    assert(lines@[q] == before[q]);
                    assert(strings_view(before)[q] == error_listing(errors_view(errors@)).take(
                        i as int,
                    )[q]);
                }
            }
        }
        i += 1;
    }
    assert(error_listing(errors_view(errors@)).take(errors.len() as int) =~= error_listing(
        errors_view(errors@),
    ));
    join_strings(&lines, "\n")
}

impl ImportError {
    /// The human-readable message of this error.
    pub fn to_string(&self) -> (r: String)
        ensures
            r@ == import_error_message(*self),
    {
        match self {
            ImportError::Io(m) => copy_string(m),
            ImportError::Edit(x) => x.to_string(),
            ImportError::ParseErrors(v) => {
                let mut r = owned("parse errors in annotated transcript:\n");
                let listing = format_errors(v);
                push_str(&mut r, listing.as_str());
                r
            },
        }
    }
}

// ---------------------------------------------------------------------------
// The annotation comments
// ---------------------------------------------------------------------------

/// Whether `p` occurs in `t` at position `i`.
pub open spec fn has_at(t: Seq<char>, i: int, p: Seq<char>) -> bool {
    0 <= i && i + p.len() <= t.len() && t.subrange(i, i + p.len()) == p
}

/// The first position at or after `j` holding `c` (the length when none).
pub open spec fn find_char(t: Seq<char>, j: int, c: char) -> int
    decreases t.len() - j,
{
    if j < 0 || j >= t.len() || t[j] == c {
        j
    } else {
        find_char(t, j + 1, c)
    }
}

/// The first position at or after `j` that is white space (the length when
/// none).
pub open spec fn non_ws_end(t: Seq<char>, j: int) -> int
    decreases t.len() - j,
{
    if j < 0 || j >= t.len() || is_white_space(t[j]) {
        j
    } else {
        non_ws_end(t, j + 1)
    }
}

/// An opening annotation, `<!-- ar-edit:SOURCE:wFROM-wTO -->` (white space
/// allowed after `<!--` and before `-->`): the source and the two runs of
/// decimal digits (any Unicode decimal digit, see `is_decimal`).
pub open spec fn open_tag(t: Seq<char>) -> Option<(Seq<char>, Seq<char>, Seq<char>)> {
    let a = ws_end(t, 4);
    let b = a + 8;
    let c = find_char(t, b, ':');
    let d = decimals_end(t, c + 2);
    let e = decimals_end(t, d + 2);
    let f = ws_end(t, e);
    if has_at(t, 0, "<!--"@) && has_at(t, a, "ar-edit:"@) && b < c && has_at(t, c, ":w"@) && c
        + 2 < d && has_at(t, d, "-w"@) && d + 2 < e && f + 3 == t.len() && has_at(
        t,
        f,
        "-->"@,
    ) {
        Some((t.subrange(b, c), t.subrange(c + 2, d), t.subrange(d + 2, e)))
    } else {
        None
    }
}

/// Whether `r` has no `>`.
pub open spec fn no_gt(r: Seq<char>) -> bool {
    forall|k: int| 0 <= k < r.len() ==> r[k] != '>'
}

/// The source named by a closing annotation's text `r` (the text between
/// `/ar-edit:` and `-->`): `r` without trailing white space, keeping at
/// least one character.
pub open spec fn close_name(r: Seq<char>) -> Seq<char> {
    if crate::text::trim_end_index(r) > 0 {
        r.take(crate::text::trim_end_index(r))
    } else {
        r.take(1)
    }
}

/// A closing annotation, `<!-- /ar-edit:SOURCE -->`: the source.
pub open spec fn close_tag(t: Seq<char>) -> Option<Seq<char>> {
    let a = ws_end(t, 4);
    let b = a + 9;
    if has_at(t, 0, "<!--"@) && has_at(t, a, "/ar-edit:"@) && b < t.len() - 3 && has_at(
        t,
        t.len() - 3,
        "-->"@,
    ) && no_gt(t.subrange(b, t.len() - 3)) {
        Some(close_name(t.subrange(b, t.len() - 3)))
    } else {
        None
    }
}

/// A source header, `# Source: ID —…`: the id.
pub open spec fn source_tag(t: Seq<char>) -> Option<Seq<char>> {
    let a = ws_end(t, 1);
    let b = a + 7;
    let c = ws_end(t, b);
    let d = non_ws_end(t, c);
    let e = ws_end(t, d);
    if t.len() > 0 && t[0] == '#' && a > 1 && has_at(t, a, "Source:"@) && c > b && d > c && e > d
        && e < t.len() && t[e] == '—' {
        Some(t.subrange(c, d))
    } else {
        None
    }
}

/// The value of a run of digits, when it is made of ASCII digits and fits
/// in a `u32` (as `u32::from_str` reads it).
pub open spec fn u32_value(d: Seq<char>) -> Option<u32> {
    if all_digits(d) && digits_value(d) <= u32::MAX {
        Some(digits_value(d) as u32)
    } else {
        None
    }
}

// ---------------------------------------------------------------------------
// Messages
// ---------------------------------------------------------------------------

pub open spec fn msg_unclosed(src: Seq<char>) -> Seq<char> {
    "unclosed annotation block for source '"@ + src + "'"@
}

pub open spec fn msg_unclosed_eof(src: Seq<char>) -> Seq<char> {
    "unclosed annotation block for source '"@ + src + "' (reached end of file)"@
}

pub open spec fn msg_bad_from(d: Seq<char>) -> Seq<char> {
    "invalid from-word index: '"@ + d + "'"@
}

pub open spec fn msg_bad_to(d: Seq<char>) -> Seq<char> {
    "invalid to-word index: '"@ + d + "'"@
}

pub open spec fn msg_reversed(from: u32, to: u32) -> Seq<char> {
    "from-word ("@ + dec(from as nat) + ") is greater than to-word ("@ + dec(to as nat) + ")"@
}

pub open spec fn msg_mismatch(close: Seq<char>, open: Seq<char>, line: int) -> Seq<char> {
    "closing annotation for '"@ + close + "' does not match opening annotation for '"@ + open
        + "' at line "@ + dec(line as nat)
}

pub open spec fn msg_unopened(close: Seq<char>) -> Seq<char> {
    "closing annotation for '"@ + close + "' without matching opening"@
}

pub open spec fn msg_no_source() -> Seq<char> {
    "text outside any source section cannot be matched"@
}

// ---------------------------------------------------------------------------
// Blocks
// ---------------------------------------------------------------------------

/// An annotation block: its source, its word range, and the line of its
/// opening comment.
#[derive(Debug, Clone, PartialEq)]
pub struct AnnotationBlock {
    pub source_id: String,
    pub from_word: u32,
    pub to_word: u32,
    pub open_line: usize,
}

pub struct BlockView {
    pub source_id: Seq<char>,
    pub from_word: u32,
    pub to_word: u32,
    pub open_line: int,
}

impl View for AnnotationBlock {
    type V = BlockView;

    open spec fn view(&self) -> BlockView {
        BlockView {
            source_id: self.source_id@,
            from_word: self.from_word,
            to_word: self.to_word,
            open_line: self.open_line as int,
        }
    }
}

/// The views of a list of blocks.
pub open spec fn blocks_view(v: Seq<AnnotationBlock>) -> Seq<BlockView> {
    v.map_values(|b: AnnotationBlock| b@)
}

/// The effect of an opening annotation on line `line`: a block still open is
/// reported unclosed; the new block opens unless its word indices are not
/// `u32` values or run backwards (each reported).
pub open spec fn after_open(
    pending: Option<BlockView>,
    errors: Seq<ErrView>,
    line: int,
    tag: (Seq<char>, Seq<char>, Seq<char>),
) -> (Option<BlockView>, Seq<ErrView>) {
    let errs = match pending {
        Some(p) => errors.push(ErrView { line: p.open_line, message: msg_unclosed(p.source_id) }),
        None => errors,
    };
    match u32_value(tag.1) {
        None => (None, errs.push(ErrView { line, message: msg_bad_from(tag.1) })),
        Some(from) => match u32_value(tag.2) {
            None => (None, errs.push(ErrView { line, message: msg_bad_to(tag.2) })),
            Some(to) => if from > to {
                (None, errs.push(ErrView { line, message: msg_reversed(from, to) }))
            } else {
                (
                    Some(BlockView { source_id: tag.0, from_word: from, to_word: to, open_line: line }),
                    errs,
                )
            },
        },
    }
}

/// The effect of a closing annotation for `close` on line `line`: the open
/// block completes when it names the same source; otherwise the mismatch,
/// or the missing opening, is reported.
pub open spec fn after_close(pending: Option<BlockView>, errors: Seq<ErrView>, line: int, close: Seq<
    char,
>) -> (Option<BlockView>, Seq<ErrView>) {
    match pending {
        Some(b) => if b.source_id == close {
            (Some(b), errors)
        } else {
            (None, errors.push(ErrView { line, message: msg_mismatch(close, b.source_id, b.open_line) }))
        },
        None => (None, errors.push(ErrView { line, message: msg_unopened(close) })),
    }
}

// ---------------------------------------------------------------------------
// The strict reader: annotations only
// ---------------------------------------------------------------------------

pub struct StrictView {
    pub pending: Option<BlockView>,
    pub blocks: Seq<BlockView>,
    pub errors: Seq<ErrView>,
}

/// Reading trimmed line `t`, numbered `line`.
pub open spec fn strict_step(st: StrictView, line: int, t: Seq<char>) -> StrictView {
    match open_tag(t) {
        Some(tag) => {
            let (p, e) = after_open(st.pending, st.errors, line, tag);
            StrictView { pending: p, blocks: st.blocks, errors: e }
        },
        None => match close_tag(t) {
            Some(c) => {
                let (b, e) = after_close(st.pending, st.errors, line, c);
                StrictView {
                    pending: None,
                    blocks: match b {
                        Some(x) => st.blocks.push(x),
                        None => st.blocks,
                    },
                    errors: e,
                }
            },
            None => st,
        },
    }
}

/// The state after reading the given lines.
pub open spec fn strict_run(lines: Seq<Seq<char>>) -> StrictView
    decreases lines.len(),
{
    if lines.len() == 0 {
        StrictView { pending: None, blocks: Seq::empty(), errors: Seq::empty() }
    } else {
        strict_step(strict_run(lines.drop_last()), lines.len() as int, trimmed(lines.last()))
    }
}

/// The blocks and errors of an annotated text: a block still open at the
/// end is reported unclosed.
pub open spec fn strict_parse(content: Seq<char>) -> (Seq<BlockView>, Seq<ErrView>) {
    let st = strict_run(lines_of(content));
    (
        st.blocks,
        match st.pending {
            Some(p) => st.errors.push(
                ErrView { line: p.open_line, message: msg_unclosed_eof(p.source_id) },
            ),
            None => st.errors,
        },
    )
}

// ---------------------------------------------------------------------------
// Recognising the annotation comments
// ---------------------------------------------------------------------------

/// Whether `p` occurs in `t` at position `i`.
fn occurs_at(t: &Vec<char>, i: usize, p: &str) -> (r: bool)
    ensures
        r == has_at(t@, i as int, p@),
{
    let pc = chars_of(p);
    if i > t.len() || t.len() - i < pc.len() {
        return false;
    }
    let mut k: usize = 0;
    while k < pc.len()
        invariant
            pc@ == p@,
            i + pc.len() <= t.len(),
            k <= pc.len(),
            forall|q: int| 0 <= q < k ==> t@[i + q] == pc@[q],
        decreases pc.len() - k,
    {
        if t[i + k] != pc[k] {
            assert(t@.subrange(i as int, i + pc.len())[k as int] != p@[k as int]);
            return false;
        }
        k += 1;
    }
    assert(t@.subrange(i as int, i + pc.len()) =~= p@);
    true
}

/// The characters `t[a..b]`.
fn sub_chars(t: &Vec<char>, a: usize, b: usize) -> (r: Vec<char>)
    requires
        a <= b <= t.len(),
    ensures
        r@ == t@.subrange(a as int, b as int),
{
    let mut r: Vec<char> = Vec::new();
    let mut k = a;
    while k < b
        invariant
            a <= k <= b <= t.len(),
            r@ == t@.subrange(a as int, k as int),
        decreases b - k,
    {
        r.push(t[k]);
        assert(r@ =~= t@.subrange(a as int, k + 1));
        k += 1;
    }
    r
}

/// The first position at or after `j` holding `c`.
fn find_char_from(t: &Vec<char>, j: usize, c: char) -> (k: usize)
    requires
        j <= t.len(),
    ensures
        k == find_char(t@, j as int, c),
        j <= k <= t.len(),
{
    let mut k = j;
    while k < t.len() && t[k] != c
        invariant
            j <= k <= t.len(),
            find_char(t@, j as int, c) == find_char(t@, k as int, c),
        decreases t.len() - k,
    {
        k += 1;
    }
    k
}

/// The first position at or after `j` that is white space.
fn skip_non_white_space(t: &Vec<char>, j: usize) -> (k: usize)
    requires
        j <= t.len(),
    ensures
        k == non_ws_end(t@, j as int),
        j <= k <= t.len(),
{
    let mut k = j;
    while k < t.len() && !white_space(t[k])
        invariant
            j <= k <= t.len(),
            non_ws_end(t@, j as int) == non_ws_end(t@, k as int),
        decreases t.len() - k,
    {
        k += 1;
    }
    k
}

/// Reads an opening annotation (see `open_tag`).
fn read_open_tag(t: &Vec<char>) -> (r: Option<(Vec<char>, Vec<char>, Vec<char>)>)
    ensures
        match r {
            Some((a, b, c)) => open_tag(t@) == Some((a@, b@, c@)),
            None => open_tag(t@) is None,
        },
{
    proof {
        reveal_strlit("<!--");
        reveal_strlit("ar-edit:");
        reveal_strlit(":w");
        reveal_strlit("-w");
        reveal_strlit("-->");
    }
    if !occurs_at(t, 0, "<!--") {
        return None;
    }
    let a = skip_white_space(t, 4);
    proof {
        lemma_ws_end(t@, 4);
    }
    if !occurs_at(t, a, "ar-edit:") {
        return None;
    }
    assert("ar-edit:"@.len() == 8);
    assert(has_at(t@, a as int, "ar-edit:"@));
    assert(a + 8 <= t@.len());
    assert(t@.len() == t.len());
    let b = a + 8;
    let c = find_char_from(t, b, ':');
    if !(b < c) || !occurs_at(t, c, ":w") {
        return None;
    }
    let d = skip_decimals(t, c + 2);
    proof {
        lemma_decimals_end(t@, c + 2);
    }
    if !(c + 2 < d) || !occurs_at(t, d, "-w") {
        return None;
    }
    let e = skip_decimals(t, d + 2);
    proof {
        lemma_decimals_end(t@, d + 2);
    }
    if !(d + 2 < e) {
        return None;
    }
    let f = skip_white_space(t, e);
    proof {
        lemma_ws_end(t@, e as int);
    }
    if !(t.len() >= 3 && f == t.len() - 3) || !occurs_at(t, f, "-->") {
        return None;
    }
    let src = sub_chars(t, b, c);
    let from = sub_chars(t, c + 2, d);
    let to = sub_chars(t, d + 2, e);
    Some((src, from, to))
}

/// Reads a closing annotation (see `close_tag`).
fn read_close_tag(t: &Vec<char>) -> (r: Option<Vec<char>>)
    ensures
        match r {
            Some(a) => close_tag(t@) == Some(a@),
            None => close_tag(t@) is None,
        },
{
    proof {
        reveal_strlit("<!--");
        reveal_strlit("/ar-edit:");
        reveal_strlit("-->");
    }
    if !occurs_at(t, 0, "<!--") {
        return None;
    }
    let a = skip_white_space(t, 4);
    proof {
        lemma_ws_end(t@, 4);
    }
    if !occurs_at(t, a, "/ar-edit:") {
        return None;
    }
    assert("/ar-edit:"@.len() == 9);
    assert(has_at(t@, a as int, "/ar-edit:"@));
    assert(a + 9 <= t@.len());
    assert(t@.len() == t.len());
    let b = a + 9;
    if !(t.len() >= 3 && b < t.len() - 3) || !occurs_at(t, t.len() - 3, "-->") {
        return None;
    }
    let r = sub_chars(t, b, t.len() - 3);
    let mut k: usize = 0;
    let mut gt = false;
    while k < r.len()
        invariant
            k <= r.len(),
            !gt ==> forall|q: int| 0 <= q < k ==> r@[q] != '>',
            gt ==> !no_gt(r@),
        decreases r.len() - k,
    {
        if r[k] == '>' {
            gt = true;
        }
        k += 1;
    }
    if gt {
        return None;
    }
    let mut e: usize = r.len();
    assert(r@.take(e as int) =~= r@);
    while e > 0 && white_space(r[e - 1])
        invariant
            e <= r.len(),
            crate::text::trim_end_index(r@) == crate::text::trim_end_index(r@.take(e as int)),
        decreases e,
    {
        assert(r@.take(e as int).drop_last() =~= r@.take(e - 1));
        e -= 1;
    }
    proof {
        if e > 0 {
            assert(r@.take(e as int).last() == r@[e - 1]);
        }
    }
    let name = if e > 0 {
        sub_chars(&r, 0, e)
    } else {
        sub_chars(&r, 0, 1)
    };
    assert(name@ =~= close_name(r@));
    Some(name)
}

/// Reads a source header (see `source_tag`).
fn read_source_tag(t: &Vec<char>) -> (r: Option<Vec<char>>)
    ensures
        match r {
            Some(a) => source_tag(t@) == Some(a@),
            None => source_tag(t@) is None,
        },
{
    proof {
        reveal_strlit("Source:");
    }
    if t.len() == 0 || t[0] != '#' {
        return None;
    }
    let a = skip_white_space(t, 1);
    proof {
        lemma_ws_end(t@, 1);
    }
    if !(a > 1) || !occurs_at(t, a, "Source:") {
        return None;
    }
    assert("Source:"@.len() == 7);
    assert(has_at(t@, a as int, "Source:"@));
    assert(a + 7 <= t@.len());
    assert(t@.len() == t.len());
    let b = a + 7;
    let c = skip_white_space(t, b);
    proof {
        lemma_ws_end(t@, b as int);
    }
    if !(c > b) {
        return None;
    }
    let d = skip_non_white_space(t, c);
    if !(d > c) {
        return None;
    }
    let e = skip_white_space(t, d);
    proof {
        lemma_ws_end(t@, d as int);
    }
    if !(e > d) || !(e < t.len()) || t[e] != '—' {
        return None;
    }
    Some(sub_chars(t, c, d))
}

/// The value of a run of digits, when it fits in a `u32`.
fn read_u32(d: &Vec<char>) -> (r: Option<u32>)
    ensures
        r == u32_value(d@),
{
    if !all_ascii_digits(d) {
        return None;
    }
    let mut acc: u64 = 0;
    let mut big = false;
    let mut k: usize = 0;
    while k < d.len()
        invariant
            k <= d.len(),
            crate::text::all_digits(d@),
            big <==> digits_value(d@.take(k as int)) > u32::MAX,
            !big ==> acc == digits_value(d@.take(k as int)),
        decreases d.len() - k,
    {
        let v = ascii_digit_value(d[k]);
        assert(d@.take(k + 1).drop_last() =~= d@.take(k as int));
        assert(d@.take(k + 1).last() == d@[k as int]);
        if !big {
            let next = acc * 10 + v;
            if next > u32::MAX as u64 {
                big = true;
            } else {
                acc = next;
            }
        }
        k += 1;
    }
    assert(d@.take(d.len() as int) =~= d@);
    if big {
        None
    } else {
        Some(acc as u32)
    }
}

// ---------------------------------------------------------------------------
// Building the messages
// ---------------------------------------------------------------------------

/// `pre` + `x` + `post`.
fn quoted(pre: &str, x: &str, post: &str) -> (r: String)
    ensures
        r@ == pre@ + x@ + post@,
{
    let mut r = owned(pre);
    push_str(&mut r, x);
    push_str(&mut r, post);
    r
}

fn unclosed_message(src: &str) -> (r: String)
    ensures
        r@ == msg_unclosed(src@),
{
    proof {
        reveal_strlit("unclosed annotation block for source '");
        reveal_strlit("'");
    }
    quoted("unclosed annotation block for source '", src, "'")
}

fn unclosed_eof_message(src: &str) -> (r: String)
    ensures
        r@ == msg_unclosed_eof(src@),
{
    proof {
        reveal_strlit("unclosed annotation block for source '");
        reveal_strlit("' (reached end of file)");
    }
    quoted("unclosed annotation block for source '", src, "' (reached end of file)")
}

fn reversed_message(from: u32, to: u32) -> (r: String)
    ensures
        r@ == msg_reversed(from, to),
{
    proof {
        reveal_strlit("from-word (");
        reveal_strlit(") is greater than to-word (");
        reveal_strlit(")");
    }
    let mut r = owned("from-word (");
    push_dec(&mut r, from as u64);
    push_str(&mut r, ") is greater than to-word (");
    push_dec(&mut r, to as u64);
    push_str(&mut r, ")");
    r
}

fn mismatch_message(close: &str, open: &str, line: usize) -> (r: String)
    ensures
        r@ == msg_mismatch(close@, open@, line as int),
{
    proof {
        reveal_strlit("closing annotation for '");
        reveal_strlit("' does not match opening annotation for '");
        reveal_strlit("' at line ");
    }
    let mut r = owned("closing annotation for '");
    push_str(&mut r, close);
    push_str(&mut r, "' does not match opening annotation for '");
    push_str(&mut r, open);
    push_str(&mut r, "' at line ");
    push_dec(&mut r, line as u64);
    r
}

fn unopened_message(close: &str) -> (r: String)
    ensures
        r@ == msg_unopened(close@),
{
    proof {
        reveal_strlit("closing annotation for '");
        reveal_strlit("' without matching opening");
    }
    quoted("closing annotation for '", close, "' without matching opening")
}

// ---------------------------------------------------------------------------
// Opening and closing blocks
// ---------------------------------------------------------------------------

/// The view of an optional block.
pub open spec fn opt_block(o: Option<AnnotationBlock>) -> Option<BlockView> {
    match o {
        Some(b) => Some(b@),
        None => None,
    }
}

/// Handles an opening annotation on line `line` (see `after_open`).
fn open_block(
    pending: &mut Option<AnnotationBlock>,
    errors: &mut Vec<ParseError>,
    line: usize,
    src: &Vec<char>,
    from: &Vec<char>,
    to: &Vec<char>,
)
    ensures
        (opt_block(*final(pending)), errors_view(final(errors)@)) == after_open(
            opt_block(*old(pending)),
            errors_view(old(errors)@),
            line as int,
            (src@, from@, to@),
        ),
{
    let ghost e0 = errors_view(errors@);
    match pending.take() {
        Some(prev) => {
            let message = unclosed_message(prev.source_id.as_str());
            errors.push(ParseError { line: prev.open_line, message });
        },
        None => {},
    }
    let ghost e1 = errors_view(errors@);
    assert(e1 =~= match opt_block(*old(pending)) {
        Some(p) => e0.push(ErrView { line: p.open_line, message: msg_unclosed(p.source_id) }),
        None => e0,
    });
    proof {
        reveal_strlit("invalid from-word index: '");
        reveal_strlit("invalid to-word index: '");
        reveal_strlit("'");
    }
    match read_u32(from) {
        None => {
            let d = string_of(from.as_slice());
            let message = quoted("invalid from-word index: '", d.as_str(), "'");
            errors.push(ParseError { line, message });
            assert(errors_view(errors@) =~= e1.push(ErrView { line: line as int, message: msg_bad_from(from@) }));
        },
        Some(f) => match read_u32(to) {
            None => {
                let d = string_of(to.as_slice());
                let message = quoted("invalid to-word index: '", d.as_str(), "'");
                errors.push(ParseError { line, message });
                assert(errors_view(errors@) =~= e1.push(ErrView { line: line as int, message: msg_bad_to(to@) }));
            },
            Some(t) => {
                if f > t {
                    let message = reversed_message(f, t);
                    errors.push(ParseError { line, message });
                    assert(errors_view(errors@) =~= e1.push(ErrView { line: line as int, message: msg_reversed(f, t) }));
                } else {
                    *pending = Some(AnnotationBlock {
                        source_id: string_of(src.as_slice()),
                        from_word: f,
                        to_word: t,
                        open_line: line,
                    });
                }
            },
        },
    }
}

/// Handles a closing annotation for `close` on line `line` (see
/// `after_close`): the completed block, if any.
fn close_block(
    pending: &mut Option<AnnotationBlock>,
    errors: &mut Vec<ParseError>,
    line: usize,
    close: &Vec<char>,
) -> (r: Option<AnnotationBlock>)
    ensures
        *final(pending) is None,
        (opt_block(r), errors_view(final(errors)@)) == after_close(
            opt_block(*old(pending)),
            errors_view(old(errors)@),
            line as int,
            close@,
        ),
{
    let ghost e0 = errors_view(errors@);
    let c = string_of(close.as_slice());
    match pending.take() {
        Some(block) => {
            if crate::text::str_eq(block.source_id.as_str(), c.as_str()) {
                Some(block)
            } else {
                let message = mismatch_message(c.as_str(), block.source_id.as_str(), block.open_line);
                errors.push(ParseError { line, message });
                assert(errors_view(errors@) =~= e0.push(ErrView {
                    line: line as int,
                    message: msg_mismatch(close@, block.source_id@, block.open_line as int),
                }));
                None
            }
        },
        None => {
            let message = unopened_message(c.as_str());
            errors.push(ParseError { line, message });
            assert(errors_view(errors@) =~= e0.push(ErrView { line: line as int, message: msg_unopened(close@) }));
            None
        },
    }
}

// ---------------------------------------------------------------------------
// The strict reader
// ---------------------------------------------------------------------------

/// Reads the annotation blocks of an annotated transcript, in the order they
/// appear, with every problem found (each with its line number): a block
/// opened while another is open, word indices that are not `u32` values or
/// that run backwards, a closing comment naming another source or closing
/// nothing, and a block left open at the end.
pub fn parse_annotations(content: &str) -> (r: (Vec<AnnotationBlock>, Vec<ParseError>))
    ensures
        (blocks_view(r.0@), errors_view(r.1@)) == strict_parse(content@),
{
    let lines = split_lines(content);
    let ghost lv = rows_view(lines@);
    let mut pending: Option<AnnotationBlock> = None;
    let mut blocks: Vec<AnnotationBlock> = Vec::new();
    let mut errors: Vec<ParseError> = Vec::new();
    let mut i: usize = 0;
    assert(blocks_view(blocks@) =~= Seq::<BlockView>::empty());
    assert(errors_view(errors@) =~= Seq::<ErrView>::empty());
    assert(lv.take(0) =~= Seq::<Seq<char>>::empty());
    while i < lines.len()
        invariant
            i <= lines.len(),
            lv == rows_view(lines@),
            (StrictView {
                pending: opt_block(pending),
                blocks: blocks_view(blocks@),
                errors: errors_view(errors@),
            }) == strict_run(lv.take(i as int)),
        decreases lines.len() - i,
    {
        let t = trim_chars(&lines[i]);
        let line = i + 1;
        assert(lv.take(i + 1).drop_last() =~= lv.take(i as int));
        assert(lv.take(i + 1).last() == lines@[i as int]@);
        let ghost st = strict_run(lv.take(i as int));
        match read_open_tag(&t) {
            Some((src, from, to)) => {
                open_block(&mut pending, &mut errors, line, &src, &from, &to);
            },
            None => match read_close_tag(&t) {
                Some(close) => {
                    let done = close_block(&mut pending, &mut errors, line, &close);
                    match done {
                        Some(b) => {
                            blocks.push(b);
                            assert(blocks_view(blocks@) =~= st.blocks.push(b@));
                        },
                        None => {},
                    }
                },
                None => {},
            },
        }
        i += 1;
    }
    assert(lv.take(lines.len() as int) =~= lv);
    match pending {
        Some(p) => {
            let ghost e0 = errors_view(errors@);
            let message = unclosed_eof_message(p.source_id.as_str());
            errors.push(ParseError { line: p.open_line, message });
            assert(errors_view(errors@) =~= e0.push(ErrView { line: p.open_line as int, message: msg_unclosed_eof(p.source_id@) }));
        },
        None => {},
    }
    (blocks, errors)
}

// ---------------------------------------------------------------------------
// Building the edit
// ---------------------------------------------------------------------------

/// Blocks never run backwards.
pub open spec fn blocks_forward(bs: Seq<BlockView>) -> bool {
    forall|i: int| 0 <= i < bs.len() ==> #[trigger] bs[i].from_word <= bs[i].to_word
}

/// Every block the strict reader completes runs forward.
proof fn lemma_strict_forward(lines: Seq<Seq<char>>)
    ensures
        blocks_forward(strict_run(lines).blocks),
        strict_run(lines).pending matches Some(p) ==> p.from_word <= p.to_word,
    decreases lines.len(),
{
    if lines.len() > 0 {
        lemma_strict_forward(lines.drop_last());
    }
}

/// Whether some block covers a single word (a range of zero duration,
/// which an edit refuses).
pub open spec fn has_single_word(bs: Seq<BlockView>) -> bool {
    exists|i: int| 0 <= i < bs.len() && #[trigger] bs[i].from_word == bs[i].to_word
}

/// The shots made from blocks, in order, numbered from 1.
pub open spec fn imported_shots(bs: Seq<BlockView>) -> Seq<ShotView> {
    Seq::new(
        bs.len(),
        |i: int|
            fresh_shot(
                generated_shot_id((i + 1) as u32),
                bs[i].source_id,
                ShotRange::Words { from: bs[i].from_word, to: bs[i].to_word },
            ),
    )
}

/// Whether `r` is what importing blocks `bs` found with errors `es` into an
/// edit named `name` gives: the errors if there are any; otherwise the
/// refusal of a single-word range if a block has one; otherwise an edit
/// holding one shot per block.
pub open spec fn imported(bs: Seq<BlockView>, es: Seq<ErrView>, name: Seq<char>, r: Result<EditDocument, ImportError>) -> bool {
    if es.len() > 0 {
        r matches Err(ImportError::ParseErrors(v)) && errors_view(v@) == es
    } else if has_single_word(bs) {
        r matches Err(ImportError::Edit(EditError::InvalidRange(m))) && m@
            == "range has zero duration"@
    } else {
        &&& r matches Ok(doc)
        &&& doc@.name == name
        &&& doc@.shots == imported_shots(bs)
        &&& doc@.head == bs.len() - 1
        &&& doc@.next_shot_id == bs.len() + 1
        &&& doc_wf(doc@)
    }
}

/// Adds one shot per block to a fresh edit named `name`.
fn edit_from_blocks(blocks: &Vec<AnnotationBlock>, name: &str) -> (r: Result<EditDocument, ImportError>)
    requires
        blocks.len() < i32::MAX,
        blocks_forward(blocks_view(blocks@)),
    ensures
        imported(blocks_view(blocks@), Seq::empty(), name@, r),
{
    let ghost bs = blocks_view(blocks@);
    let mut doc = EditDocument::create(name);
    let mut i: usize = 0;
    assert(doc@.shots =~= imported_shots(bs.take(0)));
    while i < blocks.len()
        invariant
            i <= blocks.len(),
            blocks.len() < i32::MAX,
            bs == blocks_view(blocks@),
            blocks_forward(bs),
            forall|q: int| 0 <= q < i ==> #[trigger] bs[q].from_word < bs[q].to_word,
            doc@.name == name@,
            doc@.shots == imported_shots(bs.take(i as int)),
            doc@.head == i - 1,
            doc@.next_shot_id == i + 1,
            doc_wf(doc@),
        decreases blocks.len() - i,
    {
        let b = &blocks[i];
        assert(bs[i as int] == b@);
        let range = ShotRange::Words { from: b.from_word, to: b.to_word };
        match doc.add_shot(b.source_id.as_str(), range) {
            Ok(_) => {},
            Err(e) => {
                proof {
                    reveal_strlit("range has zero duration");
                    assert(bs[i as int].from_word == bs[i as int].to_word);
                }
                return Err(ImportError::Edit(e));
            },
        }
        assert(doc@.shots =~= imported_shots(bs.take(i + 1)));
        i += 1;
    }
    assert(bs.take(blocks.len() as int) =~= bs);
    Ok(doc)
}

/// Builds an edit named `name` from annotated markdown: one shot over the
/// words of each block, in the order the blocks appear. Fails with every
/// parse problem found, or when a block covers a single word.
pub fn from_transcript_str(content: &str, name: &str) -> (r: Result<EditDocument, ImportError>)
    requires
        strict_parse(content@).1.len() == 0 ==> strict_parse(content@).0.len() < i32::MAX,
    ensures
        imported(strict_parse(content@).0, strict_parse(content@).1, name@, r),
{
    let (blocks, errors) = parse_annotations(content);
    if errors.len() > 0 {
        return Err(ImportError::ParseErrors(errors));
    }
    proof {
        lemma_strict_forward(lines_of(content@));
    }
    edit_from_blocks(&blocks, name)
}

// ---------------------------------------------------------------------------
// The fuzzy reader: annotations, source headers and free text
// ---------------------------------------------------------------------------

/// Free text found outside any block: its source (from the header it
/// follows), its lines joined by spaces, and the line it starts on.
#[derive(Debug, Clone, PartialEq)]
pub struct OrphanedBlock {
    pub source_id: String,
    pub text: String,
    pub first_line: usize,
}

/// A block of the annotated text: annotated, or free text to be matched.
#[derive(Debug, Clone, PartialEq)]
pub enum ContentBlock {
    Annotated(AnnotationBlock),
    Orphaned(OrphanedBlock),
}

pub enum ContentView {
    Annotated(BlockView),
    Orphaned { source_id: Seq<char>, text: Seq<char>, first_line: int },
}

impl View for ContentBlock {
    type V = ContentView;

    open spec fn view(&self) -> ContentView {
        match self {
            ContentBlock::Annotated(b) => ContentView::Annotated(b@),
            ContentBlock::Orphaned(o) => ContentView::Orphaned {
                source_id: o.source_id@,
                text: o.text@,
                first_line: o.first_line as int,
            },
        }
    }
}

/// The views of a list of content blocks.
pub open spec fn contents_view(v: Seq<ContentBlock>) -> Seq<ContentView> {
    v.map_values(|c: ContentBlock| c@)
}

pub struct FuzzyView {
    pub source: Option<Seq<char>>,
    pub pending: Option<BlockView>,
    pub blocks: Seq<ContentView>,
    pub errors: Seq<ErrView>,
    pub orphan: Seq<Seq<char>>,
    pub orphan_first: int,
}

/// Ends the run of free text: it becomes a block of the current source, or,
/// outside any source section, an error.
pub open spec fn flushed(st: FuzzyView) -> FuzzyView {
    if st.orphan.len() == 0 {
        st
    } else {
        match st.source {
            Some(src) => FuzzyView {
                blocks: st.blocks.push(
                    ContentView::Orphaned {
                        source_id: src,
                        text: join(st.orphan, " "@),
                        first_line: st.orphan_first,
                    },
                ),
                orphan: Seq::empty(),
                ..st
            },
            None => FuzzyView {
                errors: st.errors.push(ErrView { line: st.orphan_first, message: msg_no_source() }),
                orphan: Seq::empty(),
                ..st
            },
        }
    }
}

/// Reading trimmed line `t`, numbered `line`: a source header or a `---`
/// rule ends the run of free text (a header also changes the source); an
/// opening annotation ends it too and opens a block; a closing annotation
/// closes the block; lines inside a block are skipped; other text lines
/// extend the run of free text, and an empty line ends it.
pub open spec fn fuzzy_step(st: FuzzyView, line: int, t: Seq<char>) -> FuzzyView {
    match source_tag(t) {
        Some(id) => FuzzyView { source: Some(id), ..flushed(st) },
        None => if t == "---"@ {
            flushed(st)
        } else {
            match open_tag(t) {
                Some(tag) => {
                    let f = flushed(st);
                    let (p, e) = after_open(f.pending, f.errors, line, tag);
                    FuzzyView { pending: p, errors: e, ..f }
                },
                None => match close_tag(t) {
                    Some(c) => {
                        let (b, e) = after_close(st.pending, st.errors, line, c);
                        FuzzyView {
                            pending: None,
                            blocks: match b {
                                Some(x) => st.blocks.push(ContentView::Annotated(x)),
                                None => st.blocks,
                            },
                            errors: e,
                            ..st
                        }
                    },
                    None => if st.pending is Some {
                        st
                    } else if t.len() > 0 {
                        FuzzyView {
                            orphan: st.orphan.push(t),
                            orphan_first: if st.orphan.len() == 0 { line } else { st.orphan_first },
                            ..st
                        }
                    } else {
                        flushed(st)
                    },
                },
            }
        },
    }
}

/// The state after reading the given lines.
pub open spec fn fuzzy_run(lines: Seq<Seq<char>>) -> FuzzyView
    decreases lines.len(),
{
    if lines.len() == 0 {
        FuzzyView {
            source: None,
            pending: None,
            blocks: Seq::empty(),
            errors: Seq::empty(),
            orphan: Seq::empty(),
            orphan_first: 0,
        }
    } else {
        fuzzy_step(fuzzy_run(lines.drop_last()), lines.len() as int, trimmed(lines.last()))
    }
}

/// The content blocks and errors of an annotated text read by the fuzzy
/// reader: the last run of free text ends with the text, and a block still
/// open is reported unclosed.
pub open spec fn fuzzy_parse(content: Seq<char>) -> (Seq<ContentView>, Seq<ErrView>) {
    let st = flushed(fuzzy_run(lines_of(content)));
    (
        st.blocks,
        match st.pending {
            Some(p) => st.errors.push(
                ErrView { line: p.open_line, message: msg_unclosed_eof(p.source_id) },
            ),
            None => st.errors,
        },
    )
}

/// The state of the fuzzy reader.
struct ContentReader {
    source: Option<String>,
    pending: Option<AnnotationBlock>,
    blocks: Vec<ContentBlock>,
    errors: Vec<ParseError>,
    orphan: Vec<String>,
    orphan_first: usize,
}

/// The view of an optional string.
pub open spec fn opt_str(o: Option<String>) -> Option<Seq<char>> {
    match o {
        Some(s) => Some(s@),
        None => None,
    }
}

impl View for ContentReader {
    type V = FuzzyView;

    closed spec fn view(&self) -> FuzzyView {
        FuzzyView {
            source: opt_str(self.source),
            pending: opt_block(self.pending),
            blocks: contents_view(self.blocks@),
            errors: errors_view(self.errors@),
            orphan: strings_view(self.orphan@),
            orphan_first: self.orphan_first as int,
        }
    }
}

impl ContentReader {
    /// Ends the run of free text (see `flushed`).
    fn flush(&mut self)
        ensures
            final(self)@ == flushed(old(self)@),
    {
        if self.orphan.len() == 0 {
            return;
        }
        let text = join_strings(&self.orphan, " ");
        self.orphan = Vec::new();
        assert(strings_view(self.orphan@) =~= Seq::<Seq<char>>::empty());
        match &self.source {
            Some(src) => {
                let ghost b0 = contents_view(self.blocks@);
                self.blocks.push(
                    ContentBlock::Orphaned(OrphanedBlock {
                        source_id: copy_string(src),
                        text,
                        first_line: self.orphan_first,
                    }),
                );
                assert(contents_view(self.blocks@) =~= b0.push(
                    ContentView::Orphaned {
                        source_id: src@,
                        text: join(old(self)@.orphan, " "@),
                        first_line: self.orphan_first as int,
                    },
                ));
            },
            None => {
                let ghost e0 = errors_view(self.errors@);
                proof {
                    reveal_strlit("text outside any source section cannot be matched");
                }
                self.errors.push(
                    ParseError {
                        line: self.orphan_first,
                        message: owned("text outside any source section cannot be matched"),
                    },
                );
                assert(errors_view(self.errors@) =~= e0.push(
                    ErrView { line: self.orphan_first as int, message: msg_no_source() },
                ));
            },
        }
    }

    /// Reads one trimmed line (see `fuzzy_step`).
    fn read_line(&mut self, line: usize, t: &Vec<char>)
        ensures
            final(self)@ == fuzzy_step(old(self)@, line as int, t@),
    {
        proof {
            reveal_strlit("---");
        }
        match read_source_tag(t) {
            Some(id) => {
                self.flush();
                self.source = Some(string_of(id.as_slice()));
                return;
            },
            None => {},
        }
        let dashes = t.len() == 3 && t[0] == '-' && t[1] == '-' && t[2] == '-';
        assert(dashes == (t@ == "---"@)) by {
            if t@ == "---"@ {
                assert(t@[0] == "---"@[0] && t@[1] == "---"@[1] && t@[2] == "---"@[2]);
            }
            if dashes {
                assert(t@ =~= "---"@);
            }
        }
        if dashes {
            self.flush();
            return;
        }
        match read_open_tag(t) {
            Some((src, from, to)) => {
                self.flush();
                open_block(&mut self.pending, &mut self.errors, line, &src, &from, &to);
                return;
            },
            None => {},
        }
        match read_close_tag(t) {
            Some(close) => {
                let ghost b0 = contents_view(self.blocks@);
                let done = close_block(&mut self.pending, &mut self.errors, line, &close);
                match done {
                    Some(b) => {
                        self.blocks.push(ContentBlock::Annotated(b));
                        assert(contents_view(self.blocks@) =~= b0.push(ContentView::Annotated(b@)));
                    },
                    None => {},
                }
                return;
            },
            None => {},
        }
        if self.pending.is_some() {
            return;
        }
        if t.len() > 0 {
            if self.orphan.len() == 0 {
                self.orphan_first = line;
            }
            let ghost o0 = strings_view(self.orphan@);
            self.orphan.push(string_of(t.as_slice()));
            assert(strings_view(self.orphan@) =~= o0.push(t@));
        } else {
            self.flush();
        }
    }
}

/// Reads the blocks of an annotated transcript with the fuzzy reader: the
/// annotated blocks, and the runs of free text outside them (each tied to
/// the source of the `# Source: <id> — …` header before it), in order, with
/// every problem found.
pub fn parse_content_blocks(content: &str) -> (r: (Vec<ContentBlock>, Vec<ParseError>))
    ensures
        (contents_view(r.0@), errors_view(r.1@)) == fuzzy_parse(content@),
{
    let lines = split_lines(content);
    let ghost lv = rows_view(lines@);
    let mut reader = ContentReader {
        source: None,
        pending: None,
        blocks: Vec::new(),
        errors: Vec::new(),
        orphan: Vec::new(),
        orphan_first: 0,
    };
    assert(contents_view(reader.blocks@) =~= Seq::<ContentView>::empty());
    assert(errors_view(reader.errors@) =~= Seq::<ErrView>::empty());
    assert(strings_view(reader.orphan@) =~= Seq::<Seq<char>>::empty());
    assert(lv.take(0) =~= Seq::<Seq<char>>::empty());
    let mut i: usize = 0;
    while i < lines.len()
        invariant
            i <= lines.len(),
            lv == rows_view(lines@),
            reader@ == fuzzy_run(lv.take(i as int)),
        decreases lines.len() - i,
    {
        let t = trim_chars(&lines[i]);
        assert(lv.take(i + 1).drop_last() =~= lv.take(i as int));
        assert(lv.take(i + 1).last() == lines@[i as int]@);
        reader.read_line(i + 1, &t);
        i += 1;
    }
    assert(lv.take(lines.len() as int) =~= lv);
    reader.flush();
    let ContentReader { source: _, pending, blocks, mut errors, orphan: _, orphan_first: _ } = reader;
    match pending {
        Some(p) => {
            let ghost e0 = errors_view(errors@);
            let message = unclosed_eof_message(p.source_id.as_str());
            errors.push(ParseError { line: p.open_line, message });
            assert(errors_view(errors@) =~= e0.push(
                ErrView { line: p.open_line as int, message: msg_unclosed_eof(p.source_id@) },
            ));
        },
        None => {},
    }
    (blocks, errors)
}

// ---------------------------------------------------------------------------
// Building the edit with fuzzy matching
// ---------------------------------------------------------------------------

/// Whether cutting `s` at `max` bytes falls between characters (or `s` is
/// no longer than that).
pub open spec fn cut_ok(s: Seq<char>, max: nat) -> bool {
    utf8_bytes(s) <= max || utf8_bytes(s.take(fit_count(s, max as int) as int)) == max
}

/// Whether `s` can be cut at `max` bytes between characters (see `cut_ok`).
pub fn can_cut(s: &str, max: usize) -> (r: bool)
    ensures
        r == cut_ok(s@, max as nat),
{
    let chars = chars_of(s);
    let mut used: usize = 0;
    let mut k: usize = 0;
    proof {
        assert(s@.skip(0) =~= s@);
        assert(s@.take(0) =~= Seq::<char>::empty());
    }
    while k < chars.len()
        invariant
            k <= chars.len(),
            chars@ == s@,
            used <= max,
            used == utf8_bytes(s@.take(k as int)),
            fit_count(s@, max as int) == k + fit_count(s@.skip(k as int), (max - used) as int),
        ensures
            k <= chars.len(),
            chars@ == s@,
            used <= max,
            used == utf8_bytes(s@.take(k as int)),
            fit_count(s@, max as int) == k + fit_count(s@.skip(k as int), (max - used) as int),
            k < chars.len() ==> utf8_len(chars@[k as int]) > max - used,
        decreases chars.len() - k,
    {
        let n = char_utf8_len(chars[k]);
        if n > max - used {
            break;
        }
        proof {
            lemma_utf8_bytes_push(s@.take(k as int), chars@[k as int]);
            assert(s@.take(k as int).push(chars@[k as int]) =~= s@.take(k + 1));
        }
        assert(s@.skip(k as int).drop_first() =~= s@.skip(k + 1));
        assert(s@.skip(k as int)[0] == chars@[k as int]);
        used = used + n;
        k += 1;
    }
    if k < chars.len() {
        assert(s@.skip(k as int)[0] == chars@[k as int]);
        assert(fit_count(s@.skip(k as int), (max - used) as int) == 0);
    } else {
        assert(s@.skip(k as int).len() == 0);
    }
    proof {
        lemma_fit_count(s@, max as int);
    }
    k == chars.len() || used == max
}

/// Cuts a string to `max` bytes, marking the cut with `...`. The cut must
/// fall between characters.
pub fn truncate_text(s: &str, max: usize) -> (r: String)
    requires
        cut_ok(s@, max as nat),
    ensures
        r@ == truncated(s@, max as nat),
{
    truncate_preview(s, max)
}

pub open spec fn msg_unmatched(src: Seq<char>, text: Seq<char>) -> Seq<char> {
    "could not match text against transcript for source '"@ + src + "': \""@ + truncated(text, 60)
        + "\""@
}

pub open spec fn msg_no_transcript(src: Seq<char>) -> Seq<char> {
    "no transcript available for source '"@ + src + "'"@
}

/// The transcript stored under the given source id (the first entry with
/// that key).
pub open spec fn transcript_for(ts: Seq<(Seq<char>, TranscriptView)>, src: Seq<char>) -> Option<TranscriptView>
    decreases ts.len(),
{
    if ts.len() == 0 {
        None
    } else if ts[0].0 == src {
        Some(ts[0].1)
    } else {
        transcript_for(ts.drop_first(), src)
    }
}

/// The views of transcripts keyed by the id of the source they were read
/// for.
pub open spec fn transcripts_view(ts: Seq<(String, Transcript)>) -> Seq<(Seq<char>, TranscriptView)> {
    ts.map_values(|p: (String, Transcript)| (p.0@, p.1@))
}

/// Where a content block lands: a shot over a word range, or an error.
pub enum Placement {
    Shot { source: Seq<char>, from: u32, to: u32 },
    Unmatched(ErrView),
}

/// Where a content block lands: an annotated block on its own words; free
/// text on the words it matches in its source's transcript (see
/// `match_text`), or an error when it matches nothing or the source has no
/// transcript.
pub open spec fn place(c: ContentView, ts: Seq<(Seq<char>, TranscriptView)>) -> Placement {
    match c {
        ContentView::Annotated(b) => Placement::Shot { source: b.source_id, from: b.from_word, to: b.to_word },
        ContentView::Orphaned { source_id, text, first_line } => match transcript_for(ts, source_id) {
            Some(t) => match match_result(tokens(text), normal_words(all_words(t))) {
                Some((f, to)) => Placement::Shot { source: source_id, from: f, to },
                None => Placement::Unmatched(ErrView { line: first_line, message: msg_unmatched(source_id, text) }),
            },
            None => Placement::Unmatched(ErrView { line: first_line, message: msg_no_transcript(source_id) }),
        },
    }
}

/// Placing blocks in order: the shots and errors so far, or the refusal of
/// the first improper range (which ends the import).
pub enum Placed {
    Going { shots: Seq<(Seq<char>, u32, u32)>, errors: Seq<ErrView> },
    Refused(Seq<char>),
}

/// The outcome of placing the first blocks.
pub open spec fn placed(cs: Seq<ContentView>, ts: Seq<(Seq<char>, TranscriptView)>) -> Placed
    decreases cs.len(),
{
    if cs.len() == 0 {
        Placed::Going { shots: Seq::empty(), errors: Seq::empty() }
    } else {
        match placed(cs.drop_last(), ts) {
            Placed::Refused(m) => Placed::Refused(m),
            Placed::Going { shots, errors } => match place(cs.last(), ts) {
                Placement::Shot { source, from, to } => if from < to {
                    Placed::Going { shots: shots.push((source, from, to)), errors }
                } else {
                    Placed::Refused(range_problem(ShotRange::Words { from, to }))
                },
                Placement::Unmatched(e) => Placed::Going { shots, errors: errors.push(e) },
            },
        }
    }
}

/// Free text whose error message quotes it, cut at 60 bytes.
pub open spec fn quotes_text(c: ContentView, ts: Seq<(Seq<char>, TranscriptView)>) -> bool {
    &&& c matches ContentView::Orphaned { source_id, text, first_line }
    &&& transcript_for(ts, source_id) is Some
    &&& place(c, ts) is Unmatched
}

/// Every quoted text reached before the import ends can be cut at 60 bytes
/// between characters.
pub open spec fn quotes_cut_ok(cs: Seq<ContentView>, ts: Seq<(Seq<char>, TranscriptView)>) -> bool
    decreases cs.len(),
{
    if cs.len() == 0 {
        true
    } else {
        &&& quotes_cut_ok(cs.drop_last(), ts)
        &&& (placed(cs.drop_last(), ts) is Going && quotes_text(cs.last(), ts)) ==> (cs.last() matches ContentView::Orphaned { text, .. } && cut_ok(text, 60))
    }
}

/// The shots made from placed ranges, in order, numbered from 1.
pub open spec fn placed_shots(sh: Seq<(Seq<char>, u32, u32)>) -> Seq<ShotView> {
    Seq::new(
        sh.len(),
        |i: int|
            fresh_shot(
                generated_shot_id((i + 1) as u32),
                sh[i].0,
                ShotRange::Words { from: sh[i].1, to: sh[i].2 },
            ),
    )
}

/// Whether `r` is what the fuzzy import of blocks `cs` found with errors
/// `es` gives: the parse errors if there are any; otherwise the refusal of
/// the first improper range; otherwise the matching errors if there are
/// any; otherwise an edit holding one shot per block.
pub open spec fn fuzzy_imported(
    cs: Seq<ContentView>,
    es: Seq<ErrView>,
    ts: Seq<(Seq<char>, TranscriptView)>,
    name: Seq<char>,
    r: Result<EditDocument, ImportError>,
) -> bool {
    if es.len() > 0 {
        r matches Err(ImportError::ParseErrors(v)) && errors_view(v@) == es
    } else {
        match placed(cs, ts) {
            Placed::Refused(m) => r matches Err(ImportError::Edit(EditError::InvalidRange(x))) && x@ == m,
            Placed::Going { shots, errors } => if errors.len() > 0 {
                r matches Err(ImportError::ParseErrors(v)) && errors_view(v@) == errors
            } else {
                &&& r matches Ok(doc)
                &&& doc@.name == name
                &&& doc@.shots == placed_shots(shots)
                &&& doc@.head == shots.len() - 1
                &&& doc@.next_shot_id == shots.len() + 1
                &&& doc_wf(doc@)
            },
        }
    }
}

/// The transcript stored under the given source id.
pub(crate) fn transcript_named<'a>(ts: &'a Vec<(String, Transcript)>, src: &str) -> (r: Option<&'a Transcript>)
    ensures
        match r {
            Some(t) => transcript_for(transcripts_view(ts@), src@) == Some(t@),
            None => transcript_for(transcripts_view(ts@), src@) is None,
        },
{
    let ghost tv = transcripts_view(ts@);
    let mut i: usize = 0;
    assert(tv.skip(0) =~= tv);
    while i < ts.len()
        invariant
            i <= ts.len(),
            tv == transcripts_view(ts@),
            transcript_for(tv, src@) == transcript_for(tv.skip(i as int), src@),
        decreases ts.len() - i,
    {
        assert(tv.skip(i as int)[0] == (ts@[i as int].0@, ts@[i as int].1@));
        assert(tv.skip(i as int).drop_first() =~= tv.skip(i + 1));
        if crate::text::str_eq(ts[i].0.as_str(), src) {
            return Some(&ts[i].1);
        }
        i += 1;
    }
    None
}

/// Where a content block lands (see `place`).
fn place_block(c: &ContentBlock, ts: &Vec<(String, Transcript)>) -> (r: Result<(String, u32, u32), ParseError>)
    requires
        quotes_text(c@, transcripts_view(ts@)) ==> (c@ matches ContentView::Orphaned { text, .. } && cut_ok(text, 60)),
    ensures
        match place(c@, transcripts_view(ts@)) {
            Placement::Shot { source, from, to } => r matches Ok((s, f, t)) && s@ == source && f == from && t == to,
            Placement::Unmatched(e) => r matches Err(x) && x@ == e,
        },
{
    match c {
        ContentBlock::Annotated(b) => Ok((copy_string(&b.source_id), b.from_word, b.to_word)),
        ContentBlock::Orphaned(o) => match transcript_named(ts, o.source_id.as_str()) {
            Some(t) => match match_text(o.text.as_str(), t) {
                Some((f, to)) => Ok((copy_string(&o.source_id), f, to)),
                None => {
                    proof {
                        reveal_strlit("could not match text against transcript for source '");
                        reveal_strlit("': \"");
                        reveal_strlit("\"");
                    }
                    let cut = truncate_text(o.text.as_str(), 60);
                    let mut m = owned("could not match text against transcript for source '");
                    push_str(&mut m, o.source_id.as_str());
                    push_str(&mut m, "': \"");
                    push_str(&mut m, cut.as_str());
                    push_str(&mut m, "\"");
                    Err(ParseError { line: o.first_line, message: m })
                },
            },
            None => {
                proof {
                    reveal_strlit("no transcript available for source '");
                    reveal_strlit("'");
                }
                let m = quoted("no transcript available for source '", o.source_id.as_str(), "'");
                Err(ParseError { line: o.first_line, message: m })
            },
        },
    }
}

/// Builds an edit named `name` from annotated markdown read by the fuzzy
/// reader: annotated blocks keep their word ranges, and free text is matched
/// against the transcript of its source (`transcripts`, keyed by source
/// id). Fails with the parse problems, with the refusal of the first range
/// that is not proper, or with every piece of text that could not be placed.
pub fn from_transcript_str_fuzzy(content: &str, name: &str, transcripts: &Vec<(String, Transcript)>) -> (r: Result<EditDocument, ImportError>)
    requires
        fuzzy_parse(content@).1.len() == 0 ==> fuzzy_parse(content@).0.len() < i32::MAX,
        fuzzy_parse(content@).1.len() == 0 ==> quotes_cut_ok(fuzzy_parse(content@).0, transcripts_view(transcripts@)),
    ensures
        fuzzy_imported(fuzzy_parse(content@).0, fuzzy_parse(content@).1, transcripts_view(transcripts@), name@, r),
{
    let (blocks, errors) = parse_content_blocks(content);
    if errors.len() > 0 {
        return Err(ImportError::ParseErrors(errors));
    }
    let ghost cs = contents_view(blocks@);
    let ghost tv = transcripts_view(transcripts@);
    let mut doc = EditDocument::create(name);
    let mut match_errors: Vec<ParseError> = Vec::new();
    let mut i: usize = 0;
    assert(cs.take(0) =~= Seq::<ContentView>::empty());
    assert(doc@.shots =~= placed_shots(Seq::empty()));
    assert(errors_view(match_errors@) =~= Seq::<ErrView>::empty());
    while i < blocks.len()
        invariant
            i <= blocks.len(),
            blocks.len() < i32::MAX,
            cs == contents_view(blocks@),
            cs == fuzzy_parse(content@).0,
            fuzzy_parse(content@).1.len() == 0,
            tv == transcripts_view(transcripts@),
            quotes_cut_ok(cs, tv),
            placed(cs.take(i as int), tv) matches Placed::Going { shots, errors } && {
                &&& doc@.shots == placed_shots(shots)
                &&& doc@.head == shots.len() - 1
                &&& doc@.next_shot_id == shots.len() + 1
                &&& shots.len() <= i
                &&& errors_view(match_errors@) == errors
            },
            doc@.name == name@,
            doc_wf(doc@),
        decreases blocks.len() - i,
    {
        assert(cs.take(i + 1).drop_last() =~= cs.take(i as int));
        assert(cs.take(i + 1).last() == blocks@[i as int]@);
        proof {
            lemma_quotes_cut_ok_prefix(cs, tv, i + 1);
        }
        match place_block(&blocks[i], transcripts) {
            Ok((src, from, to)) => {
                let range = ShotRange::Words { from, to };
                match doc.add_shot(src.as_str(), range) {
                    Ok(_) => {},
                    Err(e) => {
                        proof {
                            lemma_refused_stays(cs, tv, i + 1);
                        }
                        return Err(ImportError::Edit(e));
                    },
                }
                assert(doc@.shots =~= placed_shots(placed(cs.take(i + 1), tv)->shots));
            },
            Err(pe) => {
                let ghost e0 = errors_view(match_errors@);
                match_errors.push(pe);
                assert(errors_view(match_errors@) =~= e0.push(pe@));
            },
        }
        i += 1;
    }
    assert(cs.take(blocks.len() as int) =~= cs);
    if match_errors.len() > 0 {
        return Err(ImportError::ParseErrors(match_errors));
    }
    Ok(doc)
}

/// Whether `from_transcript_str_fuzzy` can take `content` and
/// `transcripts`: when the content reads without errors, its blocks number
/// fewer than `i32::MAX` and every quoted piece of text that does not match
/// can be cut at 60 bytes between characters.
pub fn fuzzy_import_in_bounds(content: &str, transcripts: &Vec<(String, Transcript)>) -> (r: bool)
    ensures
        r == (fuzzy_parse(content@).1.len() == 0 ==> (fuzzy_parse(content@).0.len() < i32::MAX
            && quotes_cut_ok(fuzzy_parse(content@).0, transcripts_view(transcripts@)))),
{
    let (blocks, errors) = parse_content_blocks(content);
    if errors.len() > 0 {
        return true;
    }
    if blocks.len() >= 0x7fff_ffff {
        return false;
    }
    let ghost cs = contents_view(blocks@);
    let ghost tv = transcripts_view(transcripts@);
    let mut i: usize = 0;
    assert(cs.take(0) =~= Seq::<ContentView>::empty());
    while i < blocks.len()
        invariant
            i <= blocks.len(),
            blocks.len() < i32::MAX,
            cs == contents_view(blocks@),
            cs == fuzzy_parse(content@).0,
            fuzzy_parse(content@).1.len() == 0,
            tv == transcripts_view(transcripts@),
            quotes_cut_ok(cs.take(i as int), tv),
            placed(cs.take(i as int), tv) is Going,
        decreases blocks.len() - i,
    {
        assert(cs.take(i + 1).drop_last() =~= cs.take(i as int));
        assert(cs.take(i + 1).last() == blocks@[i as int]@);
        match &blocks[i] {
            ContentBlock::Annotated(b) => {
                if b.from_word >= b.to_word {
                    proof {
                        lemma_cut_ok_after_refusal(cs, tv, i + 1);
                    }
                    return true;
                }
            },
            ContentBlock::Orphaned(o) => {
                if let Some(t) = transcript_named(transcripts, o.source_id.as_str()) {
                    match match_text(o.text.as_str(), t) {
                        Some((f, to)) => {
                            if f >= to {
                                proof {
                                    lemma_cut_ok_after_refusal(cs, tv, i + 1);
                                }
                                return true;
                            }
                        },
                        None => {
                            if !can_cut(o.text.as_str(), 60) {
                                proof {
                                    if quotes_cut_ok(cs, tv) {
                                        lemma_quotes_cut_ok_prefix(cs, tv, i + 1);
                                    }
                                }
                                return false;
                            }
                        },
                    }
                }
            },
        }
        i += 1;
    }
    assert(cs.take(blocks.len() as int) =~= cs);
    true
}

/// Past a refused range nothing more is quoted.
proof fn lemma_cut_ok_after_refusal(cs: Seq<ContentView>, ts: Seq<(Seq<char>, TranscriptView)>, n: int)
    requires
        0 <= n <= cs.len(),
        quotes_cut_ok(cs.take(n), ts),
        placed(cs.take(n), ts) is Refused,
    ensures
        quotes_cut_ok(cs, ts),
    decreases cs.len() - n,
{
    if n < cs.len() {
        assert(cs.take(n + 1).drop_last() =~= cs.take(n));
        lemma_cut_ok_after_refusal(cs, ts, n + 1);
    } else {
        assert(cs.take(n) =~= cs);
    }
}

/// Once a range is refused, the import stays refused.
proof fn lemma_refused_stays(cs: Seq<ContentView>, ts: Seq<(Seq<char>, TranscriptView)>, n: int)
    requires
        0 <= n <= cs.len(),
        placed(cs.take(n), ts) is Refused,
    ensures
        placed(cs, ts) == placed(cs.take(n), ts),
    decreases cs.len() - n,
{
    if n < cs.len() {
        assert(cs.take(n + 1).drop_last() =~= cs.take(n));
        lemma_refused_stays(cs, ts, n + 1);
    } else {
        assert(cs.take(n) =~= cs);
    }
}

/// The cut condition holds of every prefix that keeps it.
proof fn lemma_quotes_cut_ok_prefix(cs: Seq<ContentView>, ts: Seq<(Seq<char>, TranscriptView)>, n: int)
    requires
        quotes_cut_ok(cs, ts),
        0 <= n <= cs.len(),
    ensures
        quotes_cut_ok(cs.take(n), ts),
    decreases cs.len() - n,
{
    if n < cs.len() {
        assert(cs.take(n + 1).drop_last() =~= cs.take(n));
        lemma_quotes_cut_ok_prefix(cs, ts, n + 1);
    } else {
        assert(cs.take(n) =~= cs);
    }
}

} // verus!
