//! Listing, reading and searching the transcripts of a project. The project's
//! files are read by the caller, which hands over what it read.
use vstd::prelude::*;
use crate::models::{Manifest, Source, SourceView, Transcript, TranscriptView, Word, WordView, SegmentView, flat_words};
use crate::resolve::{all_words, flatten_words, lemma_flat_words_take};
use crate::pattern::{regex_compiles, regex_error_text, regex_spans, regex_error, regex_find_spans};
use crate::text::{push_str, owned, copy_string, str_eq, join};
use crate::validate::{source_for, find_source};

verus! {

broadcast use vstd::string::group_string_axioms;

// ---------------------------------------------------------------------------
// Errors
// ---------------------------------------------------------------------------

/// What can go wrong with transcripts.
#[derive(Debug, Clone, PartialEq)]
pub enum TranscriptOpsError {
    SourceNotFound(String),
    NoTranscript(String),
    InvalidRegex { pattern: String, source: String },
    Io(String),
    Json { path: String, source: String },
}

/// The message of a transcript error.
pub open spec fn transcript_ops_error_message(e: TranscriptOpsError) -> Seq<char> {
    match e {
        TranscriptOpsError::SourceNotFound(s) => "source not found: "@ + s@,
        TranscriptOpsError::NoTranscript(s) => "source '"@ + s@ + "' has no transcript"@,
        TranscriptOpsError::InvalidRegex { pattern, source } => "invalid regex '"@ + pattern@
            + "': "@ + source@,
        TranscriptOpsError::Io(m) => m@,
        TranscriptOpsError::Json { path, source } => "failed to parse JSON from "@ + path@ + ": "@
            + source@,
    }
}

impl TranscriptOpsError {
    /// The human-readable message of this error.
    pub fn to_string(&self) -> (r: String)
        ensures
            r@ == transcript_ops_error_message(*self),
    {
        match self {
            TranscriptOpsError::SourceNotFound(s) => {
                let mut r = owned("source not found: ");
                push_str(&mut r, s.as_str());
                r
            },
            TranscriptOpsError::NoTranscript(s) => {
                let mut r = owned("source '");
                push_str(&mut r, s.as_str());
                push_str(&mut r, "' has no transcript");
                r
            },
            TranscriptOpsError::InvalidRegex { pattern, source } => {
                let mut r = owned("invalid regex '");
                push_str(&mut r, pattern.as_str());
                push_str(&mut r, "': ");
                push_str(&mut r, source.as_str());
                r
            },
            TranscriptOpsError::Io(m) => copy_string(m),
            TranscriptOpsError::Json { path, source } => {
                let mut r = owned("failed to parse JSON from ");
                push_str(&mut r, path.as_str());
                push_str(&mut r, ": ");
                push_str(&mut r, source.as_str());
                r
            },
        }
    }
}

// ---------------------------------------------------------------------------
// Types
// ---------------------------------------------------------------------------

/// Summary of a transcript for listing.
#[derive(Debug, Clone, PartialEq)]
pub struct TranscriptInfo {
    pub source_id: String,
    pub duration_ms: u64,
    pub word_count: u32,
    pub path: String,
}

pub struct InfoView {
    pub source_id: Seq<char>,
    pub duration_ms: u64,
    pub word_count: u32,
    pub path: Seq<char>,
}

impl View for TranscriptInfo {
    type V = InfoView;

    open spec fn view(&self) -> InfoView {
        InfoView {
            source_id: self.source_id@,
            duration_ms: self.duration_ms,
            word_count: self.word_count,
            path: self.path@,
        }
    }
}

/// A match of a search within a transcript.
#[derive(Debug, Clone, PartialEq)]
pub struct SearchResult {
    pub source_id: String,
    pub segment_index: u32,
    pub from_word: u32,
    pub to_word: u32,
    pub start_ms: u64,
    pub end_ms: u64,
    pub text: String,
    pub context_before: String,
    pub context_after: String,
}

pub struct HitView {
    pub source_id: Seq<char>,
    pub segment_index: u32,
    pub from_word: u32,
    pub to_word: u32,
    pub start_ms: u64,
    pub end_ms: u64,
    pub text: Seq<char>,
    pub context_before: Seq<char>,
    pub context_after: Seq<char>,
}

impl View for SearchResult {
    type V = HitView;

    open spec fn view(&self) -> HitView {
        HitView {
            source_id: self.source_id@,
            segment_index: self.segment_index,
            from_word: self.from_word,
            to_word: self.to_word,
            start_ms: self.start_ms,
            end_ms: self.end_ms,
            text: self.text@,
            context_before: self.context_before@,
            context_after: self.context_after@,
        }
    }
}

/// The views of a list of search results.
pub open spec fn hits_view(v: Seq<SearchResult>) -> Seq<HitView> {
    v.map_values(|h: SearchResult| h@)
}

/// The views of a list of transcript summaries.
pub open spec fn infos_view(v: Seq<TranscriptInfo>) -> Seq<InfoView> {
    v.map_values(|i: TranscriptInfo| i@)
}

// ---------------------------------------------------------------------------
// Listing and reading
// ---------------------------------------------------------------------------

/// Where a source's transcript lies, relative to the project directory.
pub open spec fn transcript_rel_file(source_id: Seq<char>) -> Seq<char> {
    "transcripts/"@ + source_id + ".transcript.json"@
}

/// The path of a source's transcript, relative to the project directory.
pub fn transcript_rel_path(source_id: &str) -> (r: String)
    ensures
        r@ == transcript_rel_file(source_id@),
{
    let mut r = owned("transcripts/");
    push_str(&mut r, source_id);
    push_str(&mut r, ".transcript.json");
    r
}

/// The summaries of the first `n` sources: one for each source marked as
/// transcribed whose transcript could be read (`loaded` is aligned with the
/// sources).
pub open spec fn listed_upto(srcs: Seq<SourceView>, loaded: Seq<Option<Transcript>>, n: int) -> Seq<
    InfoView,
>
    decreases n,
{
    if n <= 0 {
        Seq::empty()
    } else {
        let r = listed_upto(srcs, loaded, n - 1);
        let s = srcs[n - 1];
        if s.transcribed && n - 1 < loaded.len() && loaded[n - 1] is Some {
            let t = loaded[n - 1].unwrap();
            r.push(
                InfoView {
                    source_id: t.source_id@,
                    duration_ms: t.duration_ms,
                    word_count: t.word_count,
                    path: transcript_rel_file(s.id),
                },
            )
        } else {
            r
        }
    }
}

/// The transcripts of a project: for each source marked as transcribed, in
/// manifest order, the summary of its transcript; a source whose transcript
/// could not be read is skipped. `loaded[i]` is what was read for the `i`-th
/// source.
pub fn list(manifest: Result<Manifest, TranscriptOpsError>, loaded: &Vec<Option<Transcript>>) -> (r:
    Result<Vec<TranscriptInfo>, TranscriptOpsError>)
    ensures
        match manifest {
            Err(e) => r == Err::<Vec<TranscriptInfo>, TranscriptOpsError>(e),
            Ok(m) => r matches Ok(v) && infos_view(v@) == listed_upto(m@, loaded@, m@.len() as int),
        },
{
    let m = match manifest {
        Err(e) => return Err(e),
        Ok(m) => m,
    };
    let ghost sv = m@;
    let mut out: Vec<TranscriptInfo> = Vec::new();
    let mut i: usize = 0;
    while i < m.sources.len()
        invariant
            i <= m.sources.len(),
            sv == m@,
            sv.len() == m.sources.len(),
            infos_view(out@) == listed_upto(sv, loaded@, i as int),
        decreases m.sources.len() - i,
    {
        let s = &m.sources[i];
        assert(s@ == sv[i as int]);
        if s.transcribed && i < loaded.len() {
            match &loaded[i] {
                Some(t) => {
                    let info = TranscriptInfo {
                        source_id: copy_string(&t.source_id),
                        duration_ms: t.duration_ms,
                        word_count: t.word_count,
                        path: transcript_rel_path(s.id.as_str()),
                    };
                    let ghost before = infos_view(out@);
                    out.push(info);
                    assert(infos_view(out@) =~= before.push(info@));
                },
                None => {},
            }
        }
        i += 1;
    }
    Ok(out)
}

/// A source's transcript: refused when the manifest names no such source or
/// the source is not marked as transcribed; otherwise what was read from its
/// file (`stored`).
pub fn read(
    manifest: Result<Manifest, TranscriptOpsError>,
    source_id: &str,
    stored: Result<Transcript, TranscriptOpsError>,
) -> (r: Result<Transcript, TranscriptOpsError>)
    ensures
        match manifest {
            Err(e) => r == Err::<Transcript, TranscriptOpsError>(e),
            Ok(m) => match source_for(m@, source_id@) {
                None => r matches Err(TranscriptOpsError::SourceNotFound(s)) && s@ == source_id@,
                Some(s) => if !s.transcribed {
                    r matches Err(TranscriptOpsError::NoTranscript(x)) && x@ == source_id@
                } else {
                    r == stored
                },
            },
        },
{
    let m = match manifest {
        Err(e) => return Err(e),
        Ok(m) => m,
    };
    match find_source(&m, source_id) {
        None => Err(TranscriptOpsError::SourceNotFound(owned(source_id))),
        Some(s) => {
            if !s.transcribed {
                Err(TranscriptOpsError::NoTranscript(owned(source_id)))
            } else {
                stored
            }
        },
    }
}

// ---------------------------------------------------------------------------
// The words of a transcript as one text
// ---------------------------------------------------------------------------

/// Number of context words shown before and after a match.
pub const CONTEXT_WORDS: usize = 5;

/// The texts of a list of words.
pub open spec fn word_texts(ws: Seq<WordView>) -> Seq<Seq<char>> {
    ws.map_values(|w: WordView| w.text)
}

/// The text searched: the words joined by single spaces.
pub open spec fn search_text(texts: Seq<Seq<char>>) -> Seq<char> {
    join(texts, " "@)
}

/// The searched text before the `i`-th word.
pub open spec fn text_before(texts: Seq<Seq<char>>, i: int) -> Seq<char> {
    if i == 0 {
        Seq::empty()
    } else {
        join(texts.take(i), " "@) + " "@
    }
}

/// The byte offset at which the `i`-th word starts in the searched text.
pub open spec fn text_start(texts: Seq<Seq<char>>, i: int) -> usize {
    vstd::utf8::encode_utf8(text_before(texts, i)).len() as usize
}

/// The byte offset at which the `i`-th word ends in the searched text.
pub open spec fn text_end(texts: Seq<Seq<char>>, i: int) -> usize {
    vstd::utf8::encode_utf8(join(texts.take(i + 1), " "@)).len() as usize
}

/// The byte offsets at which the words start.
pub open spec fn word_starts(texts: Seq<Seq<char>>) -> Seq<usize> {
    Seq::new(texts.len(), |i: int| text_start(texts, i))
}

/// The byte offsets at which the words end.
pub open spec fn word_ends(texts: Seq<Seq<char>>) -> Seq<usize> {
    Seq::new(texts.len(), |i: int| text_end(texts, i))
}

/// How many of `v` are at most `s`.
pub open spec fn count_at_most(v: Seq<usize>, s: usize) -> nat
    decreases v.len(),
{
    if v.len() == 0 {
        0
    } else {
        count_at_most(v.drop_last(), s) + if v.last() <= s {
            1nat
        } else {
            0nat
        }
    }
}

/// How many of `v` are below `e`.
pub open spec fn count_below(v: Seq<usize>, e: usize) -> nat
    decreases v.len(),
{
    if v.len() == 0 {
        0
    } else {
        count_below(v.drop_last(), e) + if v.last() < e {
            1nat
        } else {
            0nat
        }
    }
}

/// The word in which a match starting at byte `s` begins: the last word that
/// starts at or before it (the first word when none does).
pub open spec fn first_word_pos(starts: Seq<usize>, s: usize) -> int {
    let c = count_at_most(starts, s);
    if c > 0 {
        c - 1
    } else {
        0
    }
}

/// The word in which a match ending at byte `e` ends: the first word that
/// ends at or after it (the last word when none does).
pub open spec fn last_word_pos(ends: Seq<usize>, e: usize) -> int {
    let c = count_below(ends, e);
    if c + 1 < ends.len() {
        c as int
    } else {
        ends.len() - 1
    }
}

/// The words from the `a`-th up to (not including) the `b`-th, joined by
/// spaces; nothing when `a` lies past `b`.
pub open spec fn words_between(texts: Seq<Seq<char>>, a: int, b: int) -> Seq<char> {
    if a <= b {
        join(texts.subrange(a, b), " "@)
    } else {
        Seq::empty()
    }
}

/// Up to five words before the `p`-th.
pub open spec fn context_before(texts: Seq<Seq<char>>, p: int) -> Seq<char> {
    words_between(texts, if p >= 5 { p - 5 } else { 0 }, p)
}

/// Up to five words after the `p`-th.
pub open spec fn context_after(texts: Seq<Seq<char>>, p: int) -> Seq<char> {
    words_between(texts, p + 1, if p + 6 <= texts.len() { p + 6 } else { texts.len() as int })
}

/// The segment index of each word, in order.
pub open spec fn word_segments(segs: Seq<SegmentView>) -> Seq<u32>
    decreases segs.len(),
{
    if segs.len() == 0 {
        Seq::empty()
    } else {
        word_segments(segs.drop_last()) + Seq::new(segs.last().words.len(), |i: int| segs.last().index)
    }
}

proof fn lemma_word_segments_len(segs: Seq<SegmentView>)
    ensures
        word_segments(segs).len() == flat_words(segs).len(),
    decreases segs.len(),
{
    if segs.len() > 0 {
        lemma_word_segments_len(segs.drop_last());
    }
}

/// Counting the offsets at most `s` counts no more offsets than there are.
proof fn lemma_count_at_most_len(v: Seq<usize>, s: usize)
    ensures
        count_at_most(v, s) <= v.len(),
    decreases v.len(),
{
    if v.len() > 0 {
        lemma_count_at_most_len(v.drop_last(), s);
    }
}

/// The word at position `f` of the words laid end to end is word `j` of
/// some segment `s`, and its segment index is that segment's.
proof fn lemma_word_place(segs: Seq<SegmentView>, f: int)
    requires
        0 <= f < flat_words(segs).len(),
    ensures
        exists|s: int, j: int|
            #![trigger segs[s].words[j]]
            0 <= s < segs.len() && 0 <= j < segs[s].words.len() && f == flat_words(segs.take(s)).len() + j
                && word_segments(segs)[f] == segs[s].index && flat_words(segs)[f] == segs[s].words[j],
    decreases segs.len(),
{
    let p = segs.drop_last();
    lemma_word_segments_len(p);
    let n = flat_words(p).len() as int;
    assert(flat_words(segs) == flat_words(p) + segs.last().words);
    if f < n {
        lemma_word_place(p, f);
        let (s, j) = choose|s: int, j: int|
            #![trigger p[s].words[j]]
            0 <= s < p.len() && 0 <= j < p[s].words.len() && f == flat_words(p.take(s)).len() + j
                && word_segments(p)[f] == p[s].index && flat_words(p)[f] == p[s].words[j];
        assert(segs.take(s) =~= p.take(s));
        assert(segs[s] == p[s]);
        assert(word_segments(segs)[f] == word_segments(p)[f]);
        assert(flat_words(segs)[f] == flat_words(p)[f]);
        assert(segs[s].words[j] == p[s].words[j]);
    } else {
        let s = segs.len() - 1;
        let j = f - n;
        assert(segs.take(s) =~= p);
        assert(word_segments(segs)[f] == segs.last().index);
        assert(flat_words(segs)[f] == segs.last().words[j]);
        assert(segs[s].words[j] == segs.last().words[j]);
    }
}

/// A search hit reports the segment its first matched word belongs to: that
/// word is word `j` of segment `s` (the `j`-th word after all the words of
/// the segments before `s`), and the hit carries that segment's index, and
/// that word's index and start time.
pub proof fn law_hit_segment_is_first_words(t: TranscriptView, sp: (usize, usize))
    requires
        all_words(t).len() > 0,
    ensures
        exists|s: int, j: int|
            #![trigger t.segments[s].words[j]]
            0 <= s < t.segments.len() && 0 <= j < t.segments[s].words.len()
                && flat_words(t.segments.take(s)).len() + j == first_word_pos(
                    word_starts(word_texts(all_words(t))),
                    sp.0,
                )
                && transcript_hit(t, sp).segment_index == t.segments[s].index
                && transcript_hit(t, sp).from_word == t.segments[s].words[j].index
                && transcript_hit(t, sp).start_ms == t.segments[s].words[j].start_ms,
{
    let starts = word_starts(word_texts(all_words(t)));
    lemma_count_at_most_len(starts, sp.0);
    let f = first_word_pos(starts, sp.0);
    assert(0 <= f < all_words(t).len());
    lemma_word_place(t.segments, f);
}

/// The words of a transcript laid out as the searched text: the words, the
/// byte offset at which each starts and ends, and the text.
pub(crate) fn lay_out_words(t: &Transcript) -> (r: (Vec<&Word>, Vec<usize>, Vec<usize>, String))
    ensures
        r.0@.map_values(|w: &Word| w@) == all_words(t@),
        r.1@ == word_starts(word_texts(all_words(t@))),
        r.2@ == word_ends(word_texts(all_words(t@))),
        r.3@ == search_text(word_texts(all_words(t@))),
{
    let words = flatten_words(t);
    let ghost texts = word_texts(all_words(t@));
    let mut starts: Vec<usize> = Vec::new();
    let mut ends: Vec<usize> = Vec::new();
    let mut full = String::new();
    let mut i: usize = 0;
    proof {
        reveal_strlit(" ");
    }
    while i < words.len()
        invariant
            i <= words.len(),
            words@.map_values(|w: &Word| w@) == all_words(t@),
            texts == word_texts(all_words(t@)),
            texts.len() == words.len(),
            full@ == join(texts.take(i as int), " "@),
            starts@ == word_starts(texts).take(i as int),
            ends@ == word_ends(texts).take(i as int),
        decreases words.len() - i,
    {
        assert(words@[i as int]@ == all_words(t@)[i as int]);
        assert(texts[i as int] == words@[i as int].text@);
        if i > 0 {
            push_str(&mut full, " ");
        }
        assert(full@ == text_before(texts, i as int)) by {
            if i == 0 {
                assert(texts.take(0) =~= Seq::<Seq<char>>::empty());
            }
        }
        let st = full.as_str().len();
        starts.push(st);
        assert(starts@ =~= word_starts(texts).take(i + 1));
        push_str(&mut full, words[i].text.as_str());
        assert(texts.take(i + 1).drop_last() =~= texts.take(i as int));
        assert(full@ =~= join(texts.take(i + 1), " "@)) by {
            if i == 0 {
                assert(texts.take(1) =~= seq![texts[0]]);
            }
        }
        let en = full.as_str().len();
        ends.push(en);
        assert(ends@ =~= word_ends(texts).take(i + 1));
        i += 1;
    }
    assert(texts.take(words.len() as int) =~= texts);
    assert(starts@ =~= word_starts(texts));
    assert(ends@ =~= word_ends(texts));
    (words, starts, ends, full)
}

/// The segment index of each word of a transcript.
pub(crate) fn word_segment_indices(t: &Transcript) -> (r: Vec<u32>)
    ensures
        r@ == word_segments(t@.segments),
{
    let ghost segv = t@.segments;
    let mut v: Vec<u32> = Vec::new();
    let mut i: usize = 0;
    while i < t.segments.len()
        invariant
            i <= t.segments.len(),
            segv == t@.segments,
            segv.len() == t.segments@.len(),
            v@ == word_segments(segv.take(i as int)),
        decreases t.segments.len() - i,
    {
        let seg = &t.segments[i];
        assert(segv[i as int] == seg@);
        assert(segv.take(i + 1).drop_last() =~= segv.take(i as int));
        let ghost before = v@;
        let mut j: usize = 0;
        while j < seg.words.len()
            invariant
                j <= seg.words.len(),
                seg@ == segv[i as int],
                seg@.words.len() == seg.words.len(),
                v@ == before + Seq::new(j as nat, |k: int| seg.index),
            decreases seg.words.len() - j,
        {
            v.push(seg.index);
            assert(v@ =~= before + Seq::new((j + 1) as nat, |k: int| seg.index));
            j += 1;
        }
        i += 1;
    }
    assert(segv.take(segv.len() as int) =~= segv);
    v
}

/// The first and last word of a match spanning bytes `sp.0` to `sp.1`.
pub(crate) fn word_span(starts: &Vec<usize>, ends: &Vec<usize>, sp: (usize, usize)) -> (r: (
    usize,
    usize,
))
    requires
        starts.len() == ends.len(),
        starts.len() > 0,
    ensures
        r.0 == first_word_pos(starts@, sp.0),
        r.1 == last_word_pos(ends@, sp.1),
        r.0 < starts.len(),
        r.1 < starts.len(),
{
    let mut a: usize = 0;
    let mut b: usize = 0;
    let mut j: usize = 0;
    while j < starts.len()
        invariant
            j <= starts.len(),
            starts.len() == ends.len(),
            a == count_at_most(starts@.take(j as int), sp.0),
            b == count_below(ends@.take(j as int), sp.1),
            a <= j,
            b <= j,
        decreases starts.len() - j,
    {
        assert(starts@.take(j + 1).drop_last() =~= starts@.take(j as int));
        assert(ends@.take(j + 1).drop_last() =~= ends@.take(j as int));
        if starts[j] <= sp.0 {
            a += 1;
        }
        if ends[j] < sp.1 {
            b += 1;
        }
        j += 1;
    }
    assert(starts@.take(starts.len() as int) =~= starts@);
    assert(ends@.take(ends.len() as int) =~= ends@);
    let first = if a > 0 {
        a - 1
    } else {
        0
    };
    let last = if b < ends.len() - 1 {
        b
    } else {
        ends.len() - 1
    };
    (first, last)
}

/// The texts of the words from the `a`-th up to (not including) the `b`-th,
/// joined by spaces.
pub(crate) fn join_words(ws: &Vec<&Word>, a: usize, b: usize) -> (r: String)
    requires
        a <= b <= ws.len(),
    ensures
        r@ == words_between(word_texts(ws@.map_values(|w: &Word| w@)), a as int, b as int),
{
    let ghost texts = word_texts(ws@.map_values(|w: &Word| w@));
    proof {
        reveal_strlit(" ");
    }
    let mut r = String::new();
    let mut k: usize = a;
    while k < b
        invariant
            a <= k <= b <= ws.len(),
            texts == word_texts(ws@.map_values(|w: &Word| w@)),
            r@ == join(texts.subrange(a as int, k as int), " "@),
        decreases b - k,
    {
        assert(texts[k as int] == ws@[k as int].text@);
        if k > a {
            push_str(&mut r, " ");
        }
        push_str(&mut r, ws[k].text.as_str());
        assert(texts.subrange(a as int, k + 1).drop_last() =~= texts.subrange(a as int, k as int));
        assert(r@ =~= join(texts.subrange(a as int, k + 1), " "@)) by {
            if k == a {
                assert(texts.subrange(a as int, k + 1) =~= seq![texts[k as int]]);
            }
        }
        k += 1;
    }
    r
}

/// Up to five words before the `p`-th, joined by spaces.
pub(crate) fn words_before(ws: &Vec<&Word>, p: usize) -> (r: String)
    requires
        p <= ws.len(),
    ensures
        r@ == context_before(word_texts(ws@.map_values(|w: &Word| w@)), p as int),
{
    let start = if p >= CONTEXT_WORDS {
        p - CONTEXT_WORDS
    } else {
        0
    };
    join_words(ws, start, p)
}

/// Up to five words after the `p`-th, joined by spaces.
pub(crate) fn words_after(ws: &Vec<&Word>, p: usize) -> (r: String)
    requires
        p < ws.len(),
    ensures
        r@ == context_after(word_texts(ws@.map_values(|w: &Word| w@)), p as int),
{
    let end = if ws.len() - (p + 1) >= CONTEXT_WORDS {
        p + 1 + CONTEXT_WORDS
    } else {
        ws.len()
    };
    join_words(ws, p + 1, end)
}

// ---------------------------------------------------------------------------
// Searching
// ---------------------------------------------------------------------------

/// The pattern a query is searched with: the query, case-insensitive.
pub open spec fn query_pattern(query: Seq<char>) -> Seq<char> {
    "(?i)"@ + query
}

/// The search result of a match spanning bytes `sp.0` to `sp.1` of a
/// transcript's searched text.
pub open spec fn transcript_hit(t: TranscriptView, sp: (usize, usize)) -> HitView {
    let ws = all_words(t);
    let texts = word_texts(ws);
    let f = first_word_pos(word_starts(texts), sp.0);
    let l = last_word_pos(word_ends(texts), sp.1);
    HitView {
        source_id: t.source_id,
        segment_index: word_segments(t.segments)[f],
        from_word: ws[f].index,
        to_word: ws[l].index,
        start_ms: ws[f].start_ms,
        end_ms: ws[l].end_ms,
        text: words_between(texts, f, l + 1),
        context_before: context_before(texts, f),
        context_after: context_after(texts, l),
    }
}

/// The results of searching one transcript with a pattern: one per match in
/// its searched text, none for a transcript without words.
pub open spec fn transcript_hits(t: TranscriptView, pattern: Seq<char>) -> Seq<HitView> {
    let texts = word_texts(all_words(t));
    if texts.len() == 0 {
        Seq::empty()
    } else {
        regex_spans(pattern, search_text(texts)).map_values(
            |sp: (usize, usize)| transcript_hit(t, sp),
        )
    }
}

/// Searches one transcript.
fn search_transcript(t: &Transcript, pattern: &str) -> (r: Vec<SearchResult>)
    requires
        regex_compiles(pattern@),
    ensures
        hits_view(r@) == transcript_hits(t@, pattern@),
{
    let (words, starts, ends, full) = lay_out_words(t);
    let ghost ws = all_words(t@);
    let ghost texts = word_texts(ws);
    assert(words@.map_values(|w: &Word| w@) == ws);
    if words.len() == 0 {
        return Vec::new();
    }
    let segs = word_segment_indices(t);
    proof {
        lemma_word_segments_len(t@.segments);
    }
    let spans = regex_find_spans(pattern, full.as_str());
    let mut out: Vec<SearchResult> = Vec::new();
    let mut k: usize = 0;
    while k < spans.len()
        invariant
            k <= spans.len(),
            words@.map_values(|w: &Word| w@) == ws,
            ws == all_words(t@),
            texts == word_texts(ws),
            words.len() > 0,
            starts@ == word_starts(texts),
            ends@ == word_ends(texts),
            segs@ == word_segments(t@.segments),
            segs.len() == words.len(),
            spans@ == regex_spans(pattern@, search_text(texts)),
            hits_view(out@) == spans@.take(k as int).map_values(
                |sp: (usize, usize)| transcript_hit(t@, sp),
            ),
        decreases spans.len() - k,
    {
        let sp = spans[k];
        let (f, l) = word_span(&starts, &ends, sp);
        assert(words@[f as int]@ == ws[f as int]);
        assert(words@[l as int]@ == ws[l as int]);
        let text = if f <= l {
            join_words(&words, f, l + 1)
        } else {
            String::new()
        };
        let before = words_before(&words, f);
        let after = words_after(&words, l);
        let h = SearchResult {
            source_id: copy_string(&t.source_id),
            segment_index: segs[f],
            from_word: words[f].index,
            to_word: words[l].index,
            start_ms: words[f].start_ms,
            end_ms: words[l].end_ms,
            text,
            context_before: before,
            context_after: after,
        };
        assert(h@ == transcript_hit(t@, sp)) by {
            if f > l {
                assert(h@.text =~= Seq::<char>::empty());
            }
        }
        let ghost prev = hits_view(out@);
        out.push(h);
        assert(hits_view(out@) =~= prev.push(h@));
        assert(spans@.take(k + 1) =~= spans@.take(k as int).push(sp));
        assert(spans@.take(k + 1).map_values(|sp: (usize, usize)| transcript_hit(t@, sp))
            =~= spans@.take(k as int).map_values(|sp: (usize, usize)| transcript_hit(t@, sp)).push(
            transcript_hit(t@, sp),
        ));
        k += 1;
    }
    assert(spans@.take(spans.len() as int) =~= spans@);
    out
}

/// Whether a source passes the search's source filter.
pub open spec fn passes_filter(s: SourceView, filter: Option<Seq<char>>) -> bool {
    match filter {
        Some(f) => s.id == f,
        None => true,
    }
}

/// The results of searching the transcripts of the first `n` sources: those
/// marked as transcribed that pass the filter and whose transcript could be
/// read, in manifest order.
pub open spec fn hits_upto(
    srcs: Seq<SourceView>,
    filter: Option<Seq<char>>,
    loaded: Seq<Option<Transcript>>,
    pattern: Seq<char>,
    n: int,
) -> Seq<HitView>
    decreases n,
{
    if n <= 0 {
        Seq::empty()
    } else {
        let r = hits_upto(srcs, filter, loaded, pattern, n - 1);
        let s = srcs[n - 1];
        if s.transcribed && passes_filter(s, filter) && n - 1 < loaded.len() && loaded[n - 1] is Some {
            r + transcript_hits(loaded[n - 1].unwrap()@, pattern)
        } else {
            r
        }
    }
}

/// The view of an optional string slice.
pub open spec fn opt_str(o: Option<&str>) -> Option<Seq<char>> {
    match o {
        Some(s) => Some(s@),
        None => None,
    }
}

/// Searches the project's transcripts with a case-insensitive regular
/// expression. An invalid expression is refused before anything else; then,
/// for each source marked as transcribed (only the one named by
/// `source_filter`, when given) whose transcript could be read (`loaded[i]`
/// for the `i`-th source), one result per match: the words it spans, their
/// times, and up to five words of context on either side.
pub fn search(
    manifest: Result<Manifest, TranscriptOpsError>,
    query: &str,
    source_filter: Option<&str>,
    loaded: &Vec<Option<Transcript>>,
) -> (r: Result<Vec<SearchResult>, TranscriptOpsError>)
    ensures
        !regex_compiles(query_pattern(query@)) ==> (r matches Err(
            TranscriptOpsError::InvalidRegex { pattern, source },
        ) && pattern@ == query@ && source@ == regex_error_text(query_pattern(query@))),
        regex_compiles(query_pattern(query@)) ==> match manifest {
            Err(e) => r == Err::<Vec<SearchResult>, TranscriptOpsError>(e),
            Ok(m) => r matches Ok(v) && hits_view(v@) == hits_upto(
                m@,
                opt_str(source_filter),
                loaded@,
                query_pattern(query@),
                m@.len() as int,
            ),
        },
{
    let mut pattern = owned("(?i)");
    push_str(&mut pattern, query);
    match regex_error(pattern.as_str()) {
        Some(msg) => {
            return Err(TranscriptOpsError::InvalidRegex { pattern: owned(query), source: msg });
        },
        None => {},
    }
    let m = match manifest {
        Err(e) => return Err(e),
        Ok(m) => m,
    };
    let ghost sv = m@;
    let mut out: Vec<SearchResult> = Vec::new();
    let mut i: usize = 0;
    while i < m.sources.len()
        invariant
            i <= m.sources.len(),
            sv == m@,
            sv.len() == m.sources.len(),
            pattern@ == query_pattern(query@),
            regex_compiles(pattern@),
            hits_view(out@) == hits_upto(sv, opt_str(source_filter), loaded@, pattern@, i as int),
        decreases m.sources.len() - i,
    {
        let s = &m.sources[i];
        assert(s@ == sv[i as int]);
        let passes = match source_filter {
            Some(f) => str_eq(s.id.as_str(), f),
            None => true,
        };
        if s.transcribed && passes && i < loaded.len() {
            match &loaded[i] {
                Some(t) => {
                    let found = search_transcript(t, pattern.as_str());
                    let ghost prev = hits_view(out@);
                    let mut found = found;
                    out.append(&mut found);
                    assert(hits_view(out@) =~= prev + transcript_hits(t@, pattern@));
                },
                None => {},
            }
        }
        i += 1;
    }
    Ok(out)
}

} // verus!
