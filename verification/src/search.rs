//! One search across a project: transcripts, scene descriptions and marker
//! labels and notes, with a case-insensitive regular expression. The
//! project's files are read by the caller, which hands over what it read.
use vstd::prelude::*;
use crate::models::{Manifest, Marker, ShotRange, SourceIndex, SourceMarkers, SourceView, Transcript, TranscriptView, Word, SceneView, opt_view};
use crate::resolve::all_words;
use crate::pattern::{regex_compiles, regex_error_text, regex_spans, regex_matches, regex_error, regex_find_spans, regex_is_match};
use crate::text::{push_str, push_dec, owned, copy_string, str_eq, dec};
use crate::transcript_ops::{
    word_texts, search_text, word_starts, word_ends, first_word_pos, last_word_pos, words_between,
    context_before, context_after, query_pattern, passes_filter, opt_str, lay_out_words, word_span,
    join_words, words_before, words_after,
};

verus! {

broadcast use vstd::string::group_string_axioms;

// ---------------------------------------------------------------------------
// Errors and types
// ---------------------------------------------------------------------------

/// What can go wrong with a search.
#[derive(Debug, Clone, PartialEq)]
pub enum SearchError {
    InvalidRegex { pattern: String, source: String },
    Io(String),
    Json { path: String, source: String },
}

/// The message of a search error.
pub open spec fn search_error_message(e: SearchError) -> Seq<char> {
    match e {
        SearchError::InvalidRegex { pattern, source } => "invalid regex '"@ + pattern@ + "': "@
            + source@,
        SearchError::Io(m) => m@,
        SearchError::Json { path, source } => "failed to parse JSON from "@ + path@ + ": "@
            + source@,
    }
}

impl SearchError {
    /// The human-readable message of this error.
    pub fn to_string(&self) -> (r: String)
        ensures
            r@ == search_error_message(*self),
    {
        match self {
            SearchError::InvalidRegex { pattern, source } => {
                let mut r = owned("invalid regex '");
                push_str(&mut r, pattern.as_str());
                push_str(&mut r, "': ");
                push_str(&mut r, source.as_str());
                r
            },
            SearchError::Io(m) => copy_string(m),
            SearchError::Json { path, source } => {
                let mut r = owned("failed to parse JSON from ");
                push_str(&mut r, path.as_str());
                push_str(&mut r, ": ");
                push_str(&mut r, source.as_str());
                r
            },
        }
    }
}

/// Where a search result was found.
#[derive(Debug, Clone, Copy, PartialEq, Eq, Structural)]
pub enum ResultType {
    Transcript,
    Scene,
    Metadata,
}

/// Which kind of result a search keeps.
#[derive(Debug, Clone, Copy, PartialEq, Eq, Structural)]
pub enum TypeFilter {
    Transcript,
    Scene,
    Metadata,
}

/// A result of a search across transcripts, scenes and markers.
#[derive(Debug, Clone, PartialEq)]
pub struct SearchResult {
    pub result_type: ResultType,
    pub source_id: String,
    pub start_ms: u64,
    pub end_ms: u64,
    pub matched_text: String,
    pub context: String,
}

pub struct ResultView {
    pub result_type: ResultType,
    pub source_id: Seq<char>,
    pub start_ms: u64,
    pub end_ms: u64,
    pub matched_text: Seq<char>,
    pub context: Seq<char>,
}

impl View for SearchResult {
    type V = ResultView;

    open spec fn view(&self) -> ResultView {
        ResultView {
            result_type: self.result_type,
            source_id: self.source_id@,
            start_ms: self.start_ms,
            end_ms: self.end_ms,
            matched_text: self.matched_text@,
            context: self.context@,
        }
    }
}

/// The views of a list of search results.
pub open spec fn results_view(v: Seq<SearchResult>) -> Seq<ResultView> {
    v.map_values(|r: SearchResult| r@)
}

// ---------------------------------------------------------------------------
// Transcripts
// ---------------------------------------------------------------------------

/// The matched words in brackets, with up to five words of context on either
/// side marked by ellipses.
pub open spec fn bracketed(before: Seq<char>, matched: Seq<char>, after: Seq<char>) -> Seq<char> {
    (if before.len() > 0 {
        "..."@ + before + " "@
    } else {
        Seq::empty()
    }) + "["@ + matched + "]"@ + (if after.len() > 0 {
        " "@ + after + "..."@
    } else {
        Seq::empty()
    })
}

/// The result of a match spanning bytes `sp.0` to `sp.1` of a transcript's
/// searched text.
pub open spec fn transcript_result(t: TranscriptView, sp: (usize, usize)) -> ResultView {
    let ws = all_words(t);
    let texts = word_texts(ws);
    let f = first_word_pos(word_starts(texts), sp.0);
    let l = last_word_pos(word_ends(texts), sp.1);
    let matched = words_between(texts, f, l + 1);
    ResultView {
        result_type: ResultType::Transcript,
        source_id: t.source_id,
        start_ms: ws[f].start_ms,
        end_ms: ws[l].end_ms,
        matched_text: matched,
        context: bracketed(context_before(texts, f), matched, context_after(texts, l)),
    }
}

/// The results of searching one transcript: one per match in its searched
/// text, none for a transcript without words.
pub open spec fn transcript_results(t: TranscriptView, pattern: Seq<char>) -> Seq<ResultView> {
    let texts = word_texts(all_words(t));
    if texts.len() == 0 {
        Seq::empty()
    } else {
        regex_spans(pattern, search_text(texts)).map_values(
            |sp: (usize, usize)| transcript_result(t, sp),
        )
    }
}

fn bracket_context(before: &String, matched: &String, after: &String) -> (r: String)
    ensures
        r@ == bracketed(before@, matched@, after@),
{
    proof {
        reveal_strlit("");
    }
    let mut r = String::new();
    if before.unicode_len() > 0 {
        push_str(&mut r, "...");
        push_str(&mut r, before.as_str());
        push_str(&mut r, " ");
    }
    push_str(&mut r, "[");
    push_str(&mut r, matched.as_str());
    push_str(&mut r, "]");
    if after.unicode_len() > 0 {
        push_str(&mut r, " ");
        push_str(&mut r, after.as_str());
        push_str(&mut r, "...");
    }
    assert(r@ =~= bracketed(before@, matched@, after@));
    r
}

fn search_transcript(t: &Transcript, pattern: &str) -> (r: Vec<SearchResult>)
    requires
        regex_compiles(pattern@),
    ensures
        results_view(r@) == transcript_results(t@, pattern@),
{
    let (words, starts, ends, full) = lay_out_words(t);
    let ghost ws = all_words(t@);
    let ghost texts = word_texts(ws);
    if words.len() == 0 {
        return Vec::new();
    }
    let spans = regex_find_spans(pattern, full.as_str());
    let mut out: Vec<SearchResult> = Vec::new();
    let mut k: usize = 0;
    while k < spans.len()
        invariant
            k <= spans.len(),
            words@.map_values(|w: &Word| w@) == ws,
            ws == all_words(t@),
            texts == word_texts(ws),
            words.len() > 0,
            starts@ == word_starts(texts),
            ends@ == word_ends(texts),
            spans@ == regex_spans(pattern@, search_text(texts)),
            results_view(out@) == spans@.take(k as int).map_values(
                |sp: (usize, usize)| transcript_result(t@, sp),
            ),
        decreases spans.len() - k,
    {
        let sp = spans[k];
        let (f, l) = word_span(&starts, &ends, sp);
        assert(words@[f as int]@ == ws[f as int]);
        assert(words@[l as int]@ == ws[l as int]);
        let matched = if f <= l {
            join_words(&words, f, l + 1)
        } else {
            String::new()
        };
        assert(matched@ == words_between(texts, f as int, l + 1)) by {
            if f > l {
                assert(matched@ =~= Seq::<char>::empty());
            }
        }
        let before = words_before(&words, f);
        let after = words_after(&words, l);
        let context = bracket_context(&before, &matched, &after);
        let h = SearchResult {
            result_type: ResultType::Transcript,
            source_id: copy_string(&t.source_id),
            start_ms: words[f].start_ms,
            end_ms: words[l].end_ms,
            matched_text: matched,
            context,
        };
        assert(h@ == transcript_result(t@, sp));
        let ghost prev = results_view(out@);
        out.push(h);
        assert(results_view(out@) =~= prev.push(h@));
        assert(spans@.take(k + 1) =~= spans@.take(k as int).push(sp));
        assert(spans@.take(k + 1).map_values(|sp: (usize, usize)| transcript_result(t@, sp))
            =~= spans@.take(k as int).map_values(|sp: (usize, usize)| transcript_result(t@, sp)).push(
            transcript_result(t@, sp),
        ));
        k += 1;
    }
    assert(spans@.take(spans.len() as int) =~= spans@);
    out
}

// ---------------------------------------------------------------------------
// Scenes
// ---------------------------------------------------------------------------

/// The results of searching the descriptions of the first `n` scenes of an
/// index: one per described scene whose description matches.
pub open spec fn scene_results_upto(
    source_id: Seq<char>,
    ss: Seq<SceneView>,
    pattern: Seq<char>,
    n: int,
) -> Seq<ResultView>
    decreases n,
{
    if n <= 0 {
        Seq::empty()
    } else {
        let r = scene_results_upto(source_id, ss, pattern, n - 1);
        let s = ss[n - 1];
        match s.description {
            Some(d) => if regex_matches(pattern, d) {
                r.push(
                    ResultView {
                        result_type: ResultType::Scene,
                        source_id,
                        start_ms: s.start_ms,
                        end_ms: s.end_ms,
                        matched_text: d,
                        context: "scene "@ + dec(s.index as nat) + ": "@ + d,
                    },
                )
            } else {
                r
            },
            None => r,
        }
    }
}

fn search_scenes(index: &SourceIndex, pattern: &str) -> (r: Vec<SearchResult>)
    requires
        regex_compiles(pattern@),
    ensures
        results_view(r@) == scene_results_upto(
            index.source_id@,
            index@.scenes,
            pattern@,
            index@.scenes.len() as int,
        ),
{
    let ghost ss = index@.scenes;
    let mut out: Vec<SearchResult> = Vec::new();
    let mut i: usize = 0;
    while i < index.scenes.len()
        invariant
            i <= index.scenes.len(),
            ss == index@.scenes,
            ss.len() == index.scenes.len(),
            regex_compiles(pattern@),
            results_view(out@) == scene_results_upto(index.source_id@, ss, pattern@, i as int),
        decreases index.scenes.len() - i,
    {
        let scene = &index.scenes[i];
        assert(scene@ == ss[i as int]);
        match &scene.description {
            Some(d) => {
                if regex_is_match(pattern, d.as_str()) {
                    let mut context = owned("scene ");
                    push_dec(&mut context, scene.index as u64);
                    push_str(&mut context, ": ");
                    push_str(&mut context, d.as_str());
                    let h = SearchResult {
                        result_type: ResultType::Scene,
                        source_id: copy_string(&index.source_id),
                        start_ms: scene.start_ms,
                        end_ms: scene.end_ms,
                        matched_text: copy_string(d),
                        context,
                    };
                    let ghost prev = results_view(out@);
                    out.push(h);
                    assert(results_view(out@) =~= prev.push(h@));
                }
            },
            None => {},
        }
        i += 1;
    }
    out
}

// ---------------------------------------------------------------------------
// Markers
// ---------------------------------------------------------------------------

/// The times a marker's range gives: a time range in milliseconds; a word or
/// scene range gives its indices as they are.
pub open spec fn range_times(range: ShotRange) -> (u64, u64) {
    match range {
        ShotRange::Time { from_ms, to_ms } => (from_ms, to_ms),
        ShotRange::Words { from, to } => (from as u64, to as u64),
        ShotRange::Scenes { from, to } => (from as u64, to as u64),
    }
}

fn range_to_ms(range: &ShotRange) -> (r: (u64, u64))
    ensures
        r == range_times(*range),
{
    match range {
        ShotRange::Time { from_ms, to_ms } => (*from_ms, *to_ms),
        ShotRange::Words { from, to } => (*from as u64, *to as u64),
        ShotRange::Scenes { from, to } => (*from as u64, *to as u64),
    }
}

/// The result for a marker whose label or note matches: the note when that
/// matches, the label otherwise; the context names the marker, its label and
/// its note.
pub open spec fn marker_result(source_id: Seq<char>, m: Marker, pattern: Seq<char>) -> ResultView {
    let note_match = m.note matches Some(n) && regex_matches(pattern, n@);
    ResultView {
        result_type: ResultType::Metadata,
        source_id,
        start_ms: range_times(m.range).0,
        end_ms: range_times(m.range).1,
        matched_text: if note_match {
            m.note.unwrap()@
        } else {
            m.label@
        },
        context: match m.note {
            Some(n) => m.id@ + " ["@ + m.label@ + "] \""@ + n@ + "\""@,
            None => m.id@ + " ["@ + m.label@ + "]"@,
        },
    }
}

/// Whether a marker's label or note matches.
pub open spec fn marker_matches(m: Marker, pattern: Seq<char>) -> bool {
    regex_matches(pattern, m.label@) || (m.note matches Some(n) && regex_matches(pattern, n@))
}

/// The results of searching the first `n` markers of a source.
pub open spec fn marker_results_upto(
    source_id: Seq<char>,
    ms: Seq<Marker>,
    pattern: Seq<char>,
    n: int,
) -> Seq<ResultView>
    decreases n,
{
    if n <= 0 {
        Seq::empty()
    } else {
        let r = marker_results_upto(source_id, ms, pattern, n - 1);
        if marker_matches(ms[n - 1], pattern) {
            r.push(marker_result(source_id, ms[n - 1], pattern))
        } else {
            r
        }
    }
}

fn search_markers(markers: &SourceMarkers, pattern: &str) -> (r: Vec<SearchResult>)
    requires
        regex_compiles(pattern@),
    ensures
        results_view(r@) == marker_results_upto(
            markers.source_id@,
            markers.markers@,
            pattern@,
            markers.markers.len() as int,
        ),
{
    let mut out: Vec<SearchResult> = Vec::new();
    let mut i: usize = 0;
    while i < markers.markers.len()
        invariant
            i <= markers.markers.len(),
            regex_compiles(pattern@),
            results_view(out@) == marker_results_upto(
                markers.source_id@,
                markers.markers@,
                pattern@,
                i as int,
            ),
        decreases markers.markers.len() - i,
    {
        let marker = &markers.markers[i];
        let label_match = regex_is_match(pattern, marker.label.as_str());
        let note_match = match &marker.note {
            Some(n) => regex_is_match(pattern, n.as_str()),
            None => false,
        };
        if label_match || note_match {
            let (start_ms, end_ms) = range_to_ms(&marker.range);
            let matched_text = if note_match {
                match &marker.note {
                    Some(n) => copy_string(n),
                    None => String::new(),
                }
            } else {
                copy_string(&marker.label)
            };
            let mut context = copy_string(&marker.id);
            push_str(&mut context, " [");
            push_str(&mut context, marker.label.as_str());
            match &marker.note {
                Some(n) => {
                    push_str(&mut context, "] \"");
                    push_str(&mut context, n.as_str());
                    push_str(&mut context, "\"");
                },
                None => {
                    push_str(&mut context, "]");
                },
            }
            let h = SearchResult {
                result_type: ResultType::Metadata,
                source_id: copy_string(&markers.source_id),
                start_ms,
                end_ms,
                matched_text,
                context,
            };
            assert(h@ == marker_result(markers.source_id@, markers.markers@[i as int], pattern@));
            let ghost prev = results_view(out@);
            out.push(h);
            assert(results_view(out@) =~= prev.push(h@));
        }
        i += 1;
    }
    out
}

// ---------------------------------------------------------------------------
// The search
// ---------------------------------------------------------------------------

/// Whether a type filter keeps results of a kind.
pub open spec fn keeps(filter: Option<TypeFilter>, kind: TypeFilter) -> bool {
    match filter {
        Some(f) => f == kind,
        None => true,
    }
}

/// What the search finds in one source, in the order transcript, scenes,
/// markers.
pub open spec fn source_results(
    s: SourceView,
    type_filter: Option<TypeFilter>,
    transcript: Option<Transcript>,
    index: Option<SourceIndex>,
    markers: Option<SourceMarkers>,
    pattern: Seq<char>,
) -> Seq<ResultView> {
    let a = match transcript {
        Some(t) => if keeps(type_filter, TypeFilter::Transcript) && s.transcribed {
            transcript_results(t@, pattern)
        } else {
            Seq::empty()
        },
        None => Seq::empty(),
    };
    let b = match index {
        Some(x) => if keeps(type_filter, TypeFilter::Scene) && s.indexed {
            scene_results_upto(x.source_id@, x@.scenes, pattern, x@.scenes.len() as int)
        } else {
            Seq::empty()
        },
        None => Seq::empty(),
    };
    let c = match markers {
        Some(m) => if keeps(type_filter, TypeFilter::Metadata) {
            marker_results_upto(m.source_id@, m.markers@, pattern, m.markers.len() as int)
        } else {
            Seq::empty()
        },
        None => Seq::empty(),
    };
    a + b + c
}

/// The `i`-th element of a list of optional values, or none past its end.
pub open spec fn nth<T>(v: Seq<Option<T>>, i: int) -> Option<T> {
    if 0 <= i < v.len() {
        v[i]
    } else {
        None
    }
}

/// What the search finds in the first `n` sources that pass the filter.
pub open spec fn results_upto(
    srcs: Seq<SourceView>,
    filter: Option<Seq<char>>,
    type_filter: Option<TypeFilter>,
    transcripts: Seq<Option<Transcript>>,
    indexes: Seq<Option<SourceIndex>>,
    markers: Seq<Option<SourceMarkers>>,
    pattern: Seq<char>,
    n: int,
) -> Seq<ResultView>
    decreases n,
{
    if n <= 0 {
        Seq::empty()
    } else {
        let r = results_upto(srcs, filter, type_filter, transcripts, indexes, markers, pattern, n - 1);
        if passes_filter(srcs[n - 1], filter) {
            r + source_results(
                srcs[n - 1],
                type_filter,
                nth(transcripts, n - 1),
                nth(indexes, n - 1),
                nth(markers, n - 1),
                pattern,
            )
        } else {
            r
        }
    }
}

fn opt_at<T>(v: &Vec<Option<T>>, i: usize) -> (r: Option<&T>)
    ensures
        match nth(v@, i as int) {
            Some(x) => r == Some(&x),
            None => r is None,
        },
{
    if i < v.len() {
        match &v[i] {
            Some(x) => Some(x),
            None => None,
        }
    } else {
        None
    }
}

/// Searches a project's transcripts, scene descriptions and marker labels and
/// notes with a case-insensitive regular expression. An invalid expression is
/// refused before anything else. Then, source by source in manifest order
/// (only the one named by `source_filter`, when given), and only for the
/// kind `type_filter` names, when given: the transcript of a transcribed
/// source, the scene descriptions of an indexed one, and its markers, each
/// where it could be read (`transcripts[i]`, `indexes[i]` and `markers[i]`
/// are what was read for the `i`-th source).
pub fn search(
    manifest: Result<Manifest, SearchError>,
    query: &str,
    source_filter: Option<&str>,
    type_filter: Option<&TypeFilter>,
    transcripts: &Vec<Option<Transcript>>,
    indexes: &Vec<Option<SourceIndex>>,
    markers: &Vec<Option<SourceMarkers>>,
) -> (r: Result<Vec<SearchResult>, SearchError>)
    ensures
        !regex_compiles(query_pattern(query@)) ==> (r matches Err(
            SearchError::InvalidRegex { pattern, source },
        ) && pattern@ == query@ && source@ == regex_error_text(query_pattern(query@))),
        regex_compiles(query_pattern(query@)) ==> match manifest {
            Err(e) => r == Err::<Vec<SearchResult>, SearchError>(e),
            Ok(m) => r matches Ok(v) && results_view(v@) == results_upto(
                m@,
                opt_str(source_filter),
                match type_filter {
                    Some(f) => Some(*f),
                    None => None,
                },
                transcripts@,
                indexes@,
                markers@,
                query_pattern(query@),
                m@.len() as int,
            ),
        },
{
    let mut pattern = owned("(?i)");
    push_str(&mut pattern, query);
    match regex_error(pattern.as_str()) {
        Some(msg) => {
            return Err(SearchError::InvalidRegex { pattern: owned(query), source: msg });
        },
        None => {},
    }
    let m = match manifest {
        Err(e) => return Err(e),
        Ok(m) => m,
    };
    let tf: Option<TypeFilter> = match type_filter {
        Some(f) => Some(*f),
        None => None,
    };
    let keep_transcripts = match tf {
        Some(f) => f == TypeFilter::Transcript,
        None => true,
    };
    let keep_scenes = match tf {
        Some(f) => f == TypeFilter::Scene,
        None => true,
    };
    let keep_markers = match tf {
        Some(f) => f == TypeFilter::Metadata,
        None => true,
    };
    let ghost sv = m@;
    let mut out: Vec<SearchResult> = Vec::new();
    let mut i: usize = 0;
    while i < m.sources.len()
        invariant
            i <= m.sources.len(),
            sv == m@,
            sv.len() == m.sources.len(),
            pattern@ == query_pattern(query@),
            regex_compiles(pattern@),
            keep_transcripts == keeps(tf, TypeFilter::Transcript),
            keep_scenes == keeps(tf, TypeFilter::Scene),
            keep_markers == keeps(tf, TypeFilter::Metadata),
            results_view(out@) == results_upto(
                sv,
                opt_str(source_filter),
                tf,
                transcripts@,
                indexes@,
                markers@,
                pattern@,
                i as int,
            ),
        decreases m.sources.len() - i,
    {
        let s = &m.sources[i];
        assert(s@ == sv[i as int]);
        let passes = match source_filter {
            Some(f) => str_eq(s.id.as_str(), f),
            None => true,
        };
        if passes {
            let ghost prev = results_view(out@);
            let mut a: Vec<SearchResult> = Vec::new();
            match opt_at(transcripts, i) {
                Some(t) => {
                    if keep_transcripts && s.transcribed {
                        a = search_transcript(t, pattern.as_str());
                    }
                },
                None => {},
            }
            let mut b: Vec<SearchResult> = Vec::new();
            match opt_at(indexes, i) {
                Some(x) => {
                    if keep_scenes && s.indexed {
                        b = search_scenes(x, pattern.as_str());
                    }
                },
                None => {},
            }
            let mut c: Vec<SearchResult> = Vec::new();
            match opt_at(markers, i) {
                Some(mk) => {
                    if keep_markers {
                        c = search_markers(mk, pattern.as_str());
                    }
                },
                None => {},
            }
            let ghost av = results_view(a@);
            let ghost bv = results_view(b@);
            let ghost cv = results_view(c@);
            out.append(&mut a);
            out.append(&mut b);
            out.append(&mut c);
            assert(results_view(out@) =~= prev + av + bv + cv);
            assert(av + bv + cv =~= source_results(
                sv[i as int],
                tf,
                nth(transcripts@, i as int),
                nth(indexes@, i as int),
                nth(markers@, i as int),
                pattern@,
            ));
        }
        i += 1;
    }
    Ok(out)
}

} // verus!
