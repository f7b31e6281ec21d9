//! Shots and markers resolved against their source data for display, and
//! the time formats used in listings.
use vstd::prelude::*;

use crate::edit::copy_notes;
use crate::models::{
    opt_view, EditDocument, IndexView, NoteView, Scene, SceneView, Shot, ShotNote, ShotRange,
    ShotView, SourceIndex, Transcript, TranscriptView, Word, WordView, TranscriptSegment,
    SegmentView,
};
use crate::resolve::{
    all_words, flatten_words, index_view, range_resolution, resolve_range, transcript_view,
    ResolveError,
};
use crate::text::{
    char_utf8_len, chars_of, dec, dec_pad, fit_count, join, join_strings, lemma_fit_count,
    owned, push_dec, push_dec_pad, push_str, str_eq, string_of, strings_view, utf8_bytes,
};

verus! {

broadcast use vstd::string::group_string_axioms;

// ---------------------------------------------------------------------------
// Time formats
// ---------------------------------------------------------------------------

/// `MM:SS.sss` for a number of milliseconds.
pub open spec fn time_mmss(ms: u64) -> Seq<char> {
    dec_pad((ms / 1000 / 60) as nat, 2) + ":"@ + dec_pad(((ms / 1000) % 60) as nat, 2) + "."@
        + dec_pad((ms % 1000) as nat, 3)
}

/// `HH:MM:SS<sep>mmm` for a number of milliseconds.
pub open spec fn time_hhmmss(ms: u64, sep: Seq<char>) -> Seq<char> {
    dec_pad((ms / 1000 / 3600) as nat, 2) + ":"@ + dec_pad(((ms / 1000 % 3600) / 60) as nat, 2)
        + ":"@ + dec_pad(((ms / 1000) % 60) as nat, 2) + sep + dec_pad((ms % 1000) as nat, 3)
}

/// Format milliseconds as `MM:SS.sss`.
pub fn format_time(ms: u64) -> (r: String)
    ensures
        r@ == time_mmss(ms),
{
    let total_secs = ms / 1000;
    let frac = ms % 1000;
    let minutes = total_secs / 60;
    let seconds = total_secs % 60;
    let mut s = String::new();
    push_dec_pad(&mut s, minutes, 2);
    push_str(&mut s, ":");
    push_dec_pad(&mut s, seconds, 2);
    push_str(&mut s, ".");
    push_dec_pad(&mut s, frac, 3);
    s
}

/// Appends `HH:MM:SS<sep>mmm` for a number of milliseconds.
pub fn push_time_hhmmss(s: &mut String, ms: u64, sep: &str)
    ensures
        final(s)@ == old(s)@ + time_hhmmss(ms, sep@),
{
    let total_secs = ms / 1000;
    let frac = ms % 1000;
    let hours = total_secs / 3600;
    let minutes = (total_secs % 3600) / 60;
    let seconds = total_secs % 60;
    push_dec_pad(s, hours, 2);
    push_str(s, ":");
    push_dec_pad(s, minutes, 2);
    push_str(s, ":");
    push_dec_pad(s, seconds, 2);
    push_str(s, sep);
    push_dec_pad(s, frac, 3);
}

/// `HH:MM:SS.mmm` is the hours, two digits at least, then a colon and the
/// `MM:SS.sss` of what is left within the hour.
pub proof fn law_hours_then_minutes(ms: u64)
    ensures
        time_hhmmss(ms, "."@) == dec_pad((ms / 3_600_000) as nat, 2) + ":"@ + time_mmss(ms % 3_600_000),
{
    let h = ms / 3_600_000;
    let r = ms % 3_600_000;
    assert(ms == 3_600_000 * h + r && r < 3_600_000);
    assert(ms / 1000 == 3600 * h + r / 1000 && ms % 1000 == r % 1000) by (nonlinear_arith)
        requires
            ms == 3_600_000 * h + r,
            0 <= r < 3_600_000,
            h >= 0,
    {
        assert(ms == 1000 * (3600 * h + r / 1000) + r % 1000);
    }
    assert(ms / 1000 / 3600 == h && (ms / 1000) % 3600 == r / 1000) by (nonlinear_arith)
        requires
            ms / 1000 == 3600 * h + r / 1000,
            0 <= r < 3_600_000,
            h >= 0,
    {
        assert(r / 1000 < 3600);
    }
    assert(((ms / 1000) % 60) == (r / 1000) % 60) by (nonlinear_arith)
        requires
            ms / 1000 == 3600 * h + r / 1000,
            h >= 0,
    {
        assert(3600 * h + r / 1000 == 60 * (60 * h + (r / 1000) / 60) + (r / 1000) % 60);
    }
    assert(time_hhmmss(ms, "."@) =~= dec_pad((ms / 3_600_000) as nat, 2) + ":"@ + time_mmss(ms % 3_600_000));
}

/// Format milliseconds as `HH:MM:SS.mmm`.
pub fn format_time_hms(ms: u64) -> (r: String)
    ensures
        r@ == time_hhmmss(ms, "."@),
{
    let mut s = String::new();
    push_time_hhmmss(&mut s, ms, ".");
    s
}

// ---------------------------------------------------------------------------
// Previews
// ---------------------------------------------------------------------------

/// The longest preview, in bytes, before it is cut.
pub const PREVIEW_MAX_CHARS: usize = 80;

/// `s` when it fits in `max` bytes of UTF-8; otherwise its longest prefix
/// that fits, followed by `...`.
pub open spec fn truncated(s: Seq<char>, max: nat) -> Seq<char> {
    if utf8_bytes(s) <= max {
        s
    } else {
        s.take(fit_count(s, max as int) as int) + "..."@
    }
}

/// Cut a string to at most `max` bytes without splitting a character,
/// marking the cut with `...`.
pub fn truncate_preview(s: &str, max: usize) -> (r: String)
    ensures
        r@ == truncated(s@, max as nat),
{
    let chars = chars_of(s);
    let mut used: usize = 0;
    let mut k: usize = 0;
    proof {
        assert(s@.skip(0) =~= s@);
        lemma_fit_count(s@, max as int);
    }
    while k < chars.len()
        invariant
            k <= chars.len(),
            chars@ == s@,
            used <= max,
            fit_count(s@, max as int) == k + fit_count(s@.skip(k as int), (max - used) as int),
        ensures
            k <= chars.len(),
            chars@ == s@,
            used <= max,
            fit_count(s@, max as int) == k + fit_count(s@.skip(k as int), (max - used) as int),
            k < chars.len() ==> crate::text::utf8_len(chars@[k as int]) > max - used,
        decreases chars.len() - k,
    {
        let n = char_utf8_len(chars[k]);
        if n > max - used {
            break;
        }
        assert(s@.skip(k as int).drop_first() =~= s@.skip(k + 1));
        assert(s@.skip(k as int)[0] == chars@[k as int]);
        used = used + n;
        k += 1;
    }
    if k == chars.len() {
        assert(s@.skip(k as int).len() == 0);
        return owned(s);
    }
    assert(s@.skip(k as int)[0] == chars@[k as int]);
    assert(fit_count(s@.skip(k as int), (max - used) as int) == 0);
    proof {
        lemma_fit_count(s@, max as int);
    }
    let mut r = string_of(&chars[0..k]);
    assert(chars@.subrange(0, k as int) =~= s@.take(k as int));
    push_str(&mut r, "...");
    r
}

/// The texts of the words whose index field lies in `from..=to`, in order.
pub open spec fn texts_in_range(ws: Seq<WordView>, from: u32, to: u32) -> Seq<Seq<char>>
    decreases ws.len(),
{
    if ws.len() == 0 {
        Seq::empty()
    } else {
        let r = texts_in_range(ws.drop_last(), from, to);
        if from <= ws.last().index <= to {
            r.push(ws.last().text)
        } else {
            r
        }
    }
}

/// The descriptions of the scenes whose index field lies in `from..=to`, in order.
pub open spec fn descriptions_in_range(ss: Seq<SceneView>, from: u32, to: u32) -> Seq<Seq<char>>
    decreases ss.len(),
{
    if ss.len() == 0 {
        Seq::empty()
    } else {
        let r = descriptions_in_range(ss.drop_last(), from, to);
        match ss.last().description {
            Some(d) => if from <= ss.last().index <= to {
                r.push(d)
            } else {
                r
            },
            None => r,
        }
    }
}

/// The preview of a word range: its words joined by spaces, cut to 80 bytes.
pub open spec fn text_preview(t: TranscriptView, from: u32, to: u32) -> Seq<char> {
    truncated(join(texts_in_range(all_words(t), from, to), " "@), 80)
}

/// The preview of a scene range: its descriptions joined by `; `, cut to
/// 80 bytes, or `scenes F..T` when none has one.
pub open spec fn scene_preview(x: IndexView, from: u32, to: u32) -> Seq<char> {
    let d = descriptions_in_range(x.scenes, from, to);
    if d.len() == 0 {
        "scenes "@ + dec(from as nat) + ".."@ + dec(to as nat)
    } else {
        truncated(join(d, "; "@), 80)
    }
}

/// The texts of the words with index field in `[from..=to]`.
pub fn collect_words_in_range(transcript: &Transcript, from: u32, to: u32) -> (r: Vec<String>)
    ensures
        strings_view(r@) == texts_in_range(all_words(transcript@), from, to),
{
    let words = flatten_words(transcript);
    let ghost ws = all_words(transcript@);
    let mut r: Vec<String> = Vec::new();
    let mut i: usize = 0;
    while i < words.len()
        invariant
            i <= words.len(),
            ws == all_words(transcript@),
            ws.len() == words@.len(),
            forall|k: int| 0 <= k < ws.len() ==> #[trigger] ws[k] == words@[k]@,
            strings_view(r@) == texts_in_range(ws.take(i as int), from, to),
        decreases words.len() - i,
    {
        let w = words[i];
        assert(w@ == ws[i as int]);
        assert(ws.take(i + 1).drop_last() =~= ws.take(i as int));
        if w.index >= from && w.index <= to {
            r.push(w.text.clone());
            assert(strings_view(r@) =~= texts_in_range(ws.take(i as int), from, to).push(
                ws[i as int].text,
            ));
        }
        i += 1;
    }
    assert(ws.take(ws.len() as int) =~= ws);
    r
}

/// Extract a text preview from transcript words in `[from..=to]`.
pub fn extract_text_preview(transcript: &Transcript, from: u32, to: u32) -> (r: String)
    ensures
        r@ == text_preview(transcript@, from, to),
{
    let words = collect_words_in_range(transcript, from, to);
    let full = join_strings(&words, " ");
    truncate_preview(full.as_str(), PREVIEW_MAX_CHARS)
}

/// The descriptions of scenes with index field in `[from..=to]`.
pub fn collect_descriptions_in_range(index: &SourceIndex, from: u32, to: u32) -> (r: Vec<String>)
    ensures
        strings_view(r@) == descriptions_in_range(index@.scenes, from, to),
{
    let ghost ss = index@.scenes;
    let mut r: Vec<String> = Vec::new();
    let mut i: usize = 0;
    while i < index.scenes.len()
        invariant
            i <= index.scenes.len(),
            ss == index@.scenes,
            strings_view(r@) == descriptions_in_range(ss.take(i as int), from, to),
        decreases index.scenes.len() - i,
    {
        let sc = &index.scenes[i];
        assert(sc@ == ss[i as int]);
        assert(ss.take(i + 1).drop_last() =~= ss.take(i as int));
        if sc.index >= from && sc.index <= to {
            match &sc.description {
                Some(d) => {
                    r.push(d.clone());
                    assert(strings_view(r@) =~= descriptions_in_range(ss.take(i as int), from, to).push(
                        d@,
                    ));
                },
                None => {},
            }
        }
        i += 1;
    }
    assert(ss.take(ss.len() as int) =~= ss);
    r
}

/// Extract a preview from scene descriptions in `[from..=to]`.
pub fn extract_scene_preview(index: &SourceIndex, from: u32, to: u32) -> (r: String)
    ensures
        r@ == scene_preview(index@, from, to),
{
    let descriptions = collect_descriptions_in_range(index, from, to);
    if descriptions.len() == 0 {
        let mut s = String::new();
        push_str(&mut s, "scenes ");
        push_dec(&mut s, from as u64);
        push_str(&mut s, "..");
        push_dec(&mut s, to as u64);
        s
    } else {
        let full = join_strings(&descriptions, "; ");
        truncate_preview(full.as_str(), PREVIEW_MAX_CHARS)
    }
}

} // verus!

verus! {

// ---------------------------------------------------------------------------
// Resolved shots
// ---------------------------------------------------------------------------

/// A shot resolved against its source transcript/index, ready for display.
#[derive(Debug, Clone, PartialEq)]
pub struct ResolvedShot {
    pub id: String,
    pub source: String,
    pub range: ShotRange,
    pub start_ms: u64,
    pub end_ms: u64,
    pub duration_ms: u64,
    /// For words ranges: first ~80 bytes of transcript text.
    pub text_preview: Option<String>,
    /// For scenes ranges: joined scene descriptions.
    pub scene_preview: Option<String>,
    pub notes: Vec<ShotNote>,
    /// Human-readable author of the shot.
    pub author: String,
}

pub struct ResolvedView {
    pub id: Seq<char>,
    pub source: Seq<char>,
    pub range: ShotRange,
    pub start_ms: u64,
    pub end_ms: u64,
    pub duration_ms: u64,
    pub text_preview: Option<Seq<char>>,
    pub scene_preview: Option<Seq<char>>,
    pub notes: Seq<NoteView>,
    pub author: Seq<char>,
}

impl View for ResolvedShot {
    type V = ResolvedView;

    open spec fn view(&self) -> ResolvedView {
        ResolvedView {
            id: self.id@,
            source: self.source@,
            range: self.range,
            start_ms: self.start_ms,
            end_ms: self.end_ms,
            duration_ms: self.duration_ms,
            text_preview: opt_view(self.text_preview),
            scene_preview: opt_view(self.scene_preview),
            notes: self.notes@.map_values(|n: ShotNote| n@),
            author: self.author@,
        }
    }
}

/// `b - a`, or 0 when `b < a`.
pub open spec fn saturating_diff(b: u64, a: u64) -> u64 {
    if b >= a {
        (b - a) as u64
    } else {
        0
    }
}

/// The word-range preview of a range, when it is a word range and the transcript is there.
pub open spec fn range_text_preview(range: ShotRange, t: Option<TranscriptView>) -> Option<
    Seq<char>,
> {
    match range {
        ShotRange::Words { from, to } => match t {
            Some(t) => Some(text_preview(t, from, to)),
            None => None,
        },
        _ => None,
    }
}

/// The scene-range preview of a range, when it is a scene range and the index is there.
pub open spec fn range_scene_preview(range: ShotRange, x: Option<IndexView>) -> Option<Seq<char>> {
    match range {
        ShotRange::Scenes { from, to } => match x {
            Some(x) => Some(scene_preview(x, from, to)),
            None => None,
        },
        _ => None,
    }
}

/// A shot resolved against the transcript and index of its source.
pub open spec fn resolved_shot(
    shot: ShotView,
    t: Option<TranscriptView>,
    x: Option<IndexView>,
) -> Result<ResolvedView, ResolveError> {
    match range_resolution(shot.range, t, x) {
        Err(e) => Err(e),
        Ok((s, e)) => Ok(
            ResolvedView {
                id: shot.id,
                source: shot.source,
                range: shot.range,
                start_ms: s,
                end_ms: e,
                duration_ms: saturating_diff(e, s),
                text_preview: range_text_preview(shot.range, t),
                scene_preview: range_scene_preview(shot.range, x),
                notes: shot.notes,
                author: shot.author,
            },
        ),
    }
}

/// The word-range preview of a range, if it has one.
fn text_preview_for(range: &ShotRange, transcript: Option<&Transcript>) -> (r: Option<String>)
    ensures
        opt_view(r) == range_text_preview(*range, transcript_view(transcript)),
{
    match range {
        ShotRange::Words { from, to } => match transcript {
            Some(t) => Some(extract_text_preview(t, *from, *to)),
            None => None,
        },
        _ => None,
    }
}

/// The scene-range preview of a range, if it has one.
fn scene_preview_for(range: &ShotRange, index: Option<&SourceIndex>) -> (r: Option<String>)
    ensures
        opt_view(r) == range_scene_preview(*range, index_view(index)),
{
    match range {
        ShotRange::Scenes { from, to } => match index {
            Some(x) => Some(extract_scene_preview(x, *from, *to)),
            None => None,
        },
        _ => None,
    }
}

/// Resolve one shot against the transcript and index of its source.
pub fn resolve_shot(
    shot: &Shot,
    transcript: Option<&Transcript>,
    index: Option<&SourceIndex>,
) -> (r: Result<ResolvedShot, ResolveError>)
    ensures
        match r {
            Ok(v) => resolved_shot(shot@, transcript_view(transcript), index_view(index)) == Ok::<
                ResolvedView,
                ResolveError,
            >(v@),
            Err(e) => resolved_shot(shot@, transcript_view(transcript), index_view(index)) == Err::<
                ResolvedView,
                ResolveError,
            >(e),
        },
{
    let (start_ms, end_ms) = resolve_range(&shot.range, transcript, index)?;
    let duration_ms = if end_ms >= start_ms {
        end_ms - start_ms
    } else {
        0
    };
    let r = ResolvedShot {
        id: shot.id.clone(),
        source: shot.source.clone(),
        range: shot.range,
        start_ms,
        end_ms,
        duration_ms,
        text_preview: text_preview_for(&shot.range, transcript),
        scene_preview: scene_preview_for(&shot.range, index),
        notes: copy_notes(&shot.notes),
        author: shot.author.clone(),
    };
    Ok(r)
}

// ---------------------------------------------------------------------------
// Resolving a whole edit
// ---------------------------------------------------------------------------

/// The loaded data of one source: its transcript and scene index, where
/// they exist.
#[derive(Debug, Clone, PartialEq)]
pub struct SourceData {
    pub source_id: String,
    pub transcript: Option<Transcript>,
    pub index: Option<SourceIndex>,
}

pub struct SourceDataView {
    pub source_id: Seq<char>,
    pub transcript: Option<TranscriptView>,
    pub index: Option<IndexView>,
}

impl View for SourceData {
    type V = SourceDataView;

    open spec fn view(&self) -> SourceDataView {
        SourceDataView {
            source_id: self.source_id@,
            transcript: match self.transcript {
                Some(t) => Some(t@),
                None => None,
            },
            index: match self.index {
                Some(x) => Some(x@),
                None => None,
            },
        }
    }
}

/// The data of the first entry for a source; nothing when it has none.
pub open spec fn data_for(ds: Seq<SourceDataView>, id: Seq<char>) -> (
    Option<TranscriptView>,
    Option<IndexView>,
)
    decreases ds.len(),
{
    if ds.len() == 0 {
        (None, None)
    } else if ds[0].source_id == id {
        (ds[0].transcript, ds[0].index)
    } else {
        data_for(ds.drop_first(), id)
    }
}

/// The view of a list of source data.
pub open spec fn data_view(ds: Seq<SourceData>) -> Seq<SourceDataView> {
    ds.map_values(|d: SourceData| d@)
}

/// The loaded data for a source.
pub fn lookup_source<'a>(data: &'a Vec<SourceData>, source_id: &str) -> (r: (
    Option<&'a Transcript>,
    Option<&'a SourceIndex>,
))
    ensures
        (transcript_view(r.0), index_view(r.1)) == data_for(data_view(data@), source_id@),
{
    let ghost dv = data_view(data@);
    let mut i: usize = 0;
    assert(dv.skip(0) =~= dv);
    while i < data.len()
        invariant
            i <= data.len(),
            dv == data_view(data@),
            data_for(dv, source_id@) == data_for(dv.skip(i as int), source_id@),
        decreases data.len() - i,
    {
        assert(dv.skip(i as int)[0] == data@[i as int]@);
        if str_eq(data[i].source_id.as_str(), source_id) {
            let t = match &data[i].transcript {
                Some(t) => Some(t),
                None => None,
            };
            let x = match &data[i].index {
                Some(x) => Some(x),
                None => None,
            };
            return (t, x);
        }
        assert(dv.skip(i as int).drop_first() =~= dv.skip(i + 1));
        i += 1;
    }
    (None, None)
}

/// Every shot resolved in order, or the error of the first that fails.
pub open spec fn resolved_all(shots: Seq<ShotView>, ds: Seq<SourceDataView>) -> Result<
    Seq<ResolvedView>,
    ResolveError,
>
    decreases shots.len(),
{
    if shots.len() == 0 {
        Ok(Seq::empty())
    } else {
        match resolved_all(shots.drop_last(), ds) {
            Err(e) => Err(e),
            Ok(rs) => {
                let d = data_for(ds, shots.last().source);
                match resolved_shot(shots.last(), d.0, d.1) {
                    Err(e) => Err(e),
                    Ok(r) => Ok(rs.push(r)),
                }
            },
        }
    }
}

/// The view of a list of resolved shots.
pub open spec fn resolved_view(v: Seq<ResolvedShot>) -> Seq<ResolvedView> {
    v.map_values(|r: ResolvedShot| r@)
}

/// Resolve all shots in an edit document's snapshot against the loaded
/// transcripts and indexes of their sources.
pub fn resolve_edit(doc: &EditDocument, data: &Vec<SourceData>) -> (r: Result<
    Vec<ResolvedShot>,
    ResolveError,
>)
    ensures
        match r {
            Ok(v) => resolved_all(doc@.shots, data_view(data@)) == Ok::<
                Seq<ResolvedView>,
                ResolveError,
            >(resolved_view(v@)),
            Err(e) => resolved_all(doc@.shots, data_view(data@)) == Err::<
                Seq<ResolvedView>,
                ResolveError,
            >(e),
        },
{
    let ghost sv = doc@.shots;
    let mut resolved: Vec<ResolvedShot> = Vec::new();
    let mut i: usize = 0;
    assert(sv.take(0) =~= Seq::<ShotView>::empty());
    assert(resolved_view(resolved@) =~= Seq::<ResolvedView>::empty());
    while i < doc.snapshot.shots.len()
        invariant
            i <= doc.snapshot.shots.len(),
            sv == doc@.shots,
            sv.len() == doc.snapshot.shots@.len(),
            resolved_all(sv.take(i as int), data_view(data@)) == Ok::<
                Seq<ResolvedView>,
                ResolveError,
            >(resolved_view(resolved@)),
        decreases doc.snapshot.shots.len() - i,
    {
        let shot = &doc.snapshot.shots[i];
        assert(shot@ == sv[i as int]);
        assert(sv.take(i + 1).drop_last() =~= sv.take(i as int));
        let (t, x) = lookup_source(data, shot.source.as_str());
        match resolve_shot(shot, t, x) {
            Ok(r) => {
                let ghost prev = resolved@;
                resolved.push(r);
                assert(resolved_view(resolved@) =~= resolved_view(prev).push(r@));
            },
            Err(e) => {
                proof {
                    lemma_resolved_all_err(sv, data_view(data@), (i + 1) as nat);
                }
                return Err(e);
            },
        }
        i += 1;
    }
    assert(sv.take(sv.len() as int) =~= sv);
    Ok(resolved)
}

/// An error while resolving a prefix is the error for the whole list.
proof fn lemma_resolved_all_err(shots: Seq<ShotView>, ds: Seq<SourceDataView>, n: nat)
    requires
        n <= shots.len(),
        resolved_all(shots.take(n as int), ds) is Err,
    ensures
        resolved_all(shots, ds) == resolved_all(shots.take(n as int), ds),
    decreases shots.len() - n,
{
    if n < shots.len() {
        assert(shots.take(n + 1int).drop_last() =~= shots.take(n as int));
        lemma_resolved_all_err(shots, ds, n + 1);
    } else {
        assert(shots.take(n as int) =~= shots);
    }
}

// ---------------------------------------------------------------------------
// Resolved markers
// ---------------------------------------------------------------------------

/// A marker resolved against its source's transcript and index, ready for
/// display.
#[derive(Debug, Clone, PartialEq)]
pub struct ResolvedMarker {
    pub id: String,
    pub source_id: String,
    pub range: ShotRange,
    pub label: String,
    pub note: Option<String>,
    /// Human-readable author.
    pub author: String,
    /// RFC 3339 creation time.
    pub created: String,
    pub start_ms: u64,
    pub end_ms: u64,
    pub duration_ms: u64,
    pub text_preview: Option<String>,
    pub scene_preview: Option<String>,
}

pub struct MarkerView {
    pub id: Seq<char>,
    pub source_id: Seq<char>,
    pub range: ShotRange,
    pub label: Seq<char>,
    pub note: Option<Seq<char>>,
    pub author: Seq<char>,
    pub created: Seq<char>,
    pub start_ms: u64,
    pub end_ms: u64,
    pub duration_ms: u64,
    pub text_preview: Option<Seq<char>>,
    pub scene_preview: Option<Seq<char>>,
}

impl View for ResolvedMarker {
    type V = MarkerView;

    open spec fn view(&self) -> MarkerView {
        MarkerView {
            id: self.id@,
            source_id: self.source_id@,
            range: self.range,
            label: self.label@,
            note: opt_view(self.note),
            author: self.author@,
            created: self.created@,
            start_ms: self.start_ms,
            end_ms: self.end_ms,
            duration_ms: self.duration_ms,
            text_preview: opt_view(self.text_preview),
            scene_preview: opt_view(self.scene_preview),
        }
    }
}

/// A marker of a source resolved against the source's transcript and index.
/// When the range cannot be resolved the marker still appears, at 0–0, with
/// a preview saying what was missing.
pub open spec fn resolved_marker(m: crate::models::Marker, source_id: Seq<char>, t: Option<TranscriptView>, x: Option<IndexView>) -> MarkerView {
    let r = range_resolution(m.range, t, x);
    let (s, e) = match r {
        Ok((s, e)) => (s, e),
        Err(_) => (0u64, 0u64),
    };
    MarkerView {
        id: m.id@,
        source_id,
        range: m.range,
        label: m.label@,
        note: opt_view(m.note),
        author: m.author@,
        created: m.created@,
        start_ms: s,
        end_ms: e,
        duration_ms: saturating_diff(e, s),
        text_preview: match m.range {
            ShotRange::Words { from, to } => if r is Err {
                Some("(transcript not available) words "@ + dec(from as nat) + ".."@ + dec(to as nat))
            } else {
                range_text_preview(m.range, t)
            },
            _ => None,
        },
        scene_preview: match m.range {
            ShotRange::Scenes { from, to } => if r is Err {
                Some("(index not available) scenes "@ + dec(from as nat) + ".."@ + dec(to as nat))
            } else {
                range_scene_preview(m.range, x)
            },
            _ => None,
        },
    }
}

/// `pre` + `from` + `..` + `to`.
fn range_label(pre: &str, from: u32, to: u32) -> (r: String)
    ensures
        r@ == pre@ + dec(from as nat) + ".."@ + dec(to as nat),
{
    let mut r = owned(pre);
    push_dec(&mut r, from as u64);
    push_str(&mut r, "..");
    push_dec(&mut r, to as u64);
    r
}

/// Resolves one marker (see `resolved_marker`).
fn resolve_marker(m: &crate::models::Marker, source_id: &str, transcript: Option<&Transcript>, index: Option<&SourceIndex>) -> (r: ResolvedMarker)
    ensures
        r@ == resolved_marker(*m, source_id@, transcript_view(transcript), index_view(index)),
{
    let res = resolve_range(&m.range, transcript, index);
    let (start_ms, end_ms, fallback) = match res {
        Ok((s, e)) => (s, e, false),
        Err(_) => (0, 0, true),
    };
    let duration_ms = if end_ms >= start_ms { end_ms - start_ms } else { 0 };
    let text_preview = match m.range {
        ShotRange::Words { from, to } => if fallback {
            Some(range_label("(transcript not available) words ", from, to))
        } else {
            text_preview_for(&m.range, transcript)
        },
        _ => None,
    };
    let scene_preview = match m.range {
        ShotRange::Scenes { from, to } => if fallback {
            Some(range_label("(index not available) scenes ", from, to))
        } else {
            scene_preview_for(&m.range, index)
        },
        _ => None,
    };
    ResolvedMarker {
        id: m.id.clone(),
        source_id: owned(source_id),
        range: m.range,
        label: m.label.clone(),
        note: match &m.note {
            Some(n) => Some(n.clone()),
            None => None,
        },
        author: m.author.clone(),
        created: m.created.clone(),
        start_ms,
        end_ms,
        duration_ms,
        text_preview,
        scene_preview,
    }
}

/// Resolves the markers of source `source_id` against its transcript and
/// index (when loaded), in order (see `resolved_marker`).
pub fn resolve_markers(
    markers: &Vec<crate::models::Marker>,
    source_id: &str,
    transcript: Option<&Transcript>,
    index: Option<&SourceIndex>,
) -> (r: Vec<ResolvedMarker>)
    ensures
        r.len() == markers.len(),
        forall|i: int|
            0 <= i < r.len() ==> #[trigger] r@[i]@ == resolved_marker(
                markers@[i],
                source_id@,
                transcript_view(transcript),
                index_view(index),
            ),
{
    let mut r: Vec<ResolvedMarker> = Vec::new();
    let mut i: usize = 0;
    while i < markers.len()
        invariant
            i <= markers.len(),
            r.len() == i,
            forall|q: int|
                0 <= q < i ==> #[trigger] r@[q]@ == resolved_marker(
                    markers@[q],
                    source_id@,
                    transcript_view(transcript),
                    index_view(index),
                ),
        decreases markers.len() - i,
    {
        r.push(resolve_marker(&markers[i], source_id, transcript, index));
        i += 1;
    }
    r
}

// ---------------------------------------------------------------------------
// Transcripts with markers interleaved
// ---------------------------------------------------------------------------

/// An entry of an interleaved transcript: a segment or a marker.
#[derive(Debug, Clone, PartialEq)]
pub enum TranscriptItem {
    Segment(TranscriptSegment),
    Marker(ResolvedMarker),
}

pub enum ItemView {
    Segment(SegmentView),
    Marker(MarkerView),
}

impl View for TranscriptItem {
    type V = ItemView;

    open spec fn view(&self) -> ItemView {
        match self {
            TranscriptItem::Segment(s) => ItemView::Segment(s@),
            TranscriptItem::Marker(m) => ItemView::Marker(m@),
        }
    }
}

/// What an entry is ordered by: its start, then segments before markers.
pub open spec fn item_key(i: ItemView) -> (u64, u8) {
    match i {
        ItemView::Segment(s) => (s.start_ms, 0u8),
        ItemView::Marker(m) => (m.start_ms, 1u8),
    }
}

/// Whether key `a` orders no later than key `b`.
pub open spec fn key_le(a: (u64, u8), b: (u64, u8)) -> bool {
    a.0 < b.0 || (a.0 == b.0 && a.1 <= b.1)
}

/// `x` placed into `s` after every entry that orders no later than it.
pub open spec fn insert_item(s: Seq<ItemView>, x: ItemView) -> Seq<ItemView>
    decreases s.len(),
{
    if s.len() == 0 {
        seq![x]
    } else if key_le(item_key(s.last()), item_key(x)) {
        s.push(x)
    } else {
        insert_item(s.drop_last(), x).push(s.last())
    }
}

/// `s` ordered by key, entries with equal keys kept in their order: a stable
/// sort.
pub open spec fn sort_items(s: Seq<ItemView>) -> Seq<ItemView>
    decreases s.len(),
{
    if s.len() == 0 {
        Seq::empty()
    } else {
        insert_item(sort_items(s.drop_last()), s.last())
    }
}

/// A transcript's segments and a list of markers, as entries, segments first.
pub open spec fn entries(segs: Seq<SegmentView>, ms: Seq<MarkerView>) -> Seq<ItemView> {
    segs.map_values(|s: SegmentView| ItemView::Segment(s)) + ms.map_values(
        |m: MarkerView| ItemView::Marker(m),
    )
}

proof fn lemma_insert_item_at(s: Seq<ItemView>, x: ItemView, j: int)
    requires
        0 <= j <= s.len(),
        forall|m: int| j <= m < s.len() ==> !key_le(item_key(#[trigger] s[m]), item_key(x)),
        j > 0 ==> key_le(item_key(s[j - 1]), item_key(x)),
    ensures
        insert_item(s, x) == s.take(j) + seq![x] + s.skip(j),
    decreases s.len(),
{
    if s.len() == 0 {
        assert(s.take(j) + seq![x] + s.skip(j) =~= seq![x]);
    } else if key_le(item_key(s.last()), item_key(x)) {
        assert(j == s.len());
        assert(s.take(j) + seq![x] + s.skip(j) =~= s.push(x));
    } else {
        let d = s.drop_last();
        assert(j < s.len());
        assert forall|m: int| j <= m < d.len() implies !key_le(item_key(#[trigger] d[m]), item_key(x)) by {
            assert(d[m] == s[m]);
        }
        if j > 0 {
            assert(d[j - 1] == s[j - 1]);
        }
        lemma_insert_item_at(d, x, j);
        assert((d.take(j) + seq![x] + d.skip(j)).push(s.last()) =~= s.take(j) + seq![x] + s.skip(
            j,
        ));
    }
}

/// Entries ordered by key.
pub open spec fn items_in_order(s: Seq<ItemView>) -> bool {
    forall|i: int, j: int| 0 <= i <= j < s.len() ==> key_le(item_key(s[i]), item_key(s[j]))
}

proof fn lemma_insert_item_ordered(s: Seq<ItemView>, x: ItemView)
    requires
        items_in_order(s),
    ensures
        items_in_order(insert_item(s, x)),
        insert_item(s, x).len() == s.len() + 1,
        insert_item(s, x).last() == if s.len() > 0 && !key_le(item_key(s.last()), item_key(x)) {
            s.last()
        } else {
            x
        },
    decreases s.len(),
{
    if s.len() > 0 && !key_le(item_key(s.last()), item_key(x)) {
        let d = s.drop_last();
        lemma_insert_item_ordered(d, x);
        let r = insert_item(d, x);
        assert forall|i: int, j: int| 0 <= i <= j < r.push(s.last()).len() implies key_le(
            item_key(r.push(s.last())[i]),
            item_key(r.push(s.last())[j]),
        ) by {
            if j == r.len() && i < r.len() {
                if d.len() > 0 && !key_le(item_key(d.last()), item_key(x)) {
                    assert(r.last() == d.last());
                    assert(key_le(item_key(d.last()), item_key(s.last())));
                }
                assert(key_le(item_key(r[i]), item_key(r.last())));
            }
        }
        assert(insert_item(s, x) == r.push(s.last()));
    } else if s.len() > 0 {
        assert forall|i: int, j: int| 0 <= i <= j < s.push(x).len() implies key_le(
            item_key(s.push(x)[i]),
            item_key(s.push(x)[j]),
        ) by {
            if j == s.len() && i < s.len() {
                assert(key_le(item_key(s[i]), item_key(s.last())));
            }
        }
        assert(insert_item(s, x) == s.push(x));
    }
}

/// Interleaving keeps every entry and orders them: the segments and markers
/// come out ordered by start, a segment before a marker that starts with it.
pub proof fn law_interleaved_in_order(s: Seq<ItemView>)
    ensures
        sort_items(s).len() == s.len(),
        items_in_order(sort_items(s)),
    decreases s.len(),
{
    if s.len() > 0 {
        law_interleaved_in_order(s.drop_last());
        lemma_insert_item_ordered(sort_items(s.drop_last()), s.last());
    }
}

/// A transcript with markers interleaved at their positions.
#[derive(Debug, Clone, PartialEq)]
pub struct InterleavedTranscript {
    pub source_id: String,
    pub duration_ms: u64,
    pub word_count: u32,
    pub marker_count: usize,
    pub items: Vec<TranscriptItem>,
}

/// The views of a list of entries.
pub open spec fn items_view(v: Seq<TranscriptItem>) -> Seq<ItemView> {
    v.map_values(|i: TranscriptItem| i@)
}

fn copy_word(w: &Word) -> (r: Word)
    ensures
        r@ == w@,
        r.confidence_bits == w.confidence_bits,
{
    Word {
        index: w.index,
        text: w.text.clone(),
        start_ms: w.start_ms,
        end_ms: w.end_ms,
        confidence_bits: w.confidence_bits,
    }
}

fn copy_segment(s: &TranscriptSegment) -> (r: TranscriptSegment)
    ensures
        r@ == s@,
{
    let mut words: Vec<Word> = Vec::new();
    let mut i: usize = 0;
    while i < s.words.len()
        invariant
            i <= s.words.len(),
            words@.map_values(|w: Word| w@) == s.words@.take(i as int).map_values(|w: Word| w@),
        decreases s.words.len() - i,
    {
        let w = copy_word(&s.words[i]);
        let ghost before = words@.map_values(|w: Word| w@);
        words.push(w);
        assert(words@.map_values(|w: Word| w@) =~= s.words@.take(i + 1).map_values(|w: Word| w@)) by {
            assert(words@.map_values(|w: Word| w@) =~= before.push(w@));
        }
        i += 1;
    }
    assert(s.words@.take(s.words.len() as int) =~= s.words@);
    let r = TranscriptSegment {
        index: s.index,
        start_ms: s.start_ms,
        end_ms: s.end_ms,
        text: s.text.clone(),
        words,
    };
    assert(r@.words =~= s@.words);
    r
}

fn copy_opt(o: &Option<String>) -> (r: Option<String>)
    ensures
        opt_view(r) == opt_view(*o),
{
    match o {
        Some(s) => Some(s.clone()),
        None => None,
    }
}

fn copy_marker(m: &ResolvedMarker) -> (r: ResolvedMarker)
    ensures
        r@ == m@,
{
    ResolvedMarker {
        id: m.id.clone(),
        source_id: m.source_id.clone(),
        range: m.range,
        label: m.label.clone(),
        note: copy_opt(&m.note),
        author: m.author.clone(),
        created: m.created.clone(),
        start_ms: m.start_ms,
        end_ms: m.end_ms,
        duration_ms: m.duration_ms,
        text_preview: copy_opt(&m.text_preview),
        scene_preview: copy_opt(&m.scene_preview),
    }
}

fn start_key(i: &TranscriptItem) -> (r: (u64, u8))
    ensures
        r == item_key(i@),
{
    match i {
        TranscriptItem::Segment(s) => (s.start_ms, 0u8),
        TranscriptItem::Marker(m) => (m.start_ms, 1u8),
    }
}

fn orders_before(a: (u64, u8), b: (u64, u8)) -> (r: bool)
    ensures
        r == key_le(a, b),
{
    a.0 < b.0 || (a.0 == b.0 && a.1 <= b.1)
}

/// Places `x` into the ordered entries after every entry that orders no
/// later than it.
fn insert_ordered(items: &mut Vec<TranscriptItem>, x: TranscriptItem)
    ensures
        items_view(final(items)@) == insert_item(items_view(old(items)@), x@),
{
    let ghost s = items_view(items@);
    let k = start_key(&x);
    let mut j: usize = items.len();
    while j > 0 && !orders_before(start_key(&items[j - 1]), k)
        invariant
            j <= items.len(),
            s == items_view(items@),
            k == item_key(x@),
            forall|m: int| j <= m < s.len() ==> !key_le(item_key(#[trigger] s[m]), k),
        decreases j,
    {
        j -= 1;
    }
    proof {
        lemma_insert_item_at(s, x@, j as int);
    }
    let ghost xv = x@;
    items.insert(j, x);
    assert(items_view(items@) =~= s.take(j as int) + seq![xv] + s.skip(j as int));
}

/// A transcript with markers interleaved: its segments and the markers in
/// one list ordered by start, a segment before a marker that starts with it,
/// and otherwise in their given order.
pub fn interleave_transcript_with_markers(transcript: &Transcript, markers: &[ResolvedMarker]) -> (r:
    InterleavedTranscript)
    ensures
        r.source_id@ == transcript.source_id@,
        r.duration_ms == transcript.duration_ms,
        r.word_count == transcript.word_count,
        r.marker_count == markers.len(),
        items_view(r.items@) == sort_items(
            entries(transcript@.segments, markers@.map_values(|m: ResolvedMarker| m@)),
        ),
{
    let ghost all = entries(transcript@.segments, markers@.map_values(|m: ResolvedMarker| m@));
    let ghost ns = transcript.segments.len();
    let mut items: Vec<TranscriptItem> = Vec::new();
    let mut i: usize = 0;
    while i < transcript.segments.len()
        invariant
            i <= transcript.segments.len(),
            ns == transcript.segments.len(),
            all == entries(transcript@.segments, markers@.map_values(|m: ResolvedMarker| m@)),
            items_view(items@) == sort_items(all.take(i as int)),
        decreases transcript.segments.len() - i,
    {
        let x = TranscriptItem::Segment(copy_segment(&transcript.segments[i]));
        assert(x@ == all[i as int]);
        assert(all.take(i + 1).drop_last() =~= all.take(i as int));
        insert_ordered(&mut items, x);
        i += 1;
    }
    let mut k: usize = 0;
    while k < markers.len()
        invariant
            k <= markers.len(),
            ns == transcript.segments.len(),
            all.len() == ns + markers.len(),
            all == entries(transcript@.segments, markers@.map_values(|m: ResolvedMarker| m@)),
            items_view(items@) == sort_items(all.take(ns + k)),
        decreases markers.len() - k,
    {
        let x = TranscriptItem::Marker(copy_marker(&markers[k]));
        assert(x@ == all[ns + k]);
        assert(all.take(ns + k + 1).drop_last() =~= all.take(ns + k));
        insert_ordered(&mut items, x);
        k += 1;
    }
    assert(all.take(ns + markers.len()) =~= all);
    InterleavedTranscript {
        source_id: transcript.source_id.clone(),
        duration_ms: transcript.duration_ms,
        word_count: transcript.word_count,
        marker_count: markers.len(),
        items,
    }
}

} // verus!
