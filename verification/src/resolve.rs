//! Resolving ranges and points to absolute source times.
use vstd::prelude::*;

use crate::models::{
    flat_words, IndexView, PoiPoint, Scene, SceneView, SegmentView, ShotRange, SourceIndex,
    Transcript, TranscriptView, Word, WordView,
};

use crate::text::{dec, owned, push_dec, push_str};

verus! {

broadcast use vstd::string::group_string_axioms;

#[derive(Debug)]
pub enum ResolveError {
    WordNotFound(u32),
    SceneNotFound(u32),
    TranscriptRequired,
    IndexRequired,
    WordIndexOutOfBounds { index: u32, word_count: u32 },
    SceneIndexOutOfBounds { index: u32, scene_count: u32 },
    TimestampOutOfBounds { timestamp_ms: u64, duration_ms: u64 },
}

/// The message of a resolution error.
pub open spec fn resolve_error_message(e: ResolveError) -> Seq<char> {
    match e {
        ResolveError::WordNotFound(i) => "word index "@ + dec(i as nat) + " not found in transcript"@,
        ResolveError::SceneNotFound(i) => "scene index "@ + dec(i as nat) + " not found in source index"@,
        ResolveError::TranscriptRequired => "transcript required to resolve words range"@,
        ResolveError::IndexRequired => "source index required to resolve scenes range"@,
        ResolveError::WordIndexOutOfBounds { index, word_count } => "word index "@ + dec(index as nat)
            + " out of bounds (word_count="@ + dec(word_count as nat) + ")"@,
        ResolveError::SceneIndexOutOfBounds { index, scene_count } => "scene index "@ + dec(index as nat)
            + " out of bounds (scene_count="@ + dec(scene_count as nat) + ")"@,
        ResolveError::TimestampOutOfBounds { timestamp_ms, duration_ms } => "timestamp "@ + dec(
            timestamp_ms as nat,
        ) + "ms exceeds duration "@ + dec(duration_ms as nat) + "ms"@,
    }
}

impl ResolveError {
    /// The human-readable message of this error.
    pub fn to_string(&self) -> (r: String)
        ensures
            r@ == resolve_error_message(*self),
    {
        match self {
            ResolveError::WordNotFound(i) => {
                let mut r = owned("word index ");
                push_dec(&mut r, *i as u64);
                push_str(&mut r, " not found in transcript");
                r
            },
            ResolveError::SceneNotFound(i) => {
                let mut r = owned("scene index ");
                push_dec(&mut r, *i as u64);
                push_str(&mut r, " not found in source index");
                r
            },
            ResolveError::TranscriptRequired => owned("transcript required to resolve words range"),
            ResolveError::IndexRequired => owned("source index required to resolve scenes range"),
            ResolveError::WordIndexOutOfBounds { index, word_count } => {
                let mut r = owned("word index ");
                push_dec(&mut r, *index as u64);
                push_str(&mut r, " out of bounds (word_count=");
                push_dec(&mut r, *word_count as u64);
                push_str(&mut r, ")");
                r
            },
            ResolveError::SceneIndexOutOfBounds { index, scene_count } => {
                let mut r = owned("scene index ");
                push_dec(&mut r, *index as u64);
                push_str(&mut r, " out of bounds (scene_count=");
                push_dec(&mut r, *scene_count as u64);
                push_str(&mut r, ")");
                r
            },
            ResolveError::TimestampOutOfBounds { timestamp_ms, duration_ms } => {
                let mut r = owned("timestamp ");
                push_dec(&mut r, *timestamp_ms);
                push_str(&mut r, "ms exceeds duration ");
                push_dec(&mut r, *duration_ms);
                push_str(&mut r, "ms");
                r
            },
        }
    }
}

// ---------------------------------------------------------------------------
// Lookup model
// ---------------------------------------------------------------------------

/// All words of a transcript, in order.
pub open spec fn all_words(t: TranscriptView) -> Seq<WordView> {
    flat_words(t.segments)
}

/// Position of the first word whose `index` field is `idx`, or -1.
pub open spec fn word_pos(ws: Seq<WordView>, idx: u32) -> int
    decreases ws.len(),
{
    if ws.len() == 0 {
        -1
    } else {
        let k = word_pos(ws.drop_last(), idx);
        if k >= 0 {
            k
        } else if ws.last().index == idx {
            ws.len() - 1
        } else {
            -1
        }
    }
}

/// Position of the first scene whose `index` field is `idx`, or -1.
pub open spec fn scene_pos(ss: Seq<SceneView>, idx: u32) -> int
    decreases ss.len(),
{
    if ss.len() == 0 {
        -1
    } else {
        let k = scene_pos(ss.drop_last(), idx);
        if k >= 0 {
            k
        } else if ss.last().index == idx {
            ss.len() - 1
        } else {
            -1
        }
    }
}

/// The word with index field `idx` in a transcript, if any.
pub open spec fn word_with_index(t: TranscriptView, idx: u32) -> Option<WordView> {
    let k = word_pos(all_words(t), idx);
    if k >= 0 {
        Some(all_words(t)[k])
    } else {
        None
    }
}

/// The scene with index field `idx` in a source index, if any.
pub open spec fn scene_with_index(x: IndexView, idx: u32) -> Option<SceneView> {
    let k = scene_pos(x.scenes, idx);
    if k >= 0 {
        Some(x.scenes[k])
    } else {
        None
    }
}

pub proof fn lemma_word_pos(ws: Seq<WordView>, idx: u32)
    ensures
        -1 <= word_pos(ws, idx) < ws.len(),
        word_pos(ws, idx) >= 0 ==> ws[word_pos(ws, idx)].index == idx,
        forall|j: int|
            0 <= j < ws.len() && (word_pos(ws, idx) < 0 || j < word_pos(ws, idx))
                ==> #[trigger] ws[j].index != idx,
    decreases ws.len(),
{
    if ws.len() > 0 {
        lemma_word_pos(ws.drop_last(), idx);
        assert forall|j: int|
            0 <= j < ws.len() && (word_pos(ws, idx) < 0 || j < word_pos(ws, idx))
                implies #[trigger] ws[j].index != idx by {
            if j < ws.len() - 1 {
                assert(ws[j] == ws.drop_last()[j]);
            }
        }
    }
}

pub proof fn lemma_scene_pos(ss: Seq<SceneView>, idx: u32)
    ensures
        -1 <= scene_pos(ss, idx) < ss.len(),
        scene_pos(ss, idx) >= 0 ==> ss[scene_pos(ss, idx)].index == idx,
        forall|j: int|
            0 <= j < ss.len() && (scene_pos(ss, idx) < 0 || j < scene_pos(ss, idx))
                ==> #[trigger] ss[j].index != idx,
    decreases ss.len(),
{
    if ss.len() > 0 {
        lemma_scene_pos(ss.drop_last(), idx);
        assert forall|j: int|
            0 <= j < ss.len() && (scene_pos(ss, idx) < 0 || j < scene_pos(ss, idx))
                implies #[trigger] ss[j].index != idx by {
            if j < ss.len() - 1 {
                assert(ss[j] == ss.drop_last()[j]);
            }
        }
    }
}

/// The first position among all of `ws` that satisfies the lookup is the
/// one found by a front-to-back scan.
pub proof fn lemma_word_pos_unique(ws: Seq<WordView>, idx: u32, k: int)
    requires
        0 <= k < ws.len(),
        ws[k].index == idx,
        forall|j: int| 0 <= j < k ==> #[trigger] ws[j].index != idx,
    ensures
        word_pos(ws, idx) == k,
{
    lemma_word_pos(ws, idx);
    let p = word_pos(ws, idx);
    if p < 0 {
        assert(ws[k].index != idx);
    } else if p < k {
        assert(ws[p].index != idx);
    } else if p > k {
        assert(ws[k].index != idx);
    }
}

/// The words of the first `i + 1` segments are those of the first `i`
/// followed by those of segment `i`.
pub proof fn lemma_flat_words_take(segs: Seq<SegmentView>, i: int)
    requires
        0 <= i < segs.len(),
    ensures
        flat_words(segs.take(i + 1)) == flat_words(segs.take(i)) + segs[i].words,
{
    assert(segs.take(i + 1).drop_last() =~= segs.take(i));
}

// ---------------------------------------------------------------------------
// Lookups
// ---------------------------------------------------------------------------

/// The view of the words of a segment.
pub open spec fn words_view(ws: Seq<Word>) -> Seq<WordView> {
    ws.map_values(|w: Word| w@)
}

/// The first word of the transcript whose index field is `word_index`.
pub fn find_word(transcript: &Transcript, word_index: u32) -> (r: Result<&Word, ResolveError>)
    ensures
        match r {
            Ok(w) => word_with_index(transcript@, word_index) == Some(w@),
            Err(e) => word_with_index(transcript@, word_index) is None && e == ResolveError::WordNotFound(
                word_index,
            ),
        },
{
    let ghost segv = transcript@.segments;
    let ghost ws = all_words(transcript@);
    let mut i: usize = 0;
    while i < transcript.segments.len()
        invariant
            i <= transcript.segments.len(),
            segv == transcript@.segments,
            segv.len() == transcript.segments@.len(),
            ws == flat_words(segv),
            forall|j: int|
                0 <= j < flat_words(segv.take(i as int)).len() ==> #[trigger] flat_words(
                    segv.take(i as int),
                )[j].index != word_index,
        decreases transcript.segments.len() - i,
    {
        let seg = &transcript.segments[i];
        assert(segv[i as int] == seg@);
        let ghost before = flat_words(segv.take(i as int));
        proof {
            lemma_flat_words_take(segv, i as int);
        }
        let mut j: usize = 0;
        while j < seg.words.len()
            invariant
                i < transcript.segments.len(),
                j <= seg.words.len(),
                seg@ == segv[i as int],
                seg@.words == words_view(seg.words@),
                segv == transcript@.segments,
                before == flat_words(segv.take(i as int)),
                flat_words(segv.take(i + 1)) == before + seg@.words,
                forall|k: int| 0 <= k < before.len() ==> #[trigger] before[k].index != word_index,
                forall|k: int| 0 <= k < j ==> #[trigger] seg@.words[k].index != word_index,
            decreases seg.words.len() - j,
        {
            if seg.words[j].index == word_index {
                proof {
                    let all = flat_words(segv.take(i + 1));
                    let p = before.len() + j;
                    assert(all[p] == seg@.words[j as int]);
                    assert forall|k: int| 0 <= k < p implies #[trigger] all[k].index != word_index by {
                        if k < before.len() {
                            assert(all[k] == before[k]);
                        } else {
                            assert(all[k] == seg@.words[k - before.len()]);
                        }
                    }
                    lemma_word_pos_unique(all, word_index, p);
                    lemma_prefix_word_pos(segv, i + 1, word_index);
                }
                return Ok(&seg.words[j]);
            }
            j += 1;
        }
        proof {
            let all = flat_words(segv.take(i + 1));
            assert forall|k: int| 0 <= k < all.len() implies #[trigger] all[k].index != word_index by {
                if k < before.len() {
                    assert(all[k] == before[k]);
                } else {
                    assert(all[k] == seg@.words[k - before.len()]);
                }
            }
        }
        i += 1;
    }
    proof {
        assert(segv.take(segv.len() as int) =~= segv);
        lemma_word_pos(ws, word_index);
    }
    Err(ResolveError::WordNotFound(word_index))
}

/// A word found in a prefix of the segments is found at the same position
/// in all of them.
pub proof fn lemma_prefix_word_pos(segs: Seq<SegmentView>, n: int, idx: u32)
    requires
        0 <= n <= segs.len(),
        word_pos(flat_words(segs.take(n)), idx) >= 0,
    ensures
        word_pos(flat_words(segs), idx) == word_pos(flat_words(segs.take(n)), idx),
        flat_words(segs)[word_pos(flat_words(segs), idx)] == flat_words(segs.take(n))[word_pos(
            flat_words(segs.take(n)),
            idx,
        )],
    decreases segs.len() - n,
{
    if n < segs.len() {
        lemma_flat_words_take(segs, n);
        let a = flat_words(segs.take(n));
        let b = flat_words(segs.take(n + 1));
        lemma_word_pos(a, idx);
        let p = word_pos(a, idx);
        assert(b[p] == a[p]);
        assert forall|j: int| 0 <= j < p implies #[trigger] b[j].index != idx by {
            assert(b[j] == a[j]);
        }
        lemma_word_pos_unique(b, idx, p);
        lemma_prefix_word_pos(segs, n + 1, idx);
    } else {
        assert(segs.take(n) =~= segs);
    }
}

/// The first scene of the index whose index field is `scene_index`.
pub fn find_scene(index: &SourceIndex, scene_index: u32) -> (r: Result<&Scene, ResolveError>)
    ensures
        match r {
            Ok(s) => scene_with_index(index@, scene_index) == Some(s@),
            Err(e) => scene_with_index(index@, scene_index) is None && e == ResolveError::SceneNotFound(
                scene_index,
            ),
        },
{
    let ghost ss = index@.scenes;
    proof {
        lemma_scene_pos(ss, scene_index);
    }
    let mut i: usize = 0;
    while i < index.scenes.len()
        invariant
            i <= index.scenes.len(),
            ss == index@.scenes,
            forall|j: int| 0 <= j < i ==> #[trigger] ss[j].index != scene_index,
            -1 <= scene_pos(ss, scene_index) < ss.len(),
            scene_pos(ss, scene_index) >= 0 ==> ss[scene_pos(ss, scene_index)].index
                == scene_index,
            forall|j: int|
                0 <= j < ss.len() && (scene_pos(ss, scene_index) < 0 || j < scene_pos(
                    ss,
                    scene_index,
                )) ==> #[trigger] ss[j].index != scene_index,
        decreases index.scenes.len() - i,
    {
        if index.scenes[i].index == scene_index {
            assert(ss[i as int].index == scene_index);
            return Ok(&index.scenes[i]);
        }
        i += 1;
    }
    Err(ResolveError::SceneNotFound(scene_index))
}

} // verus!

verus! {

/// The words of a transcript, flattened across segments, in order.
pub fn flatten_words(t: &Transcript) -> (v: Vec<&Word>)
    ensures
        v@.map_values(|w: &Word| w@) == all_words(t@),
{
    let ghost segv = t@.segments;
    let mut v: Vec<&Word> = Vec::new();
    let mut i: usize = 0;
    assert(segv.take(0) =~= Seq::<SegmentView>::empty());
    while i < t.segments.len()
        invariant
            i <= t.segments.len(),
            segv == t@.segments,
            segv.len() == t.segments@.len(),
            v@.map_values(|w: &Word| w@) == flat_words(segv.take(i as int)),
        decreases t.segments.len() - i,
    {
        let seg = &t.segments[i];
        assert(segv[i as int] == seg@);
        proof {
            lemma_flat_words_take(segv, i as int);
        }
        let ghost before = v@.map_values(|w: &Word| w@);
        let mut j: usize = 0;
        while j < seg.words.len()
            invariant
                i < t.segments.len(),
                j <= seg.words.len(),
                seg@ == segv[i as int],
                seg@.words == words_view(seg.words@),
                v@.map_values(|w: &Word| w@) == before + seg@.words.take(j as int),
            decreases seg.words.len() - j,
        {
            assert(seg@.words[j as int] == seg.words@[j as int]@);
            let ghost prev = v@;
            v.push(&seg.words[j]);
            assert(v@ == prev.push(&seg.words@[j as int]));
            assert(v@.map_values(|w: &Word| w@) =~= prev.map_values(|w: &Word| w@).push(
                seg@.words[j as int],
            ));
            assert(seg@.words.take(j + 1) =~= seg@.words.take(j as int).push(seg@.words[j as int]));
            assert(v@.map_values(|w: &Word| w@) =~= before + seg@.words.take(j + 1));
            j += 1;
        }
        assert(seg@.words.take(seg.words.len() as int) =~= seg@.words);
        i += 1;
    }
    assert(segv.take(segv.len() as int) =~= segv);
    v
}

/// The optional view of an optional transcript.
pub open spec fn transcript_view(t: Option<&Transcript>) -> Option<TranscriptView> {
    match t {
        Some(t) => Some(t@),
        None => None,
    }
}

/// The optional view of an optional source index.
pub open spec fn index_view(x: Option<&SourceIndex>) -> Option<IndexView> {
    match x {
        Some(x) => Some(x@),
        None => None,
    }
}

/// What resolving a range gives: its absolute `(start_ms, end_ms)` or why it cannot be had.
pub open spec fn range_resolution(
    range: ShotRange,
    t: Option<TranscriptView>,
    x: Option<IndexView>,
) -> Result<(u64, u64), ResolveError> {
    match range {
        ShotRange::Time { from_ms, to_ms } => Ok((from_ms, to_ms)),
        ShotRange::Words { from, to } => match t {
            None => Err(ResolveError::TranscriptRequired),
            Some(t) => match word_with_index(t, from) {
                None => Err(ResolveError::WordNotFound(from)),
                Some(a) => match word_with_index(t, to) {
                    None => Err(ResolveError::WordNotFound(to)),
                    Some(b) => Ok((a.start_ms, b.end_ms)),
                },
            },
        },
        ShotRange::Scenes { from, to } => match x {
            None => Err(ResolveError::IndexRequired),
            Some(x) => match scene_with_index(x, from) {
                None => Err(ResolveError::SceneNotFound(from)),
                Some(a) => match scene_with_index(x, to) {
                    None => Err(ResolveError::SceneNotFound(to)),
                    Some(b) => Ok((a.start_ms, b.end_ms)),
                },
            },
        },
    }
}

/// Resolve a [`ShotRange`] to absolute `(start_ms, end_ms)`.
///
/// - **Words**: requires `transcript`; returns `word[from].start_ms .. word[to].end_ms`.
/// - **Scenes**: requires `index`; returns `scene[from].start_ms .. scene[to].end_ms`.
/// - **Time**: direct passthrough — no auxiliary data needed.
pub fn resolve_range(
    range: &ShotRange,
    transcript: Option<&Transcript>,
    index: Option<&SourceIndex>,
) -> (r: Result<(u64, u64), ResolveError>)
    ensures
        r == range_resolution(*range, transcript_view(transcript), index_view(index)),
{
    match range {
        ShotRange::Time { from_ms, to_ms } => Ok((*from_ms, *to_ms)),
        ShotRange::Words { from, to } => {
            let transcript = match transcript {
                Some(t) => t,
                None => return Err(ResolveError::TranscriptRequired),
            };
            let start_word = find_word(transcript, *from)?;
            let end_word = find_word(transcript, *to)?;
            Ok((start_word.start_ms, end_word.end_ms))
        },
        ShotRange::Scenes { from, to } => {
            let index = match index {
                Some(x) => x,
                None => return Err(ResolveError::IndexRequired),
            };
            let start_scene = find_scene(index, *from)?;
            let end_scene = find_scene(index, *to)?;
            Ok((start_scene.start_ms, end_scene.end_ms))
        },
    }
}

/// What resolving a point of interest gives.
pub open spec fn point_resolution(
    point: PoiPoint,
    t: Option<TranscriptView>,
    x: Option<IndexView>,
    duration_ms: u64,
) -> Result<u64, ResolveError> {
    match point {
        PoiPoint::Word(idx) => match t {
            None => Err(ResolveError::TranscriptRequired),
            Some(t) => if idx >= t.word_count {
                Err(ResolveError::WordIndexOutOfBounds { index: idx, word_count: t.word_count })
            } else {
                match word_with_index(t, idx) {
                    None => Err(ResolveError::WordNotFound(idx)),
                    Some(w) => Ok(w.start_ms),
                }
            },
        },
        PoiPoint::Scene(idx) => match x {
            None => Err(ResolveError::IndexRequired),
            Some(x) => if idx >= x.scene_count {
                Err(ResolveError::SceneIndexOutOfBounds { index: idx, scene_count: x.scene_count })
            } else {
                match scene_with_index(x, idx) {
                    None => Err(ResolveError::SceneNotFound(idx)),
                    Some(s) => Ok(s.start_ms),
                }
            },
        },
        PoiPoint::TimeMs(ms) => if ms > duration_ms {
            Err(ResolveError::TimestampOutOfBounds { timestamp_ms: ms, duration_ms })
        } else {
            Ok(ms)
        },
    }
}

/// Resolve a [`PoiPoint`] to an absolute timestamp in milliseconds.
///
/// - **Word(idx)**: looks up the word by index in `transcript` and returns its `start_ms`.
/// - **Scene(idx)**: looks up the scene by index in `index` and returns its `start_ms`.
/// - **TimeMs(ms)**: returns `ms` directly, provided it does not exceed `duration_ms`.
pub fn resolve_poi_point(
    point: &PoiPoint,
    transcript: Option<&Transcript>,
    index: Option<&SourceIndex>,
    duration_ms: u64,
) -> (r: Result<u64, ResolveError>)
    ensures
        r == point_resolution(*point, transcript_view(transcript), index_view(index), duration_ms),
{
    match point {
        PoiPoint::Word(idx) => {
            let transcript = match transcript {
                Some(t) => t,
                None => return Err(ResolveError::TranscriptRequired),
            };
            if *idx >= transcript.word_count {
                return Err(
                    ResolveError::WordIndexOutOfBounds {
                        index: *idx,
                        word_count: transcript.word_count,
                    },
                );
            }
            let word = find_word(transcript, *idx)?;
            Ok(word.start_ms)
        },
        PoiPoint::Scene(idx) => {
            let index = match index {
                Some(x) => x,
                None => return Err(ResolveError::IndexRequired),
            };
            if *idx >= index.scene_count {
                return Err(
                    ResolveError::SceneIndexOutOfBounds {
                        index: *idx,
                        scene_count: index.scene_count,
                    },
                );
            }
            let scene = find_scene(index, *idx)?;
            Ok(scene.start_ms)
        },
        PoiPoint::TimeMs(ms) => {
            if *ms > duration_ms {
                return Err(
                    ResolveError::TimestampOutOfBounds { timestamp_ms: *ms, duration_ms },
                );
            }
            Ok(*ms)
        },
    }
}

// ---------------------------------------------------------------------------
// Nearest word
// ---------------------------------------------------------------------------

/// Whether a word's interval contains the instant.
pub open spec fn word_contains(w: WordView, ts: u64) -> bool {
    w.start_ms <= ts <= w.end_ms
}

/// Distance from the instant to a word's start.
pub open spec fn start_distance(w: WordView, ts: u64) -> int {
    if ts > w.start_ms {
        ts - w.start_ms
    } else {
        w.start_ms - ts
    }
}

/// Position of the first word containing the instant, or -1.
pub open spec fn first_containing(ws: Seq<WordView>, ts: u64) -> int
    decreases ws.len(),
{
    if ws.len() == 0 {
        -1
    } else {
        let k = first_containing(ws.drop_last(), ts);
        if k >= 0 {
            k
        } else if word_contains(ws.last(), ts) {
            ws.len() - 1
        } else {
            -1
        }
    }
}

/// Position of the first word whose start is nearest to the instant among
/// those strictly nearer than `u64::MAX`, or -1.
pub open spec fn nearest_start(ws: Seq<WordView>, ts: u64) -> int
    decreases ws.len(),
{
    if ws.len() == 0 {
        -1
    } else {
        let p = nearest_start(ws.drop_last(), ts);
        let d = start_distance(ws.last(), ts);
        if (p < 0 && d < u64::MAX) || (p >= 0 && d < start_distance(ws[p], ts)) {
            ws.len() - 1
        } else {
            p
        }
    }
}

/// The word a timestamp points at: the first containing it, else the first
/// nearest by start time.
pub open spec fn nearest_word(ws: Seq<WordView>, ts: u64) -> Option<u32> {
    if first_containing(ws, ts) >= 0 {
        Some(ws[first_containing(ws, ts)].index)
    } else if nearest_start(ws, ts) >= 0 {
        Some(ws[nearest_start(ws, ts)].index)
    } else {
        None
    }
}

proof fn lemma_nearest_start_bounds(ws: Seq<WordView>, ts: u64)
    ensures
        -1 <= nearest_start(ws, ts) < ws.len(),
        nearest_start(ws, ts) >= 0 ==> start_distance(ws[nearest_start(ws, ts)], ts) < u64::MAX,
    decreases ws.len(),
{
    if ws.len() > 0 {
        lemma_nearest_start_bounds(ws.drop_last(), ts);
        let p = nearest_start(ws.drop_last(), ts);
        if p >= 0 {
            assert(ws[p] == ws.drop_last()[p]);
        }
    }
}

/// Find the word whose interval contains `timestamp_ms`, or the nearest word
/// by `start_ms` if the timestamp falls between words.
///
/// Returns the word's `index` field, or `None` if the transcript has no words.
pub fn find_nearest_word(timestamp_ms: u64, transcript: &Transcript) -> (r: Option<u32>)
    ensures
        r == nearest_word(all_words(transcript@), timestamp_ms),
{
    let words = flatten_words(transcript);
    let ghost ws = all_words(transcript@);
    let mut best_index: Option<u32> = None;
    let mut best_pos: usize = 0;
    let mut best_distance: u64 = u64::MAX;
    let mut i: usize = 0;
    while i < words.len()
        invariant
            i <= words.len(),
            ws == all_words(transcript@),
            ws.len() == words@.len(),
            forall|k: int| 0 <= k < ws.len() ==> #[trigger] ws[k] == words@[k]@,
            first_containing(ws.take(i as int), timestamp_ms) == -1,
            nearest_start(ws.take(i as int), timestamp_ms) == (if best_index is Some {
                best_pos as int
            } else {
                -1
            }),
            best_index is Some ==> best_pos < i && best_index == Some(ws[best_pos as int].index)
                && best_distance == start_distance(ws[best_pos as int], timestamp_ms),
            best_index is None ==> best_distance == u64::MAX,
        decreases words.len() - i,
    {
        let word = words[i];
        assert(word@ == ws[i as int]);
        assert(ws.take(i + 1).drop_last() =~= ws.take(i as int));
        assert(ws.take(i + 1).last() == ws[i as int]);
        if timestamp_ms >= word.start_ms && timestamp_ms <= word.end_ms {
            proof {
                lemma_first_containing_extend(ws, i as int, timestamp_ms);
                assert(nearest_word(ws, timestamp_ms) == Some(ws[i as int].index));
                assert(word.index == ws[i as int].index);
                assert(Some(word.index) == nearest_word(all_words(transcript@), timestamp_ms));
            }
            return Some(word.index);
        }
        let dist = if timestamp_ms > word.start_ms {
            timestamp_ms - word.start_ms
        } else {
            word.start_ms - timestamp_ms
        };
        proof {
            if best_index is Some {
                assert(ws.take(i + 1)[best_pos as int] == ws[best_pos as int]);
            }
        }
        if dist < best_distance {
            best_distance = dist;
            best_index = Some(word.index);
            best_pos = i;
        }
        i += 1;
    }
    proof {
        assert(ws.take(ws.len() as int) =~= ws);
    }
    best_index
}

/// If no word of a prefix contains the instant and the next one does, the
/// next one is the first in the whole list that does.
proof fn lemma_first_containing_extend(ws: Seq<WordView>, i: int, ts: u64)
    requires
        0 <= i < ws.len(),
        first_containing(ws.take(i), ts) == -1,
        word_contains(ws[i], ts),
    ensures
        first_containing(ws, ts) == i,
    decreases ws.len(),
{
    if i == ws.len() - 1 {
        assert(ws.drop_last() =~= ws.take(i));
    } else {
        assert(ws.drop_last().take(i) =~= ws.take(i));
        lemma_first_containing_extend(ws.drop_last(), i, ts);
    }
}

} // verus!
