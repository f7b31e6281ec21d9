//! Feedback after playback: where playback stopped, resolved to the shot, the
//! word and the scene at that position, for an agent to edit from.
use vstd::prelude::*;
use crate::models::{SceneView, SourceIndex, Transcript, WordView, opt_view};
use crate::resolve::{all_words, first_containing, word_contains, flatten_words, lemma_flat_words_take};
use crate::text::{push_str, owned, copy_string};

verus! {

broadcast use vstd::string::group_string_axioms;

/// What can go wrong while reading the data that feedback is resolved
/// against.
#[derive(Debug, Clone, PartialEq)]
pub enum FeedbackError {
    Io(String),
    Json { path: String, source: String },
}

/// The message of a feedback error.
pub open spec fn feedback_error_message(e: FeedbackError) -> Seq<char> {
    match e {
        FeedbackError::Io(m) => m@,
        FeedbackError::Json { path, source } => "failed to parse JSON from "@ + path@ + ": "@
            + source@,
    }
}

impl FeedbackError {
    /// The human-readable message of this error.
    pub fn to_string(&self) -> (r: String)
        ensures
            r@ == feedback_error_message(*self),
    {
        match self {
            FeedbackError::Io(m) => copy_string(m),
            FeedbackError::Json { path, source } => {
                let mut r = owned("failed to parse JSON from ");
                push_str(&mut r, path.as_str());
                push_str(&mut r, ": ");
                push_str(&mut r, source.as_str());
                r
            },
        }
    }
}

/// Where playback stopped, and what was on screen there.
#[derive(Debug, Clone, PartialEq)]
pub struct PlaybackFeedback {
    /// Last known playback position in milliseconds.
    pub last_position_ms: u64,
    /// The shot at the position (none when a source alone was played).
    pub shot_id: Option<String>,
    pub source_id: String,
    /// The word at, or nearest before, the position.
    pub word_index: Option<u32>,
    /// The scene at the position.
    pub scene_index: Option<u32>,
}

pub struct FeedbackView {
    pub last_position_ms: u64,
    pub shot_id: Option<Seq<char>>,
    pub source_id: Seq<char>,
    pub word_index: Option<u32>,
    pub scene_index: Option<u32>,
}

impl View for PlaybackFeedback {
    type V = FeedbackView;

    open spec fn view(&self) -> FeedbackView {
        FeedbackView {
            last_position_ms: self.last_position_ms,
            shot_id: opt_view(self.shot_id),
            source_id: self.source_id@,
            word_index: self.word_index,
            scene_index: self.scene_index,
        }
    }
}

// ---------------------------------------------------------------------------
// Position lookups
// ---------------------------------------------------------------------------

/// Position of the first word that starts latest among those starting no
/// later than the instant, or -1.
pub open spec fn latest_start(ws: Seq<WordView>, ts: u64) -> int
    decreases ws.len(),
{
    if ws.len() == 0 {
        -1
    } else {
        let p = latest_start(ws.drop_last(), ts);
        let w = ws.last();
        if w.start_ms <= ts && (p < 0 || w.start_ms > ws[p].start_ms) {
            ws.len() - 1
        } else {
            p
        }
    }
}

/// The word at a playback position: the first word whose span holds it, else
/// the first of the words that start latest before it.
pub open spec fn word_at(ws: Seq<WordView>, ts: u64) -> Option<u32> {
    if first_containing(ws, ts) >= 0 {
        Some(ws[first_containing(ws, ts)].index)
    } else if latest_start(ws, ts) >= 0 {
        Some(ws[latest_start(ws, ts)].index)
    } else {
        None
    }
}

proof fn lemma_first_containing_prefix(ws: Seq<WordView>, i: int, ts: u64)
    requires
        0 <= i < ws.len(),
        first_containing(ws.take(i), ts) == -1,
        word_contains(ws[i], ts),
    ensures
        first_containing(ws, ts) == i,
    decreases ws.len(),
{
    if i == ws.len() - 1 {
        assert(ws.drop_last() =~= ws.take(i));
    } else {
        assert(ws.drop_last().take(i) =~= ws.take(i));
        lemma_first_containing_prefix(ws.drop_last(), i, ts);
    }
}

/// The word at, or nearest before, a playback position.
fn find_word_at_position(transcript: &Transcript, position_ms: u64) -> (r: Option<u32>)
    ensures
        r == word_at(all_words(transcript@), position_ms),
{
    let words = flatten_words(transcript);
    let ghost ws = all_words(transcript@);
    let mut best: Option<(u32, u64)> = None;
    let mut best_pos: usize = 0;
    let mut i: usize = 0;
    while i < words.len()
        invariant
            i <= words.len(),
            ws == all_words(transcript@),
            ws.len() == words@.len(),
            forall|k: int| 0 <= k < ws.len() ==> #[trigger] ws[k] == words@[k]@,
            first_containing(ws.take(i as int), position_ms) == -1,
            latest_start(ws.take(i as int), position_ms) == (if best is Some {
                best_pos as int
            } else {
                -1
            }),
            best matches Some(b) ==> best_pos < i && b == (ws[best_pos as int].index, ws[best_pos as int].start_ms),
        decreases words.len() - i,
    {
        let word = words[i];
        assert(word@ == ws[i as int]);
        assert(ws.take(i + 1).drop_last() =~= ws.take(i as int));
        assert(ws.take(i + 1).last() == ws[i as int]);
        if position_ms >= word.start_ms && position_ms <= word.end_ms {
            proof {
                lemma_first_containing_prefix(ws, i as int, position_ms);
            }
            return Some(word.index);
        }
        proof {
            if best is Some {
                assert(ws.take(i + 1)[best_pos as int] == ws[best_pos as int]);
            }
        }
        if word.start_ms <= position_ms {
            match best {
                Some((_, best_start)) => {
                    if word.start_ms > best_start {
                        best = Some((word.index, word.start_ms));
                        best_pos = i;
                    }
                },
                None => {
                    best = Some((word.index, word.start_ms));
                    best_pos = i;
                },
            }
        }
        i += 1;
    }
    assert(ws.take(ws.len() as int) =~= ws);
    match best {
        Some((idx, _)) => Some(idx),
        None => None,
    }
}

/// Position of the first scene whose span `[start, end)` holds the instant,
/// or -1.
pub open spec fn first_scene_holding(ss: Seq<SceneView>, ts: u64) -> int
    decreases ss.len(),
{
    if ss.len() == 0 {
        -1
    } else {
        let k = first_scene_holding(ss.drop_last(), ts);
        if k >= 0 {
            k
        } else if ss.last().start_ms <= ts < ss.last().end_ms {
            ss.len() - 1
        } else {
            -1
        }
    }
}

/// The scene at a playback position: the first whose span holds it, else the
/// last scene when the position is exactly its end.
pub open spec fn scene_at(ss: Seq<SceneView>, ts: u64) -> Option<u32> {
    if first_scene_holding(ss, ts) >= 0 {
        Some(ss[first_scene_holding(ss, ts)].index)
    } else if ss.len() > 0 && ts == ss.last().end_ms {
        Some(ss.last().index)
    } else {
        None
    }
}

proof fn lemma_first_scene_prefix(ss: Seq<SceneView>, i: int, ts: u64)
    requires
        0 <= i < ss.len(),
        first_scene_holding(ss.take(i), ts) == -1,
        ss[i].start_ms <= ts < ss[i].end_ms,
    ensures
        first_scene_holding(ss, ts) == i,
    decreases ss.len(),
{
    if i == ss.len() - 1 {
        assert(ss.drop_last() =~= ss.take(i));
    } else {
        assert(ss.drop_last().take(i) =~= ss.take(i));
        lemma_first_scene_prefix(ss.drop_last(), i, ts);
    }
}

/// The scene at a playback position.
fn find_scene_at_position(index: &SourceIndex, position_ms: u64) -> (r: Option<u32>)
    ensures
        r == scene_at(index@.scenes, position_ms),
{
    let ghost ss = index@.scenes;
    let mut i: usize = 0;
    while i < index.scenes.len()
        invariant
            i <= index.scenes.len(),
            ss == index@.scenes,
            ss.len() == index.scenes.len(),
            first_scene_holding(ss.take(i as int), position_ms) == -1,
        decreases index.scenes.len() - i,
    {
        let scene = &index.scenes[i];
        assert(scene@ == ss[i as int]);
        assert(ss.take(i + 1).drop_last() =~= ss.take(i as int));
        if position_ms >= scene.start_ms && position_ms < scene.end_ms {
            proof {
                lemma_first_scene_prefix(ss, i as int, position_ms);
            }
            return Some(scene.index);
        }
        i += 1;
    }
    assert(ss.take(ss.len() as int) =~= ss);
    if index.scenes.len() > 0 {
        let last = &index.scenes[index.scenes.len() - 1];
        assert(last@ == ss.last());
        if position_ms == last.end_ms {
            return Some(last.index);
        }
    }
    None
}

// ---------------------------------------------------------------------------
// Building feedback
// ---------------------------------------------------------------------------

/// The feedback for a playback position, resolved against the source's
/// transcript and index where they could be read.
pub open spec fn feedback_for(
    last_position_ms: u64,
    shot_id: Option<Seq<char>>,
    source_id: Seq<char>,
    transcript: Option<&Transcript>,
    index: Option<&SourceIndex>,
) -> FeedbackView {
    FeedbackView {
        last_position_ms,
        shot_id,
        source_id,
        word_index: match transcript {
            Some(t) => word_at(all_words(t@), last_position_ms),
            None => None,
        },
        scene_index: match index {
            Some(x) => scene_at(x@.scenes, last_position_ms),
            None => None,
        },
    }
}

fn opt_str_view(o: Option<&str>) -> (r: Option<String>)
    ensures
        opt_view(r) == (match o {
            Some(s) => Some(s@),
            None => None::<Seq<char>>,
        }),
{
    match o {
        Some(s) => Some(owned(s)),
        None => None,
    }
}

/// Playback feedback: the position, the shot and source played, and the word
/// and scene at the position (none where the transcript or index is missing).
pub fn build_feedback(
    last_position_ms: u64,
    shot_id: Option<&str>,
    source_id: &str,
    transcript: Option<&Transcript>,
    index: Option<&SourceIndex>,
) -> (r: PlaybackFeedback)
    ensures
        r@ == feedback_for(
            last_position_ms,
            match shot_id {
                Some(s) => Some(s@),
                None => None,
            },
            source_id@,
            transcript,
            index,
        ),
{
    let word_index = match transcript {
        Some(t) => find_word_at_position(t, last_position_ms),
        None => None,
    };
    let scene_index = match index {
        Some(x) => find_scene_at_position(x, last_position_ms),
        None => None,
    };
    PlaybackFeedback {
        last_position_ms,
        shot_id: opt_str_view(shot_id),
        source_id: owned(source_id),
        word_index,
        scene_index,
    }
}

/// Position of the first shot whose timeline span `[start, end)` holds the
/// instant, or -1.
pub open spec fn first_shot_holding(ts: Seq<(String, String, u64, u64)>, pos: u64) -> int
    decreases ts.len(),
{
    if ts.len() == 0 {
        -1
    } else {
        let k = first_shot_holding(ts.drop_last(), pos);
        if k >= 0 {
            k
        } else if ts.last().2 <= pos < ts.last().3 {
            ts.len() - 1
        } else {
            -1
        }
    }
}

/// The shot being viewed at a position of a full edit's timeline: the first
/// whose span holds it, else the last shot; none without shots.
pub open spec fn shot_at(ts: Seq<(String, String, u64, u64)>, pos: u64) -> Option<int> {
    if first_shot_holding(ts, pos) >= 0 {
        Some(first_shot_holding(ts, pos))
    } else if ts.len() > 0 {
        Some(ts.len() - 1)
    } else {
        None
    }
}

proof fn lemma_first_shot_bounds(ts: Seq<(String, String, u64, u64)>, pos: u64)
    ensures
        -1 <= first_shot_holding(ts, pos) < ts.len(),
    decreases ts.len(),
{
    if ts.len() > 0 {
        lemma_first_shot_bounds(ts.drop_last(), pos);
    }
}

proof fn lemma_first_shot_prefix(ts: Seq<(String, String, u64, u64)>, i: int, pos: u64)
    requires
        0 <= i < ts.len(),
        first_shot_holding(ts.take(i), pos) == -1,
        ts[i].2 <= pos < ts[i].3,
    ensures
        first_shot_holding(ts, pos) == i,
    decreases ts.len(),
{
    if i == ts.len() - 1 {
        assert(ts.drop_last() =~= ts.take(i));
    } else {
        assert(ts.drop_last().take(i) =~= ts.take(i));
        lemma_first_shot_prefix(ts.drop_last(), i, pos);
    }
}

/// Which of a full edit's shots was being viewed at a timeline position;
/// `shot_timings` lists `(shot_id, source_id, start_ms, end_ms)` in timeline
/// order.
pub fn shot_at_position(last_position_ms: u64, shot_timings: &[(String, String, u64, u64)]) -> (r:
    Option<usize>)
    ensures
        match shot_at(shot_timings@, last_position_ms) {
            Some(i) => r == Some(i as usize),
            None => r is None,
        },
        r matches Some(i) ==> i < shot_timings.len(),
{
    let ghost ts = shot_timings@;
    proof {
        lemma_first_shot_bounds(ts, last_position_ms);
    }
    let mut i: usize = 0;
    while i < shot_timings.len()
        invariant
            i <= shot_timings.len(),
            ts == shot_timings@,
            first_shot_holding(ts.take(i as int), last_position_ms) == -1,
        decreases shot_timings.len() - i,
    {
        assert(ts.take(i + 1).drop_last() =~= ts.take(i as int));
        if last_position_ms >= shot_timings[i].2 && last_position_ms < shot_timings[i].3 {
            proof {
                lemma_first_shot_prefix(ts, i as int, last_position_ms);
            }
            return Some(i);
        }
        i += 1;
    }
    assert(ts.take(ts.len() as int) =~= ts);
    if shot_timings.len() > 0 {
        Some(shot_timings.len() - 1)
    } else {
        None
    }
}

/// Feedback for the playback of a full edit: the shot being viewed at the
/// timeline position is found first, and the feedback is resolved against
/// that shot's source (`transcript` and `index` are that source's, where they
/// could be read); without shots there is no shot or source.
pub fn build_edit_feedback(
    last_position_ms: u64,
    shot_timings: &[(String, String, u64, u64)],
    transcript: Option<&Transcript>,
    index: Option<&SourceIndex>,
) -> (r: PlaybackFeedback)
    ensures
        match shot_at(shot_timings@, last_position_ms) {
            Some(i) => r@ == feedback_for(
                last_position_ms,
                Some(shot_timings@[i].0@),
                shot_timings@[i].1@,
                transcript,
                index,
            ),
            None => r@ == (FeedbackView {
                last_position_ms,
                shot_id: None,
                source_id: Seq::empty(),
                word_index: None,
                scene_index: None,
            }),
        },
{
    proof {
        lemma_first_shot_bounds(shot_timings@, last_position_ms);
    }
    match shot_at_position(last_position_ms, shot_timings) {
        Some(i) => {
            let (shot_id, source_id, _start, _end) = &shot_timings[i];
            build_feedback(
                last_position_ms,
                Some(shot_id.as_str()),
                source_id.as_str(),
                transcript,
                index,
            )
        },
        None => {
            let r = PlaybackFeedback {
                last_position_ms,
                shot_id: None,
                source_id: String::new(),
                word_index: None,
                scene_index: None,
            };
            assert(r@.source_id =~= Seq::<char>::empty());
            r
        },
    }
}

} // verus!
