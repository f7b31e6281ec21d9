//! Scene indexes: scene boundaries from detected change points, thumbnail
//! timestamps and file names, and scene descriptions.
use vstd::prelude::*;
use crate::models::{Scene, SceneView, Source, SourceIndex, SourceMetadata, Thumbnail, IndexView, opt_view};
use crate::text::{push_str, push_dec_pad, owned, copy_string, dec, dec_pad, is_digit, digit_value, digits_value, ws_end, digits_end, lemma_ws_end, lemma_digits_end, skip_white_space, skip_digits};
use crate::text::{all_digits, is_decimal, decimals_end, decimal_char, skip_decimals, lemma_decimals_ascii, lemma_decimals_end};
use crate::paths::{joined, join_path};
use crate::playback::args_view;
use crate::overlay::seconds_text;
use crate::transcript::{last_line, last_line_text};
use vstd::std_specs::iter::IteratorSpec;

verus! {

broadcast use vstd::string::group_string_axioms;

// ---------------------------------------------------------------------------
// Scene boundaries
// ---------------------------------------------------------------------------

/// A span of a source's timeline that shows one thing, before it becomes a
/// numbered scene of an index.
#[derive(Debug, Clone, PartialEq)]
pub struct SceneBoundary {
    pub start_ms: u64,
    pub end_ms: u64,
    pub description: Option<String>,
}

pub struct BoundaryView {
    pub start_ms: u64,
    pub end_ms: u64,
    pub description: Option<Seq<char>>,
}

impl View for SceneBoundary {
    type V = BoundaryView;

    open spec fn view(&self) -> BoundaryView {
        BoundaryView {
            start_ms: self.start_ms,
            end_ms: self.end_ms,
            description: opt_view(self.description),
        }
    }
}

// ---------------------------------------------------------------------------
// Errors
// ---------------------------------------------------------------------------

/// What can go wrong while indexing a source.
#[derive(Debug, Clone, PartialEq)]
pub enum IndexError {
    FfmpegFailed(String),
    ParseFailed(String),
    NotIndexed(String),
    SceneOutOfRange { index: u32, count: u32 },
    Io(String),
    Json(String),
}

/// The message of an index error.
pub open spec fn index_error_message(e: IndexError) -> Seq<char> {
    match e {
        IndexError::FfmpegFailed(m) => "ffmpeg failed: "@ + m@,
        IndexError::ParseFailed(m) => "failed to parse ffmpeg output: "@ + m@,
        IndexError::NotIndexed(id) => "source not indexed: "@ + id@,
        IndexError::SceneOutOfRange { index, count } => "scene index "@ + dec(index as nat)
            + " out of range (source has "@ + dec(count as nat) + " scenes)"@,
        IndexError::Io(m) => m@,
        IndexError::Json(m) => "failed to parse index JSON: "@ + m@,
    }
}

impl IndexError {
    /// The human-readable message of this error.
    pub fn to_string(&self) -> (r: String)
        ensures
            r@ == index_error_message(*self),
    {
        let mut r = String::new();
        match self {
            IndexError::FfmpegFailed(m) => {
                push_str(&mut r, "ffmpeg failed: ");
                push_str(&mut r, m.as_str());
            },
            IndexError::ParseFailed(m) => {
                push_str(&mut r, "failed to parse ffmpeg output: ");
                push_str(&mut r, m.as_str());
            },
            IndexError::NotIndexed(id) => {
                push_str(&mut r, "source not indexed: ");
                push_str(&mut r, id.as_str());
            },
            IndexError::SceneOutOfRange { index, count } => {
                push_str(&mut r, "scene index ");
                crate::text::push_dec(&mut r, *index as u64);
                push_str(&mut r, " out of range (source has ");
                crate::text::push_dec(&mut r, *count as u64);
                push_str(&mut r, " scenes)");
            },
            IndexError::Io(m) => {
                push_str(&mut r, m.as_str());
            },
            IndexError::Json(m) => {
                push_str(&mut r, "failed to parse index JSON: ");
                push_str(&mut r, m.as_str());
            },
        }
        proof {
            reveal_strlit("ffmpeg failed: ");
            reveal_strlit("failed to parse ffmpeg output: ");
            reveal_strlit("source not indexed: ");
            reveal_strlit("scene index ");
            reveal_strlit(" out of range (source has ");
            reveal_strlit(" scenes)");
            reveal_strlit("failed to parse index JSON: ");
        }
        r
    }
}

// ---------------------------------------------------------------------------
// Scene boundaries
// ---------------------------------------------------------------------------

/// Scenes shorter than this are merged into the scene before them.
pub const MIN_SCENE_DURATION_MS: u64 = 500;

/// The change points that open a new scene: reading `ts` in order, a point is
/// taken when it lies after the last point taken (or after 0) and before the
/// end of the video.
pub open spec fn accepted_cuts(ts: Seq<u64>, duration_ms: u64) -> Seq<u64>
    decreases ts.len(),
{
    if ts.len() == 0 {
        Seq::empty()
    } else {
        let prev = accepted_cuts(ts.drop_last(), duration_ms);
        let start: u64 = if prev.len() == 0 { 0 } else { prev.last() };
        if start < ts.last() && ts.last() < duration_ms {
            prev.push(ts.last())
        } else {
            prev
        }
    }
}

/// The spans `[0, c0), [c0, c1), ..., [c_last, duration_ms)` cut at `cuts`.
pub open spec fn raw_spans(cuts: Seq<u64>, duration_ms: u64) -> Seq<(u64, u64)> {
    let b = seq![0u64] + cuts + seq![duration_ms];
    Seq::new(cuts.len() + 1, |i: int| (b[i], b[i + 1]))
}

/// Reading spans in order, one shorter than the minimum is absorbed by the
/// span kept before it (whose end moves to the absorbed span's end).
pub open spec fn merge_spans(sp: Seq<(u64, u64)>) -> Seq<(u64, u64)>
    decreases sp.len(),
{
    if sp.len() == 0 {
        Seq::empty()
    } else {
        let m = merge_spans(sp.drop_last());
        let s = sp.last();
        if s.1 - s.0 < MIN_SCENE_DURATION_MS && m.len() > 0 {
            m.update(m.len() - 1, (m.last().0, s.1))
        } else {
            m.push(s)
        }
    }
}

/// The spans of the scenes built from `timestamps` for a video of
/// `duration_ms` (none for an empty video).
pub open spec fn scene_spans(timestamps: Seq<u64>, duration_ms: u64) -> Seq<(u64, u64)> {
    if duration_ms == 0 {
        Seq::empty()
    } else {
        merge_spans(raw_spans(accepted_cuts(timestamps, duration_ms), duration_ms))
    }
}

/// The spans run back to back from `lo` to `hi`, each of positive length.
pub open spec fn tiles(sp: Seq<(u64, u64)>, lo: int, hi: int) -> bool {
    &&& sp.len() > 0
    &&& sp[0].0 == lo
    &&& sp.last().1 == hi
    &&& forall|i: int| 0 <= i < sp.len() - 1 ==> #[trigger] sp[i].1 == sp[i + 1].0
    &&& forall|i: int| 0 <= i < sp.len() ==> #[trigger] sp[i].0 < sp[i].1
}

/// Every span but the first lasts at least the minimum scene duration.
pub open spec fn long_after_first(sp: Seq<(u64, u64)>) -> bool {
    forall|i: int| 0 < i < sp.len() ==> #[trigger] sp[i].1 - sp[i].0 >= MIN_SCENE_DURATION_MS
}

/// The accepted change points rise strictly and lie strictly inside the video.
proof fn lemma_accepted_cuts(ts: Seq<u64>, duration_ms: u64)
    ensures
        forall|i: int|
            0 <= i < accepted_cuts(ts, duration_ms).len() ==> 0 < #[trigger] accepted_cuts(
                ts,
                duration_ms,
            )[i] < duration_ms,
        forall|i: int, j: int|
            0 <= i < j < accepted_cuts(ts, duration_ms).len() ==> accepted_cuts(ts, duration_ms)[i]
                < accepted_cuts(ts, duration_ms)[j],
    decreases ts.len(),
{
    if ts.len() > 0 {
        let prev = accepted_cuts(ts.drop_last(), duration_ms);
        lemma_accepted_cuts(ts.drop_last(), duration_ms);
        let c = accepted_cuts(ts, duration_ms);
        if c.len() > prev.len() {
            assert(c == prev.push(ts.last()));
            assert forall|i: int| 0 <= i < c.len() implies 0 < #[trigger] c[i] < duration_ms by {
                if i < prev.len() {
                    assert(c[i] == prev[i]);
                }
            }
            assert forall|i: int, j: int| 0 <= i < j < c.len() implies c[i] < c[j] by {
                assert(c[i] == prev[i]);
                if j < prev.len() {
                    assert(c[j] == prev[j]);
                } else {
                    assert(prev[i] <= prev.last());
                }
            }
        }
    }
}

/// The raw spans tile the whole video.
proof fn lemma_raw_spans(cuts: Seq<u64>, duration_ms: u64)
    requires
        duration_ms > 0,
        forall|i: int| 0 <= i < cuts.len() ==> 0 < #[trigger] cuts[i] < duration_ms,
        forall|i: int, j: int| 0 <= i < j < cuts.len() ==> cuts[i] < cuts[j],
    ensures
        tiles(raw_spans(cuts, duration_ms), 0, duration_ms as int),
{
    let b = seq![0u64] + cuts + seq![duration_ms];
    let sp = raw_spans(cuts, duration_ms);
    assert forall|i: int| 0 <= i < sp.len() implies #[trigger] sp[i].0 < sp[i].1 by {
        assert(sp[i] == (b[i], b[i + 1]));
        if i == 0 {
            if cuts.len() > 0 {
                assert(b[1] == cuts[0]);
            }
        } else if i < cuts.len() {
            assert(b[i] == cuts[i - 1]);
            assert(b[i + 1] == cuts[i]);
        } else {
            assert(b[i] == cuts[i - 1]);
        }
    }
    assert forall|i: int| 0 <= i < sp.len() - 1 implies #[trigger] sp[i].1 == sp[i + 1].0 by {
        assert(sp[i] == (b[i], b[i + 1]));
        assert(sp[i + 1] == (b[i + 1], b[i + 2]));
    }
}

/// Merging keeps a tiling and leaves no short span after the first.
proof fn lemma_merge_spans(sp: Seq<(u64, u64)>, hi: int)
    requires
        tiles(sp, 0, hi),
    ensures
        tiles(merge_spans(sp), 0, hi),
        long_after_first(merge_spans(sp)),
    decreases sp.len(),
{
    let s = sp.last();
    if sp.len() == 1 {
        assert(sp.drop_last() =~= Seq::<(u64, u64)>::empty());
        assert(merge_spans(sp.drop_last()) =~= Seq::<(u64, u64)>::empty());
        assert(merge_spans(sp) =~= seq![s]);
    } else {
        let r = sp.drop_last();
        assert(r[r.len() - 1].1 == sp[sp.len() - 2].1);
        assert(sp[sp.len() - 2].1 == sp[sp.len() - 1].0);
        assert(tiles(r, 0, s.0 as int)) by {
            assert forall|i: int| 0 <= i < r.len() - 1 implies #[trigger] r[i].1 == r[i + 1].0 by {
                assert(sp[i].1 == sp[i + 1].0);
            }
            assert forall|i: int| 0 <= i < r.len() implies #[trigger] r[i].0 < r[i].1 by {
                assert(sp[i].0 < sp[i].1);
            }
        }
        lemma_merge_spans(r, s.0 as int);
        let m = merge_spans(r);
        assert(s.0 < s.1) by {
            assert(sp[sp.len() - 1].0 < sp[sp.len() - 1].1);
        }
        if s.1 - s.0 < MIN_SCENE_DURATION_MS && m.len() > 0 {
            let n = m.update(m.len() - 1, (m.last().0, s.1));
            assert(merge_spans(sp) == n);
            assert forall|i: int| 0 <= i < n.len() - 1 implies #[trigger] n[i].1 == n[i + 1].0 by {
                assert(m[i].1 == m[i + 1].0);
            }
            assert forall|i: int| 0 <= i < n.len() implies #[trigger] n[i].0 < n[i].1 by {
                assert(m[i].0 < m[i].1);
            }
            assert forall|i: int| 0 < i < n.len() implies #[trigger] n[i].1 - n[i].0
                >= MIN_SCENE_DURATION_MS by {
                assert(m[i].1 - m[i].0 >= MIN_SCENE_DURATION_MS);
            }
        } else {
            let n = m.push(s);
            assert(merge_spans(sp) == n);
            assert forall|i: int| 0 <= i < n.len() - 1 implies #[trigger] n[i].1 == n[i + 1].0 by {
                if i < m.len() - 1 {
                    assert(m[i].1 == m[i + 1].0);
                }
            }
            assert forall|i: int| 0 <= i < n.len() implies #[trigger] n[i].0 < n[i].1 by {
                if i < m.len() {
                    assert(m[i].0 < m[i].1);
                }
            }
            assert forall|i: int| 0 < i < n.len() implies #[trigger] n[i].1 - n[i].0
                >= MIN_SCENE_DURATION_MS by {
                if i < m.len() {
                    assert(m[i].1 - m[i].0 >= MIN_SCENE_DURATION_MS);
                }
            }
        }
    }
}

/// The scenes of a video of `duration_ms` whose spans are `sp`, numbered
/// from 0, with no thumbnail and no description.
pub open spec fn scenes_with_spans(v: Seq<SceneView>, sp: Seq<(u64, u64)>) -> bool {
    &&& v.len() == sp.len()
    &&& forall|i: int|
        0 <= i < v.len() ==> {
            &&& #[trigger] v[i].index == i as u32
            &&& v[i].start_ms == sp[i].0
            &&& v[i].end_ms == sp[i].1
            &&& v[i].thumbnail == Seq::<char>::empty()
            &&& v[i].description is None
        }
}

/// The views of a list of scenes.
pub open spec fn scenes_view(v: Seq<Scene>) -> Seq<SceneView> {
    v.map_values(|s: Scene| s@)
}

/// Builds the scenes of a video of `duration_ms` from sorted scene-change
/// timestamps.
///
/// Scene 0 starts at 0, each accepted change point starts a new scene, and the
/// last scene ends at `duration_ms`; a change point at or before the previous
/// one, or at or past the end, is skipped. A scene shorter than
/// `MIN_SCENE_DURATION_MS` is merged into the scene before it. An empty video
/// has no scenes.
#[verifier::spinoff_prover]
pub fn build_scenes(timestamps: &[u64], duration_ms: u64) -> (r: Vec<Scene>)
    ensures
        scenes_with_spans(scenes_view(r@), scene_spans(timestamps@, duration_ms)),
        duration_ms == 0 ==> r.len() == 0,
        duration_ms > 0 ==> tiles(scene_spans(timestamps@, duration_ms), 0, duration_ms as int),
        long_after_first(scene_spans(timestamps@, duration_ms)),
{
    if duration_ms == 0 {
        let r: Vec<Scene> = Vec::new();
        assert(scenes_view(r@) =~= Seq::<SceneView>::empty());
        return r;
    }
    // Change points that open a scene.
    let mut cuts: Vec<u64> = Vec::new();
    let mut start: u64 = 0;
    let mut i: usize = 0;
    while i < timestamps.len()
        invariant
            i <= timestamps.len(),
            cuts@ == accepted_cuts(timestamps@.take(i as int), duration_ms),
            start == (if cuts@.len() == 0 { 0 } else { cuts@.last() }),
        decreases timestamps.len() - i,
    {
        let ts = timestamps[i];
        assert(timestamps@.take(i + 1).drop_last() =~= timestamps@.take(i as int));
        if ts > start && ts < duration_ms {
            cuts.push(ts);
            start = ts;
        }
        i += 1;
    }
    assert(timestamps@.take(timestamps.len() as int) =~= timestamps@);
    proof {
        lemma_accepted_cuts(timestamps@, duration_ms);
        lemma_raw_spans(cuts@, duration_ms);
    }
    // Spans between consecutive boundaries.
    let ghost raw = raw_spans(cuts@, duration_ms);
    let mut spans: Vec<(u64, u64)> = Vec::new();
    let mut lo: u64 = 0;
    let mut j: usize = 0;
    while j < cuts.len()
        invariant
            j <= cuts.len(),
            raw == raw_spans(cuts@, duration_ms),
            spans@ == raw.take(j as int),
            lo == (seq![0u64] + cuts@ + seq![duration_ms])[j as int],
        decreases cuts.len() - j,
    {
        let hi = cuts[j];
        assert((seq![0u64] + cuts@ + seq![duration_ms])[j + 1] == hi);
        spans.push((lo, hi));
        assert(spans@ =~= raw.take(j + 1));
        lo = hi;
        j += 1;
    }
    assert((seq![0u64] + cuts@ + seq![duration_ms])[cuts.len() + 1] == duration_ms);
    spans.push((lo, duration_ms));
    assert(spans@ =~= raw);
    // Merge the short spans.
    let mut merged: Vec<(u64, u64)> = Vec::new();
    let mut k: usize = 0;
    while k < spans.len()
        invariant
            k <= spans.len(),
            spans@ == raw,
            tiles(raw, 0, duration_ms as int),
            merged@ == merge_spans(raw.take(k as int)),
        decreases spans.len() - k,
    {
        let s = spans[k];
        assert(raw.take(k + 1).drop_last() =~= raw.take(k as int));
        assert(raw.take(k + 1).last() == s);
        assert(s.0 < s.1) by {
            assert(raw[k as int].0 < raw[k as int].1);
        }
        if s.1 - s.0 < MIN_SCENE_DURATION_MS && merged.len() > 0 {
            let last = merged.len() - 1;
            let first = merged[last].0;
            merged.set(last, (first, s.1));
        } else {
            merged.push(s);
        }
        k += 1;
    }
    assert(raw.take(spans.len() as int) =~= raw);
    proof {
        lemma_merge_spans(raw, duration_ms as int);
    }
    // Number the scenes.
    let mut r: Vec<Scene> = Vec::new();
    let mut n: usize = 0;
    while n < merged.len()
        invariant
            n <= merged.len(),
            r.len() == n,
            forall|q: int|
                0 <= q < n ==> {
                    &&& #[trigger] r@[q]@.index == q as u32
                    &&& r@[q]@.start_ms == merged@[q].0
                    &&& r@[q]@.end_ms == merged@[q].1
                    &&& r@[q]@.thumbnail == Seq::<char>::empty()
                    &&& r@[q]@.description is None
                },
        decreases merged.len() - n,
    {
        let (a, b) = merged[n];
        r.push(Scene { index: #[verifier::truncate] (n as u32), start_ms: a, end_ms: b, thumbnail: String::new(), description: None });
        n += 1;
    }
    assert(merged@ == scene_spans(timestamps@, duration_ms));
    assert(scenes_view(r@).len() == r.len());
    assert(scenes_with_spans(scenes_view(r@), merged@)) by {
        assert forall|q: int| 0 <= q < r.len() implies #[trigger] scenes_view(r@)[q] == r@[q]@ by {}
    }
    r
}

// ---------------------------------------------------------------------------
// Thumbnail timestamps and names
// ---------------------------------------------------------------------------

/// `u64` keys compare as the ordered-set specifications need.
pub open spec fn u64_keys_ordered() -> bool {
    vstd::laws_cmp::obeys_cmp::<u64>()
}

/// `u64` keys are ordered as the ordered-set specifications need.
proof fn lemma_u64_ordered()
    ensures
        u64_keys_ordered(),
{
    broadcast use vstd::laws_cmp::group_laws_cmp;
}

/// The keys of an ordered set of `u64` come out rising strictly, each once.
proof fn lemma_sorted_keys(set: &std::collections::BTreeSet<u64>)
    ensures
        ({
            let keys = vstd::std_specs::btree::spec_btree_keys_iter(set).remaining().unref();
            &&& forall|i: int, j: int| 0 <= i < j < keys.len() ==> keys[i] < keys[j]
            &&& forall|t: u64| keys.contains(t) <==> set@.contains(t)
        }),
{
    broadcast use vstd::laws_cmp::group_laws_cmp;
    broadcast use vstd::std_specs::btree::group_btree_axioms;

    let rem = vstd::std_specs::btree::spec_btree_keys_iter(set).remaining();
    let keys = rem.unref();
    assert(keys.to_set() == set@);
    assert forall|i: int, j: int| 0 <= i < j < keys.len() implies keys[i] < keys[j] by {
        assert(vstd::std_specs::cmp::OrdSpec::cmp_spec(&rem[i], &rem[j]) is Less);
    }
    assert forall|t: u64| keys.contains(t) <==> set@.contains(t) by {
        assert(keys.to_set().contains(t) == keys.contains(t));
    }
}

/// Whether `t` is a thumbnail time: the start of a scene, or a multiple of
/// the interval before the end of the video (when the interval is set).
pub open spec fn is_thumbnail_time(
    scenes: Seq<SceneView>,
    duration_ms: u64,
    interval_sec: u32,
    t: u64,
) -> bool {
    ||| exists|i: int| 0 <= i < scenes.len() && #[trigger] scenes[i].start_ms == t
    ||| (interval_sec > 0 && t < duration_ms && (t as int) % (interval_sec * 1000) == 0)
}

/// One interval past the last multiple of the interval below the duration:
/// where counting the interval times stops.
pub open spec fn interval_end(duration_ms: u64, interval_sec: u32) -> int {
    let step = interval_sec * 1000;
    ((duration_ms - 1) / step) * step + step
}

/// Counting the interval times stays within `u64` (nothing is counted
/// without an interval or a duration).
pub open spec fn interval_fits(duration_ms: u64, interval_sec: u32) -> bool {
    interval_sec > 0 && duration_ms > 0 ==> interval_end(duration_ms, interval_sec) <= u64::MAX
}

/// A multiple of `step` below `d` is at most the last one.
proof fn lemma_last_multiple(t: int, d: int, step: int)
    requires
        step > 0,
        0 <= t < d,
        t % step == 0,
    ensures
        t + step <= ((d - 1) / step) * step + step,
{
    vstd::arithmetic::div_mod::lemma_fundamental_div_mod(t, step);
    vstd::arithmetic::div_mod::lemma_div_is_ordered(t, d - 1, step);
    vstd::arithmetic::mul::lemma_mul_inequality(t / step, (d - 1) / step, step);
    vstd::arithmetic::mul::lemma_mul_is_commutative(step, t / step);
}

/// The thumbnail times of a video: the start of every scene and every
/// multiple of `interval_sec` seconds before `duration_ms` (none when the
/// interval or the duration is 0), sorted, without repeats.
pub fn collect_timestamps(scenes: &[Scene], duration_ms: u64, interval_sec: u32) -> (r: Vec<u64>)
    requires
        interval_fits(duration_ms, interval_sec),
    ensures
        forall|i: int, j: int| 0 <= i < j < r.len() ==> r@[i] < r@[j],
        forall|t: u64|
            r@.contains(t) <==> is_thumbnail_time(scenes_view(scenes@), duration_ms, interval_sec, t),
{
    broadcast use vstd::std_specs::btree::group_btree_axioms;

    proof {
        lemma_u64_ordered();
    }
    let ghost sv = scenes_view(scenes@);
    let mut set: std::collections::BTreeSet<u64> = std::collections::BTreeSet::new();
    let mut i: usize = 0;
    while i < scenes.len()
        invariant
            i <= scenes.len(),
            sv == scenes_view(scenes@),
            u64_keys_ordered(),
            forall|t: u64| set@.contains(t) <==> exists|q: int| 0 <= q < i && #[trigger] sv[q].start_ms == t,
        decreases scenes.len() - i,
    {
        set.insert(scenes[i].start_ms);
        assert(sv[i as int].start_ms == scenes@[i as int].start_ms);
        i += 1;
    }
    if interval_sec > 0 && duration_ms > 0 {
        let step: u64 = interval_sec as u64 * 1000;
        let mut t: u64 = 0;
        while t < duration_ms
            invariant
                step == interval_sec * 1000,
                step > 0,
                t % step == 0,
                t < duration_ms + step,
                t <= interval_end(duration_ms, interval_sec),
                interval_end(duration_ms, interval_sec) <= u64::MAX,
                u64_keys_ordered(),
                forall|x: u64| set@.contains(x) <==> (
                    (exists|q: int| 0 <= q < sv.len() && #[trigger] sv[q].start_ms == x)
                    || (x < t && (x as int) % (step as int) == 0)),
            decreases interval_end(duration_ms, interval_sec) - t,
        {
            set.insert(t);
            proof {
                lemma_next_multiple(t as int, step as int);
                lemma_last_multiple(t as int, duration_ms as int, step as int);
            }
            t = t + step;
        }
        proof {
            assert(t > 0);
            assert(t >= step) by (nonlinear_arith)
                requires t > 0, step > 0, (t as int) % (step as int) == 0;
            assert(((t - step) as int) % (step as int) == 0) by (nonlinear_arith)
                requires t >= step, step > 0, (t as int) % (step as int) == 0;
            lemma_next_multiple(t - step, step as int);
            assert forall|x: u64| (x < t && #[trigger] ((x as int) % (step as int)) == 0) <==> (x
                < duration_ms && (x as int) % (step as int) == 0) by {
                if duration_ms <= x < t {
                    assert(((t - step) as int) < x);
                    assert(#[trigger] ((x as int) % (step as int)) != 0);
                }
            }
        }
    }
    let ghost keys: Seq<u64> = vstd::std_specs::btree::spec_btree_keys_iter(&set).remaining().unref();
    let mut r: Vec<u64> = Vec::new();
    for x in it: set.iter()
        invariant
            r@ == it.seq().take(it.index()).unref(),
            it.seq().unref() == keys,
    {
        r.push(*x);
    }
    proof {
        assert(r@ == keys);
        lemma_sorted_keys(&set);
    }
    r
}

/// Between a multiple of `step` and the next one there is no other.
proof fn lemma_next_multiple(t: int, step: int)
    requires
        step > 0,
        t >= 0,
        t % step == 0,
    ensures
        (t + step) % step == 0,
        forall|x: int| t < x < t + step ==> #[trigger] (x % step) != 0,
{
    assert((t + step) % step == 0) by (nonlinear_arith)
        requires step > 0, t % step == 0;
    assert forall|x: int| t < x < t + step implies #[trigger] (x % step) != 0 by {
        assert(x % step != 0) by (nonlinear_arith)
            requires step > 0, t % step == 0, t < x, x < t + step;
    }
}

/// The file name of the thumbnail taken at `timestamp_ms`:
/// `<source_id>_<MM>m<SS>s.jpg`, with whole minutes and the seconds past
/// them, each at least two digits.
pub open spec fn thumbnail_filename(source_id: Seq<char>, timestamp_ms: u64) -> Seq<char> {
    let secs = timestamp_ms / 1000;
    source_id + "_"@ + dec_pad((secs / 60) as nat, 2) + "m"@ + dec_pad((secs % 60) as nat, 2)
        + "s.jpg"@
}

/// Formats a thumbnail file name: `src-NNN_MMmSSs.jpg`.
pub fn format_thumbnail_filename(source_id: &str, timestamp_ms: u64) -> (r: String)
    ensures
        r@ == thumbnail_filename(source_id@, timestamp_ms),
{
    let total_secs = timestamp_ms / 1000;
    let mut r = owned(source_id);
    push_str(&mut r, "_");
    push_dec_pad(&mut r, total_secs / 60, 2);
    push_str(&mut r, "m");
    push_dec_pad(&mut r, total_secs % 60, 2);
    push_str(&mut r, "s.jpg");
    r
}

/// The index file of a source: `<project_dir>/index/<source_id>.index.json`.
pub open spec fn index_file(project_dir: Seq<char>, source_id: Seq<char>) -> Seq<char> {
    joined(joined(project_dir, "index"@), source_id + ".index.json"@)
}

/// The on-disk path of a source's index file.
pub fn index_path(project_dir: &str, source_id: &str) -> (r: String)
    ensures
        r@ == index_file(project_dir@, source_id@),
{
    let dir = join_path(project_dir, "index");
    let mut name = owned(source_id);
    push_str(&mut name, ".index.json");
    join_path(dir.as_str(), name.as_str())
}

/// The thumbnail planned for time `t`: its path under `thumbnails/`, its
/// time, and no description.
pub open spec fn planned_thumbnail(th: Thumbnail, source_id: Seq<char>, t: u64) -> bool {
    &&& th.path@ == joined("thumbnails"@, thumbnail_filename(source_id, t))
    &&& th.timestamp_ms == t
    &&& th.description is None
}

/// The thumbnails to extract for a source: one at every thumbnail time (see
/// `collect_timestamps`), in time order, each named by
/// `format_thumbnail_filename` under `thumbnails/`.
pub fn generate_thumbnails(source_id: &str, duration_ms: u64, scenes: &[Scene], interval_sec: u32) -> (r: Vec<Thumbnail>)
    requires
        interval_fits(duration_ms, interval_sec),
    ensures
        forall|i: int| 0 <= i < r.len() ==> planned_thumbnail(#[trigger] r@[i], source_id@, r@[i].timestamp_ms),
        forall|i: int, j: int| 0 <= i < j < r.len() ==> r@[i].timestamp_ms < r@[j].timestamp_ms,
        forall|t: u64|
            (exists|i: int| 0 <= i < r.len() && #[trigger] r@[i].timestamp_ms == t)
                <==> is_thumbnail_time(scenes_view(scenes@), duration_ms, interval_sec, t),
{
    let times = collect_timestamps(scenes, duration_ms, interval_sec);
    let mut r: Vec<Thumbnail> = Vec::new();
    let mut i: usize = 0;
    while i < times.len()
        invariant
            i <= times.len(),
            r.len() == i,
            forall|q: int| 0 <= q < i ==> #[trigger] r@[q].timestamp_ms == times@[q],
            forall|q: int| 0 <= q < i ==> planned_thumbnail(#[trigger] r@[q], source_id@, times@[q]),
        decreases times.len() - i,
    {
        let t = times[i];
        let filename = format_thumbnail_filename(source_id, t);
        let path = join_path("thumbnails", filename.as_str());
        r.push(Thumbnail { path, timestamp_ms: t, description: None });
        i += 1;
    }
    proof {
        assert forall|t: u64|
            (exists|i: int| 0 <= i < r.len() && #[trigger] r@[i].timestamp_ms == t)
                <==> is_thumbnail_time(scenes_view(scenes@), duration_ms, interval_sec, t) by {
            assert(times@.contains(t) <==> is_thumbnail_time(scenes_view(scenes@), duration_ms, interval_sec, t));
            if times@.contains(t) {
                let k = choose|k: int| 0 <= k < times.len() && times@[k] == t;
                assert(r@[k].timestamp_ms == t);
            }
            if exists|i: int| 0 <= i < r.len() && #[trigger] r@[i].timestamp_ms == t {
                let k = choose|k: int| 0 <= k < r.len() && #[trigger] r@[k].timestamp_ms == t;
                assert(times@[k] == t);
            }
        }
    }
    r
}

// ---------------------------------------------------------------------------
// Assembling and editing an index
// ---------------------------------------------------------------------------

/// The path of the last thumbnail in `ths` taken at time `t`, if any.
pub open spec fn thumbnail_at(ths: Seq<Thumbnail>, t: u64) -> Option<Seq<char>>
    decreases ths.len(),
{
    if ths.len() == 0 {
        None
    } else if ths.last().timestamp_ms == t {
        Some(ths.last().path@)
    } else {
        thumbnail_at(ths.drop_last(), t)
    }
}

/// The path of the last thumbnail taken at time `t`, if any.
fn find_thumbnail(ths: &Vec<Thumbnail>, t: u64) -> (r: Option<String>)
    ensures
        opt_view(r) == thumbnail_at(ths@, t),
{
    let mut k: usize = ths.len();
    assert(ths@.take(k as int) =~= ths@);
    while k > 0
        invariant
            k <= ths.len(),
            thumbnail_at(ths@, t) == thumbnail_at(ths@.take(k as int), t),
        decreases k,
    {
        let th = &ths[k - 1];
        assert(ths@.take(k as int).drop_last() =~= ths@.take(k - 1));
        if th.timestamp_ms == t {
            return Some(copy_string(&th.path));
        }
        k -= 1;
    }
    None
}

/// `v` is scene `s` with the thumbnail taken at its start, if there is one.
pub open spec fn scene_with_thumbnail(v: SceneView, s: Scene, ths: Seq<Thumbnail>) -> bool {
    &&& v.index == s@.index
    &&& v.start_ms == s@.start_ms
    &&& v.end_ms == s@.end_ms
    &&& v.description == s@.description
    &&& v.thumbnail == (match thumbnail_at(ths, s.start_ms) {
        Some(p) => p,
        None => s@.thumbnail,
    })
}

/// A copy of scene `s` with the thumbnail taken at its start, if any.
fn with_thumbnail(s: &Scene, thumbnails: &Vec<Thumbnail>) -> (r: Scene)
    ensures
        scene_with_thumbnail(r@, *s, thumbnails@),
{
    let found = find_thumbnail(thumbnails, s.start_ms);
    let thumb = match found {
        Some(p) => p,
        None => copy_string(&s.thumbnail),
    };
    let description = match &s.description {
        Some(d) => Some(copy_string(d)),
        None => None,
    };
    Scene { index: s.index, start_ms: s.start_ms, end_ms: s.end_ms, thumbnail: thumb, description }
}

/// Builds the index of a source indexed at `indexed_at` from its detected
/// scenes and extracted thumbnails. Each scene whose start has a thumbnail
/// gets that thumbnail's path (the last one, where several share the time).
pub fn build_source_index_at(
    source: &Source,
    file_size_bytes: u64,
    scenes: Vec<Scene>,
    thumbnails: Vec<Thumbnail>,
    indexed_at: String,
) -> (r: SourceIndex)
    ensures
        r.source_id@ == source.id@,
        r.indexed_at@ == indexed_at@,
        r.metadata.duration_ms == source.duration_ms,
        r.metadata.resolution == source.resolution,
        r.metadata.codec@ == source.video_codec@,
        r.metadata.file_size_bytes == file_size_bytes,
        r.thumbnails == thumbnails,
        r.scene_count == scenes.len() as u32,
        r.scenes.len() == scenes.len(),
        forall|i: int|
            0 <= i < scenes.len() ==> scene_with_thumbnail(#[trigger] r.scenes@[i]@, scenes@[i], thumbnails@),
{
    let mut out: Vec<Scene> = Vec::new();
    let mut i: usize = 0;
    while i < scenes.len()
        invariant
            i <= scenes.len(),
            out.len() == i,
            forall|q: int| 0 <= q < i ==> scene_with_thumbnail(#[trigger] out@[q]@, scenes@[q], thumbnails@),
        decreases scenes.len() - i,
    {
        let s = with_thumbnail(&scenes[i], &thumbnails);
        out.push(s);
        i += 1;
    }
    let scene_count = #[verifier::truncate] (scenes.len() as u32);
    SourceIndex {
        source_id: copy_string(&source.id),
        indexed_at,
        metadata: SourceMetadata {
            duration_ms: source.duration_ms,
            resolution: source.resolution,
            codec: copy_string(&source.video_codec),
            file_size_bytes,
        },
        thumbnails,
        scene_count,
        scenes: out,
    }
}

/// Builds the index of a source, stamped with the current time (see
/// `build_source_index_at`).
pub fn build_source_index(
    source: &Source,
    file_size_bytes: u64,
    scenes: Vec<Scene>,
    thumbnails: Vec<Thumbnail>,
) -> (r: SourceIndex)
    ensures
        r.source_id@ == source.id@,
        r.metadata.duration_ms == source.duration_ms,
        r.metadata.resolution == source.resolution,
        r.metadata.codec@ == source.video_codec@,
        r.metadata.file_size_bytes == file_size_bytes,
        r.thumbnails == thumbnails,
        r.scene_count == scenes.len() as u32,
        r.scenes.len() == scenes.len(),
        forall|i: int|
            0 <= i < scenes.len() ==> scene_with_thumbnail(#[trigger] r.scenes@[i]@, scenes@[i], thumbnails@),
{
    let now = crate::clock::current_timestamp();
    build_source_index_at(source, file_size_bytes, scenes, thumbnails, now)
}

/// `x` with the description of scene `i` set to `text`.
pub open spec fn with_description(x: IndexView, i: int, text: Seq<char>) -> IndexView {
    IndexView {
        scenes: x.scenes.update(i, SceneView { description: Some(text), ..x.scenes[i] }),
        ..x
    }
}

/// Sets the description of scene `scene_index`, returning the updated index
/// and the description it replaced. Fails when the index has no such scene.
pub fn set_scene_description(index: SourceIndex, scene_index: u32, text: &str) -> (r: Result<(SourceIndex, Option<String>), IndexError>)
    requires
        scene_index < index.scene_count ==> scene_index < index.scenes.len(),
    ensures
        scene_index >= index.scene_count <==> (r is Err),
        r matches Err(e) ==> (e == (IndexError::SceneOutOfRange { index: scene_index, count: index.scene_count })),
        r matches Ok((x, old_desc)) ==> {
            &&& opt_view(old_desc) == index.scenes@[scene_index as int]@.description
            &&& x@ == with_description(index@, scene_index as int, text@)
            &&& x.indexed_at == index.indexed_at
            &&& x.metadata == index.metadata
            &&& x.thumbnails == index.thumbnails
        },
{
    if scene_index >= index.scene_count {
        return Err(IndexError::SceneOutOfRange { index: scene_index, count: index.scene_count });
    }
    let mut index = index;
    let i = scene_index as usize;
    let s = &index.scenes[i];
    let old_description = match &s.description {
        Some(d) => Some(copy_string(d)),
        None => None,
    };
    let updated = Scene {
        index: s.index,
        start_ms: s.start_ms,
        end_ms: s.end_ms,
        thumbnail: copy_string(&s.thumbnail),
        description: Some(owned(text)),
    };
    let ghost before = index;
    index.scenes.set(i, updated);
    assert(index@.scenes =~= with_description(before@, scene_index as int, text@).scenes);
    Ok((index, old_description))
}

// ---------------------------------------------------------------------------
// Scene-change times reported by ffmpeg's showinfo filter
// ---------------------------------------------------------------------------

/// The field name that precedes a frame time in showinfo output.
pub open spec fn pts_key() -> Seq<char> {
    "pts_time:"@
}

/// Whether a frame time starts at position `i`: `pts_time:`, optional white
/// space, then a decimal digit (any Unicode decimal digit, see
/// `is_decimal`).
pub open spec fn pts_match_at(s: Seq<char>, i: int) -> bool {
    &&& 0 <= i
    &&& i + 9 <= s.len()
    &&& s.subrange(i, i + 9) == pts_key()
    &&& ws_end(s, i + 9) < s.len()
    &&& is_decimal(s[ws_end(s, i + 9)])
}

/// Where the whole part of the frame time at `i` ends.
pub open spec fn pts_int_end(s: Seq<char>, i: int) -> int {
    decimals_end(s, ws_end(s, i + 9))
}

/// Whether the frame time at `i` has a decimal point.
pub open spec fn pts_has_point(s: Seq<char>, i: int) -> bool {
    pts_int_end(s, i) < s.len() && s[pts_int_end(s, i)] == '.'
}

/// Where the frame time at `i` ends.
pub open spec fn pts_match_end(s: Seq<char>, i: int) -> int {
    if pts_has_point(s, i) {
        decimals_end(s, pts_int_end(s, i) + 1)
    } else {
        pts_int_end(s, i)
    }
}

/// Whether the frame time at `i` reads as a number: its digits are all
/// ASCII digits.
pub open spec fn pts_reads(s: Seq<char>, i: int) -> bool {
    &&& all_digits(s.subrange(ws_end(s, i + 9), pts_int_end(s, i)))
    &&& pts_has_point(s, i) ==> all_digits(s.subrange(pts_int_end(s, i) + 1, pts_match_end(s, i)))
}

/// Whether every frame time found scanning `s` from position `i` reads as
/// a number.
pub open spec fn pts_all_read(s: Seq<char>, i: int) -> bool
    decreases s.len() - i,
{
    if i < 0 || i >= s.len() {
        true
    } else if pts_match_at(s, i) {
        if i < pts_match_end(s, i) <= s.len() {
            pts_reads(s, i) && pts_all_read(s, pts_match_end(s, i))
        } else {
            true
        }
    } else {
        pts_all_read(s, i + 1)
    }
}

/// Thousandths from the first three digits of a fraction.
pub open spec fn millis_of_fraction(f: Seq<char>) -> nat {
    if f.len() == 0 {
        0
    } else if f.len() == 1 {
        digit_value(f[0]) * 100
    } else if f.len() == 2 {
        digit_value(f[0]) * 100 + digit_value(f[1]) * 10
    } else {
        digit_value(f[0]) * 100 + digit_value(f[1]) * 10 + digit_value(f[2])
    }
}

/// The frame time at `i`, in whole milliseconds (fractions of a millisecond
/// dropped, and capped at `u64::MAX`). The number is read exactly, where
/// ffmpeg's text is read through the nearest `f64` and multiplied by 1000:
/// where that falls just below a whole number of milliseconds (`1.005`), the
/// `f64` reading gives one millisecond less.
pub open spec fn pts_millis(s: Seq<char>, i: int) -> u64 {
    let whole = digits_value(s.subrange(ws_end(s, i + 9), pts_int_end(s, i)));
    let frac = if pts_has_point(s, i) {
        millis_of_fraction(s.subrange(pts_int_end(s, i) + 1, pts_match_end(s, i)))
    } else {
        0
    };
    let v = whole * 1000 + frac;
    if v > u64::MAX { u64::MAX } else { v as u64 }
}

/// The frame times found scanning `s` from position `i`, left to right; the
/// scan resumes after each match.
pub open spec fn pts_times_from(s: Seq<char>, i: int) -> Seq<u64>
    decreases s.len() - i,
{
    if i < 0 || i >= s.len() {
        Seq::empty()
    } else if pts_match_at(s, i) {
        if i < pts_match_end(s, i) <= s.len() {
            seq![pts_millis(s, i)] + pts_times_from(s, pts_match_end(s, i))
        } else {
            Seq::empty()
        }
    } else {
        pts_times_from(s, i + 1)
    }
}

/// Whether `c` holds `pts_time:` at position `i`.
fn key_at(c: &Vec<char>, i: usize) -> (r: bool)
    ensures
        r == (i + 9 <= c.len() && c@.subrange(i as int, i + 9) == pts_key()),
{
    proof {
        reveal_strlit("pts_time:");
    }
    if i > c.len() || c.len() - i < 9 {
        return false;
    }
    let r = c[i] == 'p' && c[i + 1] == 't' && c[i + 2] == 's' && c[i + 3] == '_' && c[i + 4] == 't'
        && c[i + 5] == 'i' && c[i + 6] == 'm' && c[i + 7] == 'e' && c[i + 8] == ':';
    proof {
        if r {
            assert(c@.subrange(i as int, i + 9) =~= pts_key());
        } else {
            assert(c@.subrange(i as int, i + 9) != pts_key()) by {
                if c@.subrange(i as int, i + 9) == pts_key() {
                    assert(c@.subrange(i as int, i + 9)[0] == c@[i as int]);
                    assert(c@.subrange(i as int, i + 9)[1] == c@[i + 1]);
                    assert(c@.subrange(i as int, i + 9)[2] == c@[i + 2]);
                    assert(c@.subrange(i as int, i + 9)[3] == c@[i + 3]);
                    assert(c@.subrange(i as int, i + 9)[4] == c@[i + 4]);
                    assert(c@.subrange(i as int, i + 9)[5] == c@[i + 5]);
                    assert(c@.subrange(i as int, i + 9)[6] == c@[i + 6]);
                    assert(c@.subrange(i as int, i + 9)[7] == c@[i + 7]);
                    assert(c@.subrange(i as int, i + 9)[8] == c@[i + 8]);
                }
            }
        }
    }
    r
}

/// The value of the digits `c[a..d]`, and whether it exceeds
/// `u64::MAX / 1000` (the value is exact when it does not).
pub fn whole_part(c: &Vec<char>, a: usize, d: usize) -> (r: (u64, bool))
    requires
        a <= d <= c.len(),
        forall|k: int| a <= k < d ==> is_digit(#[trigger] c@[k]),
    ensures
        r.1 <==> digits_value(c@.subrange(a as int, d as int)) > u64::MAX / 1000,
        !r.1 ==> r.0 == digits_value(c@.subrange(a as int, d as int)),
{
    let mut acc: u64 = 0;
    let mut big = false;
    let mut k = a;
    while k < d
        invariant
            a <= k <= d <= c.len(),
            forall|q: int| a <= q < d ==> is_digit(#[trigger] c@[q]),
            big <==> digits_value(c@.subrange(a as int, k as int)) > u64::MAX / 1000,
            !big ==> acc == digits_value(c@.subrange(a as int, k as int)),
        decreases d - k,
    {
        let dv = crate::text::ascii_digit_value(c[k]);
        assert(c@.subrange(a as int, k + 1).drop_last() =~= c@.subrange(a as int, k as int));
        assert(c@.subrange(a as int, k + 1).last() == c@[k as int]);
        if !big {
            let next = acc * 10 + dv;
            if next > u64::MAX / 1000 {
                big = true;
            } else {
                acc = next;
            }
        }
        k += 1;
    }
    (acc, big)
}

/// The frame time at a match, in whole milliseconds.
fn millis_at(c: &Vec<char>, i: usize) -> (r: u64)
    requires
        pts_match_at(c@, i as int),
        pts_reads(c@, i as int),
    ensures
        r == pts_millis(c@, i as int),
{
    assert(i + 9 <= c.len());
    let a = skip_white_space(c, i + 9);
    let d = skip_digits(c, a);
    proof {
        lemma_ws_end(c@, i + 9);
        lemma_digits_end(c@, a as int);
        lemma_decimals_ascii(c@, a as int);
    }
    let (whole, big) = whole_part(c, a, d);
    let mut frac: u64 = 0;
    if d < c.len() && c[d] == '.' {
        let e = skip_digits(c, d + 1);
        proof {
            lemma_digits_end(c@, d + 1);
            lemma_decimals_ascii(c@, d + 1);
        }
        let ghost f = c@.subrange(d + 1, e as int);
        if e > d + 1 {
            frac = crate::text::ascii_digit_value(c[d + 1]) * 100;
            assert(f[0] == c@[d + 1]);
        }
        if e - d > 2 {
            frac = frac + crate::text::ascii_digit_value(c[d + 2]) * 10;
            assert(f[1] == c@[d + 2]);
        }
        if e - d > 3 {
            frac = frac + crate::text::ascii_digit_value(c[d + 3]);
            assert(f[2] == c@[d + 3]);
        }
        assert(frac == millis_of_fraction(f));
    }
    if big {
        u64::MAX
    } else {
        let w = whole * 1000;
        if w > u64::MAX - frac {
            u64::MAX
        } else {
            w + frac
        }
    }
}

/// The message of a frame time that does not read as a number.
pub open spec fn msg_bad_timestamp() -> Seq<char> {
    "failed to parse timestamp: invalid float literal"@
}

/// The scene-change times, in milliseconds, that ffmpeg's `showinfo` filter
/// reports in `stderr`: each `pts_time:` field followed (after optional white
/// space) by a decimal number, read left to right. Fails when a number holds
/// a decimal digit other than an ASCII one, which does not read.
pub fn parse_scene_timestamps(stderr: &str) -> (r: Result<Vec<u64>, IndexError>)
    ensures
        r is Ok <==> pts_all_read(stderr@, 0),
        r matches Ok(v) ==> v@ == pts_times_from(stderr@, 0),
        r matches Err(e) ==> e matches IndexError::ParseFailed(m) && m@ == msg_bad_timestamp(),
{
    proof {
        reveal_strlit("failed to parse timestamp: invalid float literal");
    }
    let c = crate::text::chars_of(stderr);
    let mut r: Vec<u64> = Vec::new();
    let mut i: usize = 0;
    while i < c.len()
        invariant
            i <= c.len(),
            c@ == stderr@,
            r@ + pts_times_from(c@, i as int) == pts_times_from(c@, 0),
            pts_all_read(c@, 0) == pts_all_read(c@, i as int),
        decreases c.len() - i,
    {
        let mut matched = false;
        if key_at(&c, i) {
            let a = skip_white_space(&c, i + 9);
            proof {
                lemma_ws_end(c@, i + 9);
            }
            if a < c.len() && decimal_char(c[a]) {
                matched = true;
            }
        }
        if matched {
            let a = skip_white_space(&c, i + 9);
            let d = skip_decimals(&c, a);
            let d0 = skip_digits(&c, a);
            proof {
                lemma_ws_end(c@, i + 9);
                lemma_decimals_end(c@, a as int);
                lemma_decimals_ascii(c@, a as int);
            }
            let mut e = d;
            let mut reads = d0 == d;
            if d < c.len() && c[d] == '.' {
                e = skip_decimals(&c, d + 1);
                let e0 = skip_digits(&c, d + 1);
                proof {
                    lemma_decimals_end(c@, d + 1);
                    lemma_decimals_ascii(c@, d + 1);
                }
                reads = reads && e0 == e;
            }
            assert(e == pts_match_end(c@, i as int));
            assert(e > i);
            assert(reads == pts_reads(c@, i as int));
            if !reads {
                return Err(IndexError::ParseFailed(owned("failed to parse timestamp: invalid float literal")));
            }
            let ms = millis_at(&c, i);
            r.push(ms);
            assert(pts_times_from(c@, i as int) == seq![ms] + pts_times_from(c@, e as int));
            assert(r@ + pts_times_from(c@, e as int) =~= pts_times_from(c@, 0));
            i = e;
        } else {
            assert(pts_times_from(c@, i as int) == pts_times_from(c@, i + 1));
            i += 1;
        }
    }
    assert(r@ =~= pts_times_from(c@, 0));
    assert(pts_all_read(c@, c.len() as int));
    Ok(r)
}

/// Seconds with three decimals (see `seconds_text`).
fn seconds_label(ms: u64) -> (r: String)
    ensures
        r@ == seconds_text(ms),
{
    let mut r = String::new();
    crate::text::push_dec(&mut r, ms / 1000);
    push_str(&mut r, ".");
    push_dec_pad(&mut r, ms % 1000, 3);
    r
}

/// The ffmpeg arguments that write the frame of `source` at `timestamp_ms`,
/// 640 pixels wide, as a JPEG at `out`.
pub open spec fn frame_args_spec(source: Seq<char>, timestamp_ms: u64, out: Seq<char>) -> Seq<Seq<char>> {
    seq!["-y"@, "-ss"@, seconds_text(timestamp_ms), "-i"@, source, "-frames:v"@, "1"@, "-vf"@, "scale=640:-2"@, "-q:v"@, "2"@, out]
}

/// The ffmpeg arguments of a frame extraction (see `frame_args_spec`).
pub fn frame_args(source: &str, timestamp_ms: u64, out: &str) -> (r: Vec<String>)
    ensures
        args_view(r@) == frame_args_spec(source@, timestamp_ms, out@),
{
    let mut a: Vec<String> = Vec::new();
    a.push(owned("-y"));
    a.push(owned("-ss"));
    a.push(seconds_label(timestamp_ms));
    a.push(owned("-i"));
    a.push(owned(source));
    a.push(owned("-frames:v"));
    a.push(owned("1"));
    a.push(owned("-vf"));
    a.push(owned("scale=640:-2"));
    a.push(owned("-q:v"));
    a.push(owned("2"));
    a.push(owned(out));
    assert(args_view(a@) =~= frame_args_spec(source@, timestamp_ms, out@));
    a
}

/// The outcome of a frame extraction at `timestamp_ms`, given whether ffmpeg
/// succeeded and what it wrote to stderr: done, or the failure with the
/// timestamp and ffmpeg's last line.
pub fn frame_extraction(timestamp_ms: u64, succeeded: bool, stderr: &str) -> (r: Result<(), IndexError>)
    ensures
        succeeded ==> r is Ok,
        !succeeded ==> (r matches Err(IndexError::FfmpegFailed(m)) && m@
            == "ffmpeg frame extraction failed (ts="@ + seconds_text(timestamp_ms) + "s): "@ + last_line(stderr@)),
{
    if succeeded {
        return Ok(());
    }
    let mut m = owned("ffmpeg frame extraction failed (ts=");
    let ts = seconds_label(timestamp_ms);
    push_str(&mut m, ts.as_str());
    push_str(&mut m, "s): ");
    let last = last_line_text(stderr);
    push_str(&mut m, last.as_str());
    Err(IndexError::FfmpegFailed(m))
}

} // verus!
