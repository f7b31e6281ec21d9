//! Recorded demo bundles: a silent screencast with per-step timings and
//! narration titles becomes a transcript, scene boundaries, markers and points
//! of interest, so that a recorded demo is edited as text like any other
//! source. Reading the bundle's files is left to the caller.
use vstd::prelude::*;
use crate::index::{SceneBoundary, BoundaryView, tiles};
use crate::models::{PoiCategory, Transcript, TranscriptSegment, Word, WordView, SegmentView, opt_view};
use crate::paths::{joined, join_path};
use crate::text::{push_str, push_dec, owned, copy_string, str_eq, dec, trimmed, trim_str};
use crate::fuzzy::{words_of, strs_view, split_white_space};

verus! {

broadcast use vstd::string::group_string_axioms;

// ---------------------------------------------------------------------------
// Errors
// ---------------------------------------------------------------------------

/// What can go wrong while reading a demo bundle.
#[derive(Debug, Clone, PartialEq)]
pub enum DemoError {
    NotABundle(String),
    VideoMissing(String),
    UnsupportedVersion(u32),
    Io(String),
    Json(String),
}

/// The message of a demo-bundle error.
pub open spec fn demo_error_message(e: DemoError) -> Seq<char> {
    match e {
        DemoError::NotABundle(p) => "not a demo bundle: "@ + p@ + " (its manifest is missing)"@,
        DemoError::VideoMissing(p) => "bundle video not found: "@ + p@,
        DemoError::UnsupportedVersion(v) => "unsupported bundle version "@ + dec(v as nat)
            + " (expected 1)"@,
        DemoError::Io(m) => m@,
        DemoError::Json(m) => "failed to parse bundle JSON: "@ + m@,
    }
}

impl DemoError {
    /// The human-readable message of this error.
    pub fn to_string(&self) -> (r: String)
        ensures
            r@ == demo_error_message(*self),
    {
        proof {
            reveal_strlit("");
        }
        match self {
            DemoError::NotABundle(p) => {
                let mut r = owned("not a demo bundle: ");
                push_str(&mut r, p.as_str());
                push_str(&mut r, " (its manifest is missing)");
                r
            },
            DemoError::VideoMissing(p) => {
                let mut r = owned("bundle video not found: ");
                push_str(&mut r, p.as_str());
                r
            },
            DemoError::UnsupportedVersion(v) => {
                let mut r = owned("unsupported bundle version ");
                push_dec(&mut r, *v as u64);
                push_str(&mut r, " (expected 1)");
                r
            },
            DemoError::Io(m) => copy_string(m),
            DemoError::Json(m) => {
                let mut r = owned("failed to parse bundle JSON: ");
                push_str(&mut r, m.as_str());
                r
            },
        }
    }
}

// ---------------------------------------------------------------------------
// Bundle format
// ---------------------------------------------------------------------------

/// The viewport a demo was recorded in, in CSS pixels.
#[derive(Debug, Clone, Copy, PartialEq, Eq, Structural)]
pub struct Viewport {
    pub width: u32,
    pub height: u32,
}

/// One recorded action; `start_ms` and `end_ms` count from the video's start.
#[derive(Debug, Clone, PartialEq)]
pub struct DemoStep {
    pub index: u32,
    pub kind: String,
    pub title: Option<String>,
    pub selector: Option<String>,
    pub url: Option<String>,
    pub start_ms: u64,
    pub end_ms: u64,
    pub success: bool,
    pub pause: Option<u64>,
}

/// The manifest of a bundle: step timings, narration and capture parameters.
#[derive(Debug, Clone, PartialEq)]
pub struct DemoManifest {
    pub version: u32,
    /// Video file, relative to the bundle directory.
    pub video: String,
    pub cursor: Option<String>,
    pub recording: Option<String>,
    pub started_at: Option<String>,
    pub viewport: Viewport,
    /// Bit pattern of the `f64` device scale factor.
    pub scale_bits: u64,
    pub profile: Option<String>,
    pub duration_ms: u64,
    pub steps: Vec<DemoStep>,
}

/// The view of a step: what the derivations read of it.
pub struct StepView {
    pub index: u32,
    pub kind: Seq<char>,
    pub title: Option<Seq<char>>,
    pub selector: Option<Seq<char>>,
    pub url: Option<Seq<char>>,
    pub start_ms: u64,
    pub end_ms: u64,
    pub success: bool,
}

impl View for DemoStep {
    type V = StepView;

    open spec fn view(&self) -> StepView {
        StepView {
            index: self.index,
            kind: self.kind@,
            title: opt_view(self.title),
            selector: opt_view(self.selector),
            url: opt_view(self.url),
            start_ms: self.start_ms,
            end_ms: self.end_ms,
            success: self.success,
        }
    }
}

/// The views of a manifest's steps.
pub open spec fn steps_of(steps: Seq<DemoStep>) -> Seq<StepView> {
    steps.map_values(|s: DemoStep| s@)
}

/// Where a bundle's video lies, once its manifest has been read; a manifest
/// of any version but 1 is refused.
pub fn bundle_video_path(dir: &str, manifest: &DemoManifest) -> (r: Result<String, DemoError>)
    ensures
        manifest.version == 1 <==> r is Ok,
        r matches Ok(p) ==> p@ == joined(dir@, manifest.video@),
        r matches Err(e) ==> e == DemoError::UnsupportedVersion(manifest.version),
{
    if manifest.version != 1 {
        return Err(DemoError::UnsupportedVersion(manifest.version));
    }
    Ok(join_path(dir, manifest.video.as_str()))
}

/// Where a bundle's cursor log lies, when its manifest names one.
pub fn bundle_cursor_path(dir: &str, manifest: &DemoManifest) -> (r: Option<String>)
    ensures
        match manifest.cursor {
            Some(name) => r matches Some(p) && p@ == joined(dir@, name@),
            None => r is None,
        },
{
    match &manifest.cursor {
        Some(name) => Some(join_path(dir, name.as_str())),
        None => None,
    }
}

// ---------------------------------------------------------------------------
// Step kinds
// ---------------------------------------------------------------------------

/// Steps that leave no trace on screen never start a scene.
pub open spec fn visual(s: StepView) -> bool {
    s.kind != "cursor"@ && s.kind != "marker"@
}

fn is_visual(step: &DemoStep) -> (r: bool)
    ensures
        r == visual(step@),
{
    !str_eq(step.kind.as_str(), "cursor") && !str_eq(step.kind.as_str(), "marker")
}

/// The point-of-interest category of a step: a failed step is an issue
/// whatever its type; otherwise the type decides.
pub open spec fn category_of(kind: Seq<char>, success: bool) -> PoiCategory {
    if !success {
        PoiCategory::Issue
    } else if kind == "goto"@ || kind == "navigate"@ || kind == "goBack"@ || kind
        == "goForward"@ || kind == "reload"@ {
        PoiCategory::Transition
    } else if kind == "marker"@ {
        PoiCategory::Note
    } else if kind == "click"@ || kind == "dblclick"@ || kind == "doubleClick"@ || kind
        == "press"@ || kind == "keyDown"@ || kind == "keyUp"@ || kind == "check"@ || kind
        == "uncheck"@ || kind == "selectOption"@ || kind == "type"@ || kind == "fill"@ || kind
        == "change"@ || kind == "clear"@ || kind == "insertText"@ {
        PoiCategory::Cue
    } else if kind == "hover"@ || kind == "scroll"@ || kind == "scrollIntoView"@ || kind
        == "zoom"@ {
        PoiCategory::Highlight
    } else {
        PoiCategory::Note
    }
}

/// Whether `kind` is one of `names`.
fn kind_in(kind: &str, names: &[&str]) -> (r: bool)
    ensures
        r == exists|i: int| 0 <= i < names@.len() && kind@ == (#[trigger] names@[i])@,
{
    let mut i: usize = 0;
    while i < names.len()
        invariant
            i <= names.len(),
            forall|j: int| 0 <= j < i ==> kind@ != (#[trigger] names@[j])@,
        decreases names.len() - i,
    {
        if str_eq(kind, names[i]) {
            return true;
        }
        i += 1;
    }
    false
}

/// Maps a step's type onto the point-of-interest vocabulary.
pub fn poi_category(step: &DemoStep) -> (r: PoiCategory)
    ensures
        r == category_of(step.kind@, step.success),
{
    if !step.success {
        return PoiCategory::Issue;
    }
    let k = step.kind.as_str();
    let transitions = ["goto", "navigate", "goBack", "goForward", "reload"];
    let cues = [
        "click",
        "dblclick",
        "doubleClick",
        "press",
        "keyDown",
        "keyUp",
        "check",
        "uncheck",
        "selectOption",
        "type",
        "fill",
        "change",
        "clear",
        "insertText",
    ];
    let highlights = ["hover", "scroll", "scrollIntoView", "zoom"];
    if kind_in(k, &transitions) {
        PoiCategory::Transition
    } else if str_eq(k, "marker") {
        PoiCategory::Note
    } else if kind_in(k, &cues) {
        PoiCategory::Cue
    } else if kind_in(k, &highlights) {
        PoiCategory::Highlight
    } else {
        PoiCategory::Note
    }
}

/// "click #submit", "goto https://…", or just the action's type.
pub open spec fn action_text(s: StepView) -> Seq<char> {
    let target = match s.selector {
        Some(t) => Some(t),
        None => s.url,
    };
    match target {
        Some(t) => s.kind + " "@ + t,
        None => s.kind,
    }
}

fn action_note(step: &DemoStep) -> (r: Option<String>)
    ensures
        r matches Some(n) && n@ == action_text(step@),
{
    let target = match &step.selector {
        Some(t) => Some(t),
        None => match &step.url {
            Some(u) => Some(u),
            None => None,
        },
    };
    match target {
        Some(t) => {
            let mut n = copy_string(&step.kind);
            push_str(&mut n, " ");
            push_str(&mut n, t.as_str());
            Some(n)
        },
        None => Some(copy_string(&step.kind)),
    }
}

// ---------------------------------------------------------------------------
// Narration
// ---------------------------------------------------------------------------

/// A titled step and the span its narration covers.
#[derive(Debug, Clone, PartialEq)]
pub struct Narration {
    pub step_index: u32,
    pub title: String,
    pub start_ms: u64,
    pub end_ms: u64,
}

pub struct NarrationView {
    pub step_index: u32,
    pub title: Seq<char>,
    pub start_ms: u64,
    pub end_ms: u64,
}

impl View for Narration {
    type V = NarrationView;

    open spec fn view(&self) -> NarrationView {
        NarrationView {
            step_index: self.step_index,
            title: self.title@,
            start_ms: self.start_ms,
            end_ms: self.end_ms,
        }
    }
}

/// The views of a list of narrations.
pub open spec fn narrations_view(v: Seq<Narration>) -> Seq<NarrationView> {
    v.map_values(|n: Narration| n@)
}

/// A step is narrated when its title holds more than white space.
pub open spec fn titled(s: StepView) -> bool {
    s.title matches Some(t) && trimmed(t).len() > 0
}

/// The narrated steps, in manifest order.
pub open spec fn titled_steps(steps: Seq<StepView>) -> Seq<StepView>
    decreases steps.len(),
{
    if steps.len() == 0 {
        Seq::empty()
    } else {
        let r = titled_steps(steps.drop_last());
        if titled(steps.last()) {
            r.push(steps.last())
        } else {
            r
        }
    }
}

/// Where the narration of the `i`-th titled step ends: at the start of the
/// next titled step (the end of the video after the last), and never before
/// its own start.
pub open spec fn narration_end(t: Seq<StepView>, i: int, duration_ms: u64) -> u64 {
    let next = if i + 1 < t.len() {
        t[i + 1].start_ms
    } else {
        duration_ms
    };
    if next >= t[i].start_ms {
        next
    } else {
        t[i].start_ms
    }
}

/// The narrations of the first `n` titled steps; a step whose narration
/// would be empty is left out.
pub open spec fn narrations_upto(t: Seq<StepView>, duration_ms: u64, n: int) -> Seq<
    NarrationView,
>
    decreases n,
{
    if n <= 0 {
        Seq::empty()
    } else {
        let r = narrations_upto(t, duration_ms, n - 1);
        let s = t[n - 1];
        let e = narration_end(t, n - 1, duration_ms);
        if e == s.start_ms {
            r
        } else {
            r.push(
                NarrationView {
                    step_index: s.index,
                    title: trimmed(s.title.unwrap()),
                    start_ms: s.start_ms,
                    end_ms: e,
                },
            )
        }
    }
}

/// The narration spans of a recording.
pub open spec fn narrations(steps: Seq<StepView>, duration_ms: u64) -> Seq<NarrationView> {
    let t = titled_steps(steps);
    narrations_upto(t, duration_ms, t.len() as int)
}

proof fn lemma_titled_steps(steps: Seq<StepView>)
    ensures
        forall|k: int| 0 <= k < titled_steps(steps).len() ==> titled(#[trigger] titled_steps(steps)[k]),
    decreases steps.len(),
{
    if steps.len() > 0 {
        lemma_titled_steps(steps.drop_last());
        let r = titled_steps(steps.drop_last());
        assert forall|k: int| 0 <= k < titled_steps(steps).len() implies titled(
            #[trigger] titled_steps(steps)[k],
        ) by {
            if k < r.len() {
                assert(titled_steps(steps)[k] == r[k]);
            }
        }
    }
}

fn is_titled(step: &DemoStep) -> (r: bool)
    ensures
        r == titled(step@),
{
    match &step.title {
        Some(t) => trim_str(t.as_str()).unicode_len() > 0,
        None => false,
    }
}

/// The positions of the titled steps.
fn titled_positions(steps: &Vec<DemoStep>) -> (r: Vec<usize>)
    ensures
        r.len() == titled_steps(steps_of(steps@)).len(),
        forall|k: int|
            #![trigger r@[k]]
            0 <= k < r.len() ==> r@[k] < steps.len() && steps@[r@[k] as int]@
                == titled_steps(steps_of(steps@))[k],
{
    let ghost sv = steps_of(steps@);
    let mut r: Vec<usize> = Vec::new();
    let mut i: usize = 0;
    while i < steps.len()
        invariant
            i <= steps.len(),
            sv == steps_of(steps@),
            r.len() == titled_steps(sv.take(i as int)).len(),
            forall|k: int|
                #![trigger r@[k]]
                0 <= k < r.len() ==> r@[k] < i && steps@[r@[k] as int]@
                    == titled_steps(sv.take(i as int))[k],
        decreases steps.len() - i,
    {
        assert(sv.take(i + 1).drop_last() =~= sv.take(i as int));
        assert(sv.take(i + 1).last() == steps@[i as int]@);
        let ghost before = r@;
        if is_titled(&steps[i]) {
            r.push(i);
            assert(r@[r.len() - 1] == i);
        }
        assert forall|k: int|
            #![trigger r@[k]]
            0 <= k < r.len() implies r@[k] < i + 1 && steps@[r@[k] as int]@ == titled_steps(
            sv.take(i + 1))[k] by {
            if k < before.len() {
                assert(r@[k] == before[k]);
            }
        }
        i += 1;
    }
    assert(sv.take(steps.len() as int) =~= sv);
    r
}

/// The narration spans of a recording: a titled step's narration runs from
/// its start to the start of the next titled step (or the end of the video),
/// so untitled actions in between are absorbed and a zero-length step still
/// gets a real span.
pub fn narration_spans(manifest: &DemoManifest) -> (r: Vec<Narration>)
    ensures
        narrations_view(r@) == narrations(steps_of(manifest.steps@), manifest.duration_ms),
{
    let pos = titled_positions(&manifest.steps);
    let ghost t = titled_steps(steps_of(manifest.steps@));
    proof {
        lemma_titled_steps(steps_of(manifest.steps@));
    }
    let mut out: Vec<Narration> = Vec::new();
    let mut k: usize = 0;
    while k < pos.len()
        invariant
            k <= pos.len(),
            t == titled_steps(steps_of(manifest.steps@)),
            pos.len() == t.len(),
            forall|j: int|
                #![trigger pos@[j]]
                0 <= j < pos.len() ==> pos@[j] < manifest.steps.len() && manifest.steps@[pos@[j] as int]@
                    == t[j],
            narrations_view(out@) == narrations_upto(t, manifest.duration_ms, k as int),
            forall|j: int| 0 <= j < t.len() ==> titled(#[trigger] t[j]),
        decreases pos.len() - k,
    {
        assert(pos@[k as int] < manifest.steps.len());
        let step = &manifest.steps[pos[k]];
        assert(step@ == t[k as int]);
        let next = if k + 1 < pos.len() {
            assert(pos@[k + 1] < manifest.steps.len());
            assert(manifest.steps@[pos@[k + 1] as int]@ == t[k + 1]);
            manifest.steps[pos[k + 1]].start_ms
        } else {
            manifest.duration_ms
        };
        let end_ms = if next >= step.start_ms {
            next
        } else {
            step.start_ms
        };
        assert(end_ms == narration_end(t, k as int, manifest.duration_ms));
        assert(titled(t[k as int]));
        if end_ms != step.start_ms {
            let title = match &step.title {
                Some(x) => trim_str(x.as_str()),
                None => String::new(),
            };
            let ghost before = narrations_view(out@);
            out.push(
                Narration { step_index: step.index, title, start_ms: step.start_ms, end_ms },
            );
            assert(narrations_view(out@) =~= before.push(out@.last()@));
        }
        k += 1;
    }
    out
}

// ---------------------------------------------------------------------------
// Transcript
// ---------------------------------------------------------------------------

/// Bit pattern of the `f32` value 1.0, the confidence of a narrated word.
pub const FULL_CONFIDENCE_BITS: u32 = 0x3F80_0000;

/// Where the `i`-th of `count` words of a narration starts: the words share
/// the span evenly.
pub open spec fn word_start(n: NarrationView, i: int, count: int) -> int {
    n.start_ms + (n.end_ms - n.start_ms) * i / count
}

/// Where the `i`-th of `count` words of a narration ends: where the next one
/// starts, and the last at the end of the span.
pub open spec fn word_end(n: NarrationView, i: int, count: int) -> int {
    if i + 1 == count {
        n.end_ms as int
    } else {
        word_start(n, i + 1, count)
    }
}

/// The words of a narration, numbered from `base`.
pub open spec fn narration_words(n: NarrationView, base: int) -> Seq<WordView> {
    let toks = words_of(n.title);
    Seq::new(
        toks.len(),
        |i: int|
            WordView {
                index: (base + i) as u32,
                text: toks[i],
                start_ms: word_start(n, i, toks.len() as int) as u64,
                end_ms: word_end(n, i, toks.len() as int) as u64,
            },
    )
}

/// How many words the first `k` narrations hold.
pub open spec fn words_before(ns: Seq<NarrationView>, k: int) -> int
    decreases k,
{
    if k <= 0 {
        0
    } else {
        words_before(ns, k - 1) + words_of(ns[k - 1].title).len()
    }
}

/// The transcript segment of the `k`-th narration.
pub open spec fn narration_segment(ns: Seq<NarrationView>, k: int) -> SegmentView {
    SegmentView {
        index: k as u32,
        start_ms: ns[k].start_ms,
        end_ms: ns[k].end_ms,
        text: ns[k].title,
        words: narration_words(ns[k], words_before(ns, k)),
    }
}

/// One transcript segment per narration.
pub open spec fn narration_segments(ns: Seq<NarrationView>) -> Seq<SegmentView> {
    Seq::new(ns.len(), |k: int| narration_segment(ns, k))
}

proof fn lemma_words_before_grows(ns: Seq<NarrationView>, k: int, m: int)
    requires
        0 <= k <= m,
    ensures
        words_before(ns, k) <= words_before(ns, m),
    decreases m - k,
{
    if k < m {
        lemma_words_before_grows(ns, k, m - 1);
    }
}

proof fn lemma_narrations_upto_spans(t: Seq<StepView>, duration_ms: u64, n: int)
    ensures
        forall|k: int|
            0 <= k < narrations_upto(t, duration_ms, n).len() ==> (#[trigger] narrations_upto(
                t,
                duration_ms,
                n,
            )[k]).start_ms < narrations_upto(t, duration_ms, n)[k].end_ms,
    decreases n,
{
    if n > 0 {
        lemma_narrations_upto_spans(t, duration_ms, n - 1);
        let r = narrations_upto(t, duration_ms, n - 1);
        assert forall|k: int| 0 <= k < narrations_upto(t, duration_ms, n).len() implies (
        #[trigger] narrations_upto(t, duration_ms, n)[k]).start_ms < narrations_upto(
            t,
            duration_ms,
            n,
        )[k].end_ms by {
            if k < r.len() {
                assert(narrations_upto(t, duration_ms, n)[k] == r[k]);
            }
        }
    }
}

proof fn lemma_share(span: int, i: int, count: int)
    requires
        0 <= span,
        0 <= i <= count,
        count > 0,
    ensures
        0 <= span * i / count <= span,
        span * i <= span * count,
{
    assert(span * i <= span * count) by (nonlinear_arith)
        requires
            0 <= span,
            i <= count,
    ;
    assert(span * count / count == span) by (nonlinear_arith)
        requires
            count > 0,
    ;
    assert(0 <= span * i / count <= span * count / count) by (nonlinear_arith)
        requires
            0 <= span * i <= span * count,
            count > 0,
    ;
}

/// The words of a narration share its span: the first starts where the
/// narration starts, each ends where the next starts, none ends before it
/// starts, and the last ends where the narration ends.
pub proof fn law_narration_words_tile(n: NarrationView, base: int)
    requires
        n.start_ms < n.end_ms,
        words_of(n.title).len() > 0,
    ensures
        ({
            let ws = narration_words(n, base);
            &&& ws[0].start_ms == n.start_ms
            &&& ws.last().end_ms == n.end_ms
            &&& forall|i: int| 0 <= i < ws.len() - 1 ==> #[trigger] ws[i].end_ms == ws[i + 1].start_ms
            &&& forall|i: int| 0 <= i < ws.len() ==> #[trigger] ws[i].start_ms <= ws[i].end_ms
        }),
{
    let ws = narration_words(n, base);
    let count = words_of(n.title).len() as int;
    let span = n.end_ms - n.start_ms;
    assert(span * 0 / count == 0) by (nonlinear_arith)
        requires
            count > 0,
    ;
    assert forall|i: int| 0 <= i < ws.len() implies #[trigger] ws[i].start_ms <= ws[i].end_ms by {
        lemma_share(span, i, count);
        lemma_share(span, i + 1, count);
        assert(span * i / count <= span * (i + 1) / count) by (nonlinear_arith)
            requires
                0 <= span,
                0 <= i,
                count > 0,
        ;
    }
    assert forall|i: int| 0 <= i < ws.len() - 1 implies #[trigger] ws[i].end_ms == ws[i
        + 1].start_ms by {
        lemma_share(span, i + 1, count);
    }
}

/// The words of one narration, numbered from `base`.
fn narration_word_list(n: &Narration, base: u32) -> (r: Vec<Word>)
    requires
        n.start_ms < n.end_ms,
        base + words_of(n.title@).len() <= u32::MAX,
    ensures
        r@.map_values(|w: Word| w@) == narration_words(n@, base as int),
        forall|i: int| 0 <= i < r.len() ==> (#[trigger] r@[i]).confidence_bits == FULL_CONFIDENCE_BITS,
{
    let tokens = split_white_space(n.title.as_str());
    let ghost toks = words_of(n.title@);
    let span: u64 = n.end_ms - n.start_ms;
    let count: usize = tokens.len();
    let mut words: Vec<Word> = Vec::new();
    let mut i: usize = 0;
    while i < count
        invariant
            i <= count,
            count == tokens.len(),
            strs_view(tokens@) == toks,
            toks == words_of(n.title@),
            span == n.end_ms - n.start_ms,
            n.start_ms < n.end_ms,
            base + toks.len() <= u32::MAX,
            words@.map_values(|w: Word| w@) == narration_words(n@, base as int).take(i as int),
            forall|j: int| 0 <= j < words.len() ==> (#[trigger] words@[j]).confidence_bits == FULL_CONFIDENCE_BITS,
        decreases count - i,
    {
        proof {
            lemma_share(span as int, i as int, count as int);
            lemma_share(span as int, i + 1, count as int);
            assert((span as u128) * (i as u128) <= (span as int) * (count as int));
            assert((span as int) * (count as int) <= u64::MAX as int * usize::MAX as int) by (nonlinear_arith)
                requires
                    span <= u64::MAX,
                    count <= usize::MAX,
            ;
            assert(u64::MAX as int * usize::MAX as int <= u128::MAX) by (nonlinear_arith);
        }
        let q: u128 = (span as u128) * (i as u128) / (count as u128);
        let start_ms: u64 = n.start_ms + q as u64;
        let end_ms: u64 = if i + 1 == count {
            n.end_ms
        } else {
            let q2: u128 = (span as u128) * ((i + 1) as u128) / (count as u128);
            n.start_ms + q2 as u64
        };
        assert(tokens@[i as int]@ == toks[i as int]);
        let w = Word {
            index: base + i as u32,
            text: copy_string(&tokens[i]),
            start_ms,
            end_ms,
            confidence_bits: FULL_CONFIDENCE_BITS,
        };
        let ghost before = words@.map_values(|w: Word| w@);
        words.push(w);
        assert(words@.map_values(|w: Word| w@) =~= narration_words(n@, base as int).take(i + 1)) by {
            assert(words@.map_values(|w: Word| w@) =~= before.push(w@));
        }
        i += 1;
    }
    assert(narration_words(n@, base as int).take(count as int) =~= narration_words(n@, base as int));
    words
}

/// A transcript built from the narration: one segment per narration span,
/// its words spread evenly across the span and numbered across the whole
/// transcript.
pub fn build_transcript(manifest: &DemoManifest, source_id: &str) -> (r: Transcript)
    requires
        narrations(steps_of(manifest.steps@), manifest.duration_ms).len() <= u32::MAX,
        words_before(
            narrations(steps_of(manifest.steps@), manifest.duration_ms),
            narrations(steps_of(manifest.steps@), manifest.duration_ms).len() as int,
        ) <= u32::MAX,
    ensures
        ({
            let ns = narrations(steps_of(manifest.steps@), manifest.duration_ms);
            &&& r@.source_id == source_id@
            &&& r.model@ == "ar-crawl-demo"@
            &&& r.language@ == "en"@
            &&& r.duration_ms == manifest.duration_ms
            &&& r.word_count == words_before(ns, ns.len() as int)
            &&& r@.segments == narration_segments(ns)
        }),
        forall|k: int, i: int|
            0 <= k < r.segments.len() && 0 <= i < r.segments@[k].words.len() ==> (
            #[trigger] r.segments@[k].words@[i]).confidence_bits == FULL_CONFIDENCE_BITS,
{
    let spans = narration_spans(manifest);
    let ghost ns = narrations_view(spans@);
    proof {
        let t = titled_steps(steps_of(manifest.steps@));
        lemma_narrations_upto_spans(t, manifest.duration_ms, t.len() as int);
    }
    let mut segments: Vec<TranscriptSegment> = Vec::new();
    let mut word_index: u32 = 0;
    let mut k: usize = 0;
    while k < spans.len()
        invariant
            k <= spans.len(),
            ns == narrations_view(spans@),
            ns.len() <= u32::MAX,
            forall|j: int| 0 <= j < ns.len() ==> (#[trigger] ns[j]).start_ms < ns[j].end_ms,
            word_index == words_before(ns, k as int),
            words_before(ns, ns.len() as int) <= u32::MAX,
            segments@.map_values(|s: TranscriptSegment| s@) == narration_segments(ns).take(k as int),
            forall|j: int, i: int|
                0 <= j < segments.len() && 0 <= i < segments@[j].words.len() ==> (
                #[trigger] segments@[j].words@[i]).confidence_bits == FULL_CONFIDENCE_BITS,
        decreases spans.len() - k,
    {
        let n = &spans[k];
        assert(n@ == ns[k as int]);
        proof {
            lemma_words_before_grows(ns, k + 1, ns.len() as int);
        }
        let words = narration_word_list(n, word_index);
        let nw = words.len();
        assert(nw == narration_words(ns[k as int], word_index as int).len());
        let seg = TranscriptSegment {
            index: k as u32,
            start_ms: n.start_ms,
            end_ms: n.end_ms,
            text: copy_string(&n.title),
            words,
        };
        assert(seg@ == narration_segment(ns, k as int));
        let ghost before = segments@;
        let ghost before_v = segments@.map_values(|s: TranscriptSegment| s@);
        let ghost seg_v = seg@;
        segments.push(seg);
        assert(segments@.map_values(|s: TranscriptSegment| s@) =~= before_v.push(seg_v));
        assert(narration_segments(ns).take(k + 1) =~= narration_segments(ns).take(k as int).push(
            narration_segment(ns, k as int),
        ));
        assert forall|j: int, i: int|
            0 <= j < segments.len() && 0 <= i < segments@[j].words.len() implies (
            #[trigger] segments@[j].words@[i]).confidence_bits == FULL_CONFIDENCE_BITS by {
            if j < before.len() {
                assert(segments@[j] == before[j]);
            }
        }
        word_index = word_index + nw as u32;
        k += 1;
    }
    assert(narration_segments(ns).take(spans.len() as int) =~= narration_segments(ns));
    let r = Transcript {
        source_id: owned(source_id),
        model: owned("ar-crawl-demo"),
        language: owned("en"),
        duration_ms: manifest.duration_ms,
        segments,
        word_count: word_index,
    };
    assert(r@.segments =~= narration_segments(ns));
    r
}

// ---------------------------------------------------------------------------
// Scenes
// ---------------------------------------------------------------------------

/// The visual steps, in manifest order.
pub open spec fn visual_steps(steps: Seq<StepView>) -> Seq<StepView>
    decreases steps.len(),
{
    if steps.len() == 0 {
        Seq::empty()
    } else {
        let r = visual_steps(steps.drop_last());
        if visual(steps.last()) {
            r.push(steps.last())
        } else {
            r
        }
    }
}

/// `x` placed into `s` after every element that starts no later than it.
pub open spec fn insert_by_start(s: Seq<StepView>, x: StepView) -> Seq<StepView>
    decreases s.len(),
{
    if s.len() == 0 {
        seq![x]
    } else if s.last().start_ms <= x.start_ms {
        s.push(x)
    } else {
        insert_by_start(s.drop_last(), x).push(s.last())
    }
}

/// `s` ordered by start, steps that start together kept in their order: a
/// stable sort by start.
pub open spec fn sorted_by_start(s: Seq<StepView>) -> Seq<StepView>
    decreases s.len(),
{
    if s.len() == 0 {
        Seq::empty()
    } else {
        insert_by_start(sorted_by_start(s.drop_last()), s.last())
    }
}

/// Inserting `x` at `j`, past the elements that start no later than it and
/// before those that start later, is `insert_by_start`.
proof fn lemma_insert_at(s: Seq<StepView>, x: StepView, j: int)
    requires
        0 <= j <= s.len(),
        forall|m: int| j <= m < s.len() ==> (#[trigger] s[m]).start_ms > x.start_ms,
        j > 0 ==> s[j - 1].start_ms <= x.start_ms,
    ensures
        insert_by_start(s, x) == s.take(j) + seq![x] + s.skip(j),
    decreases s.len(),
{
    if s.len() == 0 {
        assert(s.take(j) + seq![x] + s.skip(j) =~= seq![x]);
    } else if s.last().start_ms <= x.start_ms {
        assert(j == s.len());
        assert(s.take(j) + seq![x] + s.skip(j) =~= s.push(x));
    } else {
        let d = s.drop_last();
        assert(j < s.len());
        assert forall|m: int| j <= m < d.len() implies (#[trigger] d[m]).start_ms > x.start_ms by {
            assert(d[m] == s[m]);
        }
        if j > 0 {
            assert(d[j - 1] == s[j - 1]);
        }
        lemma_insert_at(d, x, j);
        assert((d.take(j) + seq![x] + d.skip(j)).push(s.last()) =~= s.take(j) + seq![x] + s.skip(
            j,
        ));
    }
}

/// The positions of the visual steps, ordered stably by start.
fn sorted_visual_positions(steps: &Vec<DemoStep>) -> (r: Vec<usize>)
    ensures
        r.len() == sorted_by_start(visual_steps(steps_of(steps@))).len(),
        forall|k: int|
            #![trigger r@[k]]
            0 <= k < r.len() ==> r@[k] < steps.len() && steps@[r@[k] as int]@ == sorted_by_start(
                visual_steps(steps_of(steps@)),
            )[k],
{
    let ghost sv = steps_of(steps@);
    let mut order: Vec<usize> = Vec::new();
    let mut i: usize = 0;
    while i < steps.len()
        invariant
            i <= steps.len(),
            sv == steps_of(steps@),
            order.len() == sorted_by_start(visual_steps(sv.take(i as int))).len(),
            forall|k: int|
                #![trigger order@[k]]
                0 <= k < order.len() ==> order@[k] < i && steps@[order@[k] as int]@
                    == sorted_by_start(visual_steps(sv.take(i as int)))[k],
        decreases steps.len() - i,
    {
        let ghost srt = sorted_by_start(visual_steps(sv.take(i as int)));
        assert(sv.take(i + 1).drop_last() =~= sv.take(i as int));
        assert(sv.take(i + 1).last() == steps@[i as int]@);
        let ghost vis = visual_steps(sv.take(i as int));
        let ghost x = steps@[i as int]@;
        proof {
            if visual(x) {
                assert(visual_steps(sv.take(i + 1)) == vis.push(x));
                assert(vis.push(x).drop_last() =~= vis);
                assert(sorted_by_start(vis.push(x)) == insert_by_start(srt, x));
            } else {
                assert(visual_steps(sv.take(i + 1)) == vis);
            }
        }
        if is_visual(&steps[i]) {
            let key = steps[i].start_ms;
            let mut j: usize = order.len();
            while j > 0 && steps[order[j - 1]].start_ms > key
                invariant
                    j <= order.len(),
                    i < steps.len(),
                    order.len() == srt.len(),
                    key == steps@[i as int].start_ms,
                    forall|k: int|
                        #![trigger order@[k]]
                        0 <= k < order.len() ==> order@[k] < i && steps@[order@[k] as int]@
                            == srt[k],
                    forall|m: int| j <= m < srt.len() ==> (#[trigger] srt[m]).start_ms > key,
                decreases j,
            {
                assert(steps@[order@[j - 1] as int]@ == srt[j - 1]);
                j -= 1;
            }
            proof {
                if j > 0 {
                    assert(steps@[order@[j - 1] as int]@ == srt[j - 1]);
                }
                lemma_insert_at(srt, steps@[i as int]@, j as int);
            }
            let ghost old_order = order@;
            order.insert(j, i);
            assert(sorted_by_start(visual_steps(sv.take(i + 1))) == srt.take(j as int) + seq![x]
                + srt.skip(j as int));
            assert forall|k: int|
                #![trigger order@[k]]
                0 <= k < order.len() implies order@[k] < i + 1 && steps@[order@[k] as int]@
                    == sorted_by_start(visual_steps(sv.take(i + 1)))[k] by {
                let ns = srt.take(j as int) + seq![steps@[i as int]@] + srt.skip(j as int);
                if k < j {
                    assert(order@[k] == old_order[k]);
                    assert(ns[k] == srt[k]);
                } else if k == j {
                    assert(order@[k] == i);
                } else {
                    assert(order@[k] == old_order[k - 1]);
                    assert(ns[k] == srt[k - 1]);
                }
            }
        } else {
            assert forall|k: int|
                #![trigger order@[k]]
                0 <= k < order.len() implies order@[k] < i + 1 && steps@[order@[k] as int]@
                    == sorted_by_start(visual_steps(sv.take(i + 1)))[k] by {}
        }
        i += 1;
    }
    assert(sv.take(steps.len() as int) =~= sv);
    order
}

/// The scenes the first `n` of the ordered visual steps `v` open: each runs
/// to the next one's start (to the end of the video after the last), and an
/// empty one is left out.
pub open spec fn step_scenes_upto(v: Seq<StepView>, duration_ms: u64, n: int) -> Seq<
    BoundaryView,
>
    decreases n,
{
    if n <= 0 {
        Seq::empty()
    } else {
        let r = step_scenes_upto(v, duration_ms, n - 1);
        let e = if n < v.len() {
            v[n].start_ms
        } else {
            duration_ms
        };
        if e <= v[n - 1].start_ms {
            r
        } else {
            r.push(
                BoundaryView { start_ms: v[n - 1].start_ms, end_ms: e, description: v[n - 1].title },
            )
        }
    }
}

/// The scenes of a recording: what is shown changes at each visual step, so
/// the scenes split the timeline at their starts; a gap before the first
/// visual step is a scene of its own, and a recording without visual steps
/// is one scene.
pub open spec fn demo_scenes(steps: Seq<StepView>, duration_ms: u64) -> Seq<BoundaryView> {
    let v = sorted_by_start(visual_steps(steps));
    let lead = if v.len() > 0 && v[0].start_ms > 0 {
        seq![BoundaryView { start_ms: 0, end_ms: v[0].start_ms, description: None }]
    } else {
        Seq::empty()
    };
    let body = lead + step_scenes_upto(v, duration_ms, v.len() as int);
    if body.len() == 0 && duration_ms > 0 {
        seq![BoundaryView { start_ms: 0, end_ms: duration_ms, description: None }]
    } else {
        body
    }
}

/// The views of a list of scene boundaries.
pub open spec fn boundaries_view(v: Seq<SceneBoundary>) -> Seq<BoundaryView> {
    v.map_values(|b: SceneBoundary| b@)
}

fn copy_opt_string(o: &Option<String>) -> (r: Option<String>)
    ensures
        opt_view(r) == opt_view(*o),
{
    match o {
        Some(s) => Some(copy_string(s)),
        None => None,
    }
}

/// The scene boundaries of a recording.
pub fn scene_boundaries(manifest: &DemoManifest) -> (r: Vec<SceneBoundary>)
    ensures
        boundaries_view(r@) == demo_scenes(steps_of(manifest.steps@), manifest.duration_ms),
{
    let pos = sorted_visual_positions(&manifest.steps);
    let ghost v = sorted_by_start(visual_steps(steps_of(manifest.steps@)));
    let mut scenes: Vec<SceneBoundary> = Vec::new();
    if pos.len() > 0 {
        assert(manifest.steps@[pos@[0] as int]@ == v[0]);
        let first = manifest.steps[pos[0]].start_ms;
        if first > 0 {
            scenes.push(SceneBoundary { start_ms: 0, end_ms: first, description: None });
        }
    }
    let ghost lead = boundaries_view(scenes@);
    assert(lead =~= (if v.len() > 0 && v[0].start_ms > 0 {
        seq![BoundaryView { start_ms: 0, end_ms: v[0].start_ms, description: None }]
    } else {
        Seq::empty()
    }));
    let mut k: usize = 0;
    while k < pos.len()
        invariant
            k <= pos.len(),
            pos.len() == v.len(),
            v == sorted_by_start(visual_steps(steps_of(manifest.steps@))),
            forall|j: int|
                #![trigger pos@[j]]
                0 <= j < pos.len() ==> pos@[j] < manifest.steps.len() && manifest.steps@[pos@[j] as int]@
                    == v[j],
            boundaries_view(scenes@) == lead + step_scenes_upto(v, manifest.duration_ms, k as int),
        decreases pos.len() - k,
    {
        assert(pos@[k as int] < manifest.steps.len());
        let step = &manifest.steps[pos[k]];
        assert(step@ == v[k as int]);
        let end_ms = if k + 1 < pos.len() {
            assert(pos@[k + 1] < manifest.steps.len());
            assert(manifest.steps@[pos@[k + 1] as int]@ == v[k + 1]);
            manifest.steps[pos[k + 1]].start_ms
        } else {
            manifest.duration_ms
        };
        if end_ms > step.start_ms {
            let b = SceneBoundary {
                start_ms: step.start_ms,
                end_ms,
                description: copy_opt_string(&step.title),
            };
            let ghost before = boundaries_view(scenes@);
            scenes.push(b);
            assert(boundaries_view(scenes@) =~= before.push(b@));
            assert(lead + step_scenes_upto(v, manifest.duration_ms, k + 1) =~= (lead
                + step_scenes_upto(v, manifest.duration_ms, k as int)).push(b@));
        }
        k += 1;
    }
    if scenes.len() == 0 && manifest.duration_ms > 0 {
        scenes.push(SceneBoundary { start_ms: 0, end_ms: manifest.duration_ms, description: None });
        assert(boundaries_view(scenes@) =~= seq![
            BoundaryView { start_ms: 0, end_ms: manifest.duration_ms, description: None },
        ]);
    }
    scenes
}

/// Steps ordered by start.
pub open spec fn ordered_by_start(s: Seq<StepView>) -> bool {
    forall|i: int, j: int| 0 <= i <= j < s.len() ==> s[i].start_ms <= s[j].start_ms
}

proof fn lemma_insert_ordered(s: Seq<StepView>, x: StepView)
    requires
        ordered_by_start(s),
    ensures
        ordered_by_start(insert_by_start(s, x)),
        insert_by_start(s, x).len() == s.len() + 1,
        insert_by_start(s, x).last().start_ms == if s.len() > 0 && s.last().start_ms > x.start_ms {
            s.last().start_ms
        } else {
            x.start_ms
        },
    decreases s.len(),
{
    if s.len() > 0 && s.last().start_ms > x.start_ms {
        let d = s.drop_last();
        lemma_insert_ordered(d, x);
        let r = insert_by_start(d, x);
        assert forall|i: int, j: int|
            0 <= i <= j < r.push(s.last()).len() implies r.push(s.last())[i].start_ms <= r.push(
            s.last(),
        )[j].start_ms by {
            if j == r.len() && i < r.len() {
                if d.len() > 0 && d.last().start_ms > x.start_ms {
                    assert(r.last().start_ms == d.last().start_ms);
                }
                assert(r[i].start_ms <= r.last().start_ms);
            }
        }
    }
}

proof fn lemma_sorted_by_start(s: Seq<StepView>)
    ensures
        ordered_by_start(sorted_by_start(s)),
        sorted_by_start(s).len() == s.len(),
    decreases s.len(),
{
    if s.len() > 0 {
        lemma_sorted_by_start(s.drop_last());
        lemma_insert_ordered(sorted_by_start(s.drop_last()), s.last());
    }
}

/// The start and end of each scene boundary.
pub open spec fn boundary_spans(b: Seq<BoundaryView>) -> Seq<(u64, u64)> {
    b.map_values(|x: BoundaryView| (x.start_ms, x.end_ms))
}

/// Where the scenes of a recording end: at the end of the video, or at the
/// start of the last visual step when that comes later.
pub open spec fn scenes_end(steps: Seq<StepView>, duration_ms: u64) -> u64 {
    let v = sorted_by_start(visual_steps(steps));
    if v.len() > 0 && v.last().start_ms > duration_ms {
        v.last().start_ms
    } else {
        duration_ms
    }
}

/// How far the scenes of the first `n` ordered visual steps reach.
spec fn scene_frontier(v: Seq<StepView>, duration_ms: u64, n: int) -> u64 {
    if n < v.len() {
        v[n].start_ms
    } else if v.last().start_ms > duration_ms {
        v.last().start_ms
    } else {
        duration_ms
    }
}

proof fn lemma_step_scenes_tile(v: Seq<StepView>, duration_ms: u64, n: int)
    requires
        ordered_by_start(v),
        v.len() > 0,
        0 <= n <= v.len(),
    ensures
        ({
            let lead = if v[0].start_ms > 0 {
                seq![BoundaryView { start_ms: 0, end_ms: v[0].start_ms, description: None }]
            } else {
                Seq::empty()
            };
            let body = lead + step_scenes_upto(v, duration_ms, n);
            &&& body.len() == 0 <==> scene_frontier(v, duration_ms, n) == 0
            &&& body.len() > 0 ==> tiles(
                boundary_spans(body),
                0,
                scene_frontier(v, duration_ms, n) as int,
            )
        }),
    decreases n,
{
    let lead = if v[0].start_ms > 0 {
        seq![BoundaryView { start_ms: 0, end_ms: v[0].start_ms, description: None }]
    } else {
        Seq::empty()
    };
    if n > 0 {
        lemma_step_scenes_tile(v, duration_ms, n - 1);
        let prev = lead + step_scenes_upto(v, duration_ms, n - 1);
        let e = if n < v.len() {
            v[n].start_ms
        } else {
            duration_ms
        };
        assert(scene_frontier(v, duration_ms, n - 1) == v[n - 1].start_ms);
        if e > v[n - 1].start_ms {
            let b = BoundaryView { start_ms: v[n - 1].start_ms, end_ms: e, description: v[n - 1].title };
            assert(lead + step_scenes_upto(v, duration_ms, n) =~= prev.push(b));
            assert(boundary_spans(prev.push(b)) =~= boundary_spans(prev).push((b.start_ms, b.end_ms)));
        } else {
            assert(lead + step_scenes_upto(v, duration_ms, n) =~= prev);
            if n < v.len() {
                assert(v[n - 1].start_ms <= v[n].start_ms);
            }
        }
    } else {
        assert(lead + step_scenes_upto(v, duration_ms, 0) =~= lead);
    }
}

/// The scenes of a recording split its timeline: they run back to back from
/// 0, each of positive length, to the end of the video or to the start of the
/// last visual step when that comes later; there are none only when that end
/// is 0.
pub proof fn law_demo_scenes_tile(steps: Seq<StepView>, duration_ms: u64)
    ensures
        demo_scenes(steps, duration_ms).len() == 0 <==> scenes_end(steps, duration_ms) == 0,
        demo_scenes(steps, duration_ms).len() > 0 ==> tiles(
            boundary_spans(demo_scenes(steps, duration_ms)),
            0,
            scenes_end(steps, duration_ms) as int,
        ),
{
    let v = sorted_by_start(visual_steps(steps));
    lemma_sorted_by_start(visual_steps(steps));
    if v.len() > 0 {
        lemma_step_scenes_tile(v, duration_ms, v.len() as int);
    } else {
        let one = seq![BoundaryView { start_ms: 0, end_ms: duration_ms, description: None }];
        assert(boundary_spans(one) =~= seq![(0u64, duration_ms)]);
    }
}

// ---------------------------------------------------------------------------
// Markers and points of interest
// ---------------------------------------------------------------------------

/// A marker to create: a narration span, labelled with its title.
#[derive(Debug, Clone, PartialEq)]
pub struct MarkerSpec {
    pub start_ms: u64,
    pub end_ms: u64,
    pub label: String,
    pub note: Option<String>,
}

pub struct MarkerSpecView {
    pub start_ms: u64,
    pub end_ms: u64,
    pub label: Seq<char>,
    pub note: Option<Seq<char>>,
}

impl View for MarkerSpec {
    type V = MarkerSpecView;

    open spec fn view(&self) -> MarkerSpecView {
        MarkerSpecView {
            start_ms: self.start_ms,
            end_ms: self.end_ms,
            label: self.label@,
            note: opt_view(self.note),
        }
    }
}

/// The first step, from position `i` on, that carries the index `idx`.
pub open spec fn step_with_index(steps: Seq<StepView>, idx: u32, i: int) -> Option<StepView>
    decreases steps.len() - i,
{
    if i < 0 || i >= steps.len() {
        None
    } else if steps[i].index == idx {
        Some(steps[i])
    } else {
        step_with_index(steps, idx, i + 1)
    }
}

/// The marker of a narration: its span and title, and a note of the action
/// behind it.
pub open spec fn narration_marker(steps: Seq<StepView>, n: NarrationView) -> MarkerSpecView {
    MarkerSpecView {
        start_ms: n.start_ms,
        end_ms: n.end_ms,
        label: n.title,
        note: match step_with_index(steps, n.step_index, 0) {
            Some(s) => Some(action_text(s)),
            None => None,
        },
    }
}

/// The views of a list of marker specs.
pub open spec fn marker_specs_view(v: Seq<MarkerSpec>) -> Seq<MarkerSpecView> {
    v.map_values(|m: MarkerSpec| m@)
}

fn find_step(steps: &Vec<DemoStep>, idx: u32) -> (r: Option<usize>)
    ensures
        match step_with_index(steps_of(steps@), idx, 0) {
            Some(s) => r matches Some(i) && i < steps.len() && steps@[i as int]@ == s,
            None => r is None,
        },
{
    let ghost sv = steps_of(steps@);
    let mut i: usize = 0;
    while i < steps.len()
        invariant
            i <= steps.len(),
            sv == steps_of(steps@),
            step_with_index(sv, idx, 0) == step_with_index(sv, idx, i as int),
        decreases steps.len() - i,
    {
        assert(sv[i as int] == steps@[i as int]@);
        if steps[i].index == idx {
            return Some(i);
        }
        i += 1;
    }
    None
}

/// One marker per narration span, so a recorded demo is navigated chapter by
/// chapter; the note records the action behind it.
pub fn marker_specs(manifest: &DemoManifest) -> (r: Vec<MarkerSpec>)
    ensures
        marker_specs_view(r@) == Seq::new(
            narrations(steps_of(manifest.steps@), manifest.duration_ms).len(),
            |k: int|
                narration_marker(
                    steps_of(manifest.steps@),
                    narrations(steps_of(manifest.steps@), manifest.duration_ms)[k],
                ),
        ),
{
    let spans = narration_spans(manifest);
    let ghost ns = narrations_view(spans@);
    let ghost sv = steps_of(manifest.steps@);
    let mut out: Vec<MarkerSpec> = Vec::new();
    let mut k: usize = 0;
    while k < spans.len()
        invariant
            k <= spans.len(),
            ns == narrations_view(spans@),
            sv == steps_of(manifest.steps@),
            marker_specs_view(out@) == Seq::new(k as nat, |j: int| narration_marker(sv, ns[j])),
        decreases spans.len() - k,
    {
        let n = &spans[k];
        assert(n@ == ns[k as int]);
        let note = match find_step(&manifest.steps, n.step_index) {
            Some(i) => action_note(&manifest.steps[i]),
            None => None,
        };
        let m = MarkerSpec {
            start_ms: n.start_ms,
            end_ms: n.end_ms,
            label: copy_string(&n.title),
            note,
        };
        let ghost before = marker_specs_view(out@);
        out.push(m);
        assert(marker_specs_view(out@) =~= Seq::new((k + 1) as nat, |j: int| narration_marker(sv, ns[j]))) by {
            assert(marker_specs_view(out@) =~= before.push(m@));
        }
        k += 1;
    }
    out
}

/// A point of interest to create at a step's start.
#[derive(Debug, Clone, PartialEq)]
pub struct PoiSpec {
    pub at_ms: u64,
    pub category: PoiCategory,
    pub note: Option<String>,
}

pub struct PoiSpecView {
    pub at_ms: u64,
    pub category: PoiCategory,
    pub note: Option<Seq<char>>,
}

impl View for PoiSpec {
    type V = PoiSpecView;

    open spec fn view(&self) -> PoiSpecView {
        PoiSpecView { at_ms: self.at_ms, category: self.category, note: opt_view(self.note) }
    }
}

/// The steps that are not cursor-visibility toggles, in order.
pub open spec fn non_cursor_steps(steps: Seq<StepView>) -> Seq<StepView>
    decreases steps.len(),
{
    if steps.len() == 0 {
        Seq::empty()
    } else {
        let r = non_cursor_steps(steps.drop_last());
        if steps.last().kind != "cursor"@ {
            r.push(steps.last())
        } else {
            r
        }
    }
}

/// The point of interest of a step: at its start, its category, and its
/// title as note (the action behind it when the title is blank or absent).
pub open spec fn step_poi(s: StepView) -> PoiSpecView {
    PoiSpecView {
        at_ms: s.start_ms,
        category: category_of(s.kind, s.success),
        note: Some(
            if titled(s) {
                s.title.unwrap()
            } else {
                action_text(s)
            },
        ),
    }
}

/// The views of a list of point-of-interest specs.
pub open spec fn poi_specs_view(v: Seq<PoiSpec>) -> Seq<PoiSpecView> {
    v.map_values(|p: PoiSpec| p@)
}

/// One point of interest per step, skipping cursor visibility toggles.
pub fn poi_specs(manifest: &DemoManifest) -> (r: Vec<PoiSpec>)
    ensures
        poi_specs_view(r@) == non_cursor_steps(steps_of(manifest.steps@)).map_values(
            |s: StepView| step_poi(s),
        ),
{
    let ghost sv = steps_of(manifest.steps@);
    let mut out: Vec<PoiSpec> = Vec::new();
    let mut i: usize = 0;
    while i < manifest.steps.len()
        invariant
            i <= manifest.steps.len(),
            sv == steps_of(manifest.steps@),
            poi_specs_view(out@) == non_cursor_steps(sv.take(i as int)).map_values(
                |s: StepView| step_poi(s),
            ),
        decreases manifest.steps.len() - i,
    {
        let step = &manifest.steps[i];
        assert(sv.take(i + 1).drop_last() =~= sv.take(i as int));
        assert(sv.take(i + 1).last() == step@);
        if !str_eq(step.kind.as_str(), "cursor") {
            let note = if is_titled(step) {
                copy_opt_string(&step.title)
            } else {
                action_note(step)
            };
            let p = PoiSpec { at_ms: step.start_ms, category: poi_category(step), note };
            let ghost before = poi_specs_view(out@);
            out.push(p);
            assert(poi_specs_view(out@) =~= before.push(p@));
            assert(non_cursor_steps(sv.take(i + 1)) == non_cursor_steps(sv.take(i as int)).push(
                step@,
            ));
            assert(non_cursor_steps(sv.take(i + 1)).map_values(|s: StepView| step_poi(s))
                =~= non_cursor_steps(sv.take(i as int)).map_values(|s: StepView| step_poi(s)).push(
                step_poi(step@),
            ));
        }
        i += 1;
    }
    assert(sv.take(manifest.steps.len() as int) =~= sv);
    out
}

/// Where a project keeps the cursor log of a recorded demo.
pub open spec fn cursor_log_file(project_dir: Seq<char>, source_id: Seq<char>) -> Seq<char> {
    joined(joined(project_dir, "annotations"@), source_id + ".cursor.json"@)
}

/// The path of the preserved cursor log inside a project.
pub fn cursor_log_path(project_dir: &str, source_id: &str) -> (r: String)
    ensures
        r@ == cursor_log_file(project_dir@, source_id@),
{
    let dir = join_path(project_dir, "annotations");
    let mut name = owned(source_id);
    push_str(&mut name, ".cursor.json");
    join_path(dir.as_str(), name.as_str())
}

} // verus!
