//! SRT subtitles generated from the words under each shot of an edit.
use vstd::prelude::*;

use crate::display::{
    data_for, data_view, lookup_source, push_time_hhmmss, time_hhmmss, ResolvedShot, ResolvedView,
    SourceData, SourceDataView,
};
use crate::models::{SegmentView, ShotRange, Transcript, TranscriptSegment, TranscriptView, Word, WordView};
use crate::resolve::{all_words, lemma_flat_words_take, words_view};
use crate::models::flat_words;
use crate::text::{dec, join, join_strings, push_dec, push_str, strings_view, owned, copy_string, split_lines, rows_view, string_of};
use crate::transcript::last_line;
use crate::playback::args_view;

verus! {

broadcast use vstd::string::group_string_axioms;

// ---------------------------------------------------------------------------
// Cues and their text
// ---------------------------------------------------------------------------

/// A single subtitle cue.
#[derive(Debug, Clone, PartialEq)]
pub struct SubtitleCue {
    pub index: u32,
    pub start_ms: u64,
    pub end_ms: u64,
    pub text: String,
}

pub struct CueView {
    pub index: u32,
    pub start_ms: u64,
    pub end_ms: u64,
    pub text: Seq<char>,
}

impl View for SubtitleCue {
    type V = CueView;

    open spec fn view(&self) -> CueView {
        CueView { index: self.index, start_ms: self.start_ms, end_ms: self.end_ms, text: self.text@ }
    }
}

/// SRT timecode `HH:MM:SS,mmm`.
pub open spec fn srt_timecode(ms: u64) -> Seq<char> {
    time_hhmmss(ms, ","@)
}

/// Format milliseconds as SRT timecode: `HH:MM:SS,mmm`.
pub fn format_srt_timecode(ms: u64) -> (r: String)
    ensures
        r@ == srt_timecode(ms),
{
    let mut s = String::new();
    push_time_hhmmss(&mut s, ms, ",");
    s
}

/// One cue as SRT: number, timing line, text.
pub open spec fn cue_block(c: CueView) -> Seq<char> {
    dec(c.index as nat) + "\n"@ + srt_timecode(c.start_ms) + " --> "@ + srt_timecode(c.end_ms)
        + "\n"@ + c.text + "\n"@
}

/// The SRT blocks of a list of cues.
pub open spec fn cue_blocks(cues: Seq<CueView>) -> Seq<Seq<char>> {
    cues.map_values(|c: CueView| cue_block(c))
}

/// SRT text: the cue blocks separated by blank lines.
pub open spec fn srt_text(cues: Seq<CueView>) -> Seq<char> {
    join(cue_blocks(cues), "\n"@)
}

/// The view of a list of cues.
pub open spec fn cues_view(v: Seq<SubtitleCue>) -> Seq<CueView> {
    v.map_values(|c: SubtitleCue| c@)
}

/// Format subtitle cues as SRT text.
pub fn format_srt(cues: &[SubtitleCue]) -> (r: String)
    ensures
        r@ == srt_text(cues_view(cues@)),
{
    let ghost bv = cue_blocks(cues_view(cues@));
    let mut output = String::new();
    let mut i: usize = 0;
    while i < cues.len()
        invariant
            i <= cues.len(),
            bv == cue_blocks(cues_view(cues@)),
            bv.len() == cues@.len(),
            output@ == join(bv.take(i as int), "\n"@),
        decreases cues.len() - i,
    {
        assert(bv.take(i + 1).drop_last() =~= bv.take(i as int));
        let ghost before = output@;
        if i > 0 {
            push_str(&mut output, "\n");
        }
        let ghost block_start = output@;
        let cue = &cues[i];
        push_dec(&mut output, cue.index as u64);
        push_str(&mut output, "\n");
        push_time_hhmmss(&mut output, cue.start_ms, ",");
        push_str(&mut output, " --> ");
        push_time_hhmmss(&mut output, cue.end_ms, ",");
        push_str(&mut output, "\n");
        push_str(&mut output, cue.text.as_str());
        push_str(&mut output, "\n");
        assert(bv[i as int] == cue_block(cue@));
        assert(output@ =~= block_start + bv[i as int]);
        proof {
            if i == 0 {
                assert(output@ =~= bv.take(1)[0]);
            }
        }
        i += 1;
    }
    assert(bv.take(cues.len() as int) =~= bv);
    output
}

// ---------------------------------------------------------------------------
// Word groups
// ---------------------------------------------------------------------------

/// Lightweight reference to a word's timing and text.
#[derive(Debug, Clone, PartialEq)]
pub struct WordRef {
    pub text: String,
    pub start_ms: u64,
    pub end_ms: u64,
}

/// A group of words from a single transcript segment.
#[derive(Debug, Clone, PartialEq)]
pub struct WordGroup {
    pub words: Vec<WordRef>,
}

impl View for WordRef {
    type V = WordView;

    /// A word reference is viewed as a word without an index.
    open spec fn view(&self) -> WordView {
        WordView { index: 0, text: self.text@, start_ms: self.start_ms, end_ms: self.end_ms }
    }
}

impl View for WordGroup {
    type V = Seq<WordView>;

    open spec fn view(&self) -> Seq<WordView> {
        self.words@.map_values(|w: WordRef| w@)
    }
}

/// A word as a reference: its text and timing.
pub open spec fn word_ref(w: WordView) -> WordView {
    WordView { index: 0, ..w }
}

/// Whether a word is selected: by index range, or by lying inside a time range.
pub open spec fn selects(by_index: bool, lo: u64, hi: u64, w: WordView) -> bool {
    if by_index {
        lo <= w.index <= hi
    } else {
        w.start_ms >= lo && w.end_ms <= hi
    }
}

/// The selected words of a list, as references, in order.
pub open spec fn selected(ws: Seq<WordView>, by_index: bool, lo: u64, hi: u64) -> Seq<WordView>
    decreases ws.len(),
{
    if ws.len() == 0 {
        Seq::empty()
    } else {
        let r = selected(ws.drop_last(), by_index, lo, hi);
        if selects(by_index, lo, hi, ws.last()) {
            r.push(word_ref(ws.last()))
        } else {
            r
        }
    }
}

/// One group per segment with selected words, holding those words.
pub open spec fn word_groups(segs: Seq<SegmentView>, by_index: bool, lo: u64, hi: u64) -> Seq<
    Seq<WordView>,
>
    decreases segs.len(),
{
    if segs.len() == 0 {
        Seq::empty()
    } else {
        let r = word_groups(segs.drop_last(), by_index, lo, hi);
        let g = selected(segs.last().words, by_index, lo, hi);
        if g.len() > 0 {
            r.push(g)
        } else {
            r
        }
    }
}

/// The views of segments.
pub open spec fn segments_view(v: Seq<TranscriptSegment>) -> Seq<SegmentView> {
    v.map_values(|s: TranscriptSegment| s@)
}

/// The views of groups.
pub open spec fn groups_view(v: Seq<WordGroup>) -> Seq<Seq<WordView>> {
    v.map_values(|g: WordGroup| g@)
}

/// The selected words of one segment.
fn select_words(seg: &TranscriptSegment, by_index: bool, lo: u64, hi: u64) -> (r: WordGroup)
    ensures
        r@ == selected(seg@.words, by_index, lo, hi),
{
    let ghost ws = seg@.words;
    let mut v: Vec<WordRef> = Vec::new();
    let mut j: usize = 0;
    while j < seg.words.len()
        invariant
            j <= seg.words.len(),
            ws == seg@.words,
            ws == words_view(seg.words@),
            v@.map_values(|w: WordRef| w@) == selected(ws.take(j as int), by_index, lo, hi),
        decreases seg.words.len() - j,
    {
        let w = &seg.words[j];
        assert(ws[j as int] == w@);
        assert(ws.take(j + 1).drop_last() =~= ws.take(j as int));
        let keep = if by_index {
            (lo <= w.index as u64) && (w.index as u64 <= hi)
        } else {
            w.start_ms >= lo && w.end_ms <= hi
        };
        if keep {
            let ghost prev = v@;
            v.push(WordRef { text: w.text.clone(), start_ms: w.start_ms, end_ms: w.end_ms });
            assert(v@.map_values(|w: WordRef| w@) =~= prev.map_values(|w: WordRef| w@).push(
                word_ref(ws[j as int]),
            ));
        }
        j += 1;
    }
    assert(ws.take(ws.len() as int) =~= ws);
    WordGroup { words: v }
}

/// One group per segment that has selected words.
fn collect_groups(segments: &[TranscriptSegment], by_index: bool, lo: u64, hi: u64) -> (r: Vec<
    WordGroup,
>)
    ensures
        groups_view(r@) == word_groups(segments_view(segments@), by_index, lo, hi),
        forall|k: int| 0 <= k < r@.len() ==> #[trigger] r@[k].words@.len() > 0,
{
    let ghost sv = segments_view(segments@);
    let mut groups: Vec<WordGroup> = Vec::new();
    let mut i: usize = 0;
    while i < segments.len()
        invariant
            i <= segments.len(),
            sv == segments_view(segments@),
            groups_view(groups@) == word_groups(sv.take(i as int), by_index, lo, hi),
            forall|k: int| 0 <= k < groups@.len() ==> #[trigger] groups@[k].words@.len() > 0,
        decreases segments.len() - i,
    {
        assert(sv[i as int] == segments@[i as int]@);
        assert(sv.take(i + 1).drop_last() =~= sv.take(i as int));
        let g = select_words(&segments[i], by_index, lo, hi);
        if g.words.len() > 0 {
            let ghost prev = groups@;
            groups.push(g);
            assert(groups_view(groups@) =~= groups_view(prev).push(g@));
        }
        i += 1;
    }
    assert(sv.take(sv.len() as int) =~= sv);
    groups
}

/// Collect words by global word index range, grouped by segment.
pub fn collect_word_groups_by_index(segments: &[TranscriptSegment], from: u32, to: u32) -> (r: Vec<
    WordGroup,
>)
    ensures
        groups_view(r@) == word_groups(segments_view(segments@), true, from as u64, to as u64),
        forall|k: int| 0 <= k < r@.len() ==> #[trigger] r@[k].words@.len() > 0,
{
    collect_groups(segments, true, from as u64, to as u64)
}

/// Collect words by source time range, grouped by segment.
pub fn collect_word_groups_by_time(segments: &[TranscriptSegment], start_ms: u64, end_ms: u64) -> (r:
    Vec<WordGroup>)
    ensures
        groups_view(r@) == word_groups(segments_view(segments@), false, start_ms, end_ms),
        forall|k: int| 0 <= k < r@.len() ==> #[trigger] r@[k].words@.len() > 0,
{
    collect_groups(segments, false, start_ms, end_ms)
}

} // verus!

verus! {

// ---------------------------------------------------------------------------
// Cues of a shot
// ---------------------------------------------------------------------------

/// `a - b`, or 0 when `a < b`.
pub open spec fn sat_sub(a: u64, b: u64) -> int {
    if a >= b {
        a - b
    } else {
        0
    }
}

/// The texts of a list of words.
pub open spec fn word_texts(g: Seq<WordView>) -> Seq<Seq<char>> {
    g.map_values(|w: WordView| w.text)
}

/// The cue made from a group of words, placed on the output timeline: word
/// times are taken relative to the shot's source start and shifted by the
/// timeline offset.
pub open spec fn group_cue(g: Seq<WordView>, shot_start: u64, offset: u64, index: int) -> CueView {
    CueView {
        index: index as u32,
        start_ms: (sat_sub(g[0].start_ms, shot_start) + offset) as u64,
        end_ms: (sat_sub(g.last().end_ms, shot_start) + offset) as u64,
        text: join(word_texts(g), " "@),
    }
}

/// The groups of words a shot's subtitles come from: by index for a word
/// range, by time for any other range.
pub open spec fn shot_groups(t: TranscriptView, shot: ResolvedView) -> Seq<Seq<WordView>> {
    match shot.range {
        ShotRange::Words { from, to } => word_groups(t.segments, true, from as u64, to as u64),
        _ => word_groups(t.segments, false, shot.start_ms, shot.end_ms),
    }
}

/// The cues of a shot, numbered from `first`.
pub open spec fn shot_cues(t: TranscriptView, shot: ResolvedView, offset: u64, first: int) -> Seq<
    CueView,
> {
    let gs = shot_groups(t, shot);
    Seq::new(gs.len(), |i: int| group_cue(gs[i], shot.start_ms, offset, first + i))
}

/// Every word ends and starts early enough that shifting it by `offset` stays in range.
pub open spec fn fits_offset(t: TranscriptView, offset: u64) -> bool {
    forall|i: int|
        0 <= i < all_words(t).len() ==> #[trigger] all_words(t)[i].end_ms + offset <= u64::MAX
            && all_words(t)[i].start_ms + offset <= u64::MAX
}

/// A selected word is one of the words of its segment, as a reference.
proof fn lemma_selected_from(ws: Seq<WordView>, by_index: bool, lo: u64, hi: u64, k: int)
    requires
        0 <= k < selected(ws, by_index, lo, hi).len(),
    ensures
        exists|j: int| 0 <= j < ws.len() && selected(ws, by_index, lo, hi)[k] == word_ref(#[trigger] ws[j])
            && selects(by_index, lo, hi, ws[j]),
    decreases ws.len(),
{
    let r = selected(ws.drop_last(), by_index, lo, hi);
    if k < r.len() {
        lemma_selected_from(ws.drop_last(), by_index, lo, hi, k);
        let j = choose|j: int| 0 <= j < ws.drop_last().len() && r[k] == word_ref(#[trigger] ws.drop_last()[j])
            && selects(by_index, lo, hi, ws.drop_last()[j]);
        assert(ws[j] == ws.drop_last()[j]);
    } else {
        assert(selected(ws, by_index, lo, hi)[k] == word_ref(ws[ws.len() - 1]));
    }
}

/// A grouped word is one of the transcript's words, as a reference.
proof fn lemma_group_word_from(segs: Seq<SegmentView>, by_index: bool, lo: u64, hi: u64, g: int, k: int)
    requires
        0 <= g < word_groups(segs, by_index, lo, hi).len(),
        0 <= k < word_groups(segs, by_index, lo, hi)[g].len(),
    ensures
        exists|j: int| 0 <= j < flat_words(segs).len()
            && word_groups(segs, by_index, lo, hi)[g][k] == word_ref(#[trigger] flat_words(segs)[j])
            && selects(by_index, lo, hi, flat_words(segs)[j]),
    decreases segs.len(),
{
    let p = segs.drop_last();
    let r = word_groups(p, by_index, lo, hi);
    assert(flat_words(segs) == flat_words(p) + segs.last().words);
    if g < r.len() {
        lemma_group_word_from(p, by_index, lo, hi, g, k);
        let j = choose|j: int| 0 <= j < flat_words(p).len()
            && r[g][k] == word_ref(#[trigger] flat_words(p)[j]) && selects(by_index, lo, hi, flat_words(p)[j]);
        assert(flat_words(segs)[j] == flat_words(p)[j]);
    } else {
        lemma_selected_from(segs.last().words, by_index, lo, hi, k);
        let j = choose|j: int| 0 <= j < segs.last().words.len()
            && selected(segs.last().words, by_index, lo, hi)[k] == word_ref(#[trigger] segs.last().words[j])
            && selects(by_index, lo, hi, segs.last().words[j]);
        assert(flat_words(segs)[flat_words(p).len() + j] == segs.last().words[j]);
    }
}

/// Every selected word of a list is among the selected words.
proof fn lemma_selected_complete(ws: Seq<WordView>, by_index: bool, lo: u64, hi: u64, j: int)
    requires
        0 <= j < ws.len(),
        selects(by_index, lo, hi, ws[j]),
    ensures
        exists|k: int| 0 <= k < selected(ws, by_index, lo, hi).len()
            && #[trigger] selected(ws, by_index, lo, hi)[k] == word_ref(ws[j]),
    decreases ws.len(),
{
    let r = selected(ws.drop_last(), by_index, lo, hi);
    if j == ws.len() - 1 {
        assert(selected(ws, by_index, lo, hi)[r.len() as int] == word_ref(ws[j]));
    } else {
        assert(ws.drop_last()[j] == ws[j]);
        lemma_selected_complete(ws.drop_last(), by_index, lo, hi, j);
        let k = choose|k: int| 0 <= k < r.len() && #[trigger] r[k] == word_ref(ws.drop_last()[j]);
        assert(selected(ws, by_index, lo, hi)[k] == r[k]);
    }
}

/// Every selected word of the transcript is in some group.
proof fn lemma_groups_complete(segs: Seq<SegmentView>, by_index: bool, lo: u64, hi: u64, j: int)
    requires
        0 <= j < flat_words(segs).len(),
        selects(by_index, lo, hi, flat_words(segs)[j]),
    ensures
        exists|g: int, k: int|
            0 <= g < word_groups(segs, by_index, lo, hi).len() && 0 <= k < word_groups(
                segs,
                by_index,
                lo,
                hi,
            )[g].len() && #[trigger] word_groups(segs, by_index, lo, hi)[g][k] == word_ref(flat_words(segs)[j]),
    decreases segs.len(),
{
    let p = segs.drop_last();
    let r = word_groups(p, by_index, lo, hi);
    let gl = selected(segs.last().words, by_index, lo, hi);
    assert(flat_words(segs) == flat_words(p) + segs.last().words);
    if j < flat_words(p).len() {
        assert(flat_words(segs)[j] == flat_words(p)[j]);
        lemma_groups_complete(p, by_index, lo, hi, j);
        let (g, k) = choose|g: int, k: int|
            0 <= g < r.len() && 0 <= k < r[g].len() && #[trigger] r[g][k] == word_ref(flat_words(p)[j]);
        assert(word_groups(segs, by_index, lo, hi)[g] == r[g]);
    } else {
        let i = j - flat_words(p).len();
        assert(segs.last().words[i] == flat_words(segs)[j]);
        lemma_selected_complete(segs.last().words, by_index, lo, hi, i);
        let k = choose|k: int| 0 <= k < gl.len() && #[trigger] gl[k] == word_ref(segs.last().words[i]);
        assert(word_groups(segs, by_index, lo, hi)[r.len() as int] == gl);
    }
}

/// The words under a shot whose range is not a word range are exactly the
/// transcript's words lying inside the shot's source times: every grouped
/// word is one of them (starting no earlier than the shot and ending no
/// later), and each of them is in some group.
pub proof fn law_shot_words_by_time(t: TranscriptView, shot: ResolvedView)
    requires
        !(shot.range is Words),
    ensures
        forall|g: int, k: int|
            0 <= g < shot_groups(t, shot).len() && 0 <= k < shot_groups(t, shot)[g].len() ==> {
                &&& #[trigger] shot_groups(t, shot)[g][k].start_ms >= shot.start_ms
                &&& shot_groups(t, shot)[g][k].end_ms <= shot.end_ms
                &&& exists|j: int| 0 <= j < all_words(t).len() && shot_groups(t, shot)[g][k] == word_ref(#[trigger] all_words(t)[j])
            },
        forall|j: int|
            0 <= j < all_words(t).len() && #[trigger] all_words(t)[j].start_ms >= shot.start_ms
                && all_words(t)[j].end_ms <= shot.end_ms ==> exists|g: int, k: int|
                0 <= g < shot_groups(t, shot).len() && 0 <= k < shot_groups(t, shot)[g].len()
                    && #[trigger] shot_groups(t, shot)[g][k] == word_ref(all_words(t)[j]),
{
    assert(shot_groups(t, shot) == word_groups(t.segments, false, shot.start_ms, shot.end_ms));
    assert forall|g: int, k: int|
        0 <= g < shot_groups(t, shot).len() && 0 <= k < shot_groups(t, shot)[g].len() implies {
            &&& #[trigger] shot_groups(t, shot)[g][k].start_ms >= shot.start_ms
            &&& shot_groups(t, shot)[g][k].end_ms <= shot.end_ms
            &&& exists|j: int| 0 <= j < all_words(t).len() && shot_groups(t, shot)[g][k] == word_ref(#[trigger] all_words(t)[j])
        } by {
        lemma_group_word_from(t.segments, false, shot.start_ms, shot.end_ms, g, k);
        let j = choose|j: int| 0 <= j < flat_words(t.segments).len()
            && word_groups(t.segments, false, shot.start_ms, shot.end_ms)[g][k] == word_ref(#[trigger] flat_words(t.segments)[j])
            && selects(false, shot.start_ms, shot.end_ms, flat_words(t.segments)[j]);
        assert(all_words(t)[j] == flat_words(t.segments)[j]);
    }
    assert forall|j: int|
        0 <= j < all_words(t).len() && #[trigger] all_words(t)[j].start_ms >= shot.start_ms
            && all_words(t)[j].end_ms <= shot.end_ms implies exists|g: int, k: int|
            0 <= g < shot_groups(t, shot).len() && 0 <= k < shot_groups(t, shot)[g].len()
                && #[trigger] shot_groups(t, shot)[g][k] == word_ref(all_words(t)[j]) by {
        lemma_groups_complete(t.segments, false, shot.start_ms, shot.end_ms, j);
    }
}

/// A word grouped under a shot with a word range is a transcript word whose
/// index lies in the range.
proof fn lemma_index_group_sound(t: TranscriptView, shot: ResolvedView, from: u32, to: u32, g: int, k: int)
    requires
        shot.range == (ShotRange::Words { from, to }),
        0 <= g < shot_groups(t, shot).len(),
        0 <= k < shot_groups(t, shot)[g].len(),
    ensures
        exists|j: int|
            0 <= j < all_words(t).len() && shot_groups(t, shot)[g][k] == word_ref(#[trigger] all_words(t)[j])
                && from <= all_words(t)[j].index && all_words(t)[j].index <= to,
{
    assert(shot_groups(t, shot) == word_groups(t.segments, true, from as u64, to as u64));
    lemma_group_word_from(t.segments, true, from as u64, to as u64, g, k);
    let j = choose|j: int| 0 <= j < flat_words(t.segments).len()
        && word_groups(t.segments, true, from as u64, to as u64)[g][k] == word_ref(#[trigger] flat_words(t.segments)[j])
        && selects(true, from as u64, to as u64, flat_words(t.segments)[j]);
    assert(all_words(t)[j] == flat_words(t.segments)[j]);
    assert(from <= all_words(t)[j].index && all_words(t)[j].index <= to);
}

/// The words under a shot with a word range are exactly the transcript's
/// words whose index lies in the range: every grouped word is one of them
/// (kept as a reference, without its index), and each of them is in some
/// group.
pub proof fn law_shot_words_by_index(t: TranscriptView, shot: ResolvedView, from: u32, to: u32)
    requires
        shot.range == (ShotRange::Words { from, to }),
    ensures
        forall|g: int, k: int|
            0 <= g < shot_groups(t, shot).len() && 0 <= k < shot_groups(t, shot)[g].len() ==> {
                &&& #[trigger] shot_groups(t, shot)[g][k].index == 0
                &&& exists|j: int|
                    0 <= j < all_words(t).len() && shot_groups(t, shot)[g][k] == word_ref(#[trigger] all_words(t)[j])
                        && from <= all_words(t)[j].index && all_words(t)[j].index <= to
            },
        forall|j: int|
            0 <= j < all_words(t).len() && from <= #[trigger] all_words(t)[j].index && all_words(t)[j].index <= to
                ==> exists|g: int, k: int|
                0 <= g < shot_groups(t, shot).len() && 0 <= k < shot_groups(t, shot)[g].len()
                    && #[trigger] shot_groups(t, shot)[g][k] == word_ref(all_words(t)[j]),
{
    assert(shot_groups(t, shot) == word_groups(t.segments, true, from as u64, to as u64));
    assert forall|g: int, k: int|
        0 <= g < shot_groups(t, shot).len() && 0 <= k < shot_groups(t, shot)[g].len() implies {
            &&& #[trigger] shot_groups(t, shot)[g][k].index == 0
            &&& exists|j: int|
                0 <= j < all_words(t).len() && shot_groups(t, shot)[g][k] == word_ref(#[trigger] all_words(t)[j])
                    && from <= all_words(t)[j].index && all_words(t)[j].index <= to
        } by {
        lemma_index_group_sound(t, shot, from, to, g, k);
    }
    assert forall|j: int|
        0 <= j < all_words(t).len() && from <= #[trigger] all_words(t)[j].index && all_words(t)[j].index <= to
            implies exists|g: int, k: int|
            0 <= g < shot_groups(t, shot).len() && 0 <= k < shot_groups(t, shot)[g].len()
                && #[trigger] shot_groups(t, shot)[g][k] == word_ref(all_words(t)[j]) by {
        lemma_groups_complete(t.segments, true, from as u64, to as u64, j);
    }
}

/// Extract subtitle cues for a single shot from its transcript.
///
/// Finds words within the shot's source range and groups them by
/// transcript segment. Each group becomes a subtitle cue with timing
/// adjusted to the output timeline.
pub fn extract_shot_cues(
    transcript: &Transcript,
    shot: &ResolvedShot,
    timeline_offset_ms: u64,
    cue_index: &mut u32,
) -> (r: Vec<SubtitleCue>)
    requires
        fits_offset(transcript@, timeline_offset_ms),
        *old(cue_index) + transcript@.segments.len() <= u32::MAX,
    ensures
        cues_view(r@) == shot_cues(transcript@, shot@, timeline_offset_ms, *old(cue_index) as int),
        *final(cue_index) == *old(cue_index) + shot_groups(transcript@, shot@).len(),
{
    let groups = match &shot.range {
        ShotRange::Words { from, to } => collect_word_groups_by_index(
            transcript.segments.as_slice(),
            *from,
            *to,
        ),
        _ => collect_word_groups_by_time(
            transcript.segments.as_slice(),
            shot.start_ms,
            shot.end_ms,
        ),
    };
    let ghost gs = shot_groups(transcript@, shot@);
    let ghost first = *cue_index as int;
    proof {
        match shot.range {
            ShotRange::Words { from, to } => lemma_groups_len(
                transcript@.segments,
                true,
                from as u64,
                to as u64,
            ),
            _ => lemma_groups_len(transcript@.segments, false, shot.start_ms, shot.end_ms),
        }
    }
    let mut cues: Vec<SubtitleCue> = Vec::new();
    let mut i: usize = 0;
    while i < groups.len()
        invariant
            i <= groups.len(),
            gs == groups_view(groups@),
            gs == shot_groups(transcript@, shot@),
            gs.len() <= transcript@.segments.len(),
            first + transcript@.segments.len() <= u32::MAX,
            *cue_index == first + i,
            fits_offset(transcript@, timeline_offset_ms),
            forall|k: int| 0 <= k < groups@.len() ==> #[trigger] groups@[k].words@.len() > 0,
            cues_view(cues@) == Seq::new(
                i as nat,
                |k: int| group_cue(gs[k], shot.start_ms, timeline_offset_ms, first + k),
            ),
        decreases groups.len() - i,
    {
        let group = &groups[i];
        assert(gs[i as int] == group@);
        let first_w = &group.words[0];
        let last_w = &group.words[group.words.len() - 1];
        assert(group@[0] == first_w@);
        assert(group@.last() == last_w@);
        proof {
            let segs = transcript@.segments;
            let (bi, lo, hi) = match shot.range {
                ShotRange::Words { from, to } => (true, from as u64, to as u64),
                _ => (false, shot.start_ms, shot.end_ms),
            };
            lemma_group_word_from(segs, bi, lo, hi, i as int, 0);
            lemma_group_word_from(segs, bi, lo, hi, i as int, group@.len() - 1);
            let j0 = choose|j: int| 0 <= j < flat_words(segs).len()
                && word_groups(segs, bi, lo, hi)[i as int][0] == word_ref(#[trigger] flat_words(segs)[j]);
            let j1 = choose|j: int| 0 <= j < flat_words(segs).len()
                && word_groups(segs, bi, lo, hi)[i as int][group@.len() - 1] == word_ref(#[trigger] flat_words(segs)[j]);
            assert(all_words(transcript@)[j0].start_ms + timeline_offset_ms <= u64::MAX);
            assert(all_words(transcript@)[j1].end_ms + timeline_offset_ms <= u64::MAX);
        }
        let start = if first_w.start_ms >= shot.start_ms {
            first_w.start_ms - shot.start_ms
        } else {
            0
        };
        let end = if last_w.end_ms >= shot.start_ms {
            last_w.end_ms - shot.start_ms
        } else {
            0
        };
        let mut texts: Vec<String> = Vec::new();
        let mut k: usize = 0;
        while k < group.words.len()
            invariant
                k <= group.words.len(),
                strings_view(texts@) == word_texts(group@.take(k as int)),
            decreases group.words.len() - k,
        {
            let ghost prev = texts@;
            texts.push(group.words[k].text.clone());
            assert(word_texts(group@.take(k + 1)) =~= word_texts(group@.take(k as int)).push(
                group@[k as int].text,
            ));
            assert(strings_view(texts@) =~= strings_view(prev).push(group.words@[k as int].text@));
            k += 1;
        }
        assert(group@.take(group.words.len() as int) =~= group@);
        let text = join_strings(&texts, " ");
        let ghost prev = cues@;
        let ghost expected = group_cue(gs[i as int], shot.start_ms, timeline_offset_ms, first + i);
        assert(expected.index == *cue_index);
        assert(expected.start_ms == start + timeline_offset_ms);
        assert(expected.end_ms == end + timeline_offset_ms);
        assert(expected.text == text@);
        cues.push(
            SubtitleCue {
                index: *cue_index,
                start_ms: start + timeline_offset_ms,
                end_ms: end + timeline_offset_ms,
                text,
            },
        );
        assert(cues_view(cues@) =~= cues_view(prev).push(expected));
        assert(cues_view(cues@) =~= Seq::new(
            (i + 1) as nat,
            |k: int| group_cue(gs[k], shot.start_ms, timeline_offset_ms, first + k),
        ));
        *cue_index = *cue_index + 1;
        i += 1;
    }
    cues
}

/// There are no more groups than segments.
proof fn lemma_groups_len(segs: Seq<SegmentView>, bi: bool, lo: u64, hi: u64)
    ensures
        word_groups(segs, bi, lo, hi).len() <= segs.len(),
    decreases segs.len(),
{
    if segs.len() > 0 {
        lemma_groups_len(segs.drop_last(), bi, lo, hi);
    }
}

} // verus!

verus! {

// ---------------------------------------------------------------------------
// A whole edit
// ---------------------------------------------------------------------------

/// After the first `n` shots: the cues so far, the timeline offset of the
/// next shot, and the number of the next cue. Shots whose source has no
/// transcript add no cues but still advance the timeline.
pub open spec fn srt_state(shots: Seq<ResolvedView>, ds: Seq<SourceDataView>, n: nat) -> (
    Seq<CueView>,
    int,
    int,
)
    decreases n,
{
    if n == 0 {
        (Seq::empty(), 0, 1)
    } else {
        let (c, off, idx) = srt_state(shots, ds, (n - 1) as nat);
        let shot = shots[n - 1];
        match data_for(ds, shot.source).0 {
            Some(t) => (
                c + shot_cues(t, shot, off as u64, idx),
                off + shot.duration_ms,
                idx + shot_groups(t, shot).len(),
            ),
            None => (c, off + shot.duration_ms, idx),
        }
    }
}

/// The timeline offsets and cue numbers of the first `n` shots stay in range.
pub open spec fn srt_fits(shots: Seq<ResolvedView>, ds: Seq<SourceDataView>, n: nat) -> bool
    decreases n,
{
    if n == 0 {
        true
    } else {
        let (c, off, idx) = srt_state(shots, ds, (n - 1) as nat);
        let shot = shots[n - 1];
        &&& srt_fits(shots, ds, (n - 1) as nat)
        &&& off + shot.duration_ms <= u64::MAX
        &&& match data_for(ds, shot.source).0 {
            Some(t) => fits_offset(t, off as u64) && idx + t.segments.len() <= u32::MAX,
            None => true,
        }
    }
}

/// The view of a list of resolved shots.
pub open spec fn resolved_shots_view(v: Seq<ResolvedShot>) -> Seq<ResolvedView> {
    v.map_values(|r: ResolvedShot| r@)
}

proof fn lemma_srt_fits_prefix(shots: Seq<ResolvedView>, ds: Seq<SourceDataView>, n: nat, m: nat)
    requires
        srt_fits(shots, ds, n),
        m <= n,
    ensures
        srt_fits(shots, ds, m),
    decreases n,
{
    if m < n {
        lemma_srt_fits_prefix(shots, ds, (n - 1) as nat, m);
    }
}

proof fn lemma_srt_state_bounds(shots: Seq<ResolvedView>, ds: Seq<SourceDataView>, n: nat)
    requires
        n <= shots.len(),
        srt_fits(shots, ds, n),
    ensures
        0 <= srt_state(shots, ds, n).1 <= u64::MAX,
        1 <= srt_state(shots, ds, n).2 <= u32::MAX,
    decreases n,
{
    if n > 0 {
        lemma_srt_state_bounds(shots, ds, (n - 1) as nat);
        let shot = shots[n - 1];
        match data_for(ds, shot.source).0 {
            Some(t) => {
                let (_, _, idx) = srt_state(shots, ds, (n - 1) as nat);
                match shot.range {
                    ShotRange::Words { from, to } => lemma_groups_len(
                        t.segments,
                        true,
                        from as u64,
                        to as u64,
                    ),
                    _ => lemma_groups_len(t.segments, false, shot.start_ms, shot.end_ms),
                }
            },
            None => {},
        }
    }
}

/// Generate SRT subtitle content from resolved edit shots.
///
/// For each shot, takes the transcript of the shot's source (if loaded) and
/// extracts word-level timing within the shot's range. Words are grouped by
/// their transcript segment boundaries to produce natural subtitle lines.
/// Timing is adjusted to the output timeline.
///
/// Shots whose source has no transcript are silently skipped.
pub fn generate_srt(resolved: &[ResolvedShot], data: &Vec<SourceData>) -> (r: String)
    requires
        srt_fits(resolved_shots_view(resolved@), data_view(data@), resolved@.len()),
    ensures
        r@ == srt_text(
            srt_state(resolved_shots_view(resolved@), data_view(data@), resolved@.len()).0,
        ),
{
    let ghost sv = resolved_shots_view(resolved@);
    let ghost dv = data_view(data@);
    let mut cues: Vec<SubtitleCue> = Vec::new();
    let mut cue_index: u32 = 1;
    let mut timeline_offset_ms: u64 = 0;
    let mut i: usize = 0;
    assert(cues_view(cues@) =~= Seq::<CueView>::empty());
    while i < resolved.len()
        invariant
            i <= resolved.len(),
            sv == resolved_shots_view(resolved@),
            dv == data_view(data@),
            srt_fits(sv, dv, resolved@.len()),
            srt_state(sv, dv, i as nat) == (
                cues_view(cues@),
                timeline_offset_ms as int,
                cue_index as int,
            ),
        decreases resolved.len() - i,
    {
        let shot = &resolved[i];
        assert(sv[i as int] == shot@);
        proof {
            lemma_srt_fits_prefix(sv, dv, resolved@.len(), (i + 1) as nat);
        }
        let (t, _x) = lookup_source(data, shot.source.as_str());
        match t {
            Some(t) => {
                proof {
                    lemma_srt_state_bounds(sv, dv, i as nat);
                }
                let mut shot_cues = extract_shot_cues(t, shot, timeline_offset_ms, &mut cue_index);
                let ghost prev = cues@;
                let ghost added = shot_cues@;
                cues.append(&mut shot_cues);
                assert(cues_view(cues@) =~= cues_view(prev) + cues_view(added));
            },
            None => {},
        }
        timeline_offset_ms = timeline_offset_ms + shot.duration_ms;
        i += 1;
    }
    format_srt(cues.as_slice())
}

// ---------------------------------------------------------------------------
// Embedding subtitles into a video
// ---------------------------------------------------------------------------

/// What can go wrong with subtitles.
#[derive(Debug, Clone, PartialEq)]
pub enum SubtitleError {
    FfmpegFailed(String),
    Io(String),
    Json { path: String, source: String },
}

/// The message of a subtitle error.
pub open spec fn subtitle_error_message(e: SubtitleError) -> Seq<char> {
    match e {
        SubtitleError::FfmpegFailed(m) => "ffmpeg subtitle embedding failed: "@ + m@,
        SubtitleError::Io(m) => m@,
        SubtitleError::Json { path, source } => "failed to parse transcript JSON from "@ + path@
            + ": "@ + source@,
    }
}

impl SubtitleError {
    /// The human-readable message of this error.
    pub fn to_string(&self) -> (r: String)
        ensures
            r@ == subtitle_error_message(*self),
    {
        match self {
            SubtitleError::FfmpegFailed(m) => {
                let mut r = owned("ffmpeg subtitle embedding failed: ");
                push_str(&mut r, m.as_str());
                r
            },
            SubtitleError::Io(m) => copy_string(m),
            SubtitleError::Json { path, source } => {
                let mut r = owned("failed to parse transcript JSON from ");
                push_str(&mut r, path.as_str());
                push_str(&mut r, ": ");
                push_str(&mut r, source.as_str());
                r
            },
        }
    }
}

/// The ffmpeg arguments that copy `video` into `output` with the subtitles of
/// `srt` as a text track.
pub open spec fn embed_args_spec(video: Seq<char>, srt: Seq<char>, output: Seq<char>) -> Seq<
    Seq<char>,
> {
    seq!["-y"@, "-i"@, video, "-i"@, srt, "-c"@, "copy"@, "-c:s"@, "mov_text"@, output]
}

/// The ffmpeg arguments of a subtitle embedding (see `embed_args_spec`).
pub fn embed_subtitles_args(video: &str, srt: &str, output: &str) -> (r: Vec<String>)
    ensures
        args_view(r@) == embed_args_spec(video@, srt@, output@),
{
    let mut a: Vec<String> = Vec::new();
    a.push(owned("-y"));
    a.push(owned("-i"));
    a.push(owned(video));
    a.push(owned("-i"));
    a.push(owned(srt));
    a.push(owned("-c"));
    a.push(owned("copy"));
    a.push(owned("-c:s"));
    a.push(owned("mov_text"));
    a.push(owned(output));
    assert(args_view(a@) =~= embed_args_spec(video@, srt@, output@));
    a
}

/// The outcome of a subtitle embedding, given whether ffmpeg succeeded and
/// what it wrote to stderr: done, or the failure with ffmpeg's last line.
pub fn embed_subtitles(succeeded: bool, stderr: &str) -> (r: Result<(), SubtitleError>)
    ensures
        succeeded ==> r is Ok,
        !succeeded ==> (r matches Err(SubtitleError::FfmpegFailed(m)) && m@
            == "subtitle embedding failed: "@ + last_line(stderr@)),
{
    if succeeded {
        return Ok(());
    }
    let lines = split_lines(stderr);
    let mut m = owned("subtitle embedding failed: ");
    if lines.len() > 0 {
        let last = string_of(lines[lines.len() - 1].as_slice());
        assert(rows_view(lines@).last() == lines@[lines.len() - 1]@);
        push_str(&mut m, last.as_str());
    } else {
        push_str(&mut m, "unknown error");
    }
    Err(SubtitleError::FfmpegFailed(m))
}

} // verus!
