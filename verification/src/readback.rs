//! Reading back exported markdown: the text that `export_editable` writes is
//! read by the strict annotation reader as one block per segment, naming the
//! segment's source and its first and last words.
use vstd::prelude::*;
use crate::export::{export_sections, export_text, segment_block, segment_blocks, source_section};
use crate::import::{
    after_close, after_open, close_tag, open_tag, strict_parse, strict_run, strict_step,
    transcript_for, BlockView, StrictView,
};
use crate::models::{EditDocument, SegmentView, ShotRange, SourceView, TranscriptView};
use crate::import::{has_single_word, imported, ImportError};
use crate::import::{find_char, has_at, no_gt, close_name, u32_value};
use crate::text::{
    all_digits, dec, decimals_end, is_decimal, digits_value, is_digit, is_white_space, join, lemma_dec_digits,
    lemma_trim_end_index, lines_acc, lines_of, trim_end_index, trimmed, ws_end,
};

verus! {

broadcast use vstd::string::group_string_axioms;

// ---------------------------------------------------------------------------
// Lines
// ---------------------------------------------------------------------------

/// Lines, each ended by a line feed.
pub open spec fn unlines(ls: Seq<Seq<char>>) -> Seq<char>
    decreases ls.len(),
{
    if ls.len() == 0 {
        Seq::empty()
    } else {
        unlines(ls.drop_last()) + ls.last() + "\n"@
    }
}

/// Whether `t` holds no line feed.
pub open spec fn single_line(t: Seq<char>) -> bool {
    forall|k: int| 0 <= k < t.len() ==> t[k] != '\n'
}

proof fn lemma_acc_line(z: Seq<char>, l: Seq<char>)
    requires
        lines_acc(z).1.len() == 0,
        single_line(l),
    ensures
        lines_acc(z + l) == (lines_acc(z).0, l),
    decreases l.len(),
{
    if l.len() == 0 {
        assert(z + l =~= z);
        assert(lines_acc(z).1 =~= l);
    } else {
        lemma_acc_line(z, l.drop_last());
        assert((z + l).drop_last() =~= z + l.drop_last());
        assert((z + l).last() == l.last());
        assert(l.drop_last().push(l.last()) =~= l);
    }
}

/// The lines that text `t` makes when a line feed ends it: its lines, with
/// an empty last one when `t` is empty or itself ends with a line feed.
pub open spec fn pieces(t: Seq<char>) -> Seq<Seq<char>> {
    lines_acc(t + "\n"@).0
}

/// The lines that texts `ls` make, each ended by a line feed.
pub open spec fn flat_lines(ls: Seq<Seq<char>>) -> Seq<Seq<char>>
    decreases ls.len(),
{
    if ls.len() == 0 {
        Seq::empty()
    } else {
        flat_lines(ls.drop_last()) + pieces(ls.last())
    }
}

proof fn lemma_pieces_shape(t: Seq<char>)
    ensures
        lines_acc(t + "\n"@) == (lines_acc(t).0.push(lines_acc(t).1), Seq::<char>::empty()),
        pieces(t) == lines_acc(t).0.push(lines_acc(t).1),
{
    reveal_strlit("\n");
    assert((t + "\n"@).drop_last() =~= t);
    assert((t + "\n"@).last() == '\n');
}

/// The lines of one line are that line.
proof fn lemma_pieces_single(l: Seq<char>)
    requires
        single_line(l),
    ensures
        pieces(l) == seq![l],
{
    let e = Seq::<char>::empty();
    assert(lines_acc(e) == (Seq::<Seq<char>>::empty(), e));
    lemma_acc_line(e, l);
    assert(e + l =~= l);
    lemma_pieces_shape(l);
    assert(Seq::<Seq<char>>::empty().push(l) =~= seq![l]);
}

/// Splitting `x + y` at line feeds: the last line of `x` runs into the first
/// of `y`.
proof fn lemma_acc_append(x: Seq<char>, y: Seq<char>)
    ensures
        lines_acc(x + y) == (if lines_acc(y).0.len() == 0 {
            (lines_acc(x).0, lines_acc(x).1 + lines_acc(y).1)
        } else {
            (
                lines_acc(x).0.push(lines_acc(x).1 + lines_acc(y).0[0]) + lines_acc(y).0.drop_first(),
                lines_acc(y).1,
            )
        }),
    decreases y.len(),
{
    if y.len() == 0 {
        assert(x + y =~= x);
        assert(lines_acc(x).1 + lines_acc(y).1 =~= lines_acc(x).1);
    } else {
        let y1 = y.drop_last();
        lemma_acc_append(x, y1);
        assert((x + y).drop_last() =~= x + y1);
        assert((x + y).last() == y.last());
        let (d1, c1) = lines_acc(x);
        let (d2, c2) = lines_acc(y1);
        if y.last() == '\n' {
            if d2.len() == 0 {
                assert(lines_acc(y).0 =~= seq![c2]);
                assert(d1.push(c1 + c2) + seq![c2].drop_first() =~= d1.push(c1 + c2));
            } else {
                assert(lines_acc(y).0 == d2.push(c2));
                assert(d2.push(c2)[0] == d2[0]);
                assert(d2.push(c2).drop_first() =~= d2.drop_first().push(c2));
                assert((d1.push(c1 + d2[0]) + d2.drop_first()).push(c2)
                    =~= d1.push(c1 + d2[0]) + d2.drop_first().push(c2));
            }
        } else {
            if d2.len() == 0 {
                assert((c1 + c2).push(y.last()) =~= c1 + c2.push(y.last()));
            }
        }
    }
}

proof fn lemma_acc_unlines(x: Seq<char>, ls: Seq<Seq<char>>)
    requires
        lines_acc(x).1.len() == 0,
    ensures
        lines_acc(x + unlines(ls)) == (lines_acc(x).0 + flat_lines(ls), Seq::<char>::empty()),
    decreases ls.len(),
{
    if ls.len() == 0 {
        assert(x + unlines(ls) =~= x);
        assert(lines_acc(x).0 + flat_lines(ls) =~= lines_acc(x).0);
        assert(lines_acc(x).1 =~= Seq::<char>::empty());
    } else {
        let p = ls.drop_last();
        let l = ls.last();
        lemma_acc_unlines(x, p);
        let w = x + unlines(p);
        let y = l + "\n"@;
        assert(x + unlines(ls) =~= w + y);
        lemma_pieces_shape(l);
        lemma_acc_append(w, y);
        let ps = pieces(l);
        assert(lines_acc(w).1 + ps[0] =~= ps[0]);
        assert((lines_acc(x).0 + flat_lines(p)).push(ps[0]) + ps.drop_first()
            =~= lines_acc(x).0 + flat_lines(ls));
    }
}

/// The lines of texts each ended by a line feed.
pub proof fn lemma_lines_of_unlines(ls: Seq<Seq<char>>)
    ensures
        lines_of(unlines(ls)) == flat_lines(ls),
{
    let e = Seq::<char>::empty();
    assert(lines_acc(e) == (Seq::<Seq<char>>::empty(), Seq::<char>::empty()));
    lemma_acc_unlines(e, ls);
    assert(e + unlines(ls) =~= unlines(ls));
    assert(Seq::<Seq<char>>::empty() + flat_lines(ls) =~= flat_lines(ls));
}

proof fn lemma_flat_add(a: Seq<Seq<char>>, b: Seq<Seq<char>>)
    ensures
        flat_lines(a + b) == flat_lines(a) + flat_lines(b),
    decreases b.len(),
{
    if b.len() == 0 {
        assert(a + b =~= a);
        assert(flat_lines(a) + flat_lines(b) =~= flat_lines(a));
    } else {
        lemma_flat_add(a, b.drop_last());
        assert((a + b).drop_last() =~= a + b.drop_last());
        assert((a + b).last() == b.last());
        assert(flat_lines(a + b) =~= flat_lines(a) + flat_lines(b));
    }
}

/// Lines joined one after another.
pub proof fn lemma_unlines_add(a: Seq<Seq<char>>, b: Seq<Seq<char>>)
    ensures
        unlines(a + b) == unlines(a) + unlines(b),
    decreases b.len(),
{
    if b.len() == 0 {
        assert(a + b =~= a);
        assert(unlines(a) + unlines(b) =~= unlines(a));
    } else {
        lemma_unlines_add(a, b.drop_last());
        assert((a + b).drop_last() =~= a + b.drop_last());
        assert((a + b).last() == b.last());
        assert(unlines(a + b) =~= unlines(a) + unlines(b));
    }
}

proof fn lemma_unlines_push(ls: Seq<Seq<char>>, l: Seq<char>)
    ensures
        unlines(ls.push(l)) == unlines(ls) + l + "\n"@,
{
    assert(ls.push(l).drop_last() =~= ls);
}

proof fn lemma_unlines_two(a: Seq<char>, b: Seq<char>)
    ensures
        unlines(seq![a, b]) == a + "\n"@ + b + "\n"@,
{
    let e = Seq::<Seq<char>>::empty();
    assert(seq![a, b] =~= e.push(a).push(b));
    lemma_unlines_push(e, a);
    lemma_unlines_push(e.push(a), b);
    assert(unlines(e) =~= Seq::<char>::empty());
    assert(unlines(e.push(a)) =~= a + "\n"@);
}

// ---------------------------------------------------------------------------
// The lines of an export
// ---------------------------------------------------------------------------

/// The comment that opens the block of a segment of source `id`.
pub open spec fn open_line(id: Seq<char>, from: u32, to: u32) -> Seq<char> {
    "<!-- ar-edit:"@ + id + ":w"@ + dec(from as nat) + "-w"@ + dec(to as nat) + " -->"@
}

/// The comment that closes a block of source `id`.
pub open spec fn close_line(id: Seq<char>) -> Seq<char> {
    "<!-- /ar-edit:"@ + id + " -->"@
}

/// The header of a source's section.
pub open spec fn header_line(s: SourceView) -> Seq<char> {
    "# Source: "@ + s.id + " — "@ + s.original_filename
}

/// The lines of a segment's block, the blank line after it included.
pub open spec fn segment_lines(id: Seq<char>, seg: SegmentView) -> Seq<Seq<char>> {
    if seg.words.len() == 0 {
        seq![seg.text, Seq::empty()]
    } else {
        seq![open_line(id, seg.words[0].index, seg.words.last().index), seg.text, close_line(id), Seq::empty()]
    }
}

/// The lines of the blocks of segments `segs`.
pub open spec fn segments_lines(id: Seq<char>, segs: Seq<SegmentView>) -> Seq<Seq<char>>
    decreases segs.len(),
{
    if segs.len() == 0 {
        Seq::empty()
    } else {
        segments_lines(id, segs.drop_last()) + segment_lines(id, segs.last())
    }
}

/// The lines of a source's section.
pub open spec fn section_lines(s: SourceView, t: TranscriptView) -> Seq<Seq<char>> {
    seq![header_line(s), Seq::empty()] + segments_lines(s.id, t.segments)
}

/// The lines between two sections.
pub open spec fn separator_lines() -> Seq<Seq<char>> {
    seq![Seq::empty(), "---"@, Seq::empty()]
}

/// The sections' lines, as `export_sections` chooses the sections.
pub open spec fn section_groups(ss: Seq<SourceView>, ts: Seq<(Seq<char>, TranscriptView)>) -> Seq<Seq<Seq<char>>>
    decreases ss.len(),
{
    if ss.len() == 0 {
        Seq::empty()
    } else {
        let prev = section_groups(ss.drop_last(), ts);
        let s = ss.last();
        if s.transcribed {
            match transcript_for(ts, s.id) {
                Some(t) => prev.push(section_lines(s, t)),
                None => prev,
            }
        } else {
            prev
        }
    }
}

/// Groups of lines, with the separator's lines between them.
pub open spec fn joined_lines(gs: Seq<Seq<Seq<char>>>) -> Seq<Seq<char>>
    decreases gs.len(),
{
    if gs.len() == 0 {
        Seq::empty()
    } else if gs.len() == 1 {
        gs[0]
    } else {
        joined_lines(gs.drop_last()) + separator_lines() + gs.last()
    }
}

/// The lines of a project's export.
pub open spec fn export_lines(ss: Seq<SourceView>, ts: Seq<(Seq<char>, TranscriptView)>) -> Seq<Seq<char>> {
    joined_lines(section_groups(ss, ts))
}

proof fn lemma_segment_block_lines(id: Seq<char>, seg: SegmentView)
    ensures
        segment_block(id, seg) == unlines(segment_lines(id, seg)),
{
    reveal_strlit("\n");
    reveal_strlit("\n\n");
    reveal_strlit(" -->");
    reveal_strlit(" -->\n");
    reveal_strlit(" -->\n\n");
    let ls = segment_lines(id, seg);
    let e = Seq::<char>::empty();
    if seg.words.len() == 0 {
        lemma_unlines_two(seg.text, e);
        assert(unlines(ls) =~= seg.text + "\n\n"@);
    } else {
        let o = open_line(id, seg.words[0].index, seg.words.last().index);
        let c = close_line(id);
        assert(ls =~= seq![o, seg.text].push(c).push(e));
        lemma_unlines_two(o, seg.text);
        lemma_unlines_push(seq![o, seg.text], c);
        lemma_unlines_push(seq![o, seg.text].push(c), e);
        assert(unlines(ls) =~= segment_block(id, seg));
    }
}

proof fn lemma_segment_blocks_lines(id: Seq<char>, segs: Seq<SegmentView>)
    ensures
        segment_blocks(id, segs) == unlines(segments_lines(id, segs)),
    decreases segs.len(),
{
    if segs.len() == 0 {
        assert(segment_blocks(id, segs) =~= unlines(segments_lines(id, segs)));
    } else {
        lemma_segment_blocks_lines(id, segs.drop_last());
        lemma_segment_block_lines(id, segs.last());
        lemma_unlines_add(segments_lines(id, segs.drop_last()), segment_lines(id, segs.last()));
    }
}

proof fn lemma_section_lines(s: SourceView, t: TranscriptView)
    ensures
        source_section(s, t) == unlines(section_lines(s, t)),
{
    reveal_strlit("\n");
    reveal_strlit("\n\n");
    let h = seq![header_line(s), Seq::<char>::empty()];
    lemma_segment_blocks_lines(s.id, t.segments);
    lemma_unlines_add(h, segments_lines(s.id, t.segments));
    lemma_unlines_two(header_line(s), Seq::<char>::empty());
    assert(unlines(h) =~= header_line(s) + "\n\n"@);
    assert(source_section(s, t) =~= unlines(h) + segment_blocks(s.id, t.segments));
}

proof fn lemma_sections_lines(ss: Seq<SourceView>, ts: Seq<(Seq<char>, TranscriptView)>)
    ensures
        export_sections(ss, ts).len() == section_groups(ss, ts).len(),
        forall|i: int| 0 <= i < export_sections(ss, ts).len() ==>
            #[trigger] export_sections(ss, ts)[i] == unlines(section_groups(ss, ts)[i]),
    decreases ss.len(),
{
    if ss.len() > 0 {
        lemma_sections_lines(ss.drop_last(), ts);
        let s = ss.last();
        if s.transcribed {
            match transcript_for(ts, s.id) {
                Some(t) => {
                    lemma_section_lines(s, t);
                },
                None => {},
            }
        }
    }
}

proof fn lemma_join_lines(parts: Seq<Seq<char>>, gs: Seq<Seq<Seq<char>>>)
    requires
        parts.len() == gs.len(),
        forall|i: int| 0 <= i < parts.len() ==> #[trigger] parts[i] == unlines(gs[i]),
    ensures
        join(parts, "\n---\n\n"@) == unlines(joined_lines(gs)),
    decreases gs.len(),
{
    reveal_strlit("\n---\n\n");
    reveal_strlit("---");
    reveal_strlit("\n");
    if gs.len() == 0 {
    } else if gs.len() == 1 {
        assert(parts[0] == unlines(gs[0]));
    } else {
        lemma_join_lines(parts.drop_last(), gs.drop_last());
        let sep = separator_lines();
        lemma_unlines_two(Seq::<char>::empty(), "---"@);
        assert(sep =~= seq![Seq::<char>::empty(), "---"@].push(Seq::<char>::empty()));
        lemma_unlines_push(seq![Seq::<char>::empty(), "---"@], Seq::<char>::empty());
        assert(unlines(sep) =~= "\n---\n\n"@);
        lemma_unlines_add(joined_lines(gs.drop_last()), sep);
        lemma_unlines_add(joined_lines(gs.drop_last()) + sep, gs.last());
        assert(parts.last() == unlines(gs.last()));
    }
}

/// The exported text is the export's lines, each ended by a line feed.
pub proof fn lemma_export_lines(ss: Seq<SourceView>, ts: Seq<(Seq<char>, TranscriptView)>)
    ensures
        export_text(ss, ts) == unlines(export_lines(ss, ts)),
{
    lemma_sections_lines(ss, ts);
    lemma_join_lines(export_sections(ss, ts), section_groups(ss, ts));
}

// ---------------------------------------------------------------------------
// What the reader sees on each line
// ---------------------------------------------------------------------------

/// A text without white space at either end is its own trimming.
proof fn lemma_trimmed_plain(t: Seq<char>)
    requires
        t.len() > 0,
        !is_white_space(t[0]),
        !is_white_space(t.last()),
    ensures
        trimmed(t) == t,
{
    assert(ws_end(t, 0) == 0);
    assert(trim_end_index(t) == t.len());
    assert(t.subrange(0, t.len() as int) =~= t);
}

/// A line not starting with `<` is neither an opening nor a closing
/// annotation.
proof fn lemma_not_a_tag(t: Seq<char>)
    requires
        t.len() == 0 || t[0] != '<',
    ensures
        open_tag(t) is None,
        close_tag(t) is None,
{
    reveal_strlit("<!--");
    if t.len() >= 4 {
        assert(t.subrange(0, 4)[0] == t[0]);
        assert(t.subrange(0, 4) != "<!--"@);
    }
}

/// A blank line is no annotation.
proof fn lemma_blank_line()
    ensures
        trimmed(Seq::<char>::empty()) == Seq::<char>::empty(),
        open_tag(Seq::<char>::empty()) is None,
        close_tag(Seq::<char>::empty()) is None,
{
    assert(trimmed(Seq::<char>::empty()) =~= Seq::<char>::empty());
    lemma_not_a_tag(Seq::<char>::empty());
}

/// The separator's rule is no annotation.
proof fn lemma_rule_line()
    ensures
        trimmed("---"@) == "---"@,
        open_tag("---"@) is None,
        close_tag("---"@) is None,
{
    reveal_strlit("---");
    lemma_trimmed_plain("---"@);
    lemma_not_a_tag("---"@);
}

/// A line starting with `#` is no annotation.
proof fn lemma_hash_line(h: Seq<char>)
    requires
        h.len() > 0,
        h[0] == '#',
    ensures
        quiet(h),
{
    assert(ws_end(h, 0) == 0);
    lemma_trim_end_index(h);
    assert(trim_end_index(h) > 0);
    let t = trimmed(h);
    assert(t == h.subrange(0, trim_end_index(h)));
    assert(t[0] == '#');
    lemma_not_a_tag(t);
}

/// The first `c` at or after `j` is at `m` when `m` is the first such place.
proof fn lemma_find_char_at(t: Seq<char>, j: int, m: int, c: char)
    requires
        0 <= j <= m < t.len(),
        t[m] == c,
        forall|k: int| j <= k < m ==> t[k] != c,
    ensures
        find_char(t, j, c) == m,
    decreases m - j,
{
    if j < m {
        lemma_find_char_at(t, j + 1, m, c);
    }
}

/// The decimal digits from `j` end at `m` when `[j, m)` are ASCII digits
/// and `m` is not a decimal digit.
proof fn lemma_decimals_end_at(t: Seq<char>, j: int, m: int)
    requires
        0 <= j <= m < t.len(),
        !is_decimal(t[m]),
        forall|k: int| j <= k < m ==> is_digit(#[trigger] t[k]),
    ensures
        decimals_end(t, j) == m,
    decreases m - j,
{
    if j < m {
        assert(is_digit(t[j]));
        lemma_decimals_end_at(t, j + 1, m);
    }
}

/// A source identifier that the annotations can carry: not empty, without
/// `:`, `>` or a line feed, and not ending in white space.
pub open spec fn plain_id(id: Seq<char>) -> bool {
    &&& id.len() > 0
    &&& forall|k: int| 0 <= k < id.len() ==> #[trigger] id[k] != ':' && id[k] != '>' && id[k] != '\n'
    &&& !is_white_space(id.last())
}

/// The opening comment of a block reads as an opening annotation of its
/// source and word range.
proof fn lemma_open_line(id: Seq<char>, from: u32, to: u32)
    requires
        plain_id(id),
    ensures
        trimmed(open_line(id, from, to)) == open_line(id, from, to),
        open_tag(open_line(id, from, to)) == Some((id, dec(from as nat), dec(to as nat))),
{
    reveal_strlit("<!-- ar-edit:");
    reveal_strlit(":w");
    reveal_strlit("-w");
    reveal_strlit(" -->");
    reveal_strlit("<!--");
    reveal_strlit("ar-edit:");
    reveal_strlit("-->");
    let df = dec(from as nat);
    let dt = dec(to as nat);
    lemma_dec_digits(from as nat);
    lemma_dec_digits(to as nat);
    crate::text::lemma_dec_len(from as nat);
    crate::text::lemma_dec_len(to as nat);
    let o = open_line(id, from, to);
    let n = id.len() as int;
    let c = 13 + n;
    let d = c + 2 + df.len();
    let e = d + 2 + dt.len();
    assert(o.len() == e + 4);
    assert forall|k: int| 0 <= k < n implies o[13 + k] == #[trigger] id[k] by {}
    assert(o[c] == ':');
    assert(o[c + 1] == 'w');
    assert forall|k: int| 0 <= k < df.len() implies o[c + 2 + k] == #[trigger] df[k] by {}
    assert(o[d] == '-');
    assert(o[d + 1] == 'w');
    assert forall|k: int| 0 <= k < dt.len() implies o[d + 2 + k] == #[trigger] dt[k] by {}
    assert(o[e] == ' ');
    assert(o[e + 1] == '-');
    lemma_trimmed_plain(o);
    assert(o[4] == ' ');
    assert(ws_end(o, 5) == 5);
    assert(ws_end(o, 4) == 5);
    assert forall|k: int| 13 <= k < c implies o[k] != ':' by {
        assert(o[13 + (k - 13)] == id[k - 13]);
    }
    lemma_find_char_at(o, 13, c, ':');
    assert forall|k: int| c + 2 <= k < d implies is_digit(#[trigger] o[k]) by {
        assert(o[c + 2 + (k - c - 2)] == df[k - c - 2]);
    }
    lemma_decimals_end_at(o, c + 2, d);
    assert forall|k: int| d + 2 <= k < e implies is_digit(#[trigger] o[k]) by {
        assert(o[d + 2 + (k - d - 2)] == dt[k - d - 2]);
    }
    lemma_decimals_end_at(o, d + 2, e);
    assert(ws_end(o, e + 1) == e + 1);
    assert(ws_end(o, e) == e + 1);
    assert(o.subrange(0, 4) =~= "<!--"@);
    assert(o.subrange(5, 13) =~= "ar-edit:"@);
    assert(o.subrange(c, c + 2) =~= ":w"@);
    assert(o.subrange(d, d + 2) =~= "-w"@);
    assert(o.subrange(e + 1, e + 4) =~= "-->"@);
    assert(o.subrange(13, c) =~= id);
    assert(o.subrange(c + 2, d) =~= df);
    assert(o.subrange(d + 2, e) =~= dt);
}

/// The closing comment of a block reads as a closing annotation of its
/// source, and not as an opening one.
proof fn lemma_close_line(id: Seq<char>)
    requires
        plain_id(id),
    ensures
        trimmed(close_line(id)) == close_line(id),
        open_tag(close_line(id)) is None,
        close_tag(close_line(id)) == Some(id),
{
    reveal_strlit("<!-- /ar-edit:");
    reveal_strlit(" -->");
    reveal_strlit("<!--");
    reveal_strlit("ar-edit:");
    reveal_strlit("/ar-edit:");
    reveal_strlit("-->");
    let c = close_line(id);
    let n = id.len() as int;
    assert(c.len() == 18 + n);
    assert forall|k: int| 0 <= k < n implies c[14 + k] == #[trigger] id[k] by {}
    assert(c[14 + n] == ' ');
    lemma_trimmed_plain(c);
    assert(c[4] == ' ');
    assert(ws_end(c, 5) == 5);
    assert(ws_end(c, 4) == 5);
    assert(c.subrange(0, 4) =~= "<!--"@);
    assert(c.subrange(5, 13)[0] == '/');
    assert(c.subrange(5, 13) != "ar-edit:"@);
    assert(open_tag(c) is None);
    assert(c.subrange(5, 14) =~= "/ar-edit:"@);
    assert(c.subrange(15 + n, 18 + n) =~= "-->"@);
    let r = c.subrange(14, 15 + n);
    assert(r =~= id.push(' '));
    assert(no_gt(r));
    assert(r.drop_last() =~= id);
    assert(trim_end_index(r) == trim_end_index(id));
    assert(trim_end_index(id) == n);
    assert(r.take(n) =~= id);
}

// ---------------------------------------------------------------------------
// The reader over an export
// ---------------------------------------------------------------------------

/// Whether a line is no annotation once trimmed.
pub open spec fn quiet(t: Seq<char>) -> bool {
    open_tag(trimmed(t)) is None && close_tag(trimmed(t)) is None
}

/// Whether none of `ls` is an annotation once trimmed.
pub open spec fn quiet_lines(ls: Seq<Seq<char>>) -> bool {
    forall|i: int| 0 <= i < ls.len() ==> quiet(#[trigger] ls[i])
}

/// The source and word range of each block.
pub open spec fn block_ranges(bs: Seq<BlockView>) -> Seq<(Seq<char>, u32, u32)> {
    bs.map_values(|b: BlockView| (b.source_id, b.from_word, b.to_word))
}

/// The word range of a segment with word timings (none without).
pub open spec fn segment_range(id: Seq<char>, seg: SegmentView) -> Seq<(Seq<char>, u32, u32)> {
    if seg.words.len() == 0 {
        Seq::empty()
    } else {
        seq![(id, seg.words[0].index, seg.words.last().index)]
    }
}

/// The word ranges of segments `segs` of source `id`.
pub open spec fn segment_ranges(id: Seq<char>, segs: Seq<SegmentView>) -> Seq<(Seq<char>, u32, u32)>
    decreases segs.len(),
{
    if segs.len() == 0 {
        Seq::empty()
    } else {
        segment_ranges(id, segs.drop_last()) + segment_range(id, segs.last())
    }
}

/// The word ranges of the exported segments, in export order.
pub open spec fn exported_ranges(ss: Seq<SourceView>, ts: Seq<(Seq<char>, TranscriptView)>) -> Seq<(Seq<char>, u32, u32)>
    decreases ss.len(),
{
    if ss.len() == 0 {
        Seq::empty()
    } else {
        let prev = exported_ranges(ss.drop_last(), ts);
        let s = ss.last();
        if s.transcribed {
            match transcript_for(ts, s.id) {
                Some(t) => prev + segment_ranges(s.id, t.segments),
                None => prev,
            }
        } else {
            prev
        }
    }
}

/// A segment whose block reads back: no line of its text is an annotation,
/// and its first word comes no later than its last.
pub open spec fn readable_segment(seg: SegmentView) -> bool {
    &&& quiet_lines(lines_of(seg.text))
    &&& seg.words.len() > 0 ==> seg.words[0].index <= seg.words.last().index
}

/// A section that reads back: its source identifier can be carried by the
/// annotations, no line of its file name after the first (which shares the
/// header's line) is an annotation, and each segment reads back.
pub open spec fn readable_section(s: SourceView, t: TranscriptView) -> bool {
    &&& plain_id(s.id)
    &&& quiet_lines(lines_of(s.original_filename).drop_first())
    &&& forall|i: int| 0 <= i < t.segments.len() ==> readable_segment(#[trigger] t.segments[i])
}

/// Every section of the export reads back.
pub open spec fn export_readable(ss: Seq<SourceView>, ts: Seq<(Seq<char>, TranscriptView)>) -> bool {
    forall|i: int|
        0 <= i < ss.len() && (#[trigger] ss[i]).transcribed && transcript_for(ts, ss[i].id) is Some
            ==> readable_section(ss[i], transcript_for(ts, ss[i].id).unwrap())
}

/// No block is open and no problem was found.
pub open spec fn clean(st: StrictView) -> bool {
    st.pending is None && st.errors.len() == 0
}

proof fn lemma_single_add(a: Seq<char>, b: Seq<char>)
    requires
        single_line(a),
        single_line(b),
    ensures
        single_line(a + b),
{
    assert forall|k: int| 0 <= k < (a + b).len() implies (a + b)[k] != '\n' by {
        if k >= a.len() {
            assert((a + b)[k] == b[k - a.len()]);
        }
    }
}

proof fn lemma_single_dec(n: nat)
    ensures
        single_line(dec(n)),
{
    lemma_dec_digits(n);
    assert forall|k: int| 0 <= k < dec(n).len() implies dec(n)[k] != '\n' by {
        assert(is_digit(dec(n)[k]));
    }
}

proof fn lemma_open_single(id: Seq<char>, from: u32, to: u32)
    requires
        plain_id(id),
    ensures
        single_line(open_line(id, from, to)),
{
    reveal_strlit("<!-- ar-edit:");
    reveal_strlit(":w");
    reveal_strlit("-w");
    reveal_strlit(" -->");
    assert(single_line("<!-- ar-edit:"@));
    assert(single_line(":w"@));
    assert(single_line("-w"@));
    assert(single_line(" -->"@));
    assert(single_line(id));
    lemma_single_dec(from as nat);
    lemma_single_dec(to as nat);
    lemma_single_add("<!-- ar-edit:"@, id);
    lemma_single_add("<!-- ar-edit:"@ + id, ":w"@);
    lemma_single_add("<!-- ar-edit:"@ + id + ":w"@, dec(from as nat));
    lemma_single_add("<!-- ar-edit:"@ + id + ":w"@ + dec(from as nat), "-w"@);
    lemma_single_add("<!-- ar-edit:"@ + id + ":w"@ + dec(from as nat) + "-w"@, dec(to as nat));
    lemma_single_add("<!-- ar-edit:"@ + id + ":w"@ + dec(from as nat) + "-w"@ + dec(to as nat), " -->"@);
}

proof fn lemma_close_single(id: Seq<char>)
    requires
        plain_id(id),
    ensures
        single_line(close_line(id)),
{
    reveal_strlit("<!-- /ar-edit:");
    reveal_strlit(" -->");
    assert(single_line("<!-- /ar-edit:"@));
    assert(single_line(" -->"@));
    assert(single_line(id));
    lemma_single_add("<!-- /ar-edit:"@, id);
    lemma_single_add("<!-- /ar-edit:"@ + id, " -->"@);
}

/// The lines a text makes with its line feed are its lines, and perhaps an
/// empty one; so they are quiet when its lines are.
proof fn lemma_pieces_quiet(t: Seq<char>)
    requires
        quiet_lines(lines_of(t)),
    ensures
        quiet_lines(pieces(t)),
{
    lemma_pieces_shape(t);
    lemma_blank_line();
    let (d, c) = lines_acc(t);
    assert forall|i: int| 0 <= i < pieces(t).len() implies quiet(#[trigger] pieces(t)[i]) by {
        if i < d.len() {
            assert(pieces(t)[i] == lines_of(t)[i]);
        } else if c.len() > 0 {
            assert(pieces(t)[i] == lines_of(t)[i]);
        } else {
            assert(pieces(t)[i] =~= Seq::<char>::empty());
        }
    }
}

proof fn lemma_run_push(ls: Seq<Seq<char>>, l: Seq<char>)
    ensures
        strict_run(ls.push(l)) == strict_step(strict_run(ls), ls.len() + 1int, trimmed(l)),
{
    assert(ls.push(l).drop_last() =~= ls);
}

/// Lines that are no annotations change nothing.
proof fn lemma_quiet_run(ls: Seq<Seq<char>>, ps: Seq<Seq<char>>)
    requires
        quiet_lines(ps),
    ensures
        strict_run(ls + ps) == strict_run(ls),
    decreases ps.len(),
{
    if ps.len() == 0 {
        assert(ls + ps =~= ls);
    } else {
        let p = ps.drop_last();
        assert(quiet_lines(p)) by {
            assert forall|i: int| 0 <= i < p.len() implies quiet(#[trigger] p[i]) by {
                assert(p[i] == ps[i]);
            }
        }
        lemma_quiet_run(ls, p);
        assert(quiet(ps[ps.len() - 1]));
        assert(ls + ps =~= (ls + p).push(ps.last()));
        lemma_run_push(ls + p, ps.last());
    }
}

proof fn lemma_flat_push(ls: Seq<Seq<char>>, l: Seq<char>)
    ensures
        flat_lines(ls.push(l)) == flat_lines(ls) + pieces(l),
{
    assert(ls.push(l).drop_last() =~= ls);
}

proof fn lemma_segment_run(ls: Seq<Seq<char>>, id: Seq<char>, seg: SegmentView)
    requires
        clean(strict_run(ls)),
        plain_id(id),
        readable_segment(seg),
    ensures
        clean(strict_run(ls + flat_lines(segment_lines(id, seg)))),
        block_ranges(strict_run(ls + flat_lines(segment_lines(id, seg))).blocks)
            == block_ranges(strict_run(ls).blocks) + segment_range(id, seg),
{
    let e = Seq::<char>::empty();
    lemma_blank_line();
    assert(single_line(e));
    lemma_pieces_single(e);
    lemma_pieces_quiet(seg.text);
    let pt = pieces(seg.text);
    let st0 = strict_run(ls);
    let z = Seq::<Seq<char>>::empty();
    if seg.words.len() == 0 {
        assert(segment_lines(id, seg) =~= z.push(seg.text).push(e));
        lemma_flat_push(z, seg.text);
        lemma_flat_push(z.push(seg.text), e);
        assert(flat_lines(z) =~= z);
        assert(ls + flat_lines(segment_lines(id, seg)) =~= (ls + pt).push(e));
        lemma_quiet_run(ls, pt);
        lemma_run_push(ls + pt, e);
        assert(block_ranges(st0.blocks) + segment_range(id, seg) =~= block_ranges(st0.blocks));
    } else {
        let from = seg.words[0].index;
        let to = seg.words.last().index;
        let o = open_line(id, from, to);
        let c = close_line(id);
        lemma_open_single(id, from, to);
        lemma_close_single(id);
        lemma_pieces_single(o);
        lemma_pieces_single(c);
        assert(segment_lines(id, seg) =~= z.push(o).push(seg.text).push(c).push(e));
        lemma_flat_push(z, o);
        lemma_flat_push(z.push(o), seg.text);
        lemma_flat_push(z.push(o).push(seg.text), c);
        lemma_flat_push(z.push(o).push(seg.text).push(c), e);
        assert(flat_lines(z) =~= z);
        let l1 = ls.push(o);
        let l2 = l1 + pt;
        let l3 = l2.push(c);
        assert(ls + flat_lines(segment_lines(id, seg)) =~= l3.push(e));
        lemma_open_line(id, from, to);
        lemma_dec_digits(from as nat);
        lemma_dec_digits(to as nat);
        assert(u32_value(dec(from as nat)) == Some(from));
        assert(u32_value(dec(to as nat)) == Some(to));
        lemma_run_push(ls, o);
        let b = BlockView { source_id: id, from_word: from, to_word: to, open_line: ls.len() + 1int };
        assert(strict_run(l1) == StrictView { pending: Some(b), blocks: st0.blocks, errors: st0.errors });
        lemma_quiet_run(l1, pt);
        lemma_close_line(id);
        lemma_run_push(l2, c);
        assert(strict_run(l3) == StrictView { pending: None, blocks: st0.blocks.push(b), errors: st0.errors });
        lemma_run_push(l3, e);
        assert(block_ranges(st0.blocks.push(b)) =~= block_ranges(st0.blocks) + segment_range(id, seg));
    }
}

proof fn lemma_segments_run(ls: Seq<Seq<char>>, id: Seq<char>, segs: Seq<SegmentView>)
    requires
        clean(strict_run(ls)),
        plain_id(id),
        forall|i: int| 0 <= i < segs.len() ==> readable_segment(#[trigger] segs[i]),
    ensures
        clean(strict_run(ls + flat_lines(segments_lines(id, segs)))),
        block_ranges(strict_run(ls + flat_lines(segments_lines(id, segs))).blocks)
            == block_ranges(strict_run(ls).blocks) + segment_ranges(id, segs),
    decreases segs.len(),
{
    if segs.len() == 0 {
        assert(flat_lines(segments_lines(id, segs)) =~= Seq::<Seq<char>>::empty());
        assert(ls + flat_lines(segments_lines(id, segs)) =~= ls);
        assert(block_ranges(strict_run(ls).blocks) + segment_ranges(id, segs) =~= block_ranges(strict_run(ls).blocks));
    } else {
        let p = segs.drop_last();
        assert forall|i: int| 0 <= i < p.len() implies readable_segment(#[trigger] p[i]) by {
            assert(p[i] == segs[i]);
        }
        lemma_segments_run(ls, id, p);
        assert(readable_segment(segs[segs.len() - 1]));
        let m = ls + flat_lines(segments_lines(id, p));
        lemma_segment_run(m, id, segs.last());
        lemma_flat_add(segments_lines(id, p), segment_lines(id, segs.last()));
        assert(ls + flat_lines(segments_lines(id, segs)) =~= m + flat_lines(segment_lines(id, segs.last())));
        assert(block_ranges(strict_run(ls).blocks) + segment_ranges(id, p) + segment_range(id, segs.last())
            =~= block_ranges(strict_run(ls).blocks) + segment_ranges(id, segs));
    }
}

/// The header's lines: its first, which starts with `#`, then the lines of
/// the file name after its first.
proof fn lemma_header_quiet(s: SourceView)
    requires
        readable_section_header(s),
    ensures
        quiet_lines(pieces(header_line(s))),
{
    reveal_strlit("# Source: ");
    reveal_strlit(" — ");
    let pre = "# Source: "@ + s.id + " — "@;
    let name = s.original_filename;
    assert(single_line("# Source: "@));
    assert(single_line(" — "@));
    assert(single_line(s.id));
    lemma_single_add("# Source: "@, s.id);
    lemma_single_add("# Source: "@ + s.id, " — "@);
    let e = Seq::<char>::empty();
    assert(lines_acc(e) == (Seq::<Seq<char>>::empty(), e));
    lemma_acc_line(e, pre);
    assert(e + pre =~= pre);
    let y = name + "\n"@;
    lemma_pieces_shape(name);
    lemma_acc_append(pre, y);
    assert(header_line(s) + "\n"@ =~= pre + y);
    let pn = pieces(name);
    lemma_pieces_quiet_tail(name);
    assert(pieces(header_line(s)) =~= seq![pre + pn[0]] + pn.drop_first());
    assert((pre + pn[0])[0] == '#');
    lemma_hash_line(pre + pn[0]);
    assert forall|i: int| 0 <= i < pieces(header_line(s)).len() implies quiet(#[trigger] pieces(header_line(s))[i]) by {
        if i > 0 {
            assert(pieces(header_line(s))[i] == pn.drop_first()[i - 1]);
        }
    }
}

/// The header part of `readable_section`.
pub open spec fn readable_section_header(s: SourceView) -> bool {
    plain_id(s.id) && quiet_lines(lines_of(s.original_filename).drop_first())
}

/// The lines a text makes with its line feed, after the first, are quiet
/// when its lines after the first are.
proof fn lemma_pieces_quiet_tail(t: Seq<char>)
    requires
        quiet_lines(lines_of(t).drop_first()),
    ensures
        quiet_lines(pieces(t).drop_first()),
{
    lemma_pieces_shape(t);
    lemma_blank_line();
    let (d, c) = lines_acc(t);
    let p = pieces(t);
    assert forall|i: int| 0 <= i < p.drop_first().len() implies quiet(#[trigger] p.drop_first()[i]) by {
        let k = i + 1;
        assert(p.drop_first()[i] == p[k]);
        if k < d.len() || c.len() > 0 {
            assert(p[k] == lines_of(t)[k]);
            assert(lines_of(t).drop_first()[i] == lines_of(t)[k]);
        } else {
            assert(p[k] =~= Seq::<char>::empty());
        }
    }
}

proof fn lemma_section_run(ls: Seq<Seq<char>>, s: SourceView, t: TranscriptView)
    requires
        clean(strict_run(ls)),
        readable_section(s, t),
    ensures
        clean(strict_run(ls + flat_lines(section_lines(s, t)))),
        block_ranges(strict_run(ls + flat_lines(section_lines(s, t))).blocks)
            == block_ranges(strict_run(ls).blocks) + segment_ranges(s.id, t.segments),
{
    let e = Seq::<char>::empty();
    let h = header_line(s);
    let z = Seq::<Seq<char>>::empty();
    lemma_header_quiet(s);
    lemma_blank_line();
    assert(single_line(e));
    lemma_pieces_single(e);
    let hs = seq![h, e];
    assert(hs =~= z.push(h).push(e));
    lemma_flat_push(z, h);
    lemma_flat_push(z.push(h), e);
    assert(flat_lines(z) =~= z);
    lemma_flat_add(hs, segments_lines(s.id, t.segments));
    let ph = pieces(h);
    lemma_quiet_run(ls, ph);
    lemma_run_push(ls + ph, e);
    let m = (ls + ph).push(e);
    assert(ls + flat_lines(section_lines(s, t)) =~= m + flat_lines(segments_lines(s.id, t.segments)));
    lemma_segments_run(m, s.id, t.segments);
}

proof fn lemma_separator_run(ls: Seq<Seq<char>>)
    ensures
        strict_run(ls + flat_lines(separator_lines())) == strict_run(ls),
{
    reveal_strlit("---");
    let e = Seq::<char>::empty();
    let z = Seq::<Seq<char>>::empty();
    lemma_blank_line();
    lemma_rule_line();
    assert(single_line(e));
    assert(single_line("---"@));
    lemma_pieces_single(e);
    lemma_pieces_single("---"@);
    assert(separator_lines() =~= z.push(e).push("---"@).push(e));
    lemma_flat_push(z, e);
    lemma_flat_push(z.push(e), "---"@);
    lemma_flat_push(z.push(e).push("---"@), e);
    assert(flat_lines(z) =~= z);
    let ps = flat_lines(separator_lines());
    assert(ps =~= seq![e, "---"@, e]);
    assert(quiet_lines(ps));
    lemma_quiet_run(ls, ps);
}

proof fn lemma_export_run(ss: Seq<SourceView>, ts: Seq<(Seq<char>, TranscriptView)>)
    requires
        export_readable(ss, ts),
    ensures
        clean(strict_run(flat_lines(export_lines(ss, ts)))),
        block_ranges(strict_run(flat_lines(export_lines(ss, ts))).blocks) == exported_ranges(ss, ts),
    decreases ss.len(),
{
    if ss.len() == 0 {
        assert(export_lines(ss, ts) =~= Seq::<Seq<char>>::empty());
        assert(flat_lines(export_lines(ss, ts)) =~= Seq::<Seq<char>>::empty());
        assert(block_ranges(strict_run(flat_lines(export_lines(ss, ts))).blocks) =~= exported_ranges(ss, ts));
    } else {
        let p = ss.drop_last();
        assert(export_readable(p, ts)) by {
            assert forall|i: int|
                0 <= i < p.len() && (#[trigger] p[i]).transcribed && transcript_for(ts, p[i].id) is Some
                implies readable_section(p[i], transcript_for(ts, p[i].id).unwrap()) by {
                assert(p[i] == ss[i]);
            }
        }
        lemma_export_run(p, ts);
        let g = section_groups(p, ts);
        let s = ss.last();
        assert(s == ss[ss.len() - 1]);
        if s.transcribed {
            match transcript_for(ts, s.id) {
                Some(t) => {
                    let gs = g.push(section_lines(s, t));
                    assert(section_groups(ss, ts) == gs);
                    assert(readable_section(s, t));
                    let z = Seq::<Seq<char>>::empty();
                    if g.len() == 0 {
                        assert(joined_lines(gs) == section_lines(s, t));
                        assert(joined_lines(g) =~= z);
                        assert(flat_lines(z) =~= z);
                        assert(z + flat_lines(section_lines(s, t)) =~= flat_lines(section_lines(s, t)));
                        lemma_section_run(z, s, t);
                    } else {
                        assert(gs.drop_last() =~= g);
                        assert(joined_lines(gs) == joined_lines(g) + separator_lines() + section_lines(s, t));
                        lemma_flat_add(joined_lines(g), separator_lines());
                        lemma_flat_add(joined_lines(g) + separator_lines(), section_lines(s, t));
                        let a = flat_lines(joined_lines(g));
                        lemma_separator_run(a);
                        lemma_section_run(a + flat_lines(separator_lines()), s, t);
                    }
                },
                None => {},
            }
        }
    }
}

// ---------------------------------------------------------------------------
// The laws
// ---------------------------------------------------------------------------

/// Reading back an export: the strict annotation reader finds no problem in
/// the markdown that `export_editable` writes, and its blocks are, in order,
/// the exported segments that have word timings, each naming its source and
/// its first and last word. This holds when every exported source
/// identifier can be carried by an annotation (not empty, without `:`, `>`
/// or a line feed, not ending in white space), no line of a segment's text
/// and no line of a file name after its first (which shares the header's
/// line) reads as an annotation, and each segment's first word comes no
/// later than its last. Texts and names may run over several lines.
pub proof fn law_export_reads_back(ss: Seq<SourceView>, ts: Seq<(Seq<char>, TranscriptView)>)
    requires
        export_readable(ss, ts),
    ensures
        strict_parse(export_text(ss, ts)).1.len() == 0,
        block_ranges(strict_parse(export_text(ss, ts)).0) == exported_ranges(ss, ts),
{
    lemma_export_lines(ss, ts);
    lemma_lines_of_unlines(export_lines(ss, ts));
    lemma_export_run(ss, ts);
}

/// Importing an export: when the export reads back (see
/// `law_export_reads_back`) and every exported segment spans more than one
/// word, the edit built from the exported markdown holds one shot per
/// exported segment with word timings, in order, over that segment's source
/// and words.
pub proof fn law_export_imports_back(
    ss: Seq<SourceView>,
    ts: Seq<(Seq<char>, TranscriptView)>,
    name: Seq<char>,
    r: Result<EditDocument, ImportError>,
)
    requires
        export_readable(ss, ts),
        forall|i: int| 0 <= i < exported_ranges(ss, ts).len() ==>
            (#[trigger] exported_ranges(ss, ts)[i]).1 < exported_ranges(ss, ts)[i].2,
        imported(strict_parse(export_text(ss, ts)).0, strict_parse(export_text(ss, ts)).1, name, r),
    ensures
        r matches Ok(doc) && doc@.shots.len() == exported_ranges(ss, ts).len() && forall|i: int|
            0 <= i < doc@.shots.len() ==> (#[trigger] doc@.shots[i]).source == exported_ranges(ss, ts)[i].0
                && doc@.shots[i].range == (ShotRange::Words {
                    from: exported_ranges(ss, ts)[i].1,
                    to: exported_ranges(ss, ts)[i].2,
                }),
{
    law_export_reads_back(ss, ts);
    let bs = strict_parse(export_text(ss, ts)).0;
    let rs = exported_ranges(ss, ts);
    assert(block_ranges(bs).len() == bs.len());
    assert forall|i: int| 0 <= i < bs.len() implies bs[i].from_word < bs[i].to_word by {
        assert(block_ranges(bs)[i] == rs[i]);
    }
    assert(!has_single_word(bs));
    assert forall|i: int| 0 <= i < bs.len() implies #[trigger] bs[i].source_id == rs[i].0
        && bs[i].from_word == rs[i].1 && bs[i].to_word == rs[i].2 by {
        assert(block_ranges(bs)[i] == rs[i]);
    }
}

} // verus!
