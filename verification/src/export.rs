//! Exporting the project's transcripts as annotated markdown that can be
//! edited as text and read back as an edit.
use vstd::prelude::*;
use crate::models::{Manifest, SegmentView, SourceView, Transcript, TranscriptView};
use crate::import::{transcript_for, transcripts_view};
use crate::text::{push_str, push_dec, owned, dec, join, strings_view, join_strings, str_eq};

verus! {

broadcast use vstd::string::group_string_axioms;

/// The block of one segment: the segment's text between the comments that
/// name its source and its first and last word indices; a segment without
/// word timings is written as plain text.
pub open spec fn segment_block(id: Seq<char>, seg: SegmentView) -> Seq<char> {
    if seg.words.len() == 0 {
        seg.text + "\n\n"@
    } else {
        "<!-- ar-edit:"@ + id + ":w"@ + dec(seg.words[0].index as nat) + "-w"@ + dec(seg.words.last().index as nat) + " -->\n"@
            + seg.text + "\n"@ + "<!-- /ar-edit:"@ + id + " -->\n\n"@
    }
}

/// The blocks of the first `n` segments.
pub open spec fn segment_blocks(id: Seq<char>, segs: Seq<SegmentView>) -> Seq<char>
    decreases segs.len(),
{
    if segs.len() == 0 {
        Seq::empty()
    } else {
        segment_blocks(id, segs.drop_last()) + segment_block(id, segs.last())
    }
}

/// The section of one source: its header, then its segments' blocks.
pub open spec fn source_section(s: SourceView, t: TranscriptView) -> Seq<char> {
    "# Source: "@ + s.id + " — "@ + s.original_filename + "\n\n"@ + segment_blocks(s.id, t.segments)
}

/// The sections of the transcribed sources whose transcript could be read,
/// in manifest order.
pub open spec fn export_sections(ss: Seq<SourceView>, ts: Seq<(Seq<char>, TranscriptView)>) -> Seq<Seq<char>>
    decreases ss.len(),
{
    if ss.len() == 0 {
        Seq::empty()
    } else {
        let prev = export_sections(ss.drop_last(), ts);
        let s = ss.last();
        if s.transcribed {
            match transcript_for(ts, s.id) {
                Some(t) => prev.push(source_section(s, t)),
                None => prev,
            }
        } else {
            prev
        }
    }
}

/// The annotated markdown of a project: the sections separated by `---`
/// rules.
pub open spec fn export_text(ss: Seq<SourceView>, ts: Seq<(Seq<char>, TranscriptView)>) -> Seq<char> {
    join(export_sections(ss, ts), "\n---\n\n"@)
}

/// Appends the block of one segment.
fn push_segment_block(out: &mut String, id: &str, seg: &crate::models::TranscriptSegment)
    ensures
        final(out)@ == old(out)@ + segment_block(id@, seg@),
{
    if seg.words.len() == 0 {
        push_str(out, seg.text.as_str());
        push_str(out, "\n\n");
    } else {
        assert(seg@.words[0] == seg.words@[0]@);
        assert(seg@.words.last() == seg.words@[seg.words.len() - 1]@);
        push_str(out, "<!-- ar-edit:");
        push_str(out, id);
        push_str(out, ":w");
        push_dec(out, seg.words[0].index as u64);
        push_str(out, "-w");
        push_dec(out, seg.words[seg.words.len() - 1].index as u64);
        push_str(out, " -->\n");
        push_str(out, seg.text.as_str());
        push_str(out, "\n");
        push_str(out, "<!-- /ar-edit:");
        push_str(out, id);
        push_str(out, " -->\n\n");
    }
}

/// The section of one source (see `source_section`).
fn section_text(s: &crate::models::Source, t: &Transcript) -> (r: String)
    ensures
        r@ == source_section(s@, t@),
{
    let mut out = owned("# Source: ");
    push_str(&mut out, s.id.as_str());
    push_str(&mut out, " — ");
    push_str(&mut out, s.original_filename.as_str());
    push_str(&mut out, "\n\n");
    let ghost head = out@;
    let ghost segs = t@.segments;
    let mut i: usize = 0;
    assert(segs.take(0) =~= Seq::<SegmentView>::empty());
    while i < t.segments.len()
        invariant
            i <= t.segments.len(),
            segs == t@.segments,
            segs.len() == t.segments.len(),
            out@ == head + segment_blocks(s@.id, segs.take(i as int)),
        decreases t.segments.len() - i,
    {
        assert(segs.take(i + 1).drop_last() =~= segs.take(i as int));
        assert(segs.take(i + 1).last() == t.segments@[i as int]@);
        push_segment_block(&mut out, s.id.as_str(), &t.segments[i]);
        i += 1;
    }
    assert(segs.take(t.segments.len() as int) =~= segs);
    out
}

/// Exports the transcripts of a project as annotated markdown: one section
/// per transcribed source whose transcript could be read (`transcripts`,
/// looked up by the id of the source it was read for), headed `# Source: <id> — <file>`, with each
/// segment between comments naming its source and word range, and `---`
/// between sections.
pub fn export_editable(manifest: &Manifest, transcripts: &Vec<(String, Transcript)>) -> (r: String)
    ensures
        r@ == export_text(manifest@, transcripts_view(transcripts@)),
{
    let ghost ss = manifest@;
    let ghost tv = transcripts_view(transcripts@);
    let mut sections: Vec<String> = Vec::new();
    let mut i: usize = 0;
    assert(ss.take(0) =~= Seq::<SourceView>::empty());
    assert(strings_view(sections@) =~= Seq::<Seq<char>>::empty());
    while i < manifest.sources.len()
        invariant
            i <= manifest.sources.len(),
            ss == manifest@,
            ss.len() == manifest.sources.len(),
            tv == transcripts_view(transcripts@),
            strings_view(sections@) == export_sections(ss.take(i as int), tv),
        decreases manifest.sources.len() - i,
    {
        let s = &manifest.sources[i];
        assert(ss[i as int] == s@);
        assert(ss.take(i + 1).drop_last() =~= ss.take(i as int));
        if s.transcribed {
            match crate::import::transcript_named(transcripts, s.id.as_str()) {
                Some(t) => {
                    let ghost before = strings_view(sections@);
                    sections.push(section_text(s, t));
                    assert(strings_view(sections@) =~= before.push(source_section(s@, t@)));
                },
                None => {},
            }
        }
        i += 1;
    }
    assert(ss.take(manifest.sources.len() as int) =~= ss);
    join_strings(&sections, "\n---\n\n")
}

} // verus!
