//! Checking an edit against the project: every shot's source must exist, its
//! range must run forward and not be empty, and it must stay within the
//! source's words, scenes or duration.
use vstd::prelude::*;
use crate::models::{EditDocument, Manifest, ShotRange, ShotView, Source, SourceView};
use crate::display::{SourceData, SourceDataView, data_for, data_view, lookup_source};
use crate::edit::range_ends;
use crate::text::{push_str, push_dec, owned, copy_string, dec, str_eq};

verus! {

broadcast use vstd::string::group_string_axioms;

/// One problem with one shot.
#[derive(Debug, Clone, PartialEq)]
pub struct ValidationError {
    pub shot_id: String,
    pub error: String,
}

/// The outcome of validating an edit: valid exactly when nothing is wrong.
#[derive(Debug, Clone, PartialEq)]
pub struct ValidationResult {
    pub valid: bool,
    pub errors: Vec<ValidationError>,
}

/// The views of a list of validation errors: (shot id, message) pairs.
pub open spec fn verrors_view(v: Seq<ValidationError>) -> Seq<(Seq<char>, Seq<char>)> {
    v.map_values(|e: ValidationError| (e.shot_id@, e.error@))
}

/// The views of a list of messages.
pub open spec fn messages_view(v: Seq<String>) -> Seq<Seq<char>> {
    v.map_values(|s: String| s@)
}

/// The first source of the manifest with the given id.
pub open spec fn source_for(ss: Seq<SourceView>, id: Seq<char>) -> Option<SourceView>
    decreases ss.len(),
{
    if ss.len() == 0 {
        None
    } else if ss[0].id == id {
        Some(ss[0])
    } else {
        source_for(ss.drop_first(), id)
    }
}

pub open spec fn msg_missing_source(id: Seq<char>) -> Seq<char> {
    "source '"@ + id + "' not found in project"@
}

pub open spec fn msg_exceeds(what: Seq<char>, i: nat, limit_name: Seq<char>, limit: nat, src: Seq<char>) -> Seq<char> {
    what + dec(i) + " exceeds "@ + limit_name + " "@ + dec(limit) + " for "@ + src
}

pub open spec fn msg_time_exceeds(t: nat, dur: nat, src: Seq<char>) -> Seq<char> {
    "time "@ + dec(t) + "ms exceeds duration "@ + dec(dur) + "ms for "@ + src
}

/// `[m]` when `b`, otherwise nothing.
pub open spec fn when(b: bool, m: Seq<char>) -> Seq<Seq<char>> {
    if b { seq![m] } else { Seq::empty() }
}

/// What is wrong with `range` on source `src`, given the source's loaded
/// transcript and index: a word range needs a transcribed source and word
/// indices below its word count (when the transcript could be read); a
/// scene range needs an indexed source and scene indices below its scene
/// count (when the index could be read); a time range must stay within the
/// source's duration.
pub open spec fn range_messages(range: ShotRange, src: SourceView, ds: Seq<SourceDataView>) -> Seq<Seq<char>> {
    match range {
        ShotRange::Words { from, to } => if !src.transcribed {
            seq!["source '"@ + src.id + "' has no transcript; cannot use word range"@]
        } else {
            match data_for(ds, src.id).0 {
                Some(t) => when(from >= t.word_count, msg_exceeds("word index "@, from as nat, "word_count"@, t.word_count as nat, src.id))
                    + when(to >= t.word_count, msg_exceeds("word index "@, to as nat, "word_count"@, t.word_count as nat, src.id)),
                None => Seq::empty(),
            }
        },
        ShotRange::Scenes { from, to } => if !src.indexed {
            seq!["source '"@ + src.id + "' has no scene index; cannot use scene range"@]
        } else {
            match data_for(ds, src.id).1 {
                Some(x) => when(from >= x.scene_count, msg_exceeds("scene index "@, from as nat, "scene_count"@, x.scene_count as nat, src.id))
                    + when(to >= x.scene_count, msg_exceeds("scene index "@, to as nat, "scene_count"@, x.scene_count as nat, src.id)),
                None => Seq::empty(),
            }
        },
        ShotRange::Time { from_ms, to_ms } => when(from_ms > src.duration_ms, msg_time_exceeds(from_ms as nat, src.duration_ms as nat, src.id))
            + when(to_ms > src.duration_ms, msg_time_exceeds(to_ms as nat, src.duration_ms as nat, src.id)),
    }
}

/// What is wrong with a source and range: the source must exist, then see
/// `range_messages`.
pub open spec fn source_messages(id: Seq<char>, range: ShotRange, ss: Seq<SourceView>, ds: Seq<SourceDataView>) -> Seq<Seq<char>> {
    match source_for(ss, id) {
        None => seq![msg_missing_source(id)],
        Some(src) => range_messages(range, src, ds),
    }
}

/// What is wrong with the order of a shot's range: it must run forward and
/// not be empty.
pub open spec fn order_messages(shot: ShotView) -> Seq<Seq<char>> {
    let (f, t) = range_ends(shot.range);
    if f > t {
        seq!["from ("@ + dec(f as nat) + ") must be <= to ("@ + dec(t as nat) + ") in "@ + shot.id]
    } else if f == t {
        seq![shot.id + " has zero duration"@]
    } else {
        Seq::empty()
    }
}

/// Every problem with one shot, each tagged with the shot's id: a missing
/// source alone, or else the order problems followed by the range problems.
pub open spec fn shot_problems(shot: ShotView, ss: Seq<SourceView>, ds: Seq<SourceDataView>) -> Seq<(Seq<char>, Seq<char>)> {
    let ms = match source_for(ss, shot.source) {
        None => seq![msg_missing_source(shot.source)],
        Some(src) => order_messages(shot) + range_messages(shot.range, src, ds),
    };
    ms.map_values(|m: Seq<char>| (shot.id, m))
}

/// Every problem with every shot, in timeline order.
pub open spec fn edit_problems(shots: Seq<ShotView>, ss: Seq<SourceView>, ds: Seq<SourceDataView>) -> Seq<(Seq<char>, Seq<char>)>
    decreases shots.len(),
{
    if shots.len() == 0 {
        Seq::empty()
    } else {
        edit_problems(shots.drop_last(), ss, ds) + shot_problems(shots.last(), ss, ds)
    }
}

/// For an edit of one shot, `validate` reports under the shot's id exactly
/// the problems that `validate_shot_source` finds for the shot's source and
/// range, preceded, when the source exists, by the order problems of the
/// range.
pub proof fn law_validate_one_shot(shot: ShotView, ss: Seq<SourceView>, ds: Seq<SourceDataView>)
    ensures
        edit_problems(seq![shot], ss, ds) == (if source_for(ss, shot.source) is Some {
            order_messages(shot) + source_messages(shot.source, shot.range, ss, ds)
        } else {
            source_messages(shot.source, shot.range, ss, ds)
        }).map_values(|m: Seq<char>| (shot.id, m)),
{
    assert(seq![shot].drop_last() =~= Seq::<ShotView>::empty());
    assert(edit_problems(Seq::<ShotView>::empty(), ss, ds) =~= Seq::empty());
    assert(edit_problems(seq![shot], ss, ds) =~= shot_problems(shot, ss, ds));
}

/// The first source of the manifest with the given id.
pub(crate) fn find_source<'a>(manifest: &'a Manifest, id: &str) -> (r: Option<&'a Source>)
    ensures
        match r {
            Some(s) => source_for(manifest@, id@) == Some(s@),
            None => source_for(manifest@, id@) is None,
        },
{
    let ghost sv = manifest@;
    let mut i: usize = 0;
    assert(sv.skip(0) =~= sv);
    while i < manifest.sources.len()
        invariant
            i <= manifest.sources.len(),
            sv == manifest@,
            sv.len() == manifest.sources.len(),
            source_for(sv, id@) == source_for(sv.skip(i as int), id@),
        decreases manifest.sources.len() - i,
    {
        assert(sv.skip(i as int)[0] == manifest.sources@[i as int]@);
        assert(sv.skip(i as int).drop_first() =~= sv.skip(i + 1));
        if str_eq(manifest.sources[i].id.as_str(), id) {
            return Some(&manifest.sources[i]);
        }
        i += 1;
    }
    None
}

/// `<what><i> exceeds <limit_name> <limit> for <src>`.
fn exceeds_message(what: &str, i: u64, limit_name: &str, limit: u64, src: &str) -> (r: String)
    ensures
        r@ == msg_exceeds(what@, i as nat, limit_name@, limit as nat, src@),
{
    proof {
        reveal_strlit(" exceeds ");
        reveal_strlit(" ");
        reveal_strlit(" for ");
    }
    let mut r = owned(what);
    push_dec(&mut r, i);
    push_str(&mut r, " exceeds ");
    push_str(&mut r, limit_name);
    push_str(&mut r, " ");
    push_dec(&mut r, limit);
    push_str(&mut r, " for ");
    push_str(&mut r, src);
    r
}

/// `time <t>ms exceeds duration <dur>ms for <src>`.
fn time_message(t: u64, dur: u64, src: &str) -> (r: String)
    ensures
        r@ == msg_time_exceeds(t as nat, dur as nat, src@),
{
    proof {
        reveal_strlit("time ");
        reveal_strlit("ms exceeds duration ");
        reveal_strlit("ms for ");
    }
    let mut r = owned("time ");
    push_dec(&mut r, t);
    push_str(&mut r, "ms exceeds duration ");
    push_dec(&mut r, dur);
    push_str(&mut r, "ms for ");
    push_str(&mut r, src);
    r
}

/// Appends the range problems of `range` on source `src` (see
/// `range_messages`).
fn push_range_messages(out: &mut Vec<String>, range: &ShotRange, src: &Source, data: &Vec<SourceData>)
    ensures
        messages_view(final(out)@) == messages_view(old(out)@) + range_messages(*range, src@, data_view(data@)),
{
    let ghost m0 = messages_view(out@);
    proof {
        reveal_strlit("source '");
        reveal_strlit("' has no transcript; cannot use word range");
        reveal_strlit("' has no scene index; cannot use scene range");
        reveal_strlit("word index ");
        reveal_strlit("word_count");
        reveal_strlit("scene index ");
        reveal_strlit("scene_count");
    }
    match range {
        ShotRange::Words { from, to } => {
            if !src.transcribed {
                let mut m = owned("source '");
                push_str(&mut m, src.id.as_str());
                push_str(&mut m, "' has no transcript; cannot use word range");
                out.push(m);
                assert(messages_view(out@) =~= m0 + range_messages(*range, src@, data_view(data@)));
            } else {
                let (t, _) = lookup_source(data, src.id.as_str());
                match t {
                    Some(t) => {
                        let ghost a = when(*from >= t.word_count, msg_exceeds("word index "@, *from as nat, "word_count"@, t.word_count as nat, src@.id));
                        if *from >= t.word_count {
                            out.push(exceeds_message("word index ", *from as u64, "word_count", t.word_count as u64, src.id.as_str()));
                        }
                        assert(messages_view(out@) =~= m0 + a);
                        let ghost b = when(*to >= t.word_count, msg_exceeds("word index "@, *to as nat, "word_count"@, t.word_count as nat, src@.id));
                        if *to >= t.word_count {
                            out.push(exceeds_message("word index ", *to as u64, "word_count", t.word_count as u64, src.id.as_str()));
                        }
                        assert(messages_view(out@) =~= m0 + a + b);
                    },
                    None => {
                        assert(messages_view(out@) =~= m0 + range_messages(*range, src@, data_view(data@)));
                    },
                }
            }
        },
        ShotRange::Scenes { from, to } => {
            if !src.indexed {
                let mut m = owned("source '");
                push_str(&mut m, src.id.as_str());
                push_str(&mut m, "' has no scene index; cannot use scene range");
                out.push(m);
                assert(messages_view(out@) =~= m0 + range_messages(*range, src@, data_view(data@)));
            } else {
                let (_, x) = lookup_source(data, src.id.as_str());
                match x {
                    Some(x) => {
                        let ghost a = when(*from >= x.scene_count, msg_exceeds("scene index "@, *from as nat, "scene_count"@, x.scene_count as nat, src@.id));
                        if *from >= x.scene_count {
                            out.push(exceeds_message("scene index ", *from as u64, "scene_count", x.scene_count as u64, src.id.as_str()));
                        }
                        assert(messages_view(out@) =~= m0 + a);
                        let ghost b = when(*to >= x.scene_count, msg_exceeds("scene index "@, *to as nat, "scene_count"@, x.scene_count as nat, src@.id));
                        if *to >= x.scene_count {
                            out.push(exceeds_message("scene index ", *to as u64, "scene_count", x.scene_count as u64, src.id.as_str()));
                        }
                        assert(messages_view(out@) =~= m0 + a + b);
                    },
                    None => {
                        assert(messages_view(out@) =~= m0 + range_messages(*range, src@, data_view(data@)));
                    },
                }
            }
        },
        ShotRange::Time { from_ms, to_ms } => {
            let ghost a = when(*from_ms > src.duration_ms, msg_time_exceeds(*from_ms as nat, src.duration_ms as nat, src@.id));
            if *from_ms > src.duration_ms {
                out.push(time_message(*from_ms, src.duration_ms, src.id.as_str()));
            }
            assert(messages_view(out@) =~= m0 + a);
            let ghost b = when(*to_ms > src.duration_ms, msg_time_exceeds(*to_ms as nat, src.duration_ms as nat, src@.id));
            if *to_ms > src.duration_ms {
                out.push(time_message(*to_ms, src.duration_ms, src.id.as_str()));
            }
            assert(messages_view(out@) =~= m0 + a + b);
        },
    }
}

/// Checks a source and range against the project: the source must exist in
/// the manifest, and the range must fit what is known of it (see
/// `range_messages`; `data` holds the transcripts and indexes that could be
/// read). The order of the range is not checked here. Returns the problems
/// found, none when the combination is valid.
pub fn validate_shot_source(source_id: &str, range: &ShotRange, manifest: &Manifest, data: &Vec<SourceData>) -> (r: Vec<String>)
    ensures
        messages_view(r@) == source_messages(source_id@, *range, manifest@, data_view(data@)),
{
    let mut out: Vec<String> = Vec::new();
    match find_source(manifest, source_id) {
        None => {
            proof {
                reveal_strlit("source '");
                reveal_strlit("' not found in project");
            }
            let mut m = owned("source '");
            push_str(&mut m, source_id);
            push_str(&mut m, "' not found in project");
            out.push(m);
            assert(messages_view(out@) =~= seq![msg_missing_source(source_id@)]);
        },
        Some(src) => {
            assert(messages_view(out@) =~= Seq::<Seq<char>>::empty());
            push_range_messages(&mut out, range, src, data);
            assert(messages_view(out@) =~= range_messages(*range, src@, data_view(data@)));
        },
    }
    out
}

/// Appends the order problems of a shot (see `order_messages`).
fn push_order_messages(out: &mut Vec<String>, id: &str, range: &ShotRange)
    ensures
        messages_view(final(out)@) == messages_view(old(out)@) + order_messages(
            crate::edit::fresh_shot(id@, Seq::empty(), *range),
        ),
{
    let ghost m0 = messages_view(out@);
    proof {
        reveal_strlit("from (");
        reveal_strlit(") must be <= to (");
        reveal_strlit(") in ");
        reveal_strlit(" has zero duration");
    }
    let (f, t): (u64, u64) = match range {
        ShotRange::Words { from, to } => (*from as u64, *to as u64),
        ShotRange::Scenes { from, to } => (*from as u64, *to as u64),
        ShotRange::Time { from_ms, to_ms } => (*from_ms, *to_ms),
    };
    if f > t {
        let mut m = owned("from (");
        push_dec(&mut m, f);
        push_str(&mut m, ") must be <= to (");
        push_dec(&mut m, t);
        push_str(&mut m, ") in ");
        push_str(&mut m, id);
        out.push(m);
    } else if f == t {
        let mut m = owned(id);
        push_str(&mut m, " has zero duration");
        out.push(m);
    }
    assert(messages_view(out@) =~= m0 + order_messages(crate::edit::fresh_shot(id@, Seq::empty(), *range)));
}

/// Validates every shot of an edit against the project (see
/// `shot_problems`): `data` holds the transcripts and indexes that could be
/// read for the manifest's sources. The edit is valid when no problem is
/// found.
pub fn validate(doc: &EditDocument, manifest: &Manifest, data: &Vec<SourceData>) -> (r: ValidationResult)
    ensures
        verrors_view(r.errors@) == edit_problems(doc@.shots, manifest@, data_view(data@)),
        r.valid == (r.errors.len() == 0),
{
    let ghost sv = doc@.shots;
    let mut errors: Vec<ValidationError> = Vec::new();
    let mut i: usize = 0;
    assert(sv.take(0) =~= Seq::<ShotView>::empty());
    assert(verrors_view(errors@) =~= Seq::<(Seq<char>, Seq<char>)>::empty());
    while i < doc.snapshot.shots.len()
        invariant
            i <= doc.snapshot.shots.len(),
            sv == doc@.shots,
            sv.len() == doc.snapshot.shots@.len(),
            verrors_view(errors@) == edit_problems(sv.take(i as int), manifest@, data_view(data@)),
        decreases doc.snapshot.shots.len() - i,
    {
        let shot = &doc.snapshot.shots[i];
        assert(shot@ == sv[i as int]);
        assert(sv.take(i + 1).drop_last() =~= sv.take(i as int));
        let mut msgs: Vec<String> = Vec::new();
        match find_source(manifest, shot.source.as_str()) {
            None => {
                proof {
                    reveal_strlit("source '");
                    reveal_strlit("' not found in project");
                }
                let mut m = owned("source '");
                push_str(&mut m, shot.source.as_str());
                push_str(&mut m, "' not found in project");
                msgs.push(m);
                assert(messages_view(msgs@) =~= seq![msg_missing_source(shot@.source)]);
            },
            Some(src) => {
                assert(messages_view(msgs@) =~= Seq::<Seq<char>>::empty());
                push_order_messages(&mut msgs, shot.id.as_str(), &shot.range);
                assert(order_messages(crate::edit::fresh_shot(shot@.id, Seq::empty(), shot.range)) == order_messages(shot@));
                push_range_messages(&mut msgs, &shot.range, src, data);
            },
        }
        let ghost e0 = verrors_view(errors@);
        let ghost mv = messages_view(msgs@);
        let mut k: usize = 0;
        while k < msgs.len()
            invariant
                k <= msgs.len(),
                mv == messages_view(msgs@),
                errors.len() == e0.len() + k,
                verrors_view(errors@) == e0 + mv.take(k as int).map_values(|m: Seq<char>| (shot@.id, m)),
            decreases msgs.len() - k,
        {
            let ghost before = errors@;
            let e = ValidationError { shot_id: copy_string(&shot.id), error: copy_string(&msgs[k]) };
            assert((e.shot_id@, e.error@) == (shot@.id, mv[k as int]));
            errors.push(e);
            assert forall|q: int| 0 <= q < errors.len() implies #[trigger] verrors_view(errors@)[q] == (e0 + mv.take(k + 1).map_values(|m: Seq<char>| (shot@.id, m)))[q] by {
                if q < errors.len() - 1 {
                    assert(errors@[q] == before[q]);
                    assert(verrors_view(before)[q] == (e0 + mv.take(k as int).map_values(|m: Seq<char>| (shot@.id, m)))[q]);
                }
            }
            assert(verrors_view(errors@) =~= e0 + mv.take(k + 1).map_values(|m: Seq<char>| (shot@.id, m)));
            k += 1;
        }
        assert(mv.take(msgs.len() as int) =~= mv);
        assert(shot_problems(sv[i as int], manifest@, data_view(data@)) == mv.map_values(|m: Seq<char>| (shot@.id, m)));
        i += 1;
    }
    assert(sv.take(sv.len() as int) =~= sv);
    let valid = errors.len() == 0;
    ValidationResult { valid, errors }
}

} // verus!
