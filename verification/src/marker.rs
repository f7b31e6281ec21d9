//! Markers of a source: labelled ranges with fresh identifiers, and where
//! they are kept.
use vstd::prelude::*;
use crate::models::{Marker, ShotRange, SourceMarkers};
use crate::ids::{max_number, next_number, numbered_id, read_id_number, format_id, law_next_id_is_fresh};
use crate::paths::{joined, join_path};
use crate::text::{push_str, owned, copy_string};

verus! {

broadcast use vstd::string::group_string_axioms;

/// What can go wrong with markers.
#[derive(Debug, Clone, PartialEq)]
pub enum MarkerError {
    SourceNotFound(String),
    NoRange,
    Io(String),
    Json(String),
}

/// The message of a marker error.
pub open spec fn marker_error_message(e: MarkerError) -> Seq<char> {
    match e {
        MarkerError::SourceNotFound(s) => "source not found in manifest: "@ + s@,
        MarkerError::NoRange => "no range specified (use --from-word/--to-word, --from-scene/--to-scene, or --from-ms/--to-ms)"@,
        MarkerError::Io(m) => m@,
        MarkerError::Json(m) => "failed to parse markers JSON: "@ + m@,
    }
}

impl MarkerError {
    /// The human-readable message of this error.
    pub fn to_string(&self) -> (r: String)
        ensures
            r@ == marker_error_message(*self),
    {
        match self {
            MarkerError::SourceNotFound(s) => {
                let mut r = owned("source not found in manifest: ");
                push_str(&mut r, s.as_str());
                r
            },
            MarkerError::NoRange => owned("no range specified (use --from-word/--to-word, --from-scene/--to-scene, or --from-ms/--to-ms)"),
            MarkerError::Io(m) => copy_string(m),
            MarkerError::Json(m) => {
                let mut r = owned("failed to parse markers JSON: ");
                push_str(&mut r, m.as_str());
                r
            },
        }
    }
}

/// The view of a marker: id, range, label, note, author and creation time.
pub struct MarkView {
    pub id: Seq<char>,
    pub range: ShotRange,
    pub label: Seq<char>,
    pub note: Option<Seq<char>>,
    pub author: Seq<char>,
    pub created: Seq<char>,
}

impl View for Marker {
    type V = MarkView;

    open spec fn view(&self) -> MarkView {
        MarkView {
            id: self.id@,
            range: self.range,
            label: self.label@,
            note: crate::models::opt_view(self.note),
            author: self.author@,
            created: self.created@,
        }
    }
}

/// The views of a list of markers.
pub open spec fn marks_view(v: Seq<Marker>) -> Seq<MarkView> {
    v.map_values(|m: Marker| m@)
}

/// The identifiers of a list of markers.
pub open spec fn mark_ids(v: Seq<MarkView>) -> Seq<Seq<char>> {
    v.map_values(|m: MarkView| m.id)
}

/// The file holding a source's markers:
/// `<project_dir>/annotations/<source_id>.markers.json`.
pub open spec fn markers_file(project_dir: Seq<char>, source_id: Seq<char>) -> Seq<char> {
    joined(joined(project_dir, "annotations"@), source_id + ".markers.json"@)
}

/// The path of a source's markers file.
pub fn markers_path(project_dir: &str, source_id: &str) -> (r: String)
    ensures
        r@ == markers_file(project_dir@, source_id@),
{
    let dir = join_path(project_dir, "annotations");
    let mut name = owned(source_id);
    push_str(&mut name, ".markers.json");
    join_path(dir.as_str(), name.as_str())
}

/// The markers of a source: those read from its file, or none when it has
/// no file yet.
pub fn list_markers(stored: Option<SourceMarkers>, source_id: &str) -> (r: SourceMarkers)
    ensures
        match stored {
            Some(d) => r == d,
            None => r.source_id@ == source_id@ && r.markers.len() == 0,
        },
{
    match stored {
        Some(d) => d,
        None => SourceMarkers { source_id: owned(source_id), markers: Vec::new() },
    }
}

/// The number of the next marker of a list (see `next_number`).
pub fn next_marker_id(doc: &SourceMarkers) -> (r: u32)
    requires
        next_number(mark_ids(marks_view(doc.markers@)), "mark-"@) <= u32::MAX,
    ensures
        r == next_number(mark_ids(marks_view(doc.markers@)), "mark-"@),
{
    let ghost ids = mark_ids(marks_view(doc.markers@));
    let mut best: Option<u32> = None;
    let mut i: usize = 0;
    assert(ids.take(0) =~= Seq::<Seq<char>>::empty());
    while i < doc.markers.len()
        invariant
            i <= doc.markers.len(),
            ids == mark_ids(marks_view(doc.markers@)),
            best == max_number(ids.take(i as int), "mark-"@),
        decreases doc.markers.len() - i,
    {
        assert(ids.take(i + 1).drop_last() =~= ids.take(i as int));
        assert(ids.take(i + 1).last() == doc.markers@[i as int].id@);
        match read_id_number(doc.markers[i].id.as_str(), "mark-") {
            Some(n) => {
                best = match best {
                    None => Some(n),
                    Some(k) => Some(if n >= k { n } else { k }),
                };
            },
            None => {},
        }
        i += 1;
    }
    assert(ids.take(doc.markers.len() as int) =~= ids);
    match best {
        Some(n) => n + 1,
        None => 1,
    }
}

/// Adds a marker created at `created`, numbered one past the largest
/// existing number, with no author (attribution is stamped by the caller).
/// Returns the new marker.
pub fn add_marker_at(doc: &mut SourceMarkers, range: ShotRange, label: &str, note: Option<&str>, created: String) -> (r: Marker)
    requires
        next_number(mark_ids(marks_view(old(doc).markers@)), "mark-"@) <= u32::MAX,
    ensures
        r@ == (MarkView {
            id: numbered_id("mark-"@, next_number(mark_ids(marks_view(old(doc).markers@)), "mark-"@) as u32),
            range,
            label: label@,
            note: match note { Some(n) => Some(n@), None => None },
            author: Seq::empty(),
            created: created@,
        }),
        marks_view(final(doc).markers@) == marks_view(old(doc).markers@).push(r@),
        final(doc).source_id == old(doc).source_id,
        forall|i: int| 0 <= i < old(doc).markers.len() ==> #[trigger] old(doc).markers@[i].id@ != r.id@,
{
    let n = next_marker_id(doc);
    proof {
        law_next_id_is_fresh(mark_ids(marks_view(doc.markers@)), "mark-"@);
        assert forall|i: int| 0 <= i < doc.markers.len() implies #[trigger] doc.markers@[i].id@ != numbered_id("mark-"@, n) by {
            assert(mark_ids(marks_view(doc.markers@))[i] == doc.markers@[i].id@);
        }
    }
    let m = Marker {
        id: format_id("mark-", n),
        range,
        label: owned(label),
        note: match note {
            Some(s) => Some(owned(s)),
            None => None,
        },
        author: String::new(),
        created,
    };
    let copy = Marker {
        id: copy_string(&m.id),
        range,
        label: copy_string(&m.label),
        note: match &m.note {
            Some(s) => Some(copy_string(s)),
            None => None,
        },
        author: String::new(),
        created: copy_string(&m.created),
    };
    let ghost before = marks_view(doc.markers@);
    doc.markers.push(m);
    assert(marks_view(doc.markers@) =~= before.push(copy@));
    copy
}

/// Adds a marker created now (see `add_marker_at`).
pub fn add_marker(doc: &mut SourceMarkers, range: ShotRange, label: &str, note: Option<&str>) -> (r: Marker)
    requires
        next_number(mark_ids(marks_view(old(doc).markers@)), "mark-"@) <= u32::MAX,
    ensures
        r@.id == numbered_id("mark-"@, next_number(mark_ids(marks_view(old(doc).markers@)), "mark-"@) as u32),
        r@.range == range,
        r@.label == label@,
        r@.note == (match note { Some(n) => Some(n@), None => None::<Seq<char>> }),
        r@.author == Seq::<char>::empty(),
        marks_view(final(doc).markers@) == marks_view(old(doc).markers@).push(r@),
        final(doc).source_id == old(doc).source_id,
        forall|i: int| 0 <= i < old(doc).markers.len() ==> #[trigger] old(doc).markers@[i].id@ != r.id@,
{
    let now = crate::clock::current_timestamp();
    add_marker_at(doc, range, label, note, now)
}

} // verus!
