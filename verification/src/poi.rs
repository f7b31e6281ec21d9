//! Points of interest of a source: adding them with fresh identifiers,
//! removing one or a whole category, and where they are kept.
use vstd::prelude::*;
use crate::models::{Poi, PoiCategory, PoiPoint, SourcePois};
use crate::ids::{id_number, max_number, next_number, numbered_id, read_id_number, format_id, law_next_id_is_fresh};
use crate::paths::{joined, join_path};
use crate::text::{push_str, owned, copy_string, str_eq, dec, strings_view};

verus! {

broadcast use vstd::string::group_string_axioms;

/// What can go wrong with points of interest.
#[derive(Debug, Clone, PartialEq)]
pub enum PoiError {
    SourceNotFound(String),
    PoiNotFound(String),
    InvalidCategory(String),
    Io(String),
    Json(String),
}

/// The message of a point-of-interest error.
pub open spec fn poi_error_message(e: PoiError) -> Seq<char> {
    match e {
        PoiError::SourceNotFound(s) => "source not found in manifest: "@ + s@,
        PoiError::PoiNotFound(s) => "POI not found: "@ + s@,
        PoiError::InvalidCategory(s) => "invalid POI category: "@ + s@,
        PoiError::Io(m) => m@,
        PoiError::Json(m) => "failed to parse POIs JSON: "@ + m@,
    }
}

impl PoiError {
    /// The human-readable message of this error.
    pub fn to_string(&self) -> (r: String)
        ensures
            r@ == poi_error_message(*self),
    {
        let (pre, x) = match self {
            PoiError::SourceNotFound(s) => ("source not found in manifest: ", s),
            PoiError::PoiNotFound(s) => ("POI not found: ", s),
            PoiError::InvalidCategory(s) => ("invalid POI category: ", s),
            PoiError::Io(m) => ("", m),
            PoiError::Json(m) => ("failed to parse POIs JSON: ", m),
        };
        let mut r = owned(pre);
        push_str(&mut r, x.as_str());
        proof {
            reveal_strlit("");
        }
        r
    }
}

/// The view of a point of interest: id, point, category, note, author and
/// creation time.
pub struct PoiView {
    pub id: Seq<char>,
    pub point: PoiPoint,
    pub category: PoiCategory,
    pub note: Option<Seq<char>>,
    pub author: Seq<char>,
    pub created: Seq<char>,
}

impl View for Poi {
    type V = PoiView;

    open spec fn view(&self) -> PoiView {
        PoiView {
            id: self.id@,
            point: self.point,
            category: self.category,
            note: crate::models::opt_view(self.note),
            author: self.author@,
            created: self.created@,
        }
    }
}

/// The views of a list of points of interest.
pub open spec fn pois_view(v: Seq<Poi>) -> Seq<PoiView> {
    v.map_values(|p: Poi| p@)
}

/// The identifiers of a list of points of interest.
pub open spec fn poi_ids(v: Seq<PoiView>) -> Seq<Seq<char>> {
    v.map_values(|p: PoiView| p.id)
}

/// The file holding a source's points of interest:
/// `<project_dir>/annotations/<source_id>.pois.json`.
pub open spec fn pois_file(project_dir: Seq<char>, source_id: Seq<char>) -> Seq<char> {
    joined(joined(project_dir, "annotations"@), source_id + ".pois.json"@)
}

/// The path of a source's points-of-interest file.
pub fn pois_path(project_dir: &str, source_id: &str) -> (r: String)
    ensures
        r@ == pois_file(project_dir@, source_id@),
{
    let dir = join_path(project_dir, "annotations");
    let mut name = owned(source_id);
    push_str(&mut name, ".pois.json");
    join_path(dir.as_str(), name.as_str())
}

/// The points of interest of a source: those read from its file, or none
/// when it has no file yet.
pub fn list_pois(stored: Option<SourcePois>, source_id: &str) -> (r: SourcePois)
    ensures
        match stored {
            Some(d) => r == d,
            None => r.source_id@ == source_id@ && r.pois.len() == 0,
        },
{
    match stored {
        Some(d) => d,
        None => SourcePois { source_id: owned(source_id), pois: Vec::new() },
    }
}

/// The number of the next point of interest of a list (see `next_number`).
pub fn next_poi_id(doc: &SourcePois) -> (r: u32)
    requires
        next_number(poi_ids(pois_view(doc.pois@)), "poi-"@) <= u32::MAX,
    ensures
        r == next_number(poi_ids(pois_view(doc.pois@)), "poi-"@),
{
    let ghost ids = poi_ids(pois_view(doc.pois@));
    let mut best: Option<u32> = None;
    let mut i: usize = 0;
    assert(ids.take(0) =~= Seq::<Seq<char>>::empty());
    while i < doc.pois.len()
        invariant
            i <= doc.pois.len(),
            ids == poi_ids(pois_view(doc.pois@)),
            best == max_number(ids.take(i as int), "poi-"@),
        decreases doc.pois.len() - i,
    {
        assert(ids.take(i + 1).drop_last() =~= ids.take(i as int));
        assert(ids.take(i + 1).last() == doc.pois@[i as int].id@);
        match read_id_number(doc.pois[i].id.as_str(), "poi-") {
            Some(n) => {
                best = match best {
                    None => Some(n),
                    Some(k) => Some(if n >= k { n } else { k }),
                };
            },
            None => {},
        }
        i += 1;
    }
    assert(ids.take(doc.pois.len() as int) =~= ids);
    match best {
        Some(n) => n + 1,
        None => 1,
    }
}

/// Adds a point of interest created at `created`, numbered one past the
/// largest existing number, with no author (attribution is stamped by the
/// caller). Returns the new point.
pub fn add_poi_at(
    doc: &mut SourcePois,
    point: PoiPoint,
    category: PoiCategory,
    note: Option<&str>,
    created: String,
) -> (r: Poi)
    requires
        next_number(poi_ids(pois_view(old(doc).pois@)), "poi-"@) <= u32::MAX,
    ensures
        r@ == (PoiView {
            id: numbered_id("poi-"@, next_number(poi_ids(pois_view(old(doc).pois@)), "poi-"@) as u32),
            point,
            category,
            note: match note { Some(n) => Some(n@), None => None },
            author: Seq::empty(),
            created: created@,
        }),
        pois_view(final(doc).pois@) == pois_view(old(doc).pois@).push(r@),
        final(doc).source_id == old(doc).source_id,
        forall|i: int| 0 <= i < old(doc).pois.len() ==> #[trigger] old(doc).pois@[i].id@ != r.id@,
{
    let n = next_poi_id(doc);
    proof {
        law_next_id_is_fresh(poi_ids(pois_view(doc.pois@)), "poi-"@);
        assert forall|i: int| 0 <= i < doc.pois.len() implies #[trigger] doc.pois@[i].id@ != numbered_id("poi-"@, n) by {
            assert(poi_ids(pois_view(doc.pois@))[i] == doc.pois@[i].id@);
        }
    }
    let poi = Poi {
        id: format_id("poi-", n),
        point,
        category,
        note: match note {
            Some(s) => Some(owned(s)),
            None => None,
        },
        author: String::new(),
        created,
    };
    let copy = Poi {
        id: copy_string(&poi.id),
        point,
        category,
        note: match &poi.note {
            Some(s) => Some(copy_string(s)),
            None => None,
        },
        author: String::new(),
        created: copy_string(&poi.created),
    };
    let ghost before = pois_view(doc.pois@);
    doc.pois.push(poi);
    assert(pois_view(doc.pois@) =~= before.push(copy@));
    copy
}

/// Adds a point of interest created now (see `add_poi_at`).
pub fn add_poi(doc: &mut SourcePois, point: PoiPoint, category: PoiCategory, note: Option<&str>) -> (r: Poi)
    requires
        next_number(poi_ids(pois_view(old(doc).pois@)), "poi-"@) <= u32::MAX,
    ensures
        r@.id == numbered_id("poi-"@, next_number(poi_ids(pois_view(old(doc).pois@)), "poi-"@) as u32),
        r@.point == point,
        r@.category == category,
        r@.note == (match note { Some(n) => Some(n@), None => None::<Seq<char>> }),
        r@.author == Seq::<char>::empty(),
        pois_view(final(doc).pois@) == pois_view(old(doc).pois@).push(r@),
        final(doc).source_id == old(doc).source_id,
        forall|i: int| 0 <= i < old(doc).pois.len() ==> #[trigger] old(doc).pois@[i].id@ != r.id@,
{
    let now = crate::clock::current_timestamp();
    add_poi_at(doc, point, category, note, now)
}

/// Removes the first point of interest with identifier `poi_id`, returning
/// its identifier; fails when there is none (and nothing changes).
pub fn remove_poi(doc: &mut SourcePois, poi_id: &str) -> (r: Result<String, PoiError>)
    ensures
        final(doc).source_id == old(doc).source_id,
        match r {
            Ok(id) => id@ == poi_id@ && exists|k: int|
                0 <= k < old(doc).pois.len() && old(doc).pois@[k].id@ == poi_id@ && (forall|j: int|
                    0 <= j < k ==> old(doc).pois@[j].id@ != poi_id@) && pois_view(final(doc).pois@)
                    == pois_view(old(doc).pois@).remove(k),
            Err(e) => (e matches PoiError::PoiNotFound(x) && x@ == poi_id@) && pois_view(final(doc).pois@)
                == pois_view(old(doc).pois@) && forall|j: int|
                0 <= j < old(doc).pois.len() ==> old(doc).pois@[j].id@ != poi_id@,
        },
{
    let mut i: usize = 0;
    while i < doc.pois.len()
        invariant
            i <= doc.pois.len(),
            doc.pois@ == old(doc).pois@,
            doc.source_id == old(doc).source_id,
            forall|j: int| 0 <= j < i ==> doc.pois@[j].id@ != poi_id@,
        decreases doc.pois.len() - i,
    {
        if str_eq(doc.pois[i].id.as_str(), poi_id) {
            let ghost before = doc.pois@;
            let removed = doc.pois.remove(i);
            assert(pois_view(doc.pois@) =~= pois_view(before).remove(i as int));
            return Ok(removed.id);
        }
        i += 1;
    }
    Err(PoiError::PoiNotFound(owned(poi_id)))
}

/// Points of interest of another category than `c`.
pub open spec fn others_than(c: PoiCategory) -> spec_fn(PoiView) -> bool {
    |p: PoiView| p.category != c
}

/// Points of interest of category `c`.
pub open spec fn only(c: PoiCategory) -> spec_fn(PoiView) -> bool {
    |p: PoiView| p.category == c
}

/// A copy of a point of interest.
pub fn copy_poi(p: &Poi) -> (r: Poi)
    ensures
        r@ == p@,
{
    Poi {
        id: copy_string(&p.id),
        point: p.point,
        category: p.category,
        note: match &p.note {
            Some(s) => Some(copy_string(s)),
            None => None,
        },
        author: copy_string(&p.author),
        created: copy_string(&p.created),
    }
}

/// Removes every point of interest of `category`, keeping the others in
/// order; returns the identifiers removed, in order.
pub fn remove_pois_by_category(doc: &mut SourcePois, category: PoiCategory) -> (r: Vec<String>)
    ensures
        final(doc).source_id == old(doc).source_id,
        pois_view(final(doc).pois@) == pois_view(old(doc).pois@).filter(others_than(category)),
        strings_view(r@) == poi_ids(pois_view(old(doc).pois@).filter(only(category))),
{
    let ghost v0 = pois_view(doc.pois@);
    let mut kept: Vec<Poi> = Vec::new();
    let mut removed: Vec<String> = Vec::new();
    let mut i: usize = 0;
    assert(v0.take(0) =~= Seq::<PoiView>::empty());
    assert(pois_view(kept@) =~= Seq::<PoiView>::empty());
    assert(strings_view(removed@) =~= Seq::<Seq<char>>::empty());
    while i < doc.pois.len()
        invariant
            i <= doc.pois.len(),
            v0 == pois_view(doc.pois@),
            doc.pois@ == old(doc).pois@,
            doc.source_id == old(doc).source_id,
            pois_view(kept@) == v0.take(i as int).filter(others_than(category)),
            strings_view(removed@) == poi_ids(v0.take(i as int).filter(only(category))),
        decreases doc.pois.len() - i,
    {
        let p = &doc.pois[i];
        let ghost pv = p@;
        assert(v0[i as int] == pv);
        assert(v0.take(i + 1).drop_last() =~= v0.take(i as int));
        assert(v0.take(i + 1).last() == pv);
        let ghost s0 = v0.take(i as int);
        proof {
            reveal_with_fuel(Seq::<PoiView>::filter, 1);
        }
        assert(v0.take(i + 1).filter(only(category)) == (if pv.category == category { s0.filter(only(category)).push(pv) } else { s0.filter(only(category)) }));
        assert(v0.take(i + 1).filter(others_than(category)) == (if pv.category != category { s0.filter(others_than(category)).push(pv) } else { s0.filter(others_than(category)) }));
        if p.category == category {
            let ghost rv = strings_view(removed@);
            removed.push(copy_string(&p.id));
            assert(strings_view(removed@) =~= rv.push(pv.id));
            assert(poi_ids(v0.take(i as int).filter(only(category)).push(pv)) =~= poi_ids(v0.take(i as int).filter(only(category))).push(pv.id));
        } else {
            let ghost kv = pois_view(kept@);
            kept.push(copy_poi(p));
            assert(pois_view(kept@) =~= kv.push(pv));
        }
        i += 1;
    }
    assert(v0.take(doc.pois.len() as int) =~= v0);
    doc.pois = kept;
    removed
}

} // verus!
