use ar_edit_core::models::{Poi, PoiCategory, PoiPoint, SourcePois};
use ar_edit_core::poi::{
    add_poi, add_poi_at, list_pois, next_poi_id, pois_path, remove_poi, remove_pois_by_category,
    PoiError,
};

fn empty(source_id: &str) -> SourcePois {
    list_pois(None, source_id)
}

#[test]
fn add_first_poi() {
    let mut doc = empty("src-001");
    let poi = add_poi(&mut doc, PoiPoint::Word(45), PoiCategory::Highlight, Some("Perfect delivery"));
    assert_eq!(poi.id, "poi-001");
    assert_eq!(poi.point, PoiPoint::Word(45));
    assert_eq!(poi.category, PoiCategory::Highlight);
    assert_eq!(poi.note.as_deref(), Some("Perfect delivery"));
    let loaded = list_pois(Some(doc), "src-001");
    assert_eq!(loaded.pois.len(), 1);
    assert_eq!(loaded.pois[0].id, "poi-001");
}

#[test]
fn add_multiple_pois_sequential_ids() {
    let mut doc = empty("src-001");
    add_poi(&mut doc, PoiPoint::Word(10), PoiCategory::Highlight, None);
    add_poi(&mut doc, PoiPoint::TimeMs(62500), PoiCategory::Issue, Some("Bad audio"));
    add_poi(&mut doc, PoiPoint::Scene(3), PoiCategory::Transition, None);
    assert_eq!(doc.pois.len(), 3);
    assert_eq!(doc.pois[0].id, "poi-001");
    assert_eq!(doc.pois[1].id, "poi-002");
    assert_eq!(doc.pois[2].id, "poi-003");
}

#[test]
fn pois_without_note() {
    let mut doc = empty("src-001");
    let poi = add_poi(&mut doc, PoiPoint::TimeMs(1000), PoiCategory::Cue, None);
    assert_eq!(poi.note, None);
}

#[test]
fn list_pois_empty_source() {
    let loaded = list_pois(None, "src-001");
    assert_eq!(loaded.source_id, "src-001");
    assert!(loaded.pois.is_empty());
}

#[test]
fn pois_per_source_isolation() {
    let mut src1 = empty("src-001");
    let mut src2 = empty("src-002");
    add_poi(&mut src1, PoiPoint::Word(10), PoiCategory::Highlight, None);
    add_poi(&mut src2, PoiPoint::Word(20), PoiCategory::Issue, None);
    assert_eq!(src1.pois.len(), 1);
    assert_eq!(src2.pois.len(), 1);
    assert_eq!(src1.pois[0].category, PoiCategory::Highlight);
    assert_eq!(src2.pois[0].category, PoiCategory::Issue);
    assert_eq!(src1.pois[0].id, "poi-001");
    assert_eq!(src2.pois[0].id, "poi-001");
}

#[test]
fn add_poi_at_records_time_and_author() {
    let mut doc = empty("src-001");
    let p = add_poi_at(&mut doc, PoiPoint::Word(1), PoiCategory::Note, None, "2026-02-19T14:00:00Z".into());
    assert_eq!(p.created, "2026-02-19T14:00:00Z");
    assert_eq!(doc.pois[0], p);
}

#[test]
fn remove_single_poi() {
    let mut doc = empty("src-001");
    add_poi(&mut doc, PoiPoint::Word(10), PoiCategory::Highlight, None);
    add_poi(&mut doc, PoiPoint::Word(20), PoiCategory::Issue, None);
    add_poi(&mut doc, PoiPoint::Word(30), PoiCategory::Cue, None);
    let removed_id = remove_poi(&mut doc, "poi-002").unwrap();
    assert_eq!(removed_id, "poi-002");
    assert_eq!(doc.pois.len(), 2);
    assert_eq!(doc.pois[0].id, "poi-001");
    assert_eq!(doc.pois[1].id, "poi-003");
    let poi = add_poi(&mut doc, PoiPoint::Word(40), PoiCategory::Note, None);
    assert_eq!(poi.id, "poi-004");
}

#[test]
fn remove_pois_by_category_bulk() {
    let mut doc = empty("src-001");
    add_poi(&mut doc, PoiPoint::Word(10), PoiCategory::Issue, None);
    add_poi(&mut doc, PoiPoint::Word(20), PoiCategory::Highlight, None);
    add_poi(&mut doc, PoiPoint::Word(30), PoiCategory::Issue, None);
    add_poi(&mut doc, PoiPoint::Word(40), PoiCategory::Cue, None);
    let removed = remove_pois_by_category(&mut doc, PoiCategory::Issue);
    assert_eq!(removed, vec!["poi-001", "poi-003"]);
    assert_eq!(doc.pois.len(), 2);
    assert_eq!(doc.pois[0].id, "poi-002");
    assert_eq!(doc.pois[0].category, PoiCategory::Highlight);
    assert_eq!(doc.pois[1].id, "poi-004");
    assert_eq!(doc.pois[1].category, PoiCategory::Cue);
}

#[test]
fn remove_poi_not_found() {
    let mut doc = empty("src-001");
    add_poi(&mut doc, PoiPoint::Word(10), PoiCategory::Highlight, None);
    let err = remove_poi(&mut doc, "poi-999").unwrap_err();
    assert!(matches!(err, PoiError::PoiNotFound(_)));
    assert!(err.to_string().contains("poi-999"));
    assert_eq!(doc.pois.len(), 1);
}

#[test]
fn next_poi_id_computation() {
    let doc = SourcePois {
        source_id: "src-001".into(),
        pois: vec![
            Poi {
                id: "poi-001".into(),
                point: PoiPoint::Word(10),
                category: PoiCategory::Highlight,
                note: None,
                author: String::new(),
                created: "2026-02-19T14:00:00Z".into(),
            },
            Poi {
                id: "poi-005".into(),
                point: PoiPoint::Word(20),
                category: PoiCategory::Issue,
                note: None,
                author: String::new(),
                created: "2026-02-19T14:00:00Z".into(),
            },
        ],
    };
    assert_eq!(next_poi_id(&doc), 6);
}

#[test]
fn pois_path_format() {
    assert_eq!(pois_path("/proj", "src-001"), "/proj/annotations/src-001.pois.json");
}
