use h7cad::annotative::{
    is_annotative, name_matches, AnnoEntity, AnnoKind, AnnotationStyles, NamedStyle, StyleObject,
    ANNOTATIVE_DATA_APP, ANNO_PO_APP, CONTEXT_MANAGER,
};
use h7cad::dim_override::{ExtendedData, ExtendedDataRecord};

fn styles() -> AnnotationStyles {
    AnnotationStyles {
        text_styles: vec![
            NamedStyle { name: "Standard".to_string(), annotative: false },
            NamedStyle { name: "Notes".to_string(), annotative: true },
            NamedStyle { name: "NOTES".to_string(), annotative: false },
        ],
        dim_styles: vec![NamedStyle { name: "Standard".to_string(), annotative: true }],
        mleader_styles: vec![StyleObject { handle: 0x40, annotative: true }],
        table_styles: vec![StyleObject { handle: 0x50, annotative: false }],
    }
}

fn entity(kind: AnnoKind) -> AnnoEntity {
    AnnoEntity { context_keys: None, extended_data: ExtendedData { records: vec![] }, kind }
}

#[test]
fn style_names_match_ignoring_ascii_case() {
    assert!(name_matches("Notes", "NOTES"));
    assert!(name_matches("STANDARD", ""));
    assert!(name_matches("standard", "   "));
    assert!(!name_matches("Notes", ""));
    assert!(!name_matches("Notes", "Note"));
}

#[test]
fn text_follows_the_first_matching_style() {
    let s = styles();
    assert!(is_annotative(&s, &entity(AnnoKind::Text { style: "notes".to_string() })));
    assert!(!is_annotative(&s, &entity(AnnoKind::Text { style: "".to_string() })));
    assert!(!is_annotative(&s, &entity(AnnoKind::Text { style: "Missing".to_string() })));
}

#[test]
fn mtext_own_flag_counts() {
    let s = styles();
    let e = entity(AnnoKind::MText { annotative: true, style: "Standard".to_string() });
    assert!(is_annotative(&s, &e));
    let e = entity(AnnoKind::MText { annotative: false, style: "Standard".to_string() });
    assert!(!is_annotative(&s, &e));
}

#[test]
fn dimensions_and_leaders_follow_the_dimension_style() {
    let s = styles();
    assert!(is_annotative(&s, &entity(AnnoKind::Dimension { style: " ".to_string() })));
    assert!(is_annotative(&s, &entity(AnnoKind::Leader { style: "standard".to_string() })));
    assert!(!is_annotative(&s, &entity(AnnoKind::Leader { style: "Arch".to_string() })));
}

#[test]
fn multileaders_and_tables_follow_their_style_objects() {
    let s = styles();
    assert!(is_annotative(&s, &entity(AnnoKind::MultiLeader { enabled: false, style: Some(0x40) })));
    assert!(is_annotative(&s, &entity(AnnoKind::MultiLeader { enabled: true, style: None })));
    assert!(!is_annotative(&s, &entity(AnnoKind::MultiLeader { enabled: false, style: Some(0x41) })));
    assert!(!is_annotative(&s, &entity(AnnoKind::Table { style: Some(0x50) })));
    assert!(!is_annotative(&s, &entity(AnnoKind::Table { style: None })));
    assert!(!is_annotative(&s, &entity(AnnoKind::Other)));
}

#[test]
fn an_annotation_context_makes_any_entity_annotative() {
    let s = styles();
    let mut e = entity(AnnoKind::Other);
    e.context_keys = Some(vec!["ACAD_XREC".to_string(), CONTEXT_MANAGER.to_ascii_uppercase()]);
    assert!(is_annotative(&s, &e));
    e.context_keys = Some(vec!["ACAD_XREC".to_string()]);
    assert!(!is_annotative(&s, &e));
}

#[test]
fn legacy_xdata_markers_count() {
    let s = styles();
    for app in [ANNO_PO_APP, ANNOTATIVE_DATA_APP] {
        let mut e = entity(AnnoKind::Other);
        e.extended_data.records.push(ExtendedDataRecord { application_name: app.to_string(), values: vec![] });
        assert!(is_annotative(&s, &e));
    }
}
