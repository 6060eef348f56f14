use h7cad::color::AciColor;
use h7cad::properties::{
    entity_type_name, fallback_properties, general_section, ro_prop, EntityCommon, EntityKind,
    LineWeight, PropValue, UnitContext,
};

fn common(linetype: &str, alpha: u8) -> EntityCommon {
    EntityCommon {
        layer: "Walls".to_string(),
        color: AciColor::Index(3),
        linetype: linetype.to_string(),
        linetype_scale: "1.0000".to_string(),
        line_weight: LineWeight::Value(25),
        transparency_alpha: alpha,
        invisible: false,
    }
}

fn edit_text(v: &PropValue) -> &str {
    match v {
        PropValue::EditText(s) => s,
        _ => panic!("expected an editable text cell"),
    }
}

#[test]
fn general_section_lists_the_common_rows() {
    let s = general_section(&common("DASHED", 0));
    assert_eq!(s.title, "General");
    let labels: Vec<&str> = s.props.iter().map(|p| p.label.as_str()).collect();
    assert_eq!(
        labels,
        vec!["Layer", "Color", "Linetype", "LT Scale", "Lineweight", "Transparency", "Invisible"]
    );
    let fields: Vec<&str> = s.props.iter().map(|p| p.field).collect();
    assert_eq!(
        fields,
        vec!["layer", "color", "linetype", "linetype_scale", "lineweight", "transparency", "invisible"]
    );
    assert!(matches!(&s.props[0].value, PropValue::LayerChoice(l) if l == "Walls"));
    assert!(matches!(s.props[1].value, PropValue::ColorChoice(AciColor::Index(3))));
    assert!(matches!(&s.props[2].value, PropValue::LinetypeChoice(l) if l == "DASHED"));
    assert_eq!(edit_text(&s.props[3].value), "1.0000");
    assert!(matches!(s.props[4].value, PropValue::LwChoice(LineWeight::Value(25))));
    assert_eq!(edit_text(&s.props[5].value), "0");
    assert!(matches!(
        s.props[6].value,
        PropValue::BoolToggle { field: "invisible", value: false }
    ));
}

#[test]
fn unnamed_linetype_shows_bylayer() {
    let s = general_section(&common("", 0));
    assert!(matches!(&s.props[2].value, PropValue::LinetypeChoice(l) if l == "ByLayer"));
}

#[test]
fn transparency_is_a_rounded_percentage() {
    for (alpha, pct) in [(0u8, "0"), (255, "100"), (128, "50"), (127, "50"), (1, "0"), (2, "1"), (64, "25")] {
        let s = general_section(&common("", alpha));
        assert_eq!(edit_text(&s.props[5].value), pct, "alpha {alpha}");
        let expected = ((alpha as f64) / 255.0 * 100.0).round() as u32;
        assert_eq!(edit_text(&s.props[5].value), expected.to_string());
    }
}

#[test]
fn fallback_section_names_the_type() {
    let s = fallback_properties(0x2A, EntityKind::Insert);
    assert_eq!(s.title, "Geometry");
    assert_eq!(s.props.len(), 1);
    assert_eq!(s.props[0].label, "Type");
    assert_eq!(s.props[0].field, "type");
    assert!(matches!(&s.props[0].value, PropValue::ReadOnly(t) if t == "Block Reference"));
}

#[test]
fn entity_type_names() {
    assert_eq!(entity_type_name(EntityKind::LwPolyline), "Polyline");
    assert_eq!(entity_type_name(EntityKind::Face3D), "3D Face");
    assert_eq!(entity_type_name(EntityKind::Ole2Frame), "OLE Frame");
    assert_eq!(entity_type_name(EntityKind::Unknown), "Unknown");
}

#[test]
fn read_only_rows() {
    let p = ro_prop("Area", "area", "12.5".to_string());
    assert_eq!(p.label, "Area");
    assert_eq!(p.field, "area");
    assert!(matches!(&p.value, PropValue::ReadOnly(v) if v == "12.5"));
}

#[test]
fn unit_context_defaults_to_zero() {
    let u = UnitContext::default();
    assert_eq!((u.lunits, u.luprec, u.aunits, u.auprec), (0, 0, 0, 0));
}
