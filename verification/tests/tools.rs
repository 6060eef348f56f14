use h7cad::alias_editor::AliasField;
use h7cad::tools::{IconKind, ModuleEvent};
use h7cad::{ordinate_dim, rotate};

#[test]
fn ordinate_dimension_tool_runs_dimordinate() {
    let t = ordinate_dim::tool();
    assert_eq!(t.id, "DIMORDINATE");
    assert_eq!(t.label, "Ordinate");
    assert!(matches!(&t.event, ModuleEvent::Command(c) if c == "DIMORDINATE"));
    assert!(matches!(t.icon, IconKind::Svg(p) if p.ends_with(".svg")));
}

#[test]
fn rotate_tool_runs_rotate() {
    let t = rotate::tool();
    assert_eq!(t.id, "ROTATE");
    assert_eq!(t.label, "Rotate");
    assert!(matches!(&t.event, ModuleEvent::Command(c) if c == "ROTATE"));
}

#[test]
fn alias_fields_differ() {
    assert_ne!(AliasField::Alias, AliasField::Command);
}
