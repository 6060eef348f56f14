//! Entity properties shown in the Properties panel: rows, sections, the
//! unit context used to format them, and the fallback section of entities
//! without a dedicated one.

use vstd::prelude::*;

use crate::color::AciColor;
use crate::text::{decimal, push_decimal, push_str};

verus! {

/// Linear / angular unit format taken from the drawing header.
#[derive(Clone, Copy, Debug)]
pub struct UnitContext {
    /// LUNITS — 1=Sci, 2=Decimal, 3=Engineering, 4=Architectural, 5=Fractional
    pub lunits: i16,
    /// LUPREC — decimal places (linear)
    pub luprec: i16,
    /// AUNITS — 0=Decimal degrees, 1=DMS, 2=Grad, 3=Rad
    pub aunits: i16,
    /// AUPREC — decimal places (angular)
    pub auprec: i16,
}

impl Default for UnitContext {
    fn default() -> (r: Self)
        ensures
            r.lunits == 0 && r.luprec == 0 && r.aunits == 0 && r.auprec == 0,
    {
        UnitContext { lunits: 0, luprec: 0, aunits: 0, auprec: 0 }
    }
}

/// A lineweight.
#[derive(Clone, Copy, Debug, PartialEq, Eq, Structural)]
pub enum LineWeight {
    ByLayer,
    ByBlock,
    Default,
    /// In hundredths of a millimetre.
    Value(i16),
}

/// The value cell of a property row.
pub enum PropValue {
    /// An editable text field.
    EditText(String),
    /// Read-only text.
    ReadOnly(String),
    /// A layer picker showing this layer.
    LayerChoice(String),
    /// A colour picker showing this colour.
    ColorChoice(AciColor),
    /// A linetype picker showing this linetype.
    LinetypeChoice(String),
    /// A lineweight picker showing this lineweight.
    LwChoice(LineWeight),
    /// A check box for the boolean entity field `field`.
    BoolToggle { field: &'static str, value: bool },
}

/// One row of the Properties panel.
pub struct Property {
    pub label: String,
    /// The entity field the row edits.
    pub field: &'static str,
    pub value: PropValue,
}

/// A titled group of property rows.
pub struct PropSection {
    pub title: String,
    pub props: Vec<Property>,
}

/// A read-only property row.
pub fn ro_prop(label: &'static str, field: &'static str, value: String) -> (p: Property)
    ensures
        p.label@ == label@,
        p.field == field,
        p.value matches PropValue::ReadOnly(v) && v@ == value@,
{
    let mut l = String::new();
    push_str(&mut l, label);
    Property { label: l, field, value: PropValue::ReadOnly(value) }
}

/// The type of a drawing entity.
#[derive(Clone, Copy, Debug, PartialEq, Eq, Structural)]
pub enum EntityKind {
    Point,
    Line,
    Circle,
    Arc,
    Ellipse,
    Spline,
    LwPolyline,
    Polyline,
    Polyline2D,
    Polyline3D,
    PolyfaceMesh,
    PolygonMesh,
    Text,
    MText,
    Dimension,
    Leader,
    MultiLeader,
    Tolerance,
    Insert,
    Block,
    BlockEnd,
    Hatch,
    Solid,
    Face3D,
    Solid3D,
    Region,
    Body,
    Mesh,
    Ray,
    XLine,
    MLine,
    Viewport,
    RasterImage,
    Wipeout,
    Underlay,
    Shape,
    Table,
    AttributeDefinition,
    AttributeEntity,
    Ole2Frame,
    Seqend,
    Unknown,
}

/// The display name of an entity type.
pub open spec fn entity_kind_name(e: EntityKind) -> Seq<char> {
    match e {
        EntityKind::Point => "Point"@,
        EntityKind::Line => "Line"@,
        EntityKind::Circle => "Circle"@,
        EntityKind::Arc => "Arc"@,
        EntityKind::Ellipse => "Ellipse"@,
        EntityKind::Spline => "Spline"@,
        EntityKind::LwPolyline => "Polyline"@,
        EntityKind::Polyline => "Polyline"@,
        EntityKind::Polyline2D => "Polyline2D"@,
        EntityKind::Polyline3D => "Polyline3D"@,
        EntityKind::PolyfaceMesh => "PolyfaceMesh"@,
        EntityKind::PolygonMesh => "PolygonMesh"@,
        EntityKind::Text => "Text"@,
        EntityKind::MText => "MText"@,
        EntityKind::Dimension => "Dimension"@,
        EntityKind::Leader => "Leader"@,
        EntityKind::MultiLeader => "MultiLeader"@,
        EntityKind::Tolerance => "Tolerance"@,
        EntityKind::Insert => "Block Reference"@,
        EntityKind::Block => "Block"@,
        EntityKind::BlockEnd => "Block End"@,
        EntityKind::Hatch => "Hatch"@,
        EntityKind::Solid => "Solid"@,
        EntityKind::Face3D => "3D Face"@,
        EntityKind::Solid3D => "3D Solid"@,
        EntityKind::Region => "Region"@,
        EntityKind::Body => "Body"@,
        EntityKind::Mesh => "Mesh"@,
        EntityKind::Ray => "Ray"@,
        EntityKind::XLine => "XLine"@,
        EntityKind::MLine => "MLine"@,
        EntityKind::Viewport => "Viewport"@,
        EntityKind::RasterImage => "Raster Image"@,
        EntityKind::Wipeout => "Wipeout"@,
        EntityKind::Underlay => "Underlay"@,
        EntityKind::Shape => "Shape"@,
        EntityKind::Table => "Table"@,
        EntityKind::AttributeDefinition => "Attribute Definition"@,
        EntityKind::AttributeEntity => "Attribute"@,
        EntityKind::Ole2Frame => "OLE Frame"@,
        EntityKind::Seqend => "Seqend"@,
        EntityKind::Unknown => "Unknown"@,
    }
}

/// The display name of an entity type.
pub fn entity_type_name(e: EntityKind) -> (r: &'static str)
    ensures
        r@ == entity_kind_name(e),
{
    match e {
        EntityKind::Point => "Point",
        EntityKind::Line => "Line",
        EntityKind::Circle => "Circle",
        EntityKind::Arc => "Arc",
        EntityKind::Ellipse => "Ellipse",
        EntityKind::Spline => "Spline",
        EntityKind::LwPolyline => "Polyline",
        EntityKind::Polyline => "Polyline",
        EntityKind::Polyline2D => "Polyline2D",
        EntityKind::Polyline3D => "Polyline3D",
        EntityKind::PolyfaceMesh => "PolyfaceMesh",
        EntityKind::PolygonMesh => "PolygonMesh",
        EntityKind::Text => "Text",
        EntityKind::MText => "MText",
        EntityKind::Dimension => "Dimension",
        EntityKind::Leader => "Leader",
        EntityKind::MultiLeader => "MultiLeader",
        EntityKind::Tolerance => "Tolerance",
        EntityKind::Insert => "Block Reference",
        EntityKind::Block => "Block",
        EntityKind::BlockEnd => "Block End",
        EntityKind::Hatch => "Hatch",
        EntityKind::Solid => "Solid",
        EntityKind::Face3D => "3D Face",
        EntityKind::Solid3D => "3D Solid",
        EntityKind::Region => "Region",
        EntityKind::Body => "Body",
        EntityKind::Mesh => "Mesh",
        EntityKind::Ray => "Ray",
        EntityKind::XLine => "XLine",
        EntityKind::MLine => "MLine",
        EntityKind::Viewport => "Viewport",
        EntityKind::RasterImage => "Raster Image",
        EntityKind::Wipeout => "Wipeout",
        EntityKind::Underlay => "Underlay",
        EntityKind::Shape => "Shape",
        EntityKind::Table => "Table",
        EntityKind::AttributeDefinition => "Attribute Definition",
        EntityKind::AttributeEntity => "Attribute",
        EntityKind::Ole2Frame => "OLE Frame",
        EntityKind::Seqend => "Seqend",
        EntityKind::Unknown => "Unknown",
    }
}

/// The Geometry section of an entity without a dedicated one: a single
/// read-only Type row. `_handle` names the entity.
pub fn fallback_properties(_handle: u64, entity: EntityKind) -> (s: PropSection)
    ensures
        s.title@ == "Geometry"@,
        s.props@.len() == 1,
        s.props@[0].label@ == "Type"@,
        s.props@[0].field@ == "type"@,
        s.props@[0].value matches PropValue::ReadOnly(v) && v@ == entity_kind_name(entity),
{
    let mut title = String::new();
    push_str(&mut title, "Geometry");
    let mut name = String::new();
    push_str(&mut name, entity_type_name(entity));
    let row = ro_prop("Type", "type", name);
    let mut props: Vec<Property> = Vec::new();
    props.push(row);
    PropSection { title, props }
}

// ── General section ─────────────────────────────────────────────────────────

/// What the General section shows of an entity's common data.
pub struct EntityCommon {
    pub layer: String,
    pub color: AciColor,
    /// Linetype name; empty for ByLayer.
    pub linetype: String,
    /// The linetype scale as shown: formatted with four decimals.
    pub linetype_scale: String,
    pub line_weight: LineWeight,
    /// Transparency alpha, 0 (opaque) to 255 (0 for ByLayer / ByBlock).
    pub transparency_alpha: u8,
    pub invisible: bool,
}

/// A value cell as plain values.
pub enum PropValueView {
    EditText(Seq<char>),
    ReadOnly(Seq<char>),
    LayerChoice(Seq<char>),
    ColorChoice(AciColor),
    LinetypeChoice(Seq<char>),
    LwChoice(LineWeight),
    BoolToggle { field: Seq<char>, value: bool },
}

/// A property row as plain values.
pub struct PropertyView {
    pub label: Seq<char>,
    pub field: Seq<char>,
    pub value: PropValueView,
}

/// A value cell as plain values.
pub open spec fn value_view(v: PropValue) -> PropValueView {
    match v {
        PropValue::EditText(s) => PropValueView::EditText(s@),
        PropValue::ReadOnly(s) => PropValueView::ReadOnly(s@),
        PropValue::LayerChoice(s) => PropValueView::LayerChoice(s@),
        PropValue::ColorChoice(c) => PropValueView::ColorChoice(c),
        PropValue::LinetypeChoice(s) => PropValueView::LinetypeChoice(s@),
        PropValue::LwChoice(w) => PropValueView::LwChoice(w),
        PropValue::BoolToggle { field, value } => PropValueView::BoolToggle { field: field@, value },
    }
}

/// A property row as plain values.
pub open spec fn property_view(p: Property) -> PropertyView {
    PropertyView { label: p.label@, field: p.field@, value: value_view(p.value) }
}

/// Transparency as a whole percentage: `alpha / 255 * 100`, rounded to the
/// nearest integer.
pub open spec fn transparency_percent(alpha: u8) -> nat {
    ((alpha as nat) * 200 + 255) / 510
}

/// The rows of the General section of an entity with common data `c`.
pub open spec fn general_rows(c: EntityCommon) -> Seq<PropertyView> {
    seq![
        PropertyView {
            label: "Layer"@,
            field: "layer"@,
            value: PropValueView::LayerChoice(c.layer@),
        },
        PropertyView { label: "Color"@, field: "color"@, value: PropValueView::ColorChoice(c.color) },
        PropertyView {
            label: "Linetype"@,
            field: "linetype"@,
            value: PropValueView::LinetypeChoice(
                if c.linetype@.len() == 0 {
                    "ByLayer"@
                } else {
                    c.linetype@
                },
            ),
        },
        PropertyView {
            label: "LT Scale"@,
            field: "linetype_scale"@,
            value: PropValueView::EditText(c.linetype_scale@),
        },
        PropertyView {
            label: "Lineweight"@,
            field: "lineweight"@,
            value: PropValueView::LwChoice(c.line_weight),
        },
        PropertyView {
            label: "Transparency"@,
            field: "transparency"@,
            value: PropValueView::EditText(decimal(transparency_percent(c.transparency_alpha))),
        },
        PropertyView {
            label: "Invisible"@,
            field: "invisible"@,
            value: PropValueView::BoolToggle { field: "invisible"@, value: c.invisible },
        },
    ]
}

fn owned(s: &str) -> (r: String)
    ensures
        r@ == s@,
{
    let mut r = String::new();
    push_str(&mut r, s);
    r
}

fn row(label: &str, field: &'static str, value: PropValue) -> (p: Property)
    ensures
        p.label@ == label@,
        p.field == field,
        p.value == value,
{
    Property { label: owned(label), field, value }
}

/// The General section of an entity: layer, colour, linetype (ByLayer when
/// unnamed), linetype scale, lineweight, transparency as a percentage and the
/// invisible flag.
pub fn general_section(common: &EntityCommon) -> (s: PropSection)
    ensures
        s.title@ == "General"@,
        s.props@.map_values(|p: Property| property_view(p)) == general_rows(*common),
{
    let linetype = if crate::text::chars_of(common.linetype.as_str()).len() == 0 {
        owned("ByLayer")
    } else {
        owned(common.linetype.as_str())
    };
    let alpha = common.transparency_alpha as u64;
    let pct: u64 = (alpha * 200 + 255) / 510;
    let mut pct_text = String::new();
    push_decimal(&mut pct_text, pct);
    let mut props: Vec<Property> = Vec::new();
    props.push(row("Layer", "layer", PropValue::LayerChoice(owned(common.layer.as_str()))));
    props.push(row("Color", "color", PropValue::ColorChoice(common.color)));
    props.push(row("Linetype", "linetype", PropValue::LinetypeChoice(linetype)));
    props.push(
        row("LT Scale", "linetype_scale", PropValue::EditText(owned(common.linetype_scale.as_str()))),
    );
    props.push(row("Lineweight", "lineweight", PropValue::LwChoice(common.line_weight)));
    props.push(row("Transparency", "transparency", PropValue::EditText(pct_text)));
    props.push(
        row(
            "Invisible",
            "invisible",
            PropValue::BoolToggle { field: "invisible", value: common.invisible },
        ),
    );
    let s = PropSection { title: owned("General"), props };
    proof {
        assert(s.props@.map_values(|p: Property| property_view(p)) =~= general_rows(*common));
    }
    s
}

} // verus!
