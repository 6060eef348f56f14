//! Which entities are annotative, decided once for both the Properties panel
//! and the tessellation bake. An entity is annotative if it carries a
//! per-object annotation context, one of the legacy annotative XDATA records,
//! or an annotative style (or its own annotative flag).

use vstd::prelude::*;

use crate::dim_override::{find_record, record_position, ExtendedData};
use crate::text::{
    chars_of, eq_ignore_ascii_case, eq_ignore_ascii_case_spec, is_blank, lemma_trim_edges, trim,
    trim_bounds,
};

verus! {

/// The extension-dictionary key of a per-object annotation context.
pub const CONTEXT_MANAGER: &'static str = "AcDbContextDataManager";

/// Legacy annotative XDATA application names.
pub const ANNO_PO_APP: &'static str = "AcAnnoPO";

/// Legacy annotative XDATA application names.
pub const ANNOTATIVE_DATA_APP: &'static str = "AcAnnotativeData";

/// A text or dimension style: its name and whether it is annotative.
pub struct NamedStyle {
    pub name: String,
    pub annotative: bool,
}

/// A multileader or table style object: its handle and whether it is
/// annotative.
#[derive(Clone, Copy)]
pub struct StyleObject {
    pub handle: u64,
    pub annotative: bool,
}

/// The styles of a drawing that annotative detection reads.
pub struct AnnotationStyles {
    pub text_styles: Vec<NamedStyle>,
    pub dim_styles: Vec<NamedStyle>,
    pub mleader_styles: Vec<StyleObject>,
    pub table_styles: Vec<StyleObject>,
}

/// What an entity is, with what its annotative state depends on.
pub enum AnnoKind {
    Text { style: String },
    MText { annotative: bool, style: String },
    Dimension { style: String },
    Leader { style: String },
    MultiLeader { enabled: bool, style: Option<u64> },
    Table { style: Option<u64> },
    Other,
}

/// An entity as annotative detection reads it.
pub struct AnnoEntity {
    /// The keys of its extension dictionary, when it has one.
    pub context_keys: Option<Vec<String>>,
    pub extended_data: ExtendedData,
    pub kind: AnnoKind,
}

/// A style named `style_name` is the one `name` asks for: equal up to ASCII
/// case, or "Standard" when `name` is blank.
pub open spec fn style_named(style_name: Seq<char>, name: Seq<char>) -> bool {
    eq_ignore_ascii_case_spec(style_name, name) || (is_blank(name) && eq_ignore_ascii_case_spec(
        style_name,
        "Standard"@,
    ))
}

/// Index of the first style `name` asks for, or the count when none is.
pub open spec fn find_style(styles: Seq<NamedStyle>, name: Seq<char>) -> int
    decreases styles.len(),
{
    if styles.len() == 0 {
        0
    } else if style_named(styles[0].name@, name) {
        0
    } else {
        1 + find_style(styles.drop_first(), name)
    }
}

/// Whether the first style `name` asks for is annotative (false when none is).
pub open spec fn named_style_annotative(styles: Seq<NamedStyle>, name: Seq<char>) -> bool {
    let k = find_style(styles, name);
    k < styles.len() && styles[k].annotative
}

/// Whether some style object with handle `h` is annotative.
pub open spec fn object_style_annotative(styles: Seq<StyleObject>, h: Option<u64>) -> bool {
    match h {
        Some(h) => exists|i: int|
            0 <= i < styles.len() && (#[trigger] styles[i]).handle == h && styles[i].annotative,
        None => false,
    }
}

/// Whether the keys of an extension dictionary hold an annotation context.
pub open spec fn has_context(keys: Option<Vec<String>>) -> bool {
    match keys {
        Some(ks) => exists|i: int|
            0 <= i < ks@.len() && eq_ignore_ascii_case_spec(
                (#[trigger] ks@[i])@,
                CONTEXT_MANAGER@,
            ),
        None => false,
    }
}

/// Whether XDATA holds a record of application `app`.
pub open spec fn has_record(xd: ExtendedData, app: Seq<char>) -> bool {
    find_record(xd.records@, app) < xd.records@.len()
}

/// Whether an entity participates in annotation scaling.
pub open spec fn annotative(styles: AnnotationStyles, e: AnnoEntity) -> bool {
    ||| has_context(e.context_keys)
    ||| has_record(e.extended_data, ANNO_PO_APP@)
    ||| has_record(e.extended_data, ANNOTATIVE_DATA_APP@)
    ||| match e.kind {
        AnnoKind::Text { style } => named_style_annotative(styles.text_styles@, style@),
        AnnoKind::MText { annotative, style } => annotative || named_style_annotative(
            styles.text_styles@,
            style@,
        ),
        AnnoKind::Dimension { style } => named_style_annotative(styles.dim_styles@, style@),
        AnnoKind::Leader { style } => named_style_annotative(styles.dim_styles@, style@),
        AnnoKind::MultiLeader { enabled, style } => enabled || object_style_annotative(
            styles.mleader_styles@,
            style,
        ),
        AnnoKind::Table { style } => object_style_annotative(styles.table_styles@, style),
        AnnoKind::Other => false,
    }
}

fn text_eq_ignore_case(a: &str, b: &str) -> (r: bool)
    ensures
        r == eq_ignore_ascii_case_spec(a@, b@),
{
    let x = chars_of(a);
    let y = chars_of(b);
    eq_ignore_ascii_case(x.as_slice(), y.as_slice())
}

fn blank(s: &str) -> (r: bool)
    ensures
        r == is_blank(s@),
{
    let cs = chars_of(s);
    let (lo, hi) = trim_bounds(cs.as_slice());
    proof {
        lemma_trim_edges(s@);
    }
    lo == hi
}

/// Whether a style named `style_name` is the one `name` asks for: equal up to
/// ASCII case, or "Standard" when `name` is blank.
pub fn name_matches(style_name: &str, name: &str) -> (r: bool)
    ensures
        r == style_named(style_name@, name@),
{
    text_eq_ignore_case(style_name, name) || (blank(name) && text_eq_ignore_case(
        style_name,
        "Standard",
    ))
}

proof fn lemma_find_style(styles: Seq<NamedStyle>, name: Seq<char>, k: int)
    requires
        0 <= k <= styles.len(),
        forall|i: int| 0 <= i < k ==> !style_named((#[trigger] styles[i]).name@, name),
        k == styles.len() || style_named(styles[k].name@, name),
    ensures
        find_style(styles, name) == k,
    decreases k,
{
    if k > 0 {
        let t = styles.drop_first();
        assert forall|i: int| 0 <= i < k - 1 implies !style_named((#[trigger] t[i]).name@, name) by {
            assert(t[i] == styles[i + 1]);
        }
        lemma_find_style(t, name, k - 1);
    }
}

/// Whether the first style `name` asks for is annotative.
fn style_annotative(styles: &Vec<NamedStyle>, name: &str) -> (r: bool)
    ensures
        r == named_style_annotative(styles@, name@),
{
    let mut i: usize = 0;
    while i < styles.len() && !name_matches(styles[i].name.as_str(), name)
        invariant
            i <= styles@.len(),
            forall|j: int| 0 <= j < i ==> !style_named((#[trigger] styles@[j]).name@, name@),
        decreases styles@.len() - i,
    {
        i = i + 1;
    }
    proof {
        lemma_find_style(styles@, name@, i as int);
    }
    i < styles.len() && styles[i].annotative
}

fn any_annotative_with(styles: &Vec<StyleObject>, h: u64) -> (r: bool)
    ensures
        r == exists|i: int|
            0 <= i < styles@.len() && (#[trigger] styles@[i]).handle == h && styles@[i].annotative,
{
    let mut i: usize = 0;
    while i < styles.len()
        invariant
            i <= styles@.len(),
            forall|j: int| 0 <= j < i ==> !((#[trigger] styles@[j]).handle == h && styles@[j].annotative),
        decreases styles@.len() - i,
    {
        if styles[i].handle == h && styles[i].annotative {
            assert(styles@[i as int].handle == h && styles@[i as int].annotative);
            return true;
        }
        i = i + 1;
    }
    false
}

/// Whether a style object with handle `h` is annotative.
fn object_annotative(styles: &Vec<StyleObject>, h: Option<u64>) -> (r: bool)
    ensures
        r == object_style_annotative(styles@, h),
{
    match h {
        Some(h) => any_annotative_with(styles, h),
        None => false,
    }
}

fn any_context_key(ks: &Vec<String>) -> (r: bool)
    ensures
        r == exists|i: int|
            0 <= i < ks@.len() && eq_ignore_ascii_case_spec((#[trigger] ks@[i])@, CONTEXT_MANAGER@),
{
    let mut i: usize = 0;
    while i < ks.len()
        invariant
            i <= ks@.len(),
            forall|j: int|
                0 <= j < i ==> !eq_ignore_ascii_case_spec((#[trigger] ks@[j])@, CONTEXT_MANAGER@),
        decreases ks@.len() - i,
    {
        if text_eq_ignore_case(ks[i].as_str(), CONTEXT_MANAGER) {
            assert(eq_ignore_ascii_case_spec(ks@[i as int]@, CONTEXT_MANAGER@));
            return true;
        }
        i = i + 1;
    }
    false
}

/// Whether the keys of an extension dictionary hold an annotation context.
fn context_present(keys: &Option<Vec<String>>) -> (r: bool)
    ensures
        r == has_context(*keys),
{
    match keys {
        Some(ks) => any_context_key(ks),
        None => false,
    }
}

fn record_present(xd: &ExtendedData, app: &str) -> (r: bool)
    ensures
        r == has_record(*xd, app@),
{
    record_position(xd, app) < xd.records.len()
}

/// Whether an entity participates in annotation scaling: it carries a
/// per-object annotation context or a legacy annotative XDATA record, or it
/// is annotative through its style (or its own flag).
pub fn is_annotative(styles: &AnnotationStyles, entity: &AnnoEntity) -> (r: bool)
    ensures
        r == annotative(*styles, *entity),
{
    if context_present(&entity.context_keys) {
        return true;
    }
    if record_present(&entity.extended_data, ANNO_PO_APP) || record_present(
        &entity.extended_data,
        ANNOTATIVE_DATA_APP,
    ) {
        return true;
    }
    match &entity.kind {
        AnnoKind::Text { style } => style_annotative(&styles.text_styles, style.as_str()),
        AnnoKind::MText { annotative, style } => *annotative || style_annotative(
            &styles.text_styles,
            style.as_str(),
        ),
        AnnoKind::Dimension { style } => style_annotative(&styles.dim_styles, style.as_str()),
        AnnoKind::Leader { style } => style_annotative(&styles.dim_styles, style.as_str()),
        AnnoKind::MultiLeader { enabled, style } => *enabled || object_annotative(
            &styles.mleader_styles,
            *style,
        ),
        AnnoKind::Table { style } => object_annotative(&styles.table_styles, *style),
        AnnoKind::Other => false,
    }
}


/// Whether some style answers to `name` (equal up to ASCII case, or
/// "Standard" for a blank name), is annotative, and no style before it
/// answers to `name`.
pub open spec fn first_answering_style_annotative(styles: Seq<NamedStyle>, name: Seq<char>) -> bool {
    exists|k: int|
        0 <= k < styles.len() && (eq_ignore_ascii_case_spec((#[trigger] styles[k]).name@, name) || (
        is_blank(name) && eq_ignore_ascii_case_spec(styles[k].name@, "Standard"@))) && styles[k].annotative
            && forall|i: int|
            0 <= i < k ==> !(eq_ignore_ascii_case_spec((#[trigger] styles[i]).name@, name) || (is_blank(
                name,
            ) && eq_ignore_ascii_case_spec(styles[i].name@, "Standard"@)))
}

proof fn lemma_find_style_props(styles: Seq<NamedStyle>, name: Seq<char>)
    ensures
        0 <= find_style(styles, name) <= styles.len(),
        forall|i: int| 0 <= i < find_style(styles, name) ==> !style_named((#[trigger] styles[i]).name@, name),
        find_style(styles, name) < styles.len() ==> style_named(styles[find_style(styles, name)].name@, name),
    decreases styles.len(),
{
    if styles.len() > 0 && !style_named(styles[0].name@, name) {
        let t = styles.drop_first();
        lemma_find_style_props(t, name);
        assert forall|i: int| 0 <= i < find_style(styles, name) implies !style_named(
            (#[trigger] styles[i]).name@,
            name,
        ) by {
            if i > 0 {
                assert(styles[i] == t[i - 1]);
            }
        }
    }
}

proof fn lemma_named_style_annotative(styles: Seq<NamedStyle>, name: Seq<char>)
    ensures
        named_style_annotative(styles, name) == first_answering_style_annotative(styles, name),
{
    lemma_find_style_props(styles, name);
    let f = find_style(styles, name);
    if named_style_annotative(styles, name) {
        assert(styles[f] == styles[f]);
        assert forall|i: int| 0 <= i < f implies !(eq_ignore_ascii_case_spec(
            (#[trigger] styles[i]).name@,
            name,
        ) || (is_blank(name) && eq_ignore_ascii_case_spec(styles[i].name@, "Standard"@))) by {
            assert(!style_named(styles[i].name@, name));
        }
    }
    if first_answering_style_annotative(styles, name) {
        let k = choose|k: int|
            0 <= k < styles.len() && (eq_ignore_ascii_case_spec((#[trigger] styles[k]).name@, name) || (
            is_blank(name) && eq_ignore_ascii_case_spec(styles[k].name@, "Standard"@)))
                && styles[k].annotative && forall|i: int|
                0 <= i < k ==> !(eq_ignore_ascii_case_spec((#[trigger] styles[i]).name@, name) || (
                is_blank(name) && eq_ignore_ascii_case_spec(styles[i].name@, "Standard"@)));
        assert forall|i: int| 0 <= i < k implies !style_named((#[trigger] styles[i]).name@, name) by {
            assert(!(eq_ignore_ascii_case_spec(styles[i].name@, name) || (is_blank(name)
                && eq_ignore_ascii_case_spec(styles[i].name@, "Standard"@))));
        }
        lemma_find_style(styles, name, k);
    }
}

/// When an entity is annotative: it carries an annotation context (a
/// context-manager key, up to ASCII case, in its extension dictionary) or a
/// legacy annotative XDATA record; or a text or multiline text whose first
/// answering text style is annotative (a multiline text also by its own
/// flag); or a dimension or leader whose first answering dimension style is
/// annotative; or a multileader with scaling enabled or an annotative style
/// object; or a table with an annotative style object.
pub proof fn lemma_annotative_when(styles: AnnotationStyles, e: AnnoEntity)
    ensures
        annotative(styles, e) == {
            ||| (e.context_keys matches Some(ks) && exists|i: int|
                0 <= i < ks@.len() && eq_ignore_ascii_case_spec((#[trigger] ks@[i])@, CONTEXT_MANAGER@))
            ||| find_record(e.extended_data.records@, ANNO_PO_APP@) < e.extended_data.records@.len()
            ||| find_record(e.extended_data.records@, ANNOTATIVE_DATA_APP@)
                < e.extended_data.records@.len()
            ||| match e.kind {
                AnnoKind::Text { style } => first_answering_style_annotative(styles.text_styles@, style@),
                AnnoKind::MText { annotative, style } => annotative || first_answering_style_annotative(
                    styles.text_styles@,
                    style@,
                ),
                AnnoKind::Dimension { style } => first_answering_style_annotative(
                    styles.dim_styles@,
                    style@,
                ),
                AnnoKind::Leader { style } => first_answering_style_annotative(styles.dim_styles@, style@),
                AnnoKind::MultiLeader { enabled, style } => enabled || (style matches Some(h) && exists|
                    i: int,
                |
                    0 <= i < styles.mleader_styles@.len() && (#[trigger] styles.mleader_styles@[i]).handle
                        == h && styles.mleader_styles@[i].annotative),
                AnnoKind::Table { style } => style matches Some(h) && exists|i: int|
                    0 <= i < styles.table_styles@.len() && (#[trigger] styles.table_styles@[i]).handle == h
                        && styles.table_styles@[i].annotative,
                AnnoKind::Other => false,
            }
        },
{
    match e.kind {
        AnnoKind::Text { style } => lemma_named_style_annotative(styles.text_styles@, style@),
        AnnoKind::MText { style, .. } => lemma_named_style_annotative(styles.text_styles@, style@),
        AnnoKind::Dimension { style } => lemma_named_style_annotative(styles.dim_styles@, style@),
        AnnoKind::Leader { style } => lemma_named_style_annotative(styles.dim_styles@, style@),
        _ => {},
    }
}

} // verus!
