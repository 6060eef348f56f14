//! Paper-space layout management on a drawing: renaming, deleting (with
//! everything the layout owns) and reordering layout tabs, plus the preview
//! wires overlaid on the scene.
//!
//! The drawing is held as what these operations read of it: its objects
//! (layouts, dictionaries, page setups), its entities with their owners, and
//! its block records, all keyed by handle.

use vstd::prelude::*;

use crate::seqs::{lemma_retained_step, lemma_take_all, lemma_take_none, retained};
use crate::text::same_text;

verus! {

/// An object of the drawing, as far as layout management reads it.
pub enum ObjectKind {
    /// A paper-space layout, owning the entities of its block record.
    Layout { name: String, block_record: u64, tab_order: i16 },
    /// A dictionary of named entries.
    Dictionary { entries: Vec<(String, u64)> },
    /// A standalone page setup.
    PlotSettings { page_name: String },
    /// Any other object.
    Other,
}

/// An object and its handle.
pub struct DocObject {
    pub handle: u64,
    pub kind: ObjectKind,
}

/// An entity and the handle of the block record that owns it.
#[derive(Clone, Copy)]
pub struct DocEntity {
    pub handle: u64,
    pub owner: u64,
}

/// A block record: its handle and its (unique) name.
pub struct BlockRecord {
    pub handle: u64,
    pub name: String,
}

/// The parts of a drawing that layout management reads and changes.
pub struct Document {
    pub objects: Vec<DocObject>,
    pub entities: Vec<DocEntity>,
    pub block_records: Vec<BlockRecord>,
    /// Handle of the `ACAD_LAYOUT` dictionary.
    pub acad_layout_dict_handle: u64,
}

/// The scene: the drawing plus the per-entity caches and overlays kept beside
/// it. `W` is the wire model the overlays are drawn with.
pub struct Scene<W> {
    pub document: Document,
    /// Handles of the entities with a cached hatch model.
    pub hatches: Vec<u64>,
    /// Handles of the entities with a cached mesh model.
    pub meshes: Vec<u64>,
    /// Handles of the entities with a cached solid model.
    pub solid_models: Vec<u64>,
    /// Name of the active layout ("Model" for model space).
    pub current_layout: String,
    /// Generation of the geometry; bumped whenever tessellation must be redone.
    pub geometry_epoch: u64,
    /// Rubber-band preview wires overlaid on the scene.
    pub preview_wires: Vec<W>,
    /// Interim wire of a command in progress.
    pub interim_wire: Option<W>,
}

// ── The abstract drawing ────────────────────────────────────────────────────

/// An object as plain values.
pub enum ObjectModel {
    Layout { name: Seq<char>, block_record: u64, tab_order: i16 },
    Dictionary { entries: Seq<(Seq<char>, u64)> },
    PlotSettings { page_name: Seq<char> },
    Other,
}

/// Dictionary entries as plain values.
pub open spec fn entries_model(e: Seq<(String, u64)>) -> Seq<(Seq<char>, u64)> {
    e.map_values(|p: (String, u64)| (p.0@, p.1))
}

/// An object as its handle and plain values.
pub open spec fn object_model(o: DocObject) -> (u64, ObjectModel) {
    (
        o.handle,
        match o.kind {
            ObjectKind::Layout { name, block_record, tab_order } => ObjectModel::Layout {
                name: name@,
                block_record,
                tab_order,
            },
            ObjectKind::Dictionary { entries } => ObjectModel::Dictionary {
                entries: entries_model(entries@),
            },
            ObjectKind::PlotSettings { page_name } => ObjectModel::PlotSettings {
                page_name: page_name@,
            },
            ObjectKind::Other => ObjectModel::Other,
        },
    )
}

/// The drawing as plain values.
pub struct DocumentView {
    pub objects: Seq<(u64, ObjectModel)>,
    /// Entities as (handle, owner).
    pub entities: Seq<(u64, u64)>,
    /// Block records as (handle, name).
    pub block_records: Seq<(u64, Seq<char>)>,
    pub layout_dict: u64,
}

impl View for Document {
    type V = DocumentView;

    open spec fn view(&self) -> DocumentView {
        DocumentView {
            objects: self.objects@.map_values(|o: DocObject| object_model(o)),
            entities: self.entities@.map_values(|e: DocEntity| (e.handle, e.owner)),
            block_records: self.block_records@.map_values(|b: BlockRecord| (b.handle, b.name@)),
            layout_dict: self.acad_layout_dict_handle,
        }
    }
}

/// The scene as plain values.
pub struct SceneView<W> {
    pub document: DocumentView,
    pub hatches: Seq<u64>,
    pub meshes: Seq<u64>,
    pub solid_models: Seq<u64>,
    pub current_layout: Seq<char>,
    pub geometry_epoch: u64,
    pub preview_wires: Seq<W>,
    pub interim_wire: Option<W>,
}

impl<W> View for Scene<W> {
    type V = SceneView<W>;

    open spec fn view(&self) -> SceneView<W> {
        SceneView {
            document: self.document@,
            hatches: self.hatches@,
            meshes: self.meshes@,
            solid_models: self.solid_models@,
            current_layout: self.current_layout@,
            geometry_epoch: self.geometry_epoch,
            preview_wires: self.preview_wires@,
            interim_wire: self.interim_wire,
        }
    }
}

/// Whether `o` is a layout named `name`.
pub open spec fn is_layout_named(o: ObjectModel, name: Seq<char>) -> bool {
    o matches ObjectModel::Layout { name: n, .. } && n == name
}

/// Index of the first layout named `name`, or `objs.len()` when none is.
pub open spec fn find_layout(objs: Seq<(u64, ObjectModel)>, name: Seq<char>) -> int
    decreases objs.len(),
{
    if objs.len() == 0 {
        0
    } else if is_layout_named(objs[0].1, name) {
        0
    } else {
        1 + find_layout(objs.drop_first(), name)
    }
}

proof fn lemma_find_layout(objs: Seq<(u64, ObjectModel)>, name: Seq<char>, k: int)
    requires
        0 <= k <= objs.len(),
        forall|i: int| 0 <= i < k ==> !is_layout_named(#[trigger] objs[i].1, name),
        k == objs.len() || is_layout_named(objs[k].1, name),
    ensures
        find_layout(objs, name) == k,
    decreases k,
{
    if k > 0 {
        let t = objs.drop_first();
        assert forall|i: int| 0 <= i < k - 1 implies !is_layout_named(#[trigger] t[i].1, name) by {
            assert(t[i] == objs[i + 1]);
        }
        lemma_find_layout(t, name, k - 1);
    }
}

/// The objects after renaming the first layout named `old` to `new`.
pub open spec fn renamed(
    objs: Seq<(u64, ObjectModel)>,
    old: Seq<char>,
    new: Seq<char>,
) -> Seq<(u64, ObjectModel)> {
    let i = find_layout(objs, old);
    if i < objs.len() {
        match objs[i].1 {
            ObjectModel::Layout { block_record, tab_order, .. } => objs.update(
                i,
                (objs[i].0, ObjectModel::Layout { name: new, block_record, tab_order }),
            ),
            _ => objs,
        }
    } else {
        objs
    }
}

/// The tab order of the last layout named `name`, if there is one.
pub open spec fn last_tab_order(objs: Seq<(u64, ObjectModel)>, name: Seq<char>) -> Option<i16>
    decreases objs.len(),
{
    if objs.len() == 0 {
        None
    } else {
        match objs.last().1 {
            ObjectModel::Layout { name: n, tab_order, .. } => if n == name {
                Some(tab_order)
            } else {
                last_tab_order(objs.drop_last(), name)
            },
            _ => last_tab_order(objs.drop_last(), name),
        }
    }
}

/// One object after the tab orders of layouts `a` and `b` were exchanged:
/// layouts named `a` take `ob`, other layouts named `b` take `oa`.
pub open spec fn with_swapped_order(
    o: (u64, ObjectModel),
    a: Seq<char>,
    b: Seq<char>,
    oa: i16,
    ob: i16,
) -> (u64, ObjectModel) {
    match o.1 {
        ObjectModel::Layout { name, block_record, tab_order } => if name == a {
            (o.0, ObjectModel::Layout { name, block_record, tab_order: ob })
        } else if name == b {
            (o.0, ObjectModel::Layout { name, block_record, tab_order: oa })
        } else {
            o
        },
        _ => o,
    }
}

/// The objects after `swap_layout_order(a, b)`.
pub open spec fn swapped(
    objs: Seq<(u64, ObjectModel)>,
    a: Seq<char>,
    b: Seq<char>,
) -> Seq<(u64, ObjectModel)> {
    match (last_tab_order(objs, a), last_tab_order(objs, b)) {
        (Some(oa), Some(ob)) => objs.map_values(
            |o: (u64, ObjectModel)| with_swapped_order(o, a, b, oa, ob),
        ),
        _ => objs,
    }
}

/// Index of the first block record with handle `h`, or the length when none has.
pub open spec fn find_block(brs: Seq<(u64, Seq<char>)>, h: u64) -> int
    decreases brs.len(),
{
    if brs.len() == 0 {
        0
    } else if brs[0].0 == h {
        0
    } else {
        1 + find_block(brs.drop_first(), h)
    }
}

proof fn lemma_find_block(brs: Seq<(u64, Seq<char>)>, h: u64, k: int)
    requires
        0 <= k <= brs.len(),
        forall|i: int| 0 <= i < k ==> (#[trigger] brs[i]).0 != h,
        k == brs.len() || brs[k].0 == h,
    ensures
        find_block(brs, h) == k,
    decreases k,
{
    if k > 0 {
        let t = brs.drop_first();
        assert forall|i: int| 0 <= i < k - 1 implies (#[trigger] t[i]).0 != h by {
            assert(t[i] == brs[i + 1]);
        }
        lemma_find_block(t, h, k - 1);
    }
}

/// A dictionary object with the entry `name` dropped, if it is the layout
/// dictionary `dict`; any other object unchanged.
pub open spec fn without_dict_entry(o: (u64, ObjectModel), dict: u64, name: Seq<char>) -> (
    u64,
    ObjectModel,
) {
    if o.0 == dict {
        match o.1 {
            ObjectModel::Dictionary { entries } => (
                o.0,
                ObjectModel::Dictionary { entries: retained(entries, entry_not_named(name)) },
            ),
            _ => o,
        }
    } else {
        o
    }
}

/// Whether `o` is a page setup for the layout `name`.
pub open spec fn is_page_setup_of(o: ObjectModel, name: Seq<char>) -> bool {
    o matches ObjectModel::PlotSettings { page_name } && page_name == name
}

/// Objects other than the one with handle `h`.
pub open spec fn handle_is_not(h: u64) -> spec_fn((u64, ObjectModel)) -> bool {
    |o: (u64, ObjectModel)| o.0 != h
}

/// Objects other than page setups of the layout `name`.
pub open spec fn not_page_setup_of(name: Seq<char>) -> spec_fn((u64, ObjectModel)) -> bool {
    |o: (u64, ObjectModel)| !is_page_setup_of(o.1, name)
}

/// Entities not owned by the block record `bh`.
pub open spec fn not_owned_by(bh: u64) -> spec_fn((u64, u64)) -> bool {
    |e: (u64, u64)| e.1 != bh
}

/// Block records other than those named `n`.
pub open spec fn block_not_named(n: Seq<char>) -> spec_fn((u64, Seq<char>)) -> bool {
    |b: (u64, Seq<char>)| b.1 != n
}

/// Dictionary entries other than `name`.
pub open spec fn entry_not_named(name: Seq<char>) -> spec_fn((Seq<char>, u64)) -> bool {
    |e: (Seq<char>, u64)| e.0 != name
}

/// Handles that no entity owned by `bh` in `ents` has.
pub open spec fn not_owned_in(ents: Seq<(u64, u64)>, bh: u64) -> spec_fn(u64) -> bool {
    |h: u64| !ents.contains((h, bh))
}

/// The block record a layout object owns (0 for any other object).
pub open spec fn block_record_of(o: ObjectModel) -> u64 {
    match o {
        ObjectModel::Layout { block_record, .. } => block_record,
        _ => 0,
    }
}

/// The scene after deleting the layout `name` with handle `lh` and block
/// record `bh`.
pub open spec fn after_delete<W>(v: SceneView<W>, name: Seq<char>, lh: u64, bh: u64) -> SceneView<
    W,
> {
    let d = v.document;
    let objs1 = retained(d.objects, handle_is_not(lh));
    let objs2 = objs1.map_values(
        |o: (u64, ObjectModel)| without_dict_entry(o, d.layout_dict, name),
    );
    let objs3 = retained(objs2, not_page_setup_of(name));
    let j = find_block(d.block_records, bh);
    let brs = if j < d.block_records.len() {
        retained(d.block_records, block_not_named(d.block_records[j].1))
    } else {
        d.block_records
    };
    SceneView {
        document: DocumentView {
            objects: objs3,
            entities: retained(d.entities, not_owned_by(bh)),
            block_records: brs,
            layout_dict: d.layout_dict,
        },
        hatches: retained(v.hatches, not_owned_in(d.entities, bh)),
        meshes: retained(v.meshes, not_owned_in(d.entities, bh)),
        solid_models: retained(v.solid_models, not_owned_in(d.entities, bh)),
        current_layout: if v.current_layout == name {
            "Model"@
        } else {
            v.current_layout
        },
        geometry_epoch: if v.geometry_epoch == u64::MAX {
            0
        } else {
            (v.geometry_epoch + 1) as u64
        },
        preview_wires: v.preview_wires,
        interim_wire: v.interim_wire,
    }
}

// ── Helpers ─────────────────────────────────────────────────────────────────

fn copy_string(s: &String) -> (r: String)
    ensures
        r@ == s@,
{
    s.clone()
}

fn copy_entries(e: &Vec<(String, u64)>) -> (r: Vec<(String, u64)>)
    ensures
        entries_model(r@) == entries_model(e@),
{
    let mut out: Vec<(String, u64)> = Vec::new();
    let mut i: usize = 0;
    while i < e.len()
        invariant
            i <= e@.len(),
            entries_model(out@) == entries_model(e@.take(i as int)),
        decreases e@.len() - i,
    {
        let ghost before = out@;
        out.push((copy_string(&e[i].0), e[i].1));
        proof {
            assert(entries_model(out@) =~= entries_model(before).push((e@[i as int].0@, e@[i as int].1)));
            assert(e@.take(i + 1) =~= e@.take(i as int).push(e@[i as int]));
            assert(entries_model(e@.take(i + 1)) =~= entries_model(e@.take(i as int)).push((e@[i as int].0@, e@[i as int].1)));
        }
        i = i + 1;
    }
    proof {
        assert(e@.take(e@.len() as int) =~= e@);
    }
    out
}

fn copy_object(o: &DocObject) -> (r: DocObject)
    ensures
        object_model(r) == object_model(*o),
{
    let kind = match &o.kind {
        ObjectKind::Layout { name, block_record, tab_order } => ObjectKind::Layout {
            name: copy_string(name),
            block_record: *block_record,
            tab_order: *tab_order,
        },
        ObjectKind::Dictionary { entries } => ObjectKind::Dictionary {
            entries: copy_entries(entries),
        },
        ObjectKind::PlotSettings { page_name } => ObjectKind::PlotSettings {
            page_name: copy_string(page_name),
        },
        ObjectKind::Other => ObjectKind::Other,
    };
    DocObject { handle: o.handle, kind }
}

fn is_layout(o: &DocObject, name: &str) -> (r: bool)
    ensures
        r == is_layout_named(object_model(*o).1, name@),
{
    match &o.kind {
        ObjectKind::Layout { name: n, .. } => same_text(n.as_str(), name),
        _ => false,
    }
}

/// The handles in `hs` that no entity owned by `bh` has.
fn keep_unowned(hs: &Vec<u64>, ents: &Vec<DocEntity>, bh: u64) -> (r: Vec<u64>)
    ensures
        r@ == retained(hs@, not_owned_in(ents@.map_values(|e: DocEntity| (e.handle, e.owner)), bh)),
{
    let ghost es = ents@.map_values(|e: DocEntity| (e.handle, e.owner));
    let ghost keep = not_owned_in(es, bh);
    let mut out: Vec<u64> = Vec::new();
    let mut i: usize = 0;
    proof {
        lemma_take_none(hs@, keep);
    }
    while i < hs.len()
        invariant
            i <= hs@.len(),
            es == ents@.map_values(|e: DocEntity| (e.handle, e.owner)),
            keep == not_owned_in(es, bh),
            out@ == retained(hs@.take(i as int), keep),
        decreases hs@.len() - i,
    {
        let h = hs[i];
        let mut owned = false;
        let mut j: usize = 0;
        while j < ents.len()
            invariant
                j <= ents@.len(),
                es == ents@.map_values(|e: DocEntity| (e.handle, e.owner)),
                owned == exists|k: int| 0 <= k < j && es[k] == (h, bh),
            decreases ents@.len() - j,
        {
            if ents[j].handle == h && ents[j].owner == bh {
                owned = true;
                proof {
                    assert(es[j as int] == (h, bh));
                }
            }
            j = j + 1;
        }
        proof {
            lemma_retained_step(hs@, keep, i as int);
            if owned {
                let k = choose|k: int| 0 <= k < j && es[k] == (h, bh);
                assert(es.contains((h, bh)));
            } else {
                assert(!es.contains((h, bh)));
            }
        }
        if !owned {
            out.push(h);
        }
        i = i + 1;
    }
    proof {
        lemma_take_all(hs@);
    }
    out
}


fn entities_not_owned_by(ents: &Vec<DocEntity>, bh: u64) -> (r: Vec<DocEntity>)
    ensures
        r@.map_values(|e: DocEntity| (e.handle, e.owner)) == retained(
            ents@.map_values(|e: DocEntity| (e.handle, e.owner)),
            not_owned_by(bh),
        ),
{
    let ghost es = ents@.map_values(|e: DocEntity| (e.handle, e.owner));
    let mut out: Vec<DocEntity> = Vec::new();
    let mut i: usize = 0;
    proof {
        lemma_take_none(es, not_owned_by(bh));
    }
    while i < ents.len()
        invariant
            i <= ents@.len(),
            es == ents@.map_values(|e: DocEntity| (e.handle, e.owner)),
            out@.map_values(|e: DocEntity| (e.handle, e.owner)) == retained(es.take(i as int), not_owned_by(bh)),
        decreases ents@.len() - i,
    {
        proof {
            lemma_retained_step(es, not_owned_by(bh), i as int);
        }
        let e = ents[i];
        if e.owner != bh {
            let ghost before = out@.map_values(|e: DocEntity| (e.handle, e.owner));
            out.push(e);
            proof {
                assert(out@.map_values(|e: DocEntity| (e.handle, e.owner)) =~= before.push((e.handle, e.owner)));
            }
        }
        i = i + 1;
    }
    proof {
        lemma_take_all(es);
    }
    out
}

fn objects_without_handle(objs: &Vec<DocObject>, lh: u64) -> (r: Vec<DocObject>)
    ensures
        r@.map_values(|o: DocObject| object_model(o)) == retained(
            objs@.map_values(|o: DocObject| object_model(o)),
            handle_is_not(lh),
        ),
{
    let ghost os = objs@.map_values(|o: DocObject| object_model(o));
    let mut out: Vec<DocObject> = Vec::new();
    let mut i: usize = 0;
    proof {
        lemma_take_none(os, handle_is_not(lh));
    }
    while i < objs.len()
        invariant
            i <= objs@.len(),
            os == objs@.map_values(|o: DocObject| object_model(o)),
            out@.map_values(|o: DocObject| object_model(o)) == retained(os.take(i as int), handle_is_not(lh)),
        decreases objs@.len() - i,
    {
        proof {
            lemma_retained_step(os, handle_is_not(lh), i as int);
        }
        if objs[i].handle != lh {
            let ghost before = out@.map_values(|o: DocObject| object_model(o));
            out.push(copy_object(&objs[i]));
            proof {
                assert(out@.map_values(|o: DocObject| object_model(o)) =~= before.push(os[i as int]));
            }
        }
        i = i + 1;
    }
    proof {
        lemma_take_all(os);
    }
    out
}

fn is_page_setup(o: &DocObject, name: &str) -> (r: bool)
    ensures
        r == is_page_setup_of(object_model(*o).1, name@),
{
    match &o.kind {
        ObjectKind::PlotSettings { page_name } => same_text(page_name.as_str(), name),
        _ => false,
    }
}

fn objects_without_page_setups(objs: &Vec<DocObject>, name: &str) -> (r: Vec<DocObject>)
    ensures
        r@.map_values(|o: DocObject| object_model(o)) == retained(
            objs@.map_values(|o: DocObject| object_model(o)),
            not_page_setup_of(name@),
        ),
{
    let ghost os = objs@.map_values(|o: DocObject| object_model(o));
    let mut out: Vec<DocObject> = Vec::new();
    let mut i: usize = 0;
    proof {
        lemma_take_none(os, not_page_setup_of(name@));
    }
    while i < objs.len()
        invariant
            i <= objs@.len(),
            os == objs@.map_values(|o: DocObject| object_model(o)),
            out@.map_values(|o: DocObject| object_model(o)) == retained(os.take(i as int), not_page_setup_of(name@)),
        decreases objs@.len() - i,
    {
        proof {
            lemma_retained_step(os, not_page_setup_of(name@), i as int);
        }
        if !is_page_setup(&objs[i], name) {
            let ghost before = out@.map_values(|o: DocObject| object_model(o));
            out.push(copy_object(&objs[i]));
            proof {
                assert(out@.map_values(|o: DocObject| object_model(o)) =~= before.push(os[i as int]));
            }
        }
        i = i + 1;
    }
    proof {
        lemma_take_all(os);
    }
    out
}

fn entries_without(entries: &Vec<(String, u64)>, name: &str) -> (r: Vec<(String, u64)>)
    ensures
        entries_model(r@) == retained(entries_model(entries@), entry_not_named(name@)),
{
    let ghost es = entries_model(entries@);
    let mut out: Vec<(String, u64)> = Vec::new();
    let mut i: usize = 0;
    proof {
        lemma_take_none(es, entry_not_named(name@));
    }
    while i < entries.len()
        invariant
            i <= entries@.len(),
            es == entries_model(entries@),
            entries_model(out@) == retained(es.take(i as int), entry_not_named(name@)),
        decreases entries@.len() - i,
    {
        proof {
            lemma_retained_step(es, entry_not_named(name@), i as int);
        }
        if !same_text(entries[i].0.as_str(), name) {
            let ghost before = entries_model(out@);
            out.push((copy_string(&entries[i].0), entries[i].1));
            proof {
                assert(entries_model(out@) =~= before.push(es[i as int]));
            }
        }
        i = i + 1;
    }
    proof {
        lemma_take_all(es);
    }
    out
}

fn drop_dict_entry(objs: &Vec<DocObject>, dict: u64, name: &str) -> (r: Vec<DocObject>)
    ensures
        r@.map_values(|o: DocObject| object_model(o)) == objs@.map_values(|o: DocObject| object_model(o)).map_values(
            |o: (u64, ObjectModel)| without_dict_entry(o, dict, name@),
        ),
{
    let ghost os = objs@.map_values(|o: DocObject| object_model(o));
    let mut out: Vec<DocObject> = Vec::new();
    let mut i: usize = 0;
    while i < objs.len()
        invariant
            i <= objs@.len(),
            os == objs@.map_values(|o: DocObject| object_model(o)),
            out@.map_values(|o: DocObject| object_model(o)) =~= os.take(i as int).map_values(
                |o: (u64, ObjectModel)| without_dict_entry(o, dict, name@),
            ),
        decreases objs@.len() - i,
    {
        let o = &objs[i];
        let next = if o.handle == dict {
            match &o.kind {
                ObjectKind::Dictionary { entries } => DocObject {
                    handle: o.handle,
                    kind: ObjectKind::Dictionary { entries: entries_without(entries, name) },
                },
                _ => copy_object(o),
            }
        } else {
            copy_object(o)
        };
        let ghost before = out@.map_values(|o: DocObject| object_model(o));
        out.push(next);
        proof {
            assert(out@.map_values(|o: DocObject| object_model(o)) =~= before.push(
                without_dict_entry(os[i as int], dict, name@),
            ));
            assert(os.take(i + 1) =~= os.take(i as int).push(os[i as int]));
        }
        i = i + 1;
    }
    proof {
        assert(os.take(os.len() as int) =~= os);
    }
    out
}

fn blocks_not_named(brs: &Vec<BlockRecord>, n: &String) -> (r: Vec<BlockRecord>)
    ensures
        r@.map_values(|b: BlockRecord| (b.handle, b.name@)) == retained(
            brs@.map_values(|b: BlockRecord| (b.handle, b.name@)),
            block_not_named(n@),
        ),
{
    let ghost bs = brs@.map_values(|b: BlockRecord| (b.handle, b.name@));
    let mut out: Vec<BlockRecord> = Vec::new();
    let mut i: usize = 0;
    proof {
        lemma_take_none(bs, block_not_named(n@));
    }
    while i < brs.len()
        invariant
            i <= brs@.len(),
            bs == brs@.map_values(|b: BlockRecord| (b.handle, b.name@)),
            out@.map_values(|b: BlockRecord| (b.handle, b.name@)) == retained(bs.take(i as int), block_not_named(n@)),
        decreases brs@.len() - i,
    {
        proof {
            lemma_retained_step(bs, block_not_named(n@), i as int);
        }
        if !same_text(brs[i].name.as_str(), n.as_str()) {
            let ghost before = out@.map_values(|b: BlockRecord| (b.handle, b.name@));
            out.push(BlockRecord { handle: brs[i].handle, name: copy_string(&brs[i].name) });
            proof {
                assert(out@.map_values(|b: BlockRecord| (b.handle, b.name@)) =~= before.push(bs[i as int]));
            }
        }
        i = i + 1;
    }
    proof {
        lemma_take_all(bs);
    }
    out
}

impl<W> Scene<W> {
    // ── Layout management ─────────────────────────────────────────────────

    /// Renames the (first) paper-space layout named `old_name`.
    pub fn rename_layout(&mut self, old_name: &str, new_name: &str)
        ensures
            final(self)@ == (SceneView {
                document: DocumentView {
                    objects: renamed(old(self)@.document.objects, old_name@, new_name@),
                    ..old(self)@.document
                },
                ..old(self)@
            }),
    {
        let ghost objs = self.document@.objects;
        let mut i: usize = 0;
        while i < self.document.objects.len()
            invariant
                objs == self.document@.objects,
                self@ == old(self)@,
                i <= objs.len(),
                forall|k: int| 0 <= k < i ==> !is_layout_named(#[trigger] objs[k].1, old_name@),
            decreases objs.len() - i,
        {
            if is_layout(&self.document.objects[i], old_name) {
                proof {
                    lemma_find_layout(objs, old_name@, i as int);
                }
                let handle = self.document.objects[i].handle;
                let (block_record, tab_order) = match &self.document.objects[i].kind {
                    ObjectKind::Layout { block_record, tab_order, .. } => (*block_record, *tab_order),
                    _ => (0, 0),
                };
                let mut name = String::new();
                crate::text::push_str(&mut name, new_name);
                self.document.objects.set(
                    i,
                    DocObject { handle, kind: ObjectKind::Layout { name, block_record, tab_order } },
                );
                proof {
                    assert(self.document@.objects =~= renamed(objs, old_name@, new_name@));
                }
                return;
            }
            i = i + 1;
        }
        proof {
            lemma_find_layout(objs, old_name@, objs.len() as int);
        }
    }

    /// Deletes the paper-space layout `name` with everything it owns: its
    /// entities (and their cached models), the layout object, its entry in the
    /// layout dictionary, its block record and its page setups; falls back to
    /// Model space if it was active. False (and nothing changed) for "Model"
    /// or when no layout has that name.
    pub fn delete_layout(&mut self, name: &str) -> (r: bool)
        ensures
            name@ == "Model"@ ==> !r && final(self)@ == old(self)@,
            name@ != "Model"@ && find_layout(old(self)@.document.objects, name@)
                >= old(self)@.document.objects.len() ==> !r && final(self)@ == old(self)@,
            name@ != "Model"@ && find_layout(old(self)@.document.objects, name@)
                < old(self)@.document.objects.len() ==> r && final(self)@ == after_delete(
                old(self)@,
                name@,
                old(self)@.document.objects[find_layout(old(self)@.document.objects, name@)].0,
                block_record_of(
                    old(self)@.document.objects[find_layout(old(self)@.document.objects, name@)].1,
                ),
            ),
    {
        if same_text(name, "Model") {
            return false;
        }
        let ghost v = self@;
        let ghost objs = self.document@.objects;
        let mut i: usize = 0;
        while i < self.document.objects.len() && !is_layout(&self.document.objects[i], name)
            invariant
                objs == self.document@.objects,
                self@ == v,
                i <= objs.len(),
                forall|k: int| 0 <= k < i ==> !is_layout_named(#[trigger] objs[k].1, name@),
            decreases objs.len() - i,
        {
            i = i + 1;
        }
        proof {
            lemma_find_layout(objs, name@, i as int);
        }
        if i == self.document.objects.len() {
            return false;
        }
        let lh = self.document.objects[i].handle;
        let bh = match &self.document.objects[i].kind {
            ObjectKind::Layout { block_record, .. } => *block_record,
            _ => 0,
        };
        // Cached models of the entities the layout owns, then the entities.
        self.hatches = keep_unowned(&self.hatches, &self.document.entities, bh);
        self.meshes = keep_unowned(&self.meshes, &self.document.entities, bh);
        self.solid_models = keep_unowned(&self.solid_models, &self.document.entities, bh);
        self.document.entities = entities_not_owned_by(&self.document.entities, bh);
        // The layout object, its layout-dictionary entry and its page setups.
        let objs1 = objects_without_handle(&self.document.objects, lh);
        let objs2 = drop_dict_entry(&objs1, self.document.acad_layout_dict_handle, name);
        self.document.objects = objects_without_page_setups(&objs2, name);
        // The (now empty) block record.
        let ghost brs = self.document@.block_records;
        let mut j: usize = 0;
        while j < self.document.block_records.len() && self.document.block_records[j].handle != bh
            invariant
                brs == self.document@.block_records,
                j <= brs.len(),
                forall|k: int| 0 <= k < j ==> (#[trigger] brs[k]).0 != bh,
            decreases brs.len() - j,
        {
            j = j + 1;
        }
        proof {
            lemma_find_block(brs, bh, j as int);
        }
        if j < self.document.block_records.len() {
            let bn = copy_string(&self.document.block_records[j].name);
            self.document.block_records = blocks_not_named(&self.document.block_records, &bn);
        }
        if same_text(self.current_layout.as_str(), name) {
            let mut model = String::new();
            crate::text::push_str(&mut model, "Model");
            self.current_layout = model;
        }
        self.geometry_epoch = self.geometry_epoch.wrapping_add(1);
        proof {
            let want = after_delete(v, name@, lh, bh);
            assert(self@.document.objects == want.document.objects);
            assert(self@.document.block_records == want.document.block_records);
            assert(self@.current_layout == want.current_layout);
            assert(self@ == want);
        }
        true
    }

    /// Exchanges the tab order of the layouts `name_a` and `name_b` (as last
    /// found in the objects), so their tabs appear in swapped order. Nothing
    /// changes unless both exist.
    pub fn swap_layout_order(&mut self, name_a: &str, name_b: &str)
        ensures
            final(self)@ == (SceneView {
                document: DocumentView {
                    objects: swapped(old(self)@.document.objects, name_a@, name_b@),
                    ..old(self)@.document
                },
                ..old(self)@
            }),
    {
        let ghost objs = self.document@.objects;
        let mut order_a: Option<i16> = None;
        let mut order_b: Option<i16> = None;
        let mut i: usize = 0;
        proof {
            assert(objs.take(0) =~= Seq::<(u64, ObjectModel)>::empty());
        }
        while i < self.document.objects.len()
            invariant
                objs == self.document@.objects,
                self@ == old(self)@,
                i <= objs.len(),
                order_a == last_tab_order(objs.take(i as int), name_a@),
                order_b == last_tab_order(objs.take(i as int), name_b@),
            decreases objs.len() - i,
        {
            proof {
                assert(objs.take(i + 1).drop_last() =~= objs.take(i as int));
                assert(objs.take(i + 1).last() == objs[i as int]);
            }
            match &self.document.objects[i].kind {
                ObjectKind::Layout { name, tab_order, .. } => {
                    if same_text(name.as_str(), name_a) {
                        order_a = Some(*tab_order);
                    }
                    if same_text(name.as_str(), name_b) {
                        order_b = Some(*tab_order);
                    }
                },
                _ => {},
            }
            i = i + 1;
        }
        proof {
            assert(objs.take(objs.len() as int) =~= objs);
        }
        match (order_a, order_b) {
            (Some(oa), Some(ob)) => {
                let mut out: Vec<DocObject> = Vec::new();
                let mut j: usize = 0;
                while j < self.document.objects.len()
                    invariant
                        objs == self.document@.objects,
                        self@ == old(self)@,
                        j <= objs.len(),
                        out@.map_values(|o: DocObject| object_model(o)) =~= objs.take(
                            j as int,
                        ).map_values(
                            |o: (u64, ObjectModel)| with_swapped_order(o, name_a@, name_b@, oa, ob),
                        ),
                    decreases objs.len() - j,
                {
                    let o = &self.document.objects[j];
                    let next = match &o.kind {
                        ObjectKind::Layout { name, block_record, tab_order } => {
                            if same_text(name.as_str(), name_a) {
                                DocObject {
                                    handle: o.handle,
                                    kind: ObjectKind::Layout {
                                        name: copy_string(name),
                                        block_record: *block_record,
                                        tab_order: ob,
                                    },
                                }
                            } else if same_text(name.as_str(), name_b) {
                                DocObject {
                                    handle: o.handle,
                                    kind: ObjectKind::Layout {
                                        name: copy_string(name),
                                        block_record: *block_record,
                                        tab_order: oa,
                                    },
                                }
                            } else {
                                copy_object(o)
                            }
                        },
                        _ => copy_object(o),
                    };
                    let ghost before = out@.map_values(|o: DocObject| object_model(o));
                    out.push(next);
                    proof {
                        assert(out@.map_values(|o: DocObject| object_model(o)) =~= before.push(
                            with_swapped_order(objs[j as int], name_a@, name_b@, oa, ob),
                        ));
                        assert(objs.take(j + 1) =~= objs.take(j as int).push(objs[j as int]));
                    }
                    j = j + 1;
                }
                self.document.objects = out;
                proof {
                    assert(objs.take(objs.len() as int) =~= objs);
                    assert(self.document@.objects =~= swapped(objs, name_a@, name_b@));
                }
            },
            _ => {},
        }
    }

    // ── Preview wire ──────────────────────────────────────────────────────

    /// Replaces the preview overlay. The overlay is not part of the
    /// tessellated geometry, so the geometry generation is left alone.
    pub fn set_preview_wires(&mut self, wires: Vec<W>)
        ensures
            final(self)@ == (SceneView { preview_wires: wires@, ..old(self)@ }),
    {
        self.preview_wires = wires;
    }

    /// Drops the preview overlay and the interim wire.
    pub fn clear_preview_wire(&mut self)
        ensures
            final(self)@ == (SceneView {
                preview_wires: Seq::empty(),
                interim_wire: None,
                ..old(self)@
            }),
    {
        self.preview_wires = Vec::new();
        self.interim_wire = None;
    }

    /// Sets the interim wire overlay.
    pub fn set_interim_wire(&mut self, w: W)
        ensures
            final(self)@ == (SceneView { interim_wire: Some(w), ..old(self)@ }),
    {
        self.interim_wire = Some(w);
    }
}

// ── Laws ────────────────────────────────────────────────────────────────────

/// Whether at most one layout in `objs` is named `n`.
pub open spec fn named_once(objs: Seq<(u64, ObjectModel)>, n: Seq<char>) -> bool {
    forall|i: int, j: int|
        0 <= i < objs.len() && 0 <= j < objs.len() && is_layout_named(#[trigger] objs[i].1, n)
            && is_layout_named(#[trigger] objs[j].1, n) ==> i == j
}

proof fn lemma_find_layout_first(objs: Seq<(u64, ObjectModel)>, name: Seq<char>)
    ensures
        0 <= find_layout(objs, name) <= objs.len(),
        forall|i: int| 0 <= i < find_layout(objs, name) ==> !is_layout_named(#[trigger] objs[i].1, name),
        find_layout(objs, name) < objs.len() ==> is_layout_named(objs[find_layout(objs, name)].1, name),
    decreases objs.len(),
{
    if objs.len() > 0 && !is_layout_named(objs[0].1, name) {
        let t = objs.drop_first();
        lemma_find_layout_first(t, name);
        assert forall|i: int| 0 <= i < find_layout(objs, name) implies !is_layout_named(
            #[trigger] objs[i].1,
            name,
        ) by {
            if i > 0 {
                assert(objs[i] == t[i - 1]);
            }
        }
        if find_layout(objs, name) < objs.len() {
            assert(objs[find_layout(objs, name)] == t[find_layout(t, name)]);
        }
    }
}

/// Renaming a layout and then renaming it back restores the objects, unless
/// a layout already had the new name ahead of it.
pub proof fn lemma_rename_undone(objs: Seq<(u64, ObjectModel)>, old: Seq<char>, new: Seq<char>)
    requires
        find_layout(objs, new) >= find_layout(objs, old),
    ensures
        renamed(renamed(objs, old, new), new, old) == objs,
{
    let k = find_layout(objs, old);
    lemma_find_layout_first(objs, old);
    lemma_find_layout_first(objs, new);
    if k < objs.len() {
        let objs1 = renamed(objs, old, new);
        assert forall|i: int| 0 <= i < k implies !is_layout_named(#[trigger] objs1[i].1, new) by {
            assert(objs1[i] == objs[i]);
        }
        lemma_find_layout(objs1, new, k);
        assert(renamed(objs1, new, old) =~= objs);
    }
}

/// What `last_tab_order` finds, and that it finds nothing only when no layout
/// has the name.
/// Whether `o` is a layout named `name` with tab order `t`.
pub open spec fn layout_with_order(o: ObjectModel, name: Seq<char>, t: i16) -> bool {
    o matches ObjectModel::Layout { name: n, tab_order, .. } && n == name && tab_order == t
}

proof fn lemma_last_tab_order(objs: Seq<(u64, ObjectModel)>, name: Seq<char>)
    ensures
        match last_tab_order(objs, name) {
            Some(t) => exists|i: int|
                0 <= i < objs.len() && layout_with_order(#[trigger] objs[i].1, name, t),
            None => forall|i: int| 0 <= i < objs.len() ==> !is_layout_named(#[trigger] objs[i].1, name),
        },
    decreases objs.len(),
{
    if objs.len() > 0 {
        let t = objs.drop_last();
        lemma_last_tab_order(t, name);
        match last_tab_order(objs, name) {
            Some(x) => {
                if is_layout_named(objs.last().1, name) {
                    assert(objs[objs.len() - 1] == objs.last());
                } else {
                    let i = choose|i: int|
                        0 <= i < t.len() && layout_with_order(#[trigger] t[i].1, name, x);
                    assert(objs[i] == t[i]);
                }
            },
            None => {
                assert forall|i: int| 0 <= i < objs.len() implies !is_layout_named(
                    #[trigger] objs[i].1,
                    name,
                ) by {
                    if i < t.len() {
                        assert(objs[i] == t[i]);
                    }
                }
            },
        }
    }
}

proof fn lemma_last_tab_order_swapped(
    objs: Seq<(u64, ObjectModel)>,
    a: Seq<char>,
    b: Seq<char>,
    oa: i16,
    ob: i16,
)
    requires
        a != b,
    ensures
        last_tab_order(
            objs.map_values(|o: (u64, ObjectModel)| with_swapped_order(o, a, b, oa, ob)),
            a,
        ) == match last_tab_order(objs, a) {
            Some(_) => Some(ob),
            None => None::<i16>,
        },
        last_tab_order(
            objs.map_values(|o: (u64, ObjectModel)| with_swapped_order(o, a, b, oa, ob)),
            b,
        ) == match last_tab_order(objs, b) {
            Some(_) => Some(oa),
            None => None::<i16>,
        },
    decreases objs.len(),
{
    let m = objs.map_values(|o: (u64, ObjectModel)| with_swapped_order(o, a, b, oa, ob));
    if objs.len() > 0 {
        let t = objs.drop_last();
        lemma_last_tab_order_swapped(t, a, b, oa, ob);
        assert(m.drop_last() =~= t.map_values(
            |o: (u64, ObjectModel)| with_swapped_order(o, a, b, oa, ob),
        ));
        assert(m.last() == with_swapped_order(objs.last(), a, b, oa, ob));
    }
}

/// Swapping the tab order of two layouts gives each the order the other had.
pub proof fn lemma_swap_exchanges(objs: Seq<(u64, ObjectModel)>, a: Seq<char>, b: Seq<char>)
    requires
        a != b,
    ensures
        last_tab_order(objs, a) is Some && last_tab_order(objs, b) is Some ==> last_tab_order(
            swapped(objs, a, b),
            a,
        ) == last_tab_order(objs, b) && last_tab_order(swapped(objs, a, b), b) == last_tab_order(
            objs,
            a,
        ),
{
    match (last_tab_order(objs, a), last_tab_order(objs, b)) {
        (Some(oa), Some(ob)) => {
            lemma_last_tab_order_swapped(objs, a, b, oa, ob);
        },
        _ => {},
    }
}

/// Swapping the tab order of two distinct, uniquely named layouts twice
/// restores the objects.
pub proof fn lemma_swap_twice(objs: Seq<(u64, ObjectModel)>, a: Seq<char>, b: Seq<char>)
    requires
        a != b,
        named_once(objs, a),
        named_once(objs, b),
    ensures
        swapped(swapped(objs, a, b), a, b) == objs,
{
    match (last_tab_order(objs, a), last_tab_order(objs, b)) {
        (Some(oa), Some(ob)) => {
            let once = swapped(objs, a, b);
            lemma_last_tab_order_swapped(objs, a, b, oa, ob);
            lemma_last_tab_order(objs, a);
            lemma_last_tab_order(objs, b);
            let ia = choose|i: int|
                0 <= i < objs.len() && layout_with_order(#[trigger] objs[i].1, a, oa);
            let ib = choose|i: int|
                0 <= i < objs.len() && layout_with_order(#[trigger] objs[i].1, b, ob);
            let twice = swapped(once, a, b);
            assert forall|i: int| 0 <= i < objs.len() implies #[trigger] twice[i] == objs[i] by {
                if is_layout_named(objs[i].1, a) {
                    assert(is_layout_named(objs[ia].1, a));
                }
                if is_layout_named(objs[i].1, b) {
                    assert(is_layout_named(objs[ib].1, b));
                }
            }
            assert(twice =~= objs);
        },
        _ => {},
    }
}

/// Deleting a layout leaves no entity owned by its block record, no cached
/// model of such an entity, no object with the layout's handle, no page setup
/// for it and no entry for it in the layout dictionary, and Model space
/// active if it was.
pub proof fn lemma_delete_leaves_nothing_owned<W>(
    v: SceneView<W>,
    name: Seq<char>,
    lh: u64,
    bh: u64,
)
    ensures
        forall|i: int|
            0 <= i < after_delete(v, name, lh, bh).document.entities.len() ==> (#[trigger] after_delete(
                v,
                name,
                lh,
                bh,
            ).document.entities[i]).1 != bh,
        forall|i: int|
            0 <= i < after_delete(v, name, lh, bh).hatches.len() ==> !v.document.entities.contains(
                (#[trigger] after_delete(v, name, lh, bh).hatches[i], bh),
            ),
        forall|i: int|
            0 <= i < after_delete(v, name, lh, bh).meshes.len() ==> !v.document.entities.contains(
                (#[trigger] after_delete(v, name, lh, bh).meshes[i], bh),
            ),
        forall|i: int|
            0 <= i < after_delete(v, name, lh, bh).solid_models.len()
                ==> !v.document.entities.contains(
                (#[trigger] after_delete(v, name, lh, bh).solid_models[i], bh),
            ),
        forall|i: int|
            0 <= i < after_delete(v, name, lh, bh).document.objects.len() ==> (#[trigger] after_delete(
                v,
                name,
                lh,
                bh,
            ).document.objects[i]).0 != lh && !is_page_setup_of(
                after_delete(v, name, lh, bh).document.objects[i].1,
                name,
            ) && (after_delete(v, name, lh, bh).document.objects[i].0 == v.document.layout_dict
                ==> match after_delete(v, name, lh, bh).document.objects[i].1 {
                ObjectModel::Dictionary { entries } => forall|e: int|
                    0 <= e < entries.len() ==> (#[trigger] entries[e]).0 != name,
                _ => true,
            }),
        name != "Model"@ ==> after_delete(v, name, lh, bh).current_layout != name,
{
    let d = v.document;
    let r = after_delete(v, name, lh, bh);
    crate::seqs::lemma_retained_members(d.entities, not_owned_by(bh));
    crate::seqs::lemma_retained_members(v.hatches, not_owned_in(d.entities, bh));
    crate::seqs::lemma_retained_members(v.meshes, not_owned_in(d.entities, bh));
    crate::seqs::lemma_retained_members(v.solid_models, not_owned_in(d.entities, bh));
    let objs1 = retained(d.objects, handle_is_not(lh));
    let objs2 = objs1.map_values(
        |o: (u64, ObjectModel)| without_dict_entry(o, d.layout_dict, name),
    );
    crate::seqs::lemma_retained_members(d.objects, handle_is_not(lh));
    crate::seqs::lemma_retained_members(objs2, not_page_setup_of(name));
    assert forall|i: int| 0 <= i < r.document.objects.len() implies (#[trigger] r.document.objects[i]).0
        != lh && !is_page_setup_of(r.document.objects[i].1, name) && (r.document.objects[i].0
        == d.layout_dict ==> match r.document.objects[i].1 {
        ObjectModel::Dictionary { entries } => forall|e: int|
            0 <= e < entries.len() ==> (#[trigger] entries[e]).0 != name,
        _ => true,
    }) by {
        let x = r.document.objects[i];
        assert(not_page_setup_of(name)(x));
        assert(objs2.contains(x));
        let j = choose|j: int| 0 <= j < objs2.len() && objs2[j] == x;
        assert(objs2[j] == without_dict_entry(objs1[j], d.layout_dict, name));
        assert(objs1.contains(objs1[j]));
        assert(handle_is_not(lh)(objs1[j]));
        if x.0 == d.layout_dict {
            match objs1[j].1 {
                ObjectModel::Dictionary { entries } => {
                    crate::seqs::lemma_retained_members(entries, entry_not_named(name));
                    assert forall|e: int|
                        0 <= e < retained(entries, entry_not_named(name)).len() implies (#[trigger] retained(
                        entries,
                        entry_not_named(name),
                    )[e]).0 != name by {
                        assert(entry_not_named(name)(retained(entries, entry_not_named(name))[e]));
                    }
                },
                _ => {},
            }
        }
    }
    assert forall|i: int| 0 <= i < r.document.entities.len() implies (#[trigger] r.document.entities[i]).1
        != bh by {
        assert(not_owned_by(bh)(r.document.entities[i]));
    }
    assert forall|i: int| 0 <= i < r.hatches.len() implies !d.entities.contains(
        (#[trigger] r.hatches[i], bh),
    ) by {
        assert(not_owned_in(d.entities, bh)(r.hatches[i]));
    }
    assert forall|i: int| 0 <= i < r.meshes.len() implies !d.entities.contains(
        (#[trigger] r.meshes[i], bh),
    ) by {
        assert(not_owned_in(d.entities, bh)(r.meshes[i]));
    }
    assert forall|i: int| 0 <= i < r.solid_models.len() implies !d.entities.contains(
        (#[trigger] r.solid_models[i], bh),
    ) by {
        assert(not_owned_in(d.entities, bh)(r.solid_models[i]));
    }
    if name != "Model"@ && v.current_layout == name {
        assert(r.current_layout == "Model"@);
    }
}


/// The entries of a dictionary object (none for any other object).
pub open spec fn entries_of(o: ObjectModel) -> Seq<(Seq<char>, u64)> {
    match o {
        ObjectModel::Dictionary { entries } => entries,
        _ => seq![],
    }
}

/// Deleting a layout keeps everything it does not own: every object other
/// than the layout object (handle `lh`), the layout dictionary and the page
/// setups named after the layout stays, page setups of other layouts
/// included; every entity outside the layout's block record stays; and the
/// layout dictionary keeps its entries for other names.
pub proof fn lemma_delete_keeps_the_rest<W>(v: SceneView<W>, name: Seq<char>, lh: u64, bh: u64)
    ensures
        forall|i: int|
            0 <= i < v.document.objects.len() && (#[trigger] v.document.objects[i]).0 != lh
                && v.document.objects[i].0 != v.document.layout_dict && !(
            v.document.objects[i].1 matches ObjectModel::PlotSettings { page_name } && page_name == name)
                ==> after_delete(v, name, lh, bh).document.objects.contains(v.document.objects[i]),
        forall|i: int|
            0 <= i < v.document.entities.len() && (#[trigger] v.document.entities[i]).1 != bh
                ==> after_delete(v, name, lh, bh).document.entities.contains(v.document.entities[i]),
        forall|i: int, e: int|
            #![trigger entries_of(v.document.objects[i].1)[e]]
            0 <= i < v.document.objects.len() && v.document.objects[i].0
                == v.document.layout_dict && v.document.objects[i].0 != lh
                && v.document.objects[i].1 is Dictionary && 0 <= e < entries_of(
                v.document.objects[i].1,
            ).len() && entries_of(v.document.objects[i].1)[e].0 != name ==> exists|k: int|
                0 <= k < after_delete(v, name, lh, bh).document.objects.len() && (#[trigger] after_delete(
                    v,
                    name,
                    lh,
                    bh,
                ).document.objects[k]).0 == v.document.layout_dict && after_delete(
                    v,
                    name,
                    lh,
                    bh,
                ).document.objects[k].1 is Dictionary && entries_of(
                    after_delete(v, name, lh, bh).document.objects[k].1,
                ).contains(entries_of(v.document.objects[i].1)[e]),
{
    let d = v.document;
    let objs1 = retained(d.objects, handle_is_not(lh));
    let objs2 = objs1.map_values(
        |o: (u64, ObjectModel)| without_dict_entry(o, d.layout_dict, name),
    );
    let r = after_delete(v, name, lh, bh);
    crate::seqs::lemma_retained_keeps(d.objects, handle_is_not(lh));
    crate::seqs::lemma_retained_keeps(objs2, not_page_setup_of(name));
    crate::seqs::lemma_retained_keeps(d.entities, not_owned_by(bh));
    assert forall|i: int|
        0 <= i < d.objects.len() && (#[trigger] d.objects[i]).0 != lh && d.objects[i].0 != d.layout_dict
            && !(d.objects[i].1 matches ObjectModel::PlotSettings { page_name } && page_name
            == name) implies r.document.objects.contains(d.objects[i]) by {
        let o = d.objects[i];
        assert(handle_is_not(lh)(o));
        assert(objs1.contains(o));
        let j = choose|j: int| 0 <= j < objs1.len() && objs1[j] == o;
        assert(objs2[j] == without_dict_entry(o, d.layout_dict, name));
        assert(objs2[j] == o);
        assert(not_page_setup_of(name)(objs2[j]));
    }
    assert forall|i: int| 0 <= i < d.entities.len() && (#[trigger] d.entities[i]).1 != bh implies r.document.entities.contains(
        d.entities[i],
    ) by {
        assert(not_owned_by(bh)(d.entities[i]));
    }
    assert forall|i: int, e: int|
        #![trigger entries_of(d.objects[i].1)[e]]
        0 <= i < d.objects.len() && d.objects[i].0 == d.layout_dict && d.objects[i].0 != lh
            && d.objects[i].1 is Dictionary && 0 <= e < entries_of(d.objects[i].1).len() && entries_of(
            d.objects[i].1,
        )[e].0 != name implies exists|k: int|
        0 <= k < r.document.objects.len() && (#[trigger] r.document.objects[k]).0 == d.layout_dict
            && r.document.objects[k].1 is Dictionary && entries_of(r.document.objects[k].1).contains(
            entries_of(d.objects[i].1)[e],
        ) by {
        let o = d.objects[i];
        let entries = entries_of(o.1);
        assert(handle_is_not(lh)(o));
        assert(objs1.contains(o));
        let j = choose|j: int| 0 <= j < objs1.len() && objs1[j] == o;
        let o2 = without_dict_entry(o, d.layout_dict, name);
        assert(objs2[j] == o2);
        assert(not_page_setup_of(name)(objs2[j]));
        assert(r.document.objects.contains(o2));
        let k = choose|k: int| 0 <= k < r.document.objects.len() && r.document.objects[k] == o2;
        crate::seqs::lemma_retained_keeps(entries, entry_not_named(name));
        assert(entry_not_named(name)(entries[e]));
        assert(entries_of(o2.1) == retained(entries, entry_not_named(name)));
        assert(r.document.objects[k] == o2);
    }
}

} // verus!
