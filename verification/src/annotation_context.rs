//! Turning an entity's per-object annotation off, and finding the drawing's
//! root named-objects dictionary.
//!
//! An entity's annotation context is the subtree below the
//! `AcDbContextDataManager` entry of its extension dictionary: the manager
//! dictionary, its `ACDB_ANNOTATIONSCALES` dictionary and that dictionary's
//! per-scale leaves. Clearing it removes those objects, the manager entry and
//! the legacy annotative XDATA records.

use vstd::prelude::*;

use crate::annotative::{AnnoKind, ANNOTATIVE_DATA_APP, ANNO_PO_APP, CONTEXT_MANAGER};
use crate::dim_override::{find_record, record_position, ExtendedData, ExtendedDataRecord};
use crate::seqs::{lemma_retained_step, lemma_take_all, lemma_take_none, retained};
use crate::text::{chars_of, eq_ignore_ascii_case, eq_ignore_ascii_case_spec, same_text};

verus! {

/// The key of the annotation-scales dictionary under the context manager.
pub const ANNOTATION_SCALES: &'static str = "ACDB_ANNOTATIONSCALES";

/// An object of the drawing, as far as dictionary handling reads it.
pub enum NamedObject {
    /// A dictionary: its owner (0 for a top-level one) and its entries.
    Dictionary { owner: u64, entries: Vec<(String, u64)> },
    /// Any other object.
    Other,
}

/// An object and its handle.
pub struct ObjectEntry {
    pub handle: u64,
    pub object: NamedObject,
}

/// An object as plain values: `Some((owner, entries))` for a dictionary.
pub open spec fn dict_model(o: NamedObject) -> Option<(u64, Seq<(Seq<char>, u64)>)> {
    match o {
        NamedObject::Dictionary { owner, entries } => Some(
            (owner, entries@.map_values(|e: (String, u64)| (e.0@, e.1))),
        ),
        NamedObject::Other => None,
    }
}

/// The objects as plain values.
pub open spec fn objects_model(objs: Seq<ObjectEntry>) -> Seq<(u64, Option<(u64, Seq<(Seq<char>, u64)>)>)> {
    objs.map_values(|o: ObjectEntry| (o.handle, dict_model(o.object)))
}

/// Index of the first object with handle `h`, or the count when none has it.
pub open spec fn find_object(objs: Seq<(u64, Option<(u64, Seq<(Seq<char>, u64)>)>)>, h: u64) -> int
    decreases objs.len(),
{
    if objs.len() == 0 {
        0
    } else if objs[0].0 == h {
        0
    } else {
        1 + find_object(objs.drop_first(), h)
    }
}

/// The entries of the dictionary with handle `h`, if it is one.
pub open spec fn dict_entries(objs: Seq<(u64, Option<(u64, Seq<(Seq<char>, u64)>)>)>, h: u64) -> Option<
    Seq<(Seq<char>, u64)>,
> {
    let k = find_object(objs, h);
    if k < objs.len() {
        match objs[k].1 {
            Some((_, entries)) => Some(entries),
            None => None,
        }
    } else {
        None
    }
}

/// Index of the first entry whose key is `key` up to ASCII case, or the count.
pub open spec fn find_key(entries: Seq<(Seq<char>, u64)>, key: Seq<char>) -> int
    decreases entries.len(),
{
    if entries.len() == 0 {
        0
    } else if eq_ignore_ascii_case_spec(entries[0].0, key) {
        0
    } else {
        1 + find_key(entries.drop_first(), key)
    }
}

/// The value of entry `key` (up to ASCII case) of the dictionary `h`.
pub open spec fn lookup_in(objs: Seq<(u64, Option<(u64, Seq<(Seq<char>, u64)>)>)>, h: Option<u64>, key: Seq<char>) -> Option<
    u64,
> {
    match h {
        Some(h) => match dict_entries(objs, h) {
            Some(entries) => {
                let k = find_key(entries, key);
                if k < entries.len() {
                    Some(entries[k].1)
                } else {
                    None
                }
            },
            None => None,
        },
        None => None,
    }
}

/// The handles an entity's annotation context consists of: the manager
/// dictionary, its scales dictionary and the scales dictionary's leaves.
pub open spec fn context_subtree(objs: Seq<(u64, Option<(u64, Seq<(Seq<char>, u64)>)>)>, xdict: u64) -> Seq<
    u64,
> {
    match lookup_in(objs, Some(xdict), CONTEXT_MANAGER@) {
        Some(mgr) => match lookup_in(objs, Some(mgr), ANNOTATION_SCALES@) {
            Some(scales) => seq![mgr, scales] + match dict_entries(objs, scales) {
                Some(leaves) => leaves.map_values(|e: (Seq<char>, u64)| e.1),
                None => seq![],
            },
            None => seq![mgr],
        },
        None => seq![],
    }
}

/// Entries other than the context manager (matched exactly).
pub open spec fn not_manager() -> spec_fn((Seq<char>, u64)) -> bool {
    |e: (Seq<char>, u64)| e.0 != CONTEXT_MANAGER@
}

/// Objects whose handle is not in `gone`.
pub open spec fn not_in(gone: Seq<u64>) -> spec_fn((u64, Option<(u64, Seq<(Seq<char>, u64)>)>)) -> bool {
    |o: (u64, Option<(u64, Seq<(Seq<char>, u64)>)>)| !gone.contains(o.0)
}

/// One object after the manager entry was dropped from the dictionary
/// `xdict`.
pub open spec fn without_manager(o: (u64, Option<(u64, Seq<(Seq<char>, u64)>)>), xdict: u64) -> (
    u64,
    Option<(u64, Seq<(Seq<char>, u64)>)>,
) {
    if o.0 == xdict {
        match o.1 {
            Some((owner, entries)) => (o.0, Some((owner, retained(entries, not_manager())))),
            None => o,
        }
    } else {
        o
    }
}

/// The objects after clearing the annotation context under `xdict`.
pub open spec fn cleared_objects(objs: Seq<(u64, Option<(u64, Seq<(Seq<char>, u64)>)>)>, xdict: Option<u64>) -> Seq<
    (u64, Option<(u64, Seq<(Seq<char>, u64)>)>),
> {
    match xdict {
        Some(x) => retained(
            objs.map_values(|o: (u64, Option<(u64, Seq<(Seq<char>, u64)>)>)| without_manager(o, x)),
            not_in(context_subtree(objs, x)),
        ),
        None => objs,
    }
}

/// The records after dropping the first record of application `app`.
pub open spec fn without_first_record(recs: Seq<ExtendedDataRecord>, app: Seq<char>) -> Seq<ExtendedDataRecord> {
    let k = find_record(recs, app);
    if k < recs.len() {
        recs.remove(k)
    } else {
        recs
    }
}

// ── Reading ─────────────────────────────────────────────────────────────────

proof fn lemma_find_object(objs: Seq<(u64, Option<(u64, Seq<(Seq<char>, u64)>)>)>, h: u64, k: int)
    requires
        0 <= k <= objs.len(),
        forall|i: int| 0 <= i < k ==> (#[trigger] objs[i]).0 != h,
        k == objs.len() || objs[k].0 == h,
    ensures
        find_object(objs, h) == k,
    decreases k,
{
    if k > 0 {
        let t = objs.drop_first();
        assert forall|i: int| 0 <= i < k - 1 implies (#[trigger] t[i]).0 != h by {
            assert(t[i] == objs[i + 1]);
        }
        lemma_find_object(t, h, k - 1);
    }
}

proof fn lemma_find_key(entries: Seq<(Seq<char>, u64)>, key: Seq<char>, k: int)
    requires
        0 <= k <= entries.len(),
        forall|i: int| 0 <= i < k ==> !eq_ignore_ascii_case_spec((#[trigger] entries[i]).0, key),
        k == entries.len() || eq_ignore_ascii_case_spec(entries[k].0, key),
    ensures
        find_key(entries, key) == k,
    decreases k,
{
    if k > 0 {
        let t = entries.drop_first();
        assert forall|i: int| 0 <= i < k - 1 implies !eq_ignore_ascii_case_spec((#[trigger] t[i]).0, key) by {
            assert(t[i] == entries[i + 1]);
        }
        lemma_find_key(t, key, k - 1);
    }
}

fn find_object_at(objs: &Vec<ObjectEntry>, h: u64) -> (k: usize)
    ensures
        k == find_object(objects_model(objs@), h),
        k <= objs@.len(),
{
    let ghost m = objects_model(objs@);
    let mut k: usize = 0;
    while k < objs.len() && objs[k].handle != h
        invariant
            m == objects_model(objs@),
            k <= objs@.len(),
            forall|i: int| 0 <= i < k ==> (#[trigger] m[i]).0 != h,
        decreases objs@.len() - k,
    {
        k = k + 1;
    }
    proof {
        lemma_find_object(m, h, k as int);
    }
    k
}

/// The value of entry `key` (up to ASCII case) of the dictionary `h`.
fn lookup(objs: &Vec<ObjectEntry>, h: Option<u64>, key: &str) -> (r: Option<u64>)
    ensures
        r == lookup_in(objects_model(objs@), h, key@),
{
    match h {
        Some(h) => lookup_dict(objs, h, key),
        None => None,
    }
}

fn lookup_dict(objs: &Vec<ObjectEntry>, h: u64, key: &str) -> (r: Option<u64>)
    ensures
        r == lookup_in(objects_model(objs@), Some(h), key@),
{
    let k = find_object_at(objs, h);
    if k == objs.len() {
        return None;
    }
    let key_chars = chars_of(key);
    match &objs[k].object {
        NamedObject::Dictionary { entries, .. } => {
            let ghost es = entries@.map_values(|e: (String, u64)| (e.0@, e.1));
            proof {
                assert(objects_model(objs@)[k as int].1 == Some((objs@[k as int].object->owner, es)));
            }
            let mut i: usize = 0;
            while i < entries.len()
                invariant
                    es == entries@.map_values(|e: (String, u64)| (e.0@, e.1)),
                    dict_entries(objects_model(objs@), h) == Some(es),
                    key_chars@ == key@,
                    i <= entries@.len(),
                    forall|j: int| 0 <= j < i ==> !eq_ignore_ascii_case_spec((#[trigger] es[j]).0, key@),
                decreases entries@.len() - i,
            {
                let name = chars_of(entries[i].0.as_str());
                if eq_ignore_ascii_case(name.as_slice(), key_chars.as_slice()) {
                    proof {
                        lemma_find_key(es, key@, i as int);
                    }
                    return Some(entries[i].1);
                }
                i = i + 1;
            }
            proof {
                lemma_find_key(es, key@, i as int);
            }
            None
        },
        NamedObject::Other => None,
    }
}

fn leaves_of(objs: &Vec<ObjectEntry>, h: u64, out: &mut Vec<u64>)
    ensures
        final(out)@ == old(out)@ + match dict_entries(objects_model(objs@), h) {
            Some(leaves) => leaves.map_values(|e: (Seq<char>, u64)| e.1),
            None => seq![],
        },
{
    let k = find_object_at(objs, h);
    if k == objs.len() {
        proof {
            assert(old(out)@ + Seq::<u64>::empty() =~= old(out)@);
        }
        return;
    }
    match &objs[k].object {
        NamedObject::Dictionary { entries, .. } => {
            let ghost start = out@;
            let ghost es = entries@.map_values(|e: (String, u64)| (e.0@, e.1));
            let mut i: usize = 0;
            while i < entries.len()
                invariant
                    es == entries@.map_values(|e: (String, u64)| (e.0@, e.1)),
                    i <= entries@.len(),
                    out@ == start + es.take(i as int).map_values(|e: (Seq<char>, u64)| e.1),
                decreases entries@.len() - i,
            {
                out.push(entries[i].1);
                proof {
                    assert(es.take(i + 1) =~= es.take(i as int).push(es[i as int]));
                    assert(out@ =~= start + es.take(i + 1).map_values(|e: (Seq<char>, u64)| e.1));
                }
                i = i + 1;
            }
            proof {
                assert(es.take(es.len() as int) =~= es);
            }
        },
        NamedObject::Other => {
            proof {
                assert(old(out)@ + Seq::<u64>::empty() =~= old(out)@);
            }
        },
    }
}

fn subtree(objs: &Vec<ObjectEntry>, xdict: u64) -> (r: Vec<u64>)
    ensures
        r@ == context_subtree(objects_model(objs@), xdict),
{
    let mut out: Vec<u64> = Vec::new();
    match lookup(objs, Some(xdict), CONTEXT_MANAGER) {
        Some(mgr) => {
            out.push(mgr);
            match lookup(objs, Some(mgr), ANNOTATION_SCALES) {
                Some(scales) => {
                    out.push(scales);
                    leaves_of(objs, scales, &mut out);
                    proof {
                        assert(out@ =~= context_subtree(objects_model(objs@), xdict));
                    }
                },
                None => {
                    proof {
                        assert(out@ =~= seq![mgr]);
                    }
                },
            }
        },
        None => {
            proof {
                assert(out@ =~= Seq::<u64>::empty());
            }
        },
    }
    out
}

fn contains(s: &Vec<u64>, x: u64) -> (r: bool)
    ensures
        r == s@.contains(x),
{
    let mut i: usize = 0;
    while i < s.len()
        invariant
            i <= s@.len(),
            forall|j: int| 0 <= j < i ==> s@[j] != x,
        decreases s@.len() - i,
    {
        if s[i] == x {
            assert(s@[i as int] == x);
            return true;
        }
        i = i + 1;
    }
    false
}

fn copy_entries_without_manager(entries: &Vec<(String, u64)>) -> (r: Vec<(String, u64)>)
    ensures
        r@.map_values(|e: (String, u64)| (e.0@, e.1)) == retained(
            entries@.map_values(|e: (String, u64)| (e.0@, e.1)),
            not_manager(),
        ),
{
    let ghost es = entries@.map_values(|e: (String, u64)| (e.0@, e.1));
    let mut out: Vec<(String, u64)> = Vec::new();
    let mut i: usize = 0;
    proof {
        lemma_take_none(es, not_manager());
    }
    while i < entries.len()
        invariant
            es == entries@.map_values(|e: (String, u64)| (e.0@, e.1)),
            i <= entries@.len(),
            out@.map_values(|e: (String, u64)| (e.0@, e.1)) == retained(es.take(i as int), not_manager()),
        decreases entries@.len() - i,
    {
        proof {
            lemma_retained_step(es, not_manager(), i as int);
        }
        if !same_text(entries[i].0.as_str(), CONTEXT_MANAGER) {
            let ghost before = out@.map_values(|e: (String, u64)| (e.0@, e.1));
            let k = entries[i].0.clone();
            out.push((k, entries[i].1));
            proof {
                assert(out@.map_values(|e: (String, u64)| (e.0@, e.1)) =~= before.push(es[i as int]));
            }
        }
        i = i + 1;
    }
    proof {
        lemma_take_all(es);
    }
    out
}

fn remove_first_record(xd: &mut ExtendedData, app: &str)
    ensures
        final(xd).records@ == without_first_record(old(xd).records@, app@),
{
    let k = record_position(xd, app);
    if k < xd.records.len() {
        xd.records.remove(k);
    }
}

fn copy_object(o: &ObjectEntry, xdict: u64) -> (r: ObjectEntry)
    ensures
        (r.handle, dict_model(r.object)) == without_manager((o.handle, dict_model(o.object)), xdict),
{
    match &o.object {
        NamedObject::Dictionary { owner, entries } => {
            if o.handle == xdict {
                ObjectEntry {
                    handle: o.handle,
                    object: NamedObject::Dictionary {
                        owner: *owner,
                        entries: copy_entries_without_manager(entries),
                    },
                }
            } else {
                let copy = copy_entries(entries);
                ObjectEntry { handle: o.handle, object: NamedObject::Dictionary { owner: *owner, entries: copy } }
            }
        },
        NamedObject::Other => ObjectEntry { handle: o.handle, object: NamedObject::Other },
    }
}

fn copy_entries(entries: &Vec<(String, u64)>) -> (r: Vec<(String, u64)>)
    ensures
        r@.map_values(|e: (String, u64)| (e.0@, e.1)) == entries@.map_values(|e: (String, u64)| (e.0@, e.1)),
{
    let mut out: Vec<(String, u64)> = Vec::new();
    let mut i: usize = 0;
    while i < entries.len()
        invariant
            i <= entries@.len(),
            out@.map_values(|e: (String, u64)| (e.0@, e.1)) == entries@.take(i as int).map_values(
                |e: (String, u64)| (e.0@, e.1),
            ),
        decreases entries@.len() - i,
    {
        let ghost before = out@.map_values(|e: (String, u64)| (e.0@, e.1));
        out.push((entries[i].0.clone(), entries[i].1));
        proof {
            assert(out@.map_values(|e: (String, u64)| (e.0@, e.1)) =~= before.push(
                (entries@[i as int].0@, entries@[i as int].1),
            ));
            assert(entries@.take(i + 1) =~= entries@.take(i as int).push(entries@[i as int]));
            assert(entries@.take(i + 1).map_values(|e: (String, u64)| (e.0@, e.1)) =~= entries@.take(
                i as int,
            ).map_values(|e: (String, u64)| (e.0@, e.1)).push((entries@[i as int].0@, entries@[i as int].1)));
        }
        i = i + 1;
    }
    proof {
        assert(entries@.take(entries@.len() as int) =~= entries@);
    }
    out
}

/// Removes an entity's per-object annotation context — the subtree below the
/// `AcDbContextDataManager` entry of its extension dictionary `xdict`, and
/// that entry — and its legacy annotative XDATA records, so it no longer
/// resolves as annotative. Other objects are left as they are.
pub fn clear_annotation_context(objects: &mut Vec<ObjectEntry>, xdict: Option<u64>, xdata: &mut ExtendedData)
    ensures
        objects_model(final(objects)@) == cleared_objects(objects_model(old(objects)@), xdict),
        final(xdata).records@ == without_first_record(
            without_first_record(old(xdata).records@, ANNO_PO_APP@),
            ANNOTATIVE_DATA_APP@,
        ),
{
    match xdict {
        Some(x) => {
            let gone = subtree(objects, x);
            let ghost m = objects_model(objects@);
            let ghost mapped = m.map_values(
                |o: (u64, Option<(u64, Seq<(Seq<char>, u64)>)>)| without_manager(o, x),
            );
            let ghost keep = not_in(gone@);
            let mut kept: Vec<ObjectEntry> = Vec::new();
            let mut i: usize = 0;
            proof {
                lemma_take_none(mapped, keep);
            }
            while i < objects.len()
                invariant
                    m == objects_model(objects@),
                    mapped == m.map_values(
                        |o: (u64, Option<(u64, Seq<(Seq<char>, u64)>)>)| without_manager(o, x),
                    ),
                    keep == not_in(gone@),
                    i <= objects@.len(),
                    objects_model(kept@) == retained(mapped.take(i as int), keep),
                decreases objects@.len() - i,
            {
                proof {
                    lemma_retained_step(mapped, keep, i as int);
                }
                if !contains(&gone, objects[i].handle) {
                    let ghost before = objects_model(kept@);
                    let c = copy_object(&objects[i], x);
                    kept.push(c);
                    proof {
                        assert(objects_model(kept@) =~= before.push(mapped[i as int]));
                    }
                }
                i = i + 1;
            }
            proof {
                lemma_take_all(mapped);
            }
            *objects = kept;
        },
        None => {},
    }
    remove_first_record(xdata, ANNO_PO_APP);
    remove_first_record(xdata, ANNOTATIVE_DATA_APP);
}

/// Sets the per-object annotative flag of the entity kinds that carry one
/// (MText, MultiLeader); others take their state from a style and are left
/// alone. True when the kind carries the flag.
pub fn set_own_flag(kind: &mut AnnoKind, want: bool) -> (r: bool)
    ensures
        r == (*old(kind) is MText || *old(kind) is MultiLeader),
        match *old(kind) {
            AnnoKind::MText { style, .. } => *final(kind) == (AnnoKind::MText { annotative: want, style }),
            AnnoKind::MultiLeader { style, .. } => *final(kind) == (AnnoKind::MultiLeader {
                enabled: want,
                style,
            }),
            _ => *final(kind) == *old(kind),
        },
{
    match kind {
        AnnoKind::MText { annotative, .. } => {
            *annotative = want;
            true
        },
        AnnoKind::MultiLeader { enabled, .. } => {
            *enabled = want;
            true
        },
        _ => false,
    }
}

// ── Root dictionary ─────────────────────────────────────────────────────────

/// How the root named-objects dictionary is found.
#[derive(Clone, Copy, Debug, PartialEq, Eq, Structural)]
pub enum RootChoice {
    /// The header's pointer names a dictionary: it is the root.
    Existing(u64),
    /// The pointer dangles: adopt this top-level dictionary (and repair the
    /// pointer).
    Adopt(u64),
    /// No dictionary is reachable: a fresh, empty root must be created.
    Create,
}

/// Whether `o` is a top-level dictionary (owner 0).
pub open spec fn top_level(o: (u64, Option<(u64, Seq<(Seq<char>, u64)>)>)) -> bool {
    o.1 matches Some((owner, _)) && owner == 0
}

/// The number of entries of a dictionary (0 for any other object).
pub open spec fn entry_count(o: (u64, Option<(u64, Seq<(Seq<char>, u64)>)>)) -> nat {
    match o.1 {
        Some((_, entries)) => entries.len(),
        None => 0,
    }
}

/// Index of the richest top-level dictionary among the first `n` objects (the
/// last of equally rich ones), or -1 when there is none.
pub open spec fn richest(objs: Seq<(u64, Option<(u64, Seq<(Seq<char>, u64)>)>)>, n: int) -> int
    decreases n,
{
    if n <= 0 {
        -1
    } else {
        let prev = richest(objs, n - 1);
        if top_level(objs[n - 1]) && (prev < 0 || entry_count(objs[n - 1]) >= entry_count(objs[prev])) {
            n - 1
        } else {
            prev
        }
    }
}

/// How the root named-objects dictionary is found, given the header's
/// pointer `header` and the objects (in the order they are walked).
pub open spec fn root_choice(header: u64, objs: Seq<(u64, Option<(u64, Seq<(Seq<char>, u64)>)>)>) -> RootChoice {
    let k = find_object(objs, header);
    if k < objs.len() && objs[k].1 is Some {
        RootChoice::Existing(header)
    } else {
        let r = richest(objs, objs.len() as int);
        if r >= 0 {
            RootChoice::Adopt(objs[r].0)
        } else {
            RootChoice::Create
        }
    }
}

proof fn lemma_richest(objs: Seq<(u64, Option<(u64, Seq<(Seq<char>, u64)>)>)>, n: int)
    requires
        0 <= n <= objs.len(),
    ensures
        -1 <= richest(objs, n) < n,
        richest(objs, n) >= 0 ==> top_level(objs[richest(objs, n)]),
        forall|i: int|
            0 <= i < n && top_level(#[trigger] objs[i]) ==> richest(objs, n) >= 0 && entry_count(objs[i])
                <= entry_count(objs[richest(objs, n)]),
    decreases n,
{
    if n > 0 {
        lemma_richest(objs, n - 1);
    }
}

/// The richest top-level dictionary is one, and none is richer.
pub proof fn lemma_adopted_is_richest(header: u64, objs: Seq<(u64, Option<(u64, Seq<(Seq<char>, u64)>)>)>)
    ensures
        root_choice(header, objs) matches RootChoice::Adopt(h) ==> exists|k: int|
            0 <= k < objs.len() && (#[trigger] objs[k]).0 == h && top_level(objs[k]) && forall|i: int|
                0 <= i < objs.len() && top_level(#[trigger] objs[i]) ==> entry_count(objs[i])
                    <= entry_count(objs[k]),
        root_choice(header, objs) is Create ==> forall|i: int| 0 <= i < objs.len() ==> !top_level(#[trigger] objs[i]),
{
    lemma_richest(objs, objs.len() as int);
    let r = richest(objs, objs.len() as int);
    if r >= 0 {
        assert(objs[r].0 == objs[r].0);
    }
}

/// How to find the drawing's root named-objects dictionary: the one the
/// header's pointer names if it is a dictionary; otherwise the top-level
/// dictionary with the most entries (the last of equally rich ones, in the
/// order the objects are given); otherwise a fresh one must be created.
pub fn root_named_dict(header: u64, objects: &Vec<ObjectEntry>) -> (r: RootChoice)
    ensures
        r == root_choice(header, objects_model(objects@)),
{
    let ghost m = objects_model(objects@);
    let k = find_object_at(objects, header);
    if k < objects.len() {
        match &objects[k].object {
            NamedObject::Dictionary { .. } => {
                return RootChoice::Existing(header);
            },
            NamedObject::Other => {},
        }
    }
    let mut best: Option<usize> = None;
    let mut i: usize = 0;
    while i < objects.len()
        invariant
            m == objects_model(objects@),
            i <= objects@.len(),
            match best {
                Some(b) => b == richest(m, i as int) && b < i,
                None => richest(m, i as int) == -1,
            },
        decreases objects@.len() - i,
    {
        match &objects[i].object {
            NamedObject::Dictionary { owner, entries } => {
                if *owner == 0 {
                    let better = match best {
                        Some(b) => match &objects[b].object {
                            NamedObject::Dictionary { entries: be, .. } => entries.len() >= be.len(),
                            NamedObject::Other => true,
                        },
                        None => true,
                    };
                    if better {
                        best = Some(i);
                    }
                }
            },
            NamedObject::Other => {},
        }
        i = i + 1;
    }
    match best {
        Some(b) => RootChoice::Adopt(objects[b].handle),
        None => RootChoice::Create,
    }
}

/// Whether no two objects share a handle (objects are keyed by handle).
pub open spec fn unique_handles(objs: Seq<(u64, Option<(u64, Seq<(Seq<char>, u64)>)>)>) -> bool {
    forall|i: int, j: int|
        0 <= i < objs.len() && 0 <= j < objs.len() && (#[trigger] objs[i]).0 == (#[trigger] objs[j]).0
            ==> i == j
}

/// The objects with `o` stored under its handle: it replaces the object of
/// that handle, or is added when there is none.
pub open spec fn insert_object(
    objs: Seq<(u64, Option<(u64, Seq<(Seq<char>, u64)>)>)>,
    o: (u64, Option<(u64, Seq<(Seq<char>, u64)>)>),
) -> Seq<(u64, Option<(u64, Seq<(Seq<char>, u64)>)>)> {
    let k = find_object(objs, o.0);
    if k < objs.len() {
        objs.update(k, o)
    } else {
        objs.push(o)
    }
}

proof fn lemma_find_object_props(objs: Seq<(u64, Option<(u64, Seq<(Seq<char>, u64)>)>)>, h: u64)
    ensures
        0 <= find_object(objs, h) <= objs.len(),
        forall|i: int| 0 <= i < find_object(objs, h) ==> (#[trigger] objs[i]).0 != h,
        find_object(objs, h) < objs.len() ==> objs[find_object(objs, h)].0 == h,
    decreases objs.len(),
{
    if objs.len() > 0 && objs[0].0 != h {
        let t = objs.drop_first();
        lemma_find_object_props(t, h);
        assert forall|i: int| 0 <= i < find_object(objs, h) implies (#[trigger] objs[i]).0 != h by {
            if i > 0 {
                assert(objs[i] == t[i - 1]);
            }
        }
    }
}

/// The header pointer and the objects once the root has been resolved:
/// an existing root leaves both alone, an adopted one is written to the
/// header, and a created one (an empty top-level dictionary under the handle
/// `fresh`) is stored among the objects and written to the header.
pub open spec fn root_after(
    header: u64,
    objs: Seq<(u64, Option<(u64, Seq<(Seq<char>, u64)>)>)>,
    fresh: u64,
) -> (u64, Seq<(u64, Option<(u64, Seq<(Seq<char>, u64)>)>)>) {
    match root_choice(header, objs) {
        RootChoice::Existing(h) => (h, objs),
        RootChoice::Adopt(h) => (h, objs),
        RootChoice::Create => (fresh, insert_object(objs, (fresh, Some((0u64, Seq::empty()))))),
    }
}

/// Resolving the root is idempotent: once resolved, the header names a
/// dictionary, so resolving again finds that same dictionary as the existing
/// root and changes neither the header nor the objects. Objects are keyed by
/// handle, and resolving keeps them so.
pub proof fn lemma_root_resolution_idempotent(
    header: u64,
    objs: Seq<(u64, Option<(u64, Seq<(Seq<char>, u64)>)>)>,
    fresh: u64,
    fresh_again: u64,
)
    requires
        unique_handles(objs),
    ensures
        ({
            let (h1, o1) = root_after(header, objs, fresh);
            &&& unique_handles(o1)
            &&& root_choice(h1, o1) == RootChoice::Existing(h1)
            &&& find_object(o1, h1) < o1.len()
            &&& o1[find_object(o1, h1)].1 is Some
            &&& root_after(h1, o1, fresh_again) == (h1, o1)
        }),
{
    match root_choice(header, objs) {
        RootChoice::Existing(h) => {},
        RootChoice::Adopt(h) => {
            lemma_richest(objs, objs.len() as int);
            let r = richest(objs, objs.len() as int);
            assert(objs[r].0 == h);
            assert forall|i: int| 0 <= i < r implies (#[trigger] objs[i]).0 != h by {
                if objs[i].0 == h {
                    assert(objs[i].0 == objs[r].0);
                }
            }
            lemma_find_object(objs, h, r);
        },
        RootChoice::Create => {
            let o = (fresh, Some((0u64, Seq::<(Seq<char>, u64)>::empty())));
            let o1 = insert_object(objs, o);
            lemma_find_object_props(objs, fresh);
            let k = find_object(objs, fresh);
            assert forall|i: int| 0 <= i < k implies (#[trigger] o1[i]).0 != fresh by {
                assert(o1[i] == objs[i]);
            }
            lemma_find_object(o1, fresh, k);
            assert forall|i: int, j: int|
                0 <= i < o1.len() && 0 <= j < o1.len() && (#[trigger] o1[i]).0 == (#[trigger] o1[j]).0
                    implies i == j by {
                if k < objs.len() {
                    if i != k && j != k {
                        assert(o1[i] == objs[i] && o1[j] == objs[j]);
                    } else if i == k && j != k {
                        assert(o1[j] == objs[j] && objs[j].0 == objs[k].0);
                    } else if j == k && i != k {
                        assert(o1[i] == objs[i] && objs[i].0 == objs[k].0);
                    }
                } else {
                    if i < objs.len() && j < objs.len() {
                        assert(o1[i] == objs[i] && o1[j] == objs[j]);
                    } else if i < objs.len() {
                        assert(o1[i] == objs[i]);
                    } else if j < objs.len() {
                        assert(o1[j] == objs[j]);
                    }
                }
            }
        },
    }
}

/// Resolves the drawing's root named-objects dictionary: returns its handle,
/// repairing `header` and, when no dictionary is reachable, storing a fresh
/// empty top-level dictionary under the handle `fresh` (see [`root_after`]).
pub fn resolve_root_named_dict(header: &mut u64, objects: &mut Vec<ObjectEntry>, fresh: u64) -> (r: u64)
    ensures
        (r, objects_model(final(objects)@)) == root_after(*old(header), objects_model(old(objects)@), fresh),
        *final(header) == r,
{
    match root_named_dict(*header, objects) {
        RootChoice::Existing(h) => h,
        RootChoice::Adopt(h) => {
            *header = h;
            h
        },
        RootChoice::Create => {
            let ghost before = objects@;
            let d = ObjectEntry {
                handle: fresh,
                object: NamedObject::Dictionary { owner: 0, entries: Vec::new() },
            };
            proof {
                assert(dict_model(d.object) == Some(
                    (0u64, Seq::<(Seq<char>, u64)>::empty()),
                ));
            }
            let ghost dm = (d.handle, dict_model(d.object));
            let k = find_object_at(objects, fresh);
            if k < objects.len() {
                objects.set(k, d);
                proof {
                    assert(objects_model(objects@) =~= objects_model(before).update(k as int, dm));
                }
            } else {
                objects.push(d);
                proof {
                    assert(objects_model(objects@) =~= objects_model(before).push(dm));
                }
            }
            *header = fresh;
            fresh
        },
    }
}

/// After clearing, no object of the annotation context is left, and the
/// extension dictionary holds no context-manager entry.
pub proof fn lemma_clear_removes_context(objs: Seq<(u64, Option<(u64, Seq<(Seq<char>, u64)>)>)>, x: u64)
    ensures
        forall|i: int|
            0 <= i < cleared_objects(objs, Some(x)).len() ==> !context_subtree(objs, x).contains(
                (#[trigger] cleared_objects(objs, Some(x))[i]).0,
            ) && (cleared_objects(objs, Some(x))[i].0 == x ==> match cleared_objects(
                objs,
                Some(x),
            )[i].1 {
                Some((_, entries)) => forall|e: int|
                    0 <= e < entries.len() ==> (#[trigger] entries[e]).0 != CONTEXT_MANAGER@,
                None => true,
            }),
{
    let gone = context_subtree(objs, x);
    let mapped = objs.map_values(
        |o: (u64, Option<(u64, Seq<(Seq<char>, u64)>)>)| without_manager(o, x),
    );
    let r = cleared_objects(objs, Some(x));
    crate::seqs::lemma_retained_members(mapped, not_in(gone));
    assert forall|i: int| 0 <= i < r.len() implies !gone.contains((#[trigger] r[i]).0) && (r[i].0 == x
        ==> match r[i].1 {
        Some((_, entries)) => forall|e: int|
            0 <= e < entries.len() ==> (#[trigger] entries[e]).0 != CONTEXT_MANAGER@,
        None => true,
    }) by {
        let o = r[i];
        assert(not_in(gone)(o));
        assert(mapped.contains(o));
        let j = choose|j: int| 0 <= j < mapped.len() && mapped[j] == o;
        assert(mapped[j] == without_manager(objs[j], x));
        if o.0 == x {
            match objs[j].1 {
                Some((owner, entries)) => {
                    crate::seqs::lemma_retained_members(entries, not_manager());
                    assert forall|e: int| 0 <= e < retained(entries, not_manager()).len() implies (#[trigger] retained(
                        entries,
                        not_manager(),
                    )[e]).0 != CONTEXT_MANAGER@ by {
                        assert(not_manager()(retained(entries, not_manager())[e]));
                    }
                },
                None => {},
            }
        }
    }
}

} // verus!
