//! Per-object dimension-variable overrides.
//!
//! A leader or dimension that departs from its dimension style stores the
//! changed variables in the `ACAD_DSTYLE` XDATA record as a flat stream of
//! (16-bit group code, value) pairs bracketed by `{` / `}` control strings.
//! Reading finds the pairs; editing one rewrites the record with the other
//! overrides untouched.
//!
//! Real values are held as their IEEE-754 bit patterns (`f64::to_bits`), and
//! 3D vectors as three such patterns.

use vstd::prelude::*;

use crate::text::{push_str, same_text};

verus! {

/// DXF group code of the overall scale (real).
pub const DIMSCALE: i16 = 40;

/// DXF group code of the arrow size (real).
pub const DIMASZ: i16 = 41;

/// DXF group code of the text vertical position (int16).
pub const DIMTAD: i16 = 77;

/// DXF group code of the text offset / gap (real).
pub const DIMGAP: i16 = 147;

/// DXF group code of the dimension line lineweight (int16).
pub const DIMLWD: i16 = 371;

/// DXF group code of the leader arrow block (handle).
pub const DIMLDRBLK: i16 = 341;

/// The application name of the override record.
pub const DSTYLE_APP: &'static str = "ACAD_DSTYLE";

/// One XDATA value.
pub enum XDataValue {
    String(String),
    /// `{` or `}`.
    ControlString(String),
    LayerName(String),
    BinaryData(Vec<u8>),
    Handle(u64),
    Point3D([u64; 3]),
    Position3D([u64; 3]),
    Displacement3D([u64; 3]),
    Direction3D([u64; 3]),
    Real(u64),
    Distance(u64),
    ScaleFactor(u64),
    Integer16(i16),
    Integer32(i32),
}

/// The XDATA values of one application.
pub struct ExtendedDataRecord {
    pub application_name: String,
    pub values: Vec<XDataValue>,
}

/// The XDATA of an entity: one record per application.
pub struct ExtendedData {
    pub records: Vec<ExtendedDataRecord>,
}

/// An XDATA value as plain values.
pub enum XValue {
    String(Seq<char>),
    ControlString(Seq<char>),
    LayerName(Seq<char>),
    BinaryData(Seq<u8>),
    Handle(u64),
    Point3D(Seq<u64>),
    Position3D(Seq<u64>),
    Displacement3D(Seq<u64>),
    Direction3D(Seq<u64>),
    Real(u64),
    Distance(u64),
    ScaleFactor(u64),
    Integer16(i16),
    Integer32(i32),
}

/// An XDATA value as plain values.
pub open spec fn xvalue(v: XDataValue) -> XValue {
    match v {
        XDataValue::String(s) => XValue::String(s@),
        XDataValue::ControlString(s) => XValue::ControlString(s@),
        XDataValue::LayerName(s) => XValue::LayerName(s@),
        XDataValue::BinaryData(b) => XValue::BinaryData(b@),
        XDataValue::Handle(h) => XValue::Handle(h),
        XDataValue::Point3D(p) => XValue::Point3D(p@),
        XDataValue::Position3D(p) => XValue::Position3D(p@),
        XDataValue::Displacement3D(p) => XValue::Displacement3D(p@),
        XDataValue::Direction3D(p) => XValue::Direction3D(p@),
        XDataValue::Real(r) => XValue::Real(r),
        XDataValue::Distance(r) => XValue::Distance(r),
        XDataValue::ScaleFactor(r) => XValue::ScaleFactor(r),
        XDataValue::Integer16(n) => XValue::Integer16(n),
        XDataValue::Integer32(n) => XValue::Integer32(n),
    }
}

/// A stream of values as plain values.
pub open spec fn xvalues(vs: Seq<XDataValue>) -> Seq<XValue> {
    vs.map_values(|v: XDataValue| xvalue(v))
}

/// The (code, value) pairs of a record's value stream: each 16-bit integer
/// followed by a value; anything else (the `{` / `}` brackets) is skipped.
pub open spec fn pairs_of(vs: Seq<XValue>) -> Seq<(i16, XValue)>
    decreases vs.len(),
{
    if vs.len() == 0 {
        seq![]
    } else {
        match vs[0] {
            XValue::Integer16(c) => if vs.len() >= 2 {
                seq![(c, vs[1])] + pairs_of(vs.skip(2))
            } else {
                seq![]
            },
            _ => pairs_of(vs.skip(1)),
        }
    }
}

/// Index of the first record of application `name`, or the count when none is.
pub open spec fn find_record(recs: Seq<ExtendedDataRecord>, name: Seq<char>) -> int
    decreases recs.len(),
{
    if recs.len() == 0 {
        0
    } else if recs[0].application_name@ == name {
        0
    } else {
        1 + find_record(recs.drop_first(), name)
    }
}

proof fn lemma_find_record(recs: Seq<ExtendedDataRecord>, name: Seq<char>, k: int)
    requires
        0 <= k <= recs.len(),
        forall|i: int| 0 <= i < k ==> (#[trigger] recs[i]).application_name@ != name,
        k == recs.len() || recs[k].application_name@ == name,
    ensures
        find_record(recs, name) == k,
    decreases k,
{
    if k > 0 {
        let t = recs.drop_first();
        assert forall|i: int| 0 <= i < k - 1 implies (#[trigger] t[i]).application_name@ != name by {
            assert(t[i] == recs[i + 1]);
        }
        lemma_find_record(t, name, k - 1);
    }
}

/// Every (code, value) override present in the `ACAD_DSTYLE` record of `xd`.
pub open spec fn overrides(xd: ExtendedData) -> Seq<(i16, XValue)> {
    let k = find_record(xd.records@, DSTYLE_APP@);
    if k < xd.records@.len() {
        pairs_of(xvalues(xd.records@[k].values@))
    } else {
        seq![]
    }
}

/// Index of the first override with code `code`, or the count when none has.
pub open spec fn find_code(ps: Seq<(i16, XValue)>, code: i16) -> int
    decreases ps.len(),
{
    if ps.len() == 0 {
        0
    } else if ps[0].0 == code {
        0
    } else {
        1 + find_code(ps.drop_first(), code)
    }
}

/// The value of the first override with code `code`.
pub open spec fn lookup(ps: Seq<(i16, XValue)>, code: i16) -> Option<XValue> {
    let k = find_code(ps, code);
    if 0 <= k < ps.len() {
        Some(ps[k].1)
    } else {
        None
    }
}

/// The real number (as bits) an override holds, if it holds one.
pub open spec fn real_of(v: Option<XValue>) -> Option<u64> {
    match v {
        Some(XValue::Real(r)) => Some(r),
        Some(XValue::Distance(r)) => Some(r),
        Some(XValue::ScaleFactor(r)) => Some(r),
        _ => None,
    }
}

/// The 16-bit integer an override holds, if it holds one.
pub open spec fn int_of(v: Option<XValue>) -> Option<i16> {
    match v {
        Some(XValue::Integer16(n)) => Some(n),
        _ => None,
    }
}

/// The handle an override holds, if it holds one.
pub open spec fn handle_of(v: Option<XValue>) -> Option<u64> {
    match v {
        Some(XValue::Handle(h)) => Some(h),
        _ => None,
    }
}

/// The value stream that stores `ps`: `{`, each code and value, `}`.
pub open spec fn encoded(ps: Seq<(i16, XValue)>) -> Seq<XValue> {
    seq![XValue::ControlString("{"@)] + encoded_pairs(ps) + seq![XValue::ControlString("}"@)]
}

/// The codes and values of `ps`, interleaved.
pub open spec fn encoded_pairs(ps: Seq<(i16, XValue)>) -> Seq<XValue>
    decreases ps.len(),
{
    if ps.len() == 0 {
        seq![]
    } else {
        encoded_pairs(ps.drop_last()) + seq![XValue::Integer16(ps.last().0), ps.last().1]
    }
}

/// Overrides for a code other than `code`.
pub open spec fn code_is_not(code: i16) -> spec_fn((i16, XValue)) -> bool {
    |p: (i16, XValue)| p.0 != code
}

/// The overrides other than `code`.
pub open spec fn without_code(ps: Seq<(i16, XValue)>, code: i16) -> Seq<(i16, XValue)> {
    crate::seqs::retained(ps, code_is_not(code))
}

/// What `set` stores for `code` := `value` over the overrides `ps`: the
/// other overrides, then the new one; no record at all when none is left.
pub open spec fn set_result(ps: Seq<(i16, XValue)>, code: i16, value: Option<XValue>) -> Option<
    Seq<XValue>,
> {
    let kept = match value {
        Some(v) => without_code(ps, code).push((code, v)),
        None => without_code(ps, code),
    };
    if kept.len() == 0 {
        None
    } else {
        Some(encoded(kept))
    }
}

// ── Copies ──────────────────────────────────────────────────────────────────

fn copy_string(s: &String) -> (r: String)
    ensures
        r@ == s@,
{
    s.clone()
}

fn copy_bytes(b: &Vec<u8>) -> (r: Vec<u8>)
    ensures
        r@ == b@,
{
    let r = b.clone();
    proof {
        assert(r@ =~= b@);
    }
    r
}

/// A copy of an XDATA value.
pub fn copy_value(v: &XDataValue) -> (r: XDataValue)
    ensures
        xvalue(r) == xvalue(*v),
{
    match v {
        XDataValue::String(s) => XDataValue::String(copy_string(s)),
        XDataValue::ControlString(s) => XDataValue::ControlString(copy_string(s)),
        XDataValue::LayerName(s) => XDataValue::LayerName(copy_string(s)),
        XDataValue::BinaryData(b) => XDataValue::BinaryData(copy_bytes(b)),
        XDataValue::Handle(h) => XDataValue::Handle(*h),
        XDataValue::Point3D(p) => XDataValue::Point3D(*p),
        XDataValue::Position3D(p) => XDataValue::Position3D(*p),
        XDataValue::Displacement3D(p) => XDataValue::Displacement3D(*p),
        XDataValue::Direction3D(p) => XDataValue::Direction3D(*p),
        XDataValue::Real(r) => XDataValue::Real(*r),
        XDataValue::Distance(r) => XDataValue::Distance(*r),
        XDataValue::ScaleFactor(r) => XDataValue::ScaleFactor(*r),
        XDataValue::Integer16(n) => XDataValue::Integer16(*n),
        XDataValue::Integer32(n) => XDataValue::Integer32(*n),
    }
}

/// The pairs as plain values.
pub open spec fn pairs_view(ps: Seq<(i16, XDataValue)>) -> Seq<(i16, XValue)> {
    ps.map_values(|p: (i16, XDataValue)| (p.0, xvalue(p.1)))
}

// ── Reading ─────────────────────────────────────────────────────────────────

/// Position of the first record of application `app` (the count when none is).
pub fn record_position(xd: &ExtendedData, app: &str) -> (k: usize)
    ensures
        k == find_record(xd.records@, app@),
        k <= xd.records@.len(),
{
    let mut k: usize = 0;
    while k < xd.records.len() && !same_text(xd.records[k].application_name.as_str(), app)
        invariant
            k <= xd.records@.len(),
            forall|i: int| 0 <= i < k ==> (#[trigger] xd.records@[i]).application_name@ != app@,
        decreases xd.records@.len() - k,
    {
        k = k + 1;
    }
    proof {
        lemma_find_record(xd.records@, app@, k as int);
    }
    k
}

proof fn lemma_pairs_skip(vs: Seq<XValue>, i: int)
    requires
        0 <= i < vs.len(),
    ensures
        pairs_of(vs.skip(i)) == match vs[i] {
            XValue::Integer16(c) => if i + 2 <= vs.len() {
                seq![(c, vs[i + 1])] + pairs_of(vs.skip(i + 2))
            } else {
                seq![]
            },
            _ => pairs_of(vs.skip(i + 1)),
        },
{
    let t = vs.skip(i);
    assert(t[0] == vs[i]);
    assert(t.skip(1) =~= vs.skip(i + 1));
    if i + 2 <= vs.len() {
        assert(t[1] == vs[i + 1]);
        assert(t.skip(2) =~= vs.skip(i + 2));
    }
}

/// Every (code, value) override present in the `ACAD_DSTYLE` record.
pub fn pairs(xd: &ExtendedData) -> (r: Vec<(i16, XDataValue)>)
    ensures
        pairs_view(r@) == overrides(*xd),
{
    let k = record_position(xd, DSTYLE_APP);
    let mut out: Vec<(i16, XDataValue)> = Vec::new();
    if k == xd.records.len() {
        proof {
            assert(pairs_view(out@) =~= Seq::<(i16, XValue)>::empty());
        }
        return out;
    }
    let vals = &xd.records[k].values;
    let ghost vs = xvalues(vals@);
    let n = vals.len();
    let mut i: usize = 0;
    proof {
        assert(vs.skip(0) =~= vs);
        assert(pairs_view(out@) + pairs_of(vs) =~= pairs_of(vs));
    }
    while i < n
        invariant
            n == vals@.len(),
            vs == xvalues(vals@),
            vs.len() == n,
            i <= n,
            pairs_view(out@) + pairs_of(vs.skip(i as int)) == pairs_of(vs),
        decreases n - i,
    {
        proof {
            lemma_pairs_skip(vs, i as int);
            assert(vs[i as int] == xvalue(vals@[i as int]));
        }
        match &vals[i] {
            XDataValue::Integer16(code) => {
                if i + 1 < n {
                    let v = copy_value(&vals[i + 1]);
                    let ghost before = pairs_view(out@);
                    out.push((*code, v));
                    proof {
                        assert(vs[i + 1] == xvalue(vals@[i + 1]));
                        assert(pairs_view(out@) =~= before.push((*code, vs[i + 1])));
                        assert(before.push((*code, vs[i + 1])) + pairs_of(vs.skip(i + 2)) =~= before
                            + (seq![(*code, vs[i + 1])] + pairs_of(vs.skip(i + 2))));
                    }
                    i = i + 2;
                } else {
                    proof {
                        assert(vs.skip(n as int) =~= Seq::<XValue>::empty());
                        assert(pairs_view(out@) + Seq::<(i16, XValue)>::empty() =~= pairs_view(out@));
                    }
                    i = n;
                }
            },
            _ => {
                i = i + 1;
            },
        }
    }
    proof {
        assert(vs.skip(i as int) =~= Seq::<XValue>::empty());
        assert(pairs_view(out@) + Seq::<(i16, XValue)>::empty() =~= pairs_view(out@));
    }
    out
}

proof fn lemma_find_code(ps: Seq<(i16, XValue)>, code: i16, k: int)
    requires
        0 <= k <= ps.len(),
        forall|i: int| 0 <= i < k ==> (#[trigger] ps[i]).0 != code,
        k == ps.len() || ps[k].0 == code,
    ensures
        find_code(ps, code) == k,
    decreases k,
{
    if k > 0 {
        let t = ps.drop_first();
        assert forall|i: int| 0 <= i < k - 1 implies (#[trigger] t[i]).0 != code by {
            assert(t[i] == ps[i + 1]);
        }
        lemma_find_code(t, code, k - 1);
    }
}

/// The value of the first override for `code`.
fn find(xd: &ExtendedData, code: i16) -> (r: Option<XDataValue>)
    ensures
        match r {
            Some(v) => lookup(overrides(*xd), code) == Some(xvalue(v)),
            None => lookup(overrides(*xd), code) is None,
        },
{
    let ps = pairs(xd);
    let ghost pv = pairs_view(ps@);
    let mut i: usize = 0;
    while i < ps.len() && ps[i].0 != code
        invariant
            i <= ps@.len(),
            pv == pairs_view(ps@),
            forall|j: int| 0 <= j < i ==> (#[trigger] pv[j]).0 != code,
        decreases ps@.len() - i,
    {
        i = i + 1;
    }
    proof {
        lemma_find_code(pv, code, i as int);
    }
    if i < ps.len() {
        Some(copy_value(&ps[i].1))
    } else {
        None
    }
}

/// The real-valued override for `code` (as bits), if the first override for
/// it holds a real, distance or scale factor.
pub fn real_override(xd: &ExtendedData, code: i16) -> (r: Option<u64>)
    ensures
        r == real_of(lookup(overrides(*xd), code)),
{
    match find(xd, code) {
        Some(XDataValue::Real(r)) => Some(r),
        Some(XDataValue::Distance(r)) => Some(r),
        Some(XDataValue::ScaleFactor(r)) => Some(r),
        _ => None,
    }
}

/// The 16-bit-integer override for `code`, if the first override for it
/// holds one.
pub fn int_override(xd: &ExtendedData, code: i16) -> (r: Option<i16>)
    ensures
        r == int_of(lookup(overrides(*xd), code)),
{
    match find(xd, code) {
        Some(XDataValue::Integer16(n)) => Some(n),
        _ => None,
    }
}

/// The handle-valued override for `code`, if the first override for it holds
/// one.
pub fn handle(xd: &ExtendedData, code: i16) -> (r: Option<u64>)
    ensures
        r == handle_of(lookup(overrides(*xd), code)),
{
    match find(xd, code) {
        Some(XDataValue::Handle(h)) => Some(h),
        _ => None,
    }
}

// ── Editing ─────────────────────────────────────────────────────────────────

/// The `ACAD_DSTYLE` record values after setting — or, with `value: None`,
/// clearing — the override `code`, the other overrides untouched; `None`
/// when no override is left (the record is then dropped).
pub fn set(xd: &ExtendedData, code: i16, value: Option<XDataValue>) -> (r: Option<Vec<XDataValue>>)
    ensures
        match r {
            Some(vs) => set_result(
                overrides(*xd),
                code,
                match value {
                    Some(v) => Some(xvalue(v)),
                    None => None,
                },
            ) == Some(xvalues(vs@)),
            None => set_result(
                overrides(*xd),
                code,
                match value {
                    Some(v) => Some(xvalue(v)),
                    None => None,
                },
            ) is None,
        },
{
    let ps = pairs(xd);
    let ghost pv = pairs_view(ps@);
    let ghost keep = code_is_not(code);
    let mut kept: Vec<(i16, XDataValue)> = Vec::new();
    let mut i: usize = 0;
    proof {
        crate::seqs::lemma_take_none(pv, keep);
    }
    while i < ps.len()
        invariant
            i <= ps@.len(),
            pv == pairs_view(ps@),
            keep == code_is_not(code),
            pairs_view(kept@) == crate::seqs::retained(pv.take(i as int), keep),
        decreases ps@.len() - i,
    {
        proof {
            crate::seqs::lemma_retained_step(pv, keep, i as int);
        }
        if ps[i].0 != code {
            let ghost before = pairs_view(kept@);
            kept.push((ps[i].0, copy_value(&ps[i].1)));
            proof {
                assert(pairs_view(kept@) =~= before.push(pv[i as int]));
            }
        }
        i = i + 1;
    }
    proof {
        crate::seqs::lemma_take_all(pv);
    }
    match value {
        Some(v) => {
            let ghost before = pairs_view(kept@);
            let ghost xv = xvalue(v);
            kept.push((code, v));
            proof {
                assert(pairs_view(kept@) =~= before.push((code, xv)));
            }
        },
        None => {},
    }
    if kept.len() == 0 {
        return None;
    }
    let ghost kv = pairs_view(kept@);
    let mut vals: Vec<XDataValue> = Vec::new();
    let mut open = String::new();
    push_str(&mut open, "{");
    vals.push(XDataValue::ControlString(open));
    let mut j: usize = 0;
    proof {
        assert(kv.take(0) =~= Seq::<(i16, XValue)>::empty());
        assert(xvalues(vals@) =~= seq![XValue::ControlString("{"@)] + encoded_pairs(kv.take(0)));
    }
    while j < kept.len()
        invariant
            j <= kept@.len(),
            kv == pairs_view(kept@),
            xvalues(vals@) == seq![XValue::ControlString("{"@)] + encoded_pairs(kv.take(j as int)),
        decreases kept@.len() - j,
    {
        let ghost before = xvalues(vals@);
        vals.push(XDataValue::Integer16(kept[j].0));
        vals.push(copy_value(&kept[j].1));
        proof {
            assert(kv.take(j + 1).drop_last() =~= kv.take(j as int));
            assert(kv.take(j + 1).last() == kv[j as int]);
            assert(xvalues(vals@) =~= before + seq![XValue::Integer16(kv[j as int].0), kv[j as int].1]);
        }
        j = j + 1;
    }
    let mut close = String::new();
    push_str(&mut close, "}");
    let ghost before = xvalues(vals@);
    vals.push(XDataValue::ControlString(close));
    proof {
        assert(kv.take(kv.len() as int) =~= kv);
        assert(xvalues(vals@) =~= before + seq![XValue::ControlString("}"@)]);
    }
    Some(vals)
}

// ── Laws ────────────────────────────────────────────────────────────────────

/// The overrides a stored record reads back as; no record holds none.
pub open spec fn stored_overrides(stored: Option<Seq<XValue>>) -> Seq<(i16, XValue)> {
    match stored {
        Some(vs) => pairs_of(vs),
        None => seq![],
    }
}

proof fn lemma_pairs_pair(c: i16, v: XValue, t: Seq<XValue>)
    ensures
        pairs_of(seq![XValue::Integer16(c), v] + t) == seq![(c, v)] + pairs_of(t),
{
    let s = seq![XValue::Integer16(c), v] + t;
    assert(s[0] == XValue::Integer16(c));
    assert(s[1] == v);
    assert(s.skip(2) =~= t);
}

proof fn lemma_pairs_skipped(x: XValue, t: Seq<XValue>)
    requires
        !(x is Integer16),
    ensures
        pairs_of(seq![x] + t) == pairs_of(t),
{
    let s = seq![x] + t;
    assert(s[0] == x);
    assert(s.skip(1) =~= t);
}

proof fn lemma_pairs_encoded_pairs(ps: Seq<(i16, XValue)>, t: Seq<XValue>)
    ensures
        pairs_of(encoded_pairs(ps) + t) == ps + pairs_of(t),
    decreases ps.len(),
{
    if ps.len() == 0 {
        assert(encoded_pairs(ps) + t =~= t);
        assert(ps + pairs_of(t) =~= pairs_of(t));
    } else {
        let init = ps.drop_last();
        let (c, v) = ps.last();
        let t2 = seq![XValue::Integer16(c), v] + t;
        assert(encoded_pairs(ps) + t =~= encoded_pairs(init) + t2);
        lemma_pairs_encoded_pairs(init, t2);
        lemma_pairs_pair(c, v, t);
        assert(init + (seq![(c, v)] + pairs_of(t)) =~= ps + pairs_of(t));
    }
}

/// A stored override list reads back as itself.
pub proof fn lemma_encoded_reads_back(ps: Seq<(i16, XValue)>)
    ensures
        pairs_of(encoded(ps)) == ps,
{
    let close = seq![XValue::ControlString("}"@)];
    let body = encoded_pairs(ps) + close;
    assert(encoded(ps) =~= seq![XValue::ControlString("{"@)] + body);
    lemma_pairs_skipped(XValue::ControlString("{"@), body);
    lemma_pairs_encoded_pairs(ps, close);
    assert(close =~= seq![XValue::ControlString("}"@)] + Seq::<XValue>::empty());
    lemma_pairs_skipped(XValue::ControlString("}"@), Seq::<XValue>::empty());
    assert(ps + Seq::<(i16, XValue)>::empty() =~= ps);
}

proof fn lemma_find_code_bounds(ps: Seq<(i16, XValue)>, code: i16)
    ensures
        0 <= find_code(ps, code) <= ps.len(),
        forall|i: int| 0 <= i < find_code(ps, code) ==> (#[trigger] ps[i]).0 != code,
        find_code(ps, code) < ps.len() ==> ps[find_code(ps, code)].0 == code,
    decreases ps.len(),
{
    if ps.len() > 0 && ps[0].0 != code {
        let t = ps.drop_first();
        lemma_find_code_bounds(t, code);
        assert forall|i: int| 0 <= i < find_code(ps, code) implies (#[trigger] ps[i]).0 != code by {
            if i > 0 {
                assert(ps[i] == t[i - 1]);
            }
        }
        if find_code(ps, code) < ps.len() {
            assert(ps[find_code(ps, code)] == t[find_code(t, code)]);
        }
    }
}

proof fn lemma_lookup_push(s: Seq<(i16, XValue)>, x: (i16, XValue), code: i16)
    ensures
        lookup(s.push(x), code) == match lookup(s, code) {
            Some(v) => Some(v),
            None => if x.0 == code {
                Some(x.1)
            } else {
                None
            },
        },
{
    let t = s.push(x);
    let k = find_code(s, code);
    lemma_find_code_bounds(s, code);
    assert forall|i: int| 0 <= i < k implies (#[trigger] t[i]).0 != code by {
        assert(t[i] == s[i]);
    }
    if k < s.len() {
        assert(t[k] == s[k]);
        lemma_find_code(t, code, k);
    } else if x.0 == code {
        assert(t[k] == x);
        lemma_find_code(t, code, k);
    } else {
        assert forall|i: int| 0 <= i < k + 1 implies (#[trigger] t[i]).0 != code by {
            if i < k {
                assert(t[i] == s[i]);
            }
        }
        lemma_find_code(t, code, k + 1);
    }
}

proof fn lemma_lookup_without(ps: Seq<(i16, XValue)>, code: i16, other: i16)
    requires
        other != code,
    ensures
        lookup(without_code(ps, code), other) == lookup(ps, other),
        lookup(without_code(ps, code), code) is None,
    decreases ps.len(),
{
    let keep = code_is_not(code);
    if ps.len() == 0 {
        lemma_find_code(without_code(ps, code), other, 0);
        lemma_find_code(without_code(ps, code), code, 0);
        lemma_find_code(ps, other, 0);
    } else {
        let init = ps.drop_last();
        let x = ps.last();
        lemma_lookup_without(init, code, other);
        assert(ps =~= init.push(x));
        lemma_lookup_push(init, x, other);
        if keep(x) {
            lemma_lookup_push(without_code(init, code), x, other);
            lemma_lookup_push(without_code(init, code), x, code);
        }
    }
}

/// Setting an override and reading the stored record back gives the new
/// value for that code (none after clearing it) and, for every other code,
/// the value it had before.
pub proof fn lemma_set_then_read(
    ps: Seq<(i16, XValue)>,
    code: i16,
    value: Option<XValue>,
    other: i16,
)
    requires
        other != code,
    ensures
        lookup(stored_overrides(set_result(ps, code, value)), code) == value,
        lookup(stored_overrides(set_result(ps, code, value)), other) == lookup(ps, other),
{
    let rest = without_code(ps, code);
    let kept = match value {
        Some(v) => rest.push((code, v)),
        None => rest,
    };
    lemma_lookup_without(ps, code, other);
    if let Some(v) = value {
        lemma_lookup_push(rest, (code, v), code);
        lemma_lookup_push(rest, (code, v), other);
    }
    if kept.len() == 0 {
        lemma_find_code(kept, code, 0);
        lemma_find_code(kept, other, 0);
        lemma_find_code(Seq::<(i16, XValue)>::empty(), code, 0);
        lemma_find_code(Seq::<(i16, XValue)>::empty(), other, 0);
        assert(kept =~= Seq::<(i16, XValue)>::empty());
    } else {
        lemma_encoded_reads_back(kept);
    }
}


// ── Writing a record ────────────────────────────────────────────────────────

/// The values of the first record of application `name`, if there is one.
pub open spec fn record_values(recs: Seq<ExtendedDataRecord>, name: Seq<char>) -> Option<Seq<XValue>> {
    let k = find_record(recs, name);
    if k < recs.len() {
        Some(xvalues(recs[k].values@))
    } else {
        None
    }
}

/// Whether at most one record belongs to application `name`.
pub open spec fn single_record(recs: Seq<ExtendedDataRecord>, name: Seq<char>) -> bool {
    forall|i: int, j: int|
        0 <= i < recs.len() && 0 <= j < recs.len() && (#[trigger] recs[i]).application_name@ == name
            && (#[trigger] recs[j]).application_name@ == name ==> i == j
}

proof fn lemma_find_record_props(recs: Seq<ExtendedDataRecord>, name: Seq<char>)
    ensures
        0 <= find_record(recs, name) <= recs.len(),
        forall|i: int|
            0 <= i < find_record(recs, name) ==> (#[trigger] recs[i]).application_name@ != name,
        find_record(recs, name) < recs.len() ==> recs[find_record(recs, name)].application_name@ == name,
    decreases recs.len(),
{
    if recs.len() > 0 && recs[0].application_name@ != name {
        let t = recs.drop_first();
        lemma_find_record_props(t, name);
        assert forall|i: int| 0 <= i < find_record(recs, name) implies (#[trigger] recs[i]).application_name@
            != name by {
            if i > 0 {
                assert(recs[i] == t[i - 1]);
            }
        }
    }
}

/// Records of another application keep their values when the record at `k`
/// (of application `app`) is replaced by one of the same application.
proof fn lemma_other_records_after_update(
    old_recs: Seq<ExtendedDataRecord>,
    new_recs: Seq<ExtendedDataRecord>,
    k: int,
    app: Seq<char>,
    name: Seq<char>,
)
    requires
        0 <= k < old_recs.len(),
        new_recs.len() == old_recs.len(),
        old_recs[k].application_name@ == app,
        new_recs[k].application_name@ == app,
        forall|i: int| 0 <= i < old_recs.len() && i != k ==> new_recs[i] == old_recs[i],
        name != app,
    ensures
        record_values(new_recs, name) == record_values(old_recs, name),
{
    lemma_find_record_props(old_recs, name);
    let f = find_record(old_recs, name);
    assert forall|i: int| 0 <= i < f implies (#[trigger] new_recs[i]).application_name@ != name by {
        if i != k {
            assert(old_recs[i].application_name@ != name);
        }
    }
    if f < old_recs.len() {
        assert(f != k);
        assert(new_recs[f] == old_recs[f]);
    }
    lemma_find_record(new_recs, name, f);
}

/// Records of another application keep their values when the record at `k`
/// (of application `app`) is removed.
proof fn lemma_other_records_after_remove(
    old_recs: Seq<ExtendedDataRecord>,
    k: int,
    app: Seq<char>,
    name: Seq<char>,
)
    requires
        0 <= k < old_recs.len(),
        old_recs[k].application_name@ == app,
        name != app,
    ensures
        record_values(old_recs.remove(k), name) == record_values(old_recs, name),
{
    let new_recs = old_recs.remove(k);
    lemma_find_record_props(old_recs, name);
    let f = find_record(old_recs, name);
    if f < k {
        assert forall|i: int| 0 <= i < f implies (#[trigger] new_recs[i]).application_name@ != name by {
            assert(new_recs[i] == old_recs[i]);
        }
        assert(new_recs[f] == old_recs[f]);
        lemma_find_record(new_recs, name, f);
    } else {
        assert(f != k);
        assert forall|i: int| 0 <= i < f - 1 implies (#[trigger] new_recs[i]).application_name@ != name by {
            if i < k {
                assert(new_recs[i] == old_recs[i]);
            } else {
                assert(new_recs[i] == old_recs[i + 1]);
            }
        }
        if f < old_recs.len() {
            assert(new_recs[f - 1] == old_recs[f]);
        }
        lemma_find_record(new_recs, name, f - 1);
    }
}

/// Records of another application keep their values when a record of
/// application `app` is appended.
proof fn lemma_other_records_after_push(
    old_recs: Seq<ExtendedDataRecord>,
    rec: ExtendedDataRecord,
    app: Seq<char>,
    name: Seq<char>,
)
    requires
        rec.application_name@ == app,
        name != app,
    ensures
        record_values(old_recs.push(rec), name) == record_values(old_recs, name),
{
    let new_recs = old_recs.push(rec);
    lemma_find_record_props(old_recs, name);
    let f = find_record(old_recs, name);
    assert forall|i: int| 0 <= i < f implies (#[trigger] new_recs[i]).application_name@ != name by {
        assert(new_recs[i] == old_recs[i]);
    }
    if f < old_recs.len() {
        assert(new_recs[f] == old_recs[f]);
        lemma_find_record(new_recs, name, f);
    } else {
        assert(new_recs[f].application_name@ != name);
        lemma_find_record(new_recs, name, f + 1);
    }
}

/// Replaces the first record of application `app` by one holding `values`
/// (appending it when there is none), or, with `None`, removes that first
/// record.
pub fn put_record(xd: &mut ExtendedData, app: &str, values: Option<Vec<XDataValue>>)
    ensures
        ({
            let k = find_record(old(xd).records@, app@);
            let n = old(xd).records@.len();
            match values {
                Some(vs) => {
                    &&& find_record(final(xd).records@, app@) == k
                    &&& final(xd).records@.len() == if k < n {
                        n
                    } else {
                        n + 1
                    }
                    &&& record_values(final(xd).records@, app@) == Some(xvalues(vs@))
                    &&& forall|i: int| 0 <= i < n && i != k ==> final(xd).records@[i] == old(xd).records@[i]
                },
                None => if k < n {
                    final(xd).records@ == old(xd).records@.remove(k)
                } else {
                    final(xd).records@ == old(xd).records@
                },
            }
        }),
        forall|name: Seq<char>|
            name != app@ ==> #[trigger] record_values(final(xd).records@, name) == record_values(
                old(xd).records@,
                name,
            ),
{
    let k = record_position(xd, app);
    let ghost old_recs = xd.records@;
    proof {
        lemma_find_record_props(old_recs, app@);
    }
    match values {
        Some(vs) => {
            let mut name = String::new();
            push_str(&mut name, app);
            let rec = ExtendedDataRecord { application_name: name, values: vs };
            if k < xd.records.len() {
                xd.records.set(k, rec);
                proof {
                    assert forall|i: int| 0 <= i < k implies (#[trigger] xd.records@[i]).application_name@
                        != app@ by {
                        assert(xd.records@[i] == old_recs[i]);
                    }
                    lemma_find_record(xd.records@, app@, k as int);
                    assert forall|nm: Seq<char>| nm != app@ implies #[trigger] record_values(
                        xd.records@,
                        nm,
                    ) == record_values(old_recs, nm) by {
                        lemma_other_records_after_update(old_recs, xd.records@, k as int, app@, nm);
                    }
                }
            } else {
                xd.records.push(rec);
                proof {
                    assert forall|i: int| 0 <= i < k implies (#[trigger] xd.records@[i]).application_name@
                        != app@ by {
                        assert(xd.records@[i] == old_recs[i]);
                    }
                    lemma_find_record(xd.records@, app@, k as int);
                    assert forall|nm: Seq<char>| nm != app@ implies #[trigger] record_values(
                        xd.records@,
                        nm,
                    ) == record_values(old_recs, nm) by {
                        lemma_other_records_after_push(old_recs, rec, app@, nm);
                    }
                }
            }
        },
        None => {
            if k < xd.records.len() {
                xd.records.remove(k);
                proof {
                    assert forall|nm: Seq<char>| nm != app@ implies #[trigger] record_values(
                        xd.records@,
                        nm,
                    ) == record_values(old_recs, nm) by {
                        lemma_other_records_after_remove(old_recs, k as int, app@, nm);
                    }
                }
            }
        },
    }
}

/// An optional XDATA value as plain values.
pub open spec fn opt_xvalue(value: Option<XDataValue>) -> Option<XValue> {
    match value {
        Some(v) => Some(xvalue(v)),
        None => None,
    }
}

/// The overrides `set` keeps for `code` := `value` over the overrides `ps`:
/// the others, in their order, then the new one.
pub open spec fn kept_overrides(ps: Seq<(i16, XValue)>, code: i16, value: Option<XValue>) -> Seq<
    (i16, XValue),
> {
    match value {
        Some(v) => without_code(ps, code).push((code, v)),
        None => without_code(ps, code),
    }
}

/// Sets — or, with `value: None`, clears — the override `code` in the
/// `ACAD_DSTYLE` record of `xd`, leaving the other overrides and the other
/// applications' records untouched; clearing the last override drops the
/// record.
pub fn set_override(xd: &mut ExtendedData, code: i16, value: Option<XDataValue>)
    ensures
        ({
            let kept = kept_overrides(overrides(*old(xd)), code, opt_xvalue(value));
            &&& kept.len() > 0 ==> overrides(*final(xd)) == kept
            &&& kept.len() > 0 ==> record_values(final(xd).records@, DSTYLE_APP@) is Some
            &&& kept.len() == 0 && single_record(old(xd).records@, DSTYLE_APP@) ==> record_values(
                final(xd).records@,
                DSTYLE_APP@,
            ) is None
            &&& kept.len() == 0 ==> final(xd).records@.len() <= old(xd).records@.len()
        }),
        forall|name: Seq<char>|
            name != DSTYLE_APP@ ==> #[trigger] record_values(final(xd).records@, name) == record_values(
                old(xd).records@,
                name,
            ),
{
    let ghost old_recs = xd.records@;
    let ghost v = opt_xvalue(value);
    let ghost kept = kept_overrides(overrides(*xd), code, v);
    let stored = set(xd, code, value);
    proof {
        lemma_find_record_props(old_recs, DSTYLE_APP@);
        if kept.len() > 0 {
            lemma_encoded_reads_back(kept);
        }
    }
    put_record(xd, DSTYLE_APP, stored);
    proof {
        let k = find_record(old_recs, DSTYLE_APP@);
        if kept.len() == 0 && single_record(old_recs, DSTYLE_APP@) && k < old_recs.len() {
            let nr = old_recs.remove(k);
            assert forall|i: int| 0 <= i < nr.len() implies (#[trigger] nr[i]).application_name@
                != DSTYLE_APP@ by {
                if i < k {
                    assert(nr[i] == old_recs[i]);
                    assert(old_recs[i].application_name@ != DSTYLE_APP@);
                } else {
                    assert(nr[i] == old_recs[i + 1]);
                    if old_recs[i + 1].application_name@ == DSTYLE_APP@ {
                        assert(old_recs[k].application_name@ == DSTYLE_APP@);
                    }
                }
            }
            lemma_find_record(nr, DSTYLE_APP@, nr.len() as int);
        }
    }
}

/// Setting an override through [`set_override`] and reading the record back
/// gives the new value for that code (none after clearing it) and, for every
/// other code, the value it had before; with one `ACAD_DSTYLE` record at
/// most, this holds also when the last override is cleared.
pub proof fn lemma_set_override_then_read(
    before: Seq<(i16, XValue)>,
    after: Seq<(i16, XValue)>,
    code: i16,
    value: Option<XValue>,
    other: i16,
)
    requires
        other != code,
        after == stored_overrides(set_result(before, code, value)),
    ensures
        lookup(after, code) == value,
        lookup(after, other) == lookup(before, other),
        after == kept_overrides(before, code, value),
{
    lemma_set_then_read(before, code, value, other);
    let kept = kept_overrides(before, code, value);
    if kept.len() > 0 {
        lemma_encoded_reads_back(kept);
    } else {
        assert(kept =~= Seq::<(i16, XValue)>::empty());
    }
}

} // verus!
