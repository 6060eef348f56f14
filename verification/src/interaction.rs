//! Broad-phase candidates for cursor and area interactions: which wire
//! segments a wire set has, which wires are unbounded (always candidates),
//! and the candidate set handed to snapping and selection: either every wire
//! or the wires and segments a spatial query let through.
//!
//! Reals are IEEE-754 bit patterns; which points are finite, and the spatial
//! query itself, are the caller's.

use vstd::prelude::*;

use std::sync::Arc;

verus! {

/// A segment of a wire: the wire's index and the index of its first point.
#[derive(Clone, Copy, Debug, PartialEq, Eq, PartialOrd, Ord, Hash)]
pub struct SegmentRef {
    pub wire: u32,
    pub start: u32,
}

/// The segments of wire `w` whose two end points are both finite (`finite`
/// flags each point), in order.
pub open spec fn wire_segments(w: u32, finite: Seq<bool>, n: int) -> Seq<SegmentRef>
    decreases n,
{
    if n <= 0 {
        seq![]
    } else {
        let prev = wire_segments(w, finite, n - 1);
        let s = n - 1;
        if s + 1 < finite.len() && finite[s] && finite[s + 1] {
            prev.push(SegmentRef { wire: w, start: s as u32 })
        } else {
            prev
        }
    }
}

/// The segments of the first `n` wires, wire by wire.
pub open spec fn segments_of(point_finite: Seq<Seq<bool>>, n: int) -> Seq<SegmentRef>
    decreases n,
{
    if n <= 0 {
        seq![]
    } else {
        segments_of(point_finite, n - 1) + wire_segments(
            (n - 1) as u32,
            point_finite[n - 1],
            point_finite[n - 1].len() - 1,
        )
    }
}

/// The segments of a wire set whose point finiteness is `point_finite`
/// (wire by wire, point by point): every pair of consecutive finite points,
/// wire by wire and in point order.
pub fn segment_refs(point_finite: &Vec<Vec<bool>>) -> (r: Vec<SegmentRef>)
    requires
        point_finite@.len() <= u32::MAX,
        forall|w: int| 0 <= w < point_finite@.len() ==> (#[trigger] point_finite@[w])@.len() <= u32::MAX,
    ensures
        r@ == segments_of(point_finite@.map_values(|v: Vec<bool>| v@), point_finite@.len() as int),
{
    let ghost pf = point_finite@.map_values(|v: Vec<bool>| v@);
    let mut out: Vec<SegmentRef> = Vec::new();
    let mut w: usize = 0;
    while w < point_finite.len()
        invariant
            pf == point_finite@.map_values(|v: Vec<bool>| v@),
            point_finite@.len() <= u32::MAX,
            forall|k: int| 0 <= k < point_finite@.len() ==> (#[trigger] point_finite@[k])@.len() <= u32::MAX,
            w <= point_finite@.len(),
            out@ == segments_of(pf, w as int),
        decreases point_finite@.len() - w,
    {
        let flags = &point_finite[w];
        let ghost before = out@;
        let n = flags.len();
        let last: usize = if n == 0 {
            0
        } else {
            n - 1
        };
        let mut s: usize = 0;
        proof {
            assert(pf[w as int] == flags@);
            assert(before + wire_segments(w as u32, flags@, 0) =~= before);
        }
        while s < last
            invariant
                n == flags@.len(),
                n <= u32::MAX,
                w < u32::MAX,
                last == if n == 0 {
                    0
                } else {
                    n - 1
                },
                s <= last,
                out@ == before + wire_segments(w as u32, flags@, s as int),
            decreases last - s,
        {
            if flags[s] && flags[s + 1] {
                out.push(SegmentRef { wire: w as u32, start: s as u32 });
                proof {
                    assert(before + wire_segments(w as u32, flags@, s + 1) =~= (before
                        + wire_segments(w as u32, flags@, s as int)).push(
                        SegmentRef { wire: w as u32, start: s as u32 },
                    ));
                }
            } else {
                proof {
                    assert(before + wire_segments(w as u32, flags@, s + 1) =~= before
                        + wire_segments(w as u32, flags@, s as int));
                }
            }
            s = s + 1;
        }
        proof {
            if n == 0 {
                assert(wire_segments(w as u32, flags@, -1) =~= Seq::<SegmentRef>::empty());
                assert(wire_segments(w as u32, flags@, 0) =~= Seq::<SegmentRef>::empty());
            }
            assert(out@ == segments_of(pf, w as int) + wire_segments(
                w as u32,
                pf[w as int],
                pf[w as int].len() - 1,
            ));
        }
        w = w + 1;
    }
    out
}

/// The wires whose bounds are not finite (`bounded` flags each wire), in
/// increasing order.
pub open spec fn unbounded_of(bounded: Seq<bool>, n: int) -> Seq<u32>
    decreases n,
{
    if n <= 0 {
        seq![]
    } else if bounded[n - 1] {
        unbounded_of(bounded, n - 1)
    } else {
        unbounded_of(bounded, n - 1).push((n - 1) as u32)
    }
}

/// The wires that a spatial index cannot place (their bounds are not
/// finite), which every query returns.
pub fn unbounded_wires(bounded: &[bool]) -> (r: Vec<u32>)
    requires
        bounded@.len() <= u32::MAX,
    ensures
        r@ == unbounded_of(bounded@, bounded@.len() as int),
        forall|i: int, j: int| 0 <= i < j < r@.len() ==> r@[i] < r@[j],
{
    let mut out: Vec<u32> = Vec::new();
    let mut i: usize = 0;
    while i < bounded.len()
        invariant
            bounded@.len() <= u32::MAX,
            i <= bounded@.len(),
            out@ == unbounded_of(bounded@, i as int),
            forall|a: int, b: int| 0 <= a < b < out@.len() ==> out@[a] < out@[b],
            forall|a: int| 0 <= a < out@.len() ==> out@[a] < i,
        decreases bounded@.len() - i,
    {
        if !bounded[i] {
            out.push(i as u32);
        }
        i = i + 1;
    }
    out
}

// ── Candidates ──────────────────────────────────────────────────────────────

/// The wires (and segments) an interaction has to consider: every wire of
/// the set, or those a spatial query let through.
pub struct InteractionCandidates<W> {
    wires: Arc<Vec<W>>,
    wire_indices: Option<Vec<u32>>,
    segments: Option<Vec<SegmentRef>>,
    query_aabb: Option<[u64; 4]>,
}

impl<W> InteractionCandidates<W> {
    /// The whole wire set.
    pub closed spec fn wire_set(&self) -> Seq<W> {
        self.wires@
    }

    /// The wire indices the query let through (`None`: every wire).
    pub closed spec fn indices(&self) -> Option<Seq<u32>> {
        match self.wire_indices {
            Some(ix) => Some(ix@),
            None => None,
        }
    }

    /// The segments the query let through (`None`: no query was made).
    pub closed spec fn segment_list(&self) -> Option<Seq<SegmentRef>> {
        match self.segments {
            Some(s) => Some(s@),
            None => None,
        }
    }

    /// The query box (`None`: no query was made).
    pub closed spec fn aabb(&self) -> Option<[u64; 4]> {
        self.query_aabb
    }

    /// Every wire of `wires`, unfiltered.
    pub fn all(wires: Arc<Vec<W>>) -> (r: Self)
        ensures
            r.wire_set() == wires@,
            r.indices() is None,
            r.segment_list() is None,
            r.aabb() is None,
    {
        InteractionCandidates { wires, wire_indices: None, segments: None, query_aabb: None }
    }

    /// The wires at `wire_indices` and the segments `segments` of `wires`, as a
    /// query over `aabb` let them through.
    pub fn from_query(
        wires: Arc<Vec<W>>,
        wire_indices: Vec<u32>,
        segments: Vec<SegmentRef>,
        aabb: [u64; 4],
    ) -> (r: Self)
        ensures
            r.wire_set() == wires@,
            r.indices() == Some(wire_indices@),
            r.segment_list() == Some(segments@),
            r.aabb() == Some(aabb),
    {
        InteractionCandidates {
            wires,
            wire_indices: Some(wire_indices),
            segments: Some(segments),
            query_aabb: Some(aabb),
        }
    }

    /// How many candidates there are.
    pub fn len(&self) -> (r: usize)
        ensures
            r == match self.indices() {
                Some(ix) => ix.len(),
                None => self.wire_set().len(),
            },
    {
        match &self.wire_indices {
            Some(indices) => indices.len(),
            None => self.wires.len(),
        }
    }

    /// The `index`-th candidate, if there is one (a let-through index beyond
    /// the wire set gives none).
    pub fn get(&self, index: usize) -> (r: Option<&W>)
        ensures
            r == match self.indices() {
                Some(ix) => if index < ix.len() && ix[index as int] < self.wire_set().len() {
                    Some(&self.wire_set()[ix[index as int] as int])
                } else {
                    None
                },
                None => if index < self.wire_set().len() {
                    Some(&self.wire_set()[index as int])
                } else {
                    None
                },
            },
    {
        match &self.wire_indices {
            Some(indices) => {
                if index < indices.len() {
                    let w = indices[index] as usize;
                    if w < self.wires.len() {
                        Some(&self.wires[w])
                    } else {
                        None
                    }
                } else {
                    None
                }
            },
            None => {
                if index < self.wires.len() {
                    Some(&self.wires[index])
                } else {
                    None
                }
            },
        }
    }

    /// The segments the query let through (`None` when no query was made).
    pub fn segments(&self) -> (r: Option<&[SegmentRef]>)
        ensures
            match r {
                Some(s) => self.segment_list() == Some(s@),
                None => self.segment_list() is None,
            },
    {
        match &self.segments {
            Some(s) => Some(s.as_slice()),
            None => None,
        }
    }

    /// Wire `index` of the whole set, if there is one.
    pub fn source_wire(&self, index: u32) -> (r: Option<&W>)
        ensures
            r == if (index as int) < self.wire_set().len() {
                Some(&self.wire_set()[index as int])
            } else {
                None
            },
    {
        let i = index as usize;
        if i < self.wires.len() {
            Some(&self.wires[i])
        } else {
            None
        }
    }

    /// The query box (`None` when no query was made).
    pub fn query_aabb(&self) -> (r: Option<[u64; 4]>)
        ensures
            r == self.aabb(),
    {
        self.query_aabb
    }

    /// The candidates in order, as iterating them yields them: every wire, or
    /// the wire at each let-through index (indices beyond the set are
    /// skipped).
    pub fn in_order(&self) -> (r: Vec<&W>)
        ensures
            r@.map_values(|w: &W| *w) == match self.indices() {
                Some(ix) => indexed(self.wire_set(), ix, ix.len() as int),
                None => self.wire_set(),
            },
    {
        let mut out: Vec<&W> = Vec::new();
        match &self.wire_indices {
            Some(indices) => {
                let mut k: usize = 0;
                while k < indices.len()
                    invariant
                        self.indices() == Some(indices@),
                        k <= indices@.len(),
                        out@.map_values(|w: &W| *w) == indexed(self.wire_set(), indices@, k as int),
                    decreases indices@.len() - k,
                {
                    let w = indices[k] as usize;
                    let ghost before = out@.map_values(|w: &W| *w);
                    if w < self.wires.len() {
                        out.push(&self.wires[w]);
                        proof {
                            assert(out@.map_values(|w: &W| *w) =~= before.push(self.wire_set()[w as int]));
                        }
                    }
                    k = k + 1;
                }
            },
            None => {
                let mut k: usize = 0;
                while k < self.wires.len()
                    invariant
                        self.indices() is None,
                        k <= self.wire_set().len(),
                        out@.map_values(|w: &W| *w) == self.wire_set().take(k as int),
                    decreases self.wire_set().len() - k,
                {
                    let ghost before = out@.map_values(|w: &W| *w);
                    out.push(&self.wires[k]);
                    proof {
                        assert(out@.map_values(|w: &W| *w) =~= before.push(self.wire_set()[k as int]));
                        assert(self.wire_set().take(k + 1) =~= self.wire_set().take(k as int).push(
                            self.wire_set()[k as int],
                        ));
                    }
                    k = k + 1;
                }
                proof {
                    assert(self.wire_set().take(self.wire_set().len() as int) =~= self.wire_set());
                }
            },
        }
        out
    }
}

/// The wires of `wires` at the first `n` of `ix`, skipping indices beyond it.
pub open spec fn indexed<W>(wires: Seq<W>, ix: Seq<u32>, n: int) -> Seq<W>
    decreases n,
{
    if n <= 0 {
        seq![]
    } else if ix[n - 1] < wires.len() {
        indexed(wires, ix, n - 1).push(wires[ix[n - 1] as int])
    } else {
        indexed(wires, ix, n - 1)
    }
}

} // verus!
