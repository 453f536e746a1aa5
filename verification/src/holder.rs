use vstd::prelude::*;

use crate::segment::{pm_wf, seg_apply, seg_count_of, seg_wipe, MutationV, PointMutation, SegView,
    Segment};
use crate::types::{distinct_seq, PointId, SeqNum};

use rand::Rng;

verus! {

/// The set of live segments plus the fan-out primitives over them.
/// A segment's position in the list is its segment id; iteration order
/// over segments is fixed by it, so one call sees one order.
pub struct SegmentHolder {
    pub segments: Vec<Segment>,
}

impl View for SegmentHolder {
    type V = Seq<SegView>;

    open spec fn view(&self) -> Seq<SegView> {
        self.segments@.map_values(|s: Segment| s@)
    }
}

/// What one fan-out of a point operation does to the whole segment set.
pub open spec fn holder_apply(
    h: Seq<SegView>,
    op: SeqNum,
    ids: Seq<PointId>,
    m: MutationV,
) -> Seq<SegView> {
    h.map_values(|s: SegView| seg_apply(s, op, ids, m))
}

/// The number of (id, segment) pairs a fan-out touches.
pub open spec fn holder_count(h: Seq<SegView>, op: SeqNum, ids: Seq<PointId>, m: MutationV) -> nat
    decreases h.len(),
{
    if h.len() == 0 {
        0
    } else {
        holder_count(h.drop_last(), op, ids, m) + seg_count_of(h.last(), op, ids, m)
    }
}

/// Whether some segment of the set would let the fan-out touch `x`.
pub open spec fn holder_touches(h: Seq<SegView>, op: SeqNum, x: PointId) -> bool {
    exists|k: int| 0 <= k < h.len() && h[k].version < op && #[trigger] h[k].points.contains_key(x)
}

/// What one payload wipe does to the whole segment set.
pub open spec fn holder_wipe(h: Seq<SegView>, op: SeqNum) -> Seq<SegView> {
    h.map_values(|s: SegView| seg_wipe(s, op))
}

/// The number of segments a wipe touches.
pub open spec fn wipe_count(h: Seq<SegView>, op: SeqNum) -> nat
    decreases h.len(),
{
    if h.len() == 0 {
        0
    } else {
        wipe_count(h.drop_last(), op) + if h.last().version < op {
            1nat
        } else {
            0nat
        }
    }
}

/// Relies on rand::Rng::gen_range over the range `0..n`: the result is an
/// index below `n`; which one is drawn is left open.
#[verifier::external_body]
fn random_index(n: usize) -> (r: usize)
    requires
        n > 0,
    ensures
        r < n,
{
    rand::thread_rng().gen_range(0..n)
}

impl SegmentHolder {
    /// Every segment is well-formed.
    pub open spec fn wf(&self) -> bool {
        forall|i: int| 0 <= i < self.segments@.len() ==> (#[trigger] self.segments@[i]).wf()
    }

    /// An empty holder; segments are registered by an external builder.
    pub fn new() -> (r: SegmentHolder)
        ensures
            r.wf(),
            r@.len() == 0,
    {
        SegmentHolder { segments: Vec::new() }
    }

    /// Registers one segment.
    pub fn add_segment(&mut self, seg: Segment)
        requires
            old(self).wf(),
            seg.wf(),
        ensures
            final(self).wf(),
            final(self)@ == old(self)@.push(seg@),
    {
        self.segments.push(seg);
        proof {
            assert(self@ =~= old(self)@.push(self.segments@.last()@));
        }
    }

    /// The number of live segments.
    pub fn segment_count(&self) -> (r: usize)
        ensures
            r == self@.len(),
    {
        self.segments.len()
    }

    /// Some segment fit to receive a brand-new point, drawn at random so
    /// that concentrated insertion spreads over segments; `None` exactly
    /// when the holder is empty.
    pub fn random_segment_index(&self) -> (r: Option<usize>)
        ensures
            match r {
                Some(i) => i < self@.len(),
                None => self@.len() == 0,
            },
    {
        if self.segments.len() == 0 {
            None
        } else {
            Some(random_index(self.segments.len()))
        }
    }

    /// Fans one point operation out over every segment: for each id of
    /// `ids`, every segment holding it (and not yet at `op`) applies the
    /// mutation. Returns the number of (id, segment) pairs actually
    /// changed, saturating at the machine bound, and the set of ids that
    /// were touched in at least one segment.
    pub fn apply_points(
        &mut self,
        op: SeqNum,
        ids: &Vec<PointId>,
        m: &PointMutation,
    ) -> (r: (usize, Vec<PointId>))
        requires
            old(self).wf(),
            pm_wf(*m),
            m@ matches MutationV::Upsert { vectors } ==> forall|j: int|
                0 <= j < ids@.len() ==> vectors.contains_key(#[trigger] ids@[j]),
        ensures
            final(self).wf(),
            final(self)@ == holder_apply(old(self)@, op, ids@, m@),
            holder_count(old(self)@, op, ids@, m@) <= usize::MAX ==> r.0 == holder_count(
                old(self)@,
                op,
                ids@,
                m@,
            ),
            holder_count(old(self)@, op, ids@, m@) > usize::MAX ==> r.0 == usize::MAX,
            distinct_seq(r.1@),
            forall|x: PointId|
                r.1@.contains(x) <==> ids@.contains(x) && holder_touches(old(self)@, op, x),
    {
        let ghost h0e = self.segments@;
        let ghost hv0 = self@;
        let mut touched: Vec<PointId> = Vec::new();
        let mut count: usize = 0;
        let mut i: usize = 0;
        proof {
            assert(hv0.take(0) =~= Seq::<SegView>::empty());
        }
        while i < self.segments.len()
            invariant
                i <= h0e.len(),
                old(self).wf(),
                h0e == old(self).segments@,
                self.segments@.len() == h0e.len(),
                hv0 == h0e.map_values(|s: Segment| s@),
                pm_wf(*m),
                m@ matches MutationV::Upsert { vectors } ==> forall|j: int|
                    0 <= j < ids@.len() ==> vectors.contains_key(#[trigger] ids@[j]),
                forall|k: int| i <= k < h0e.len() ==> self.segments@[k] == h0e[k],
                forall|k: int|
                    0 <= k < i ==> (#[trigger] self.segments@[k])@ == seg_apply(
                        hv0[k],
                        op,
                        ids@,
                        m@,
                    ) && self.segments@[k].wf(),
                if holder_count(hv0.take(i as int), op, ids@, m@) <= usize::MAX {
                    count == holder_count(hv0.take(i as int), op, ids@, m@)
                } else {
                    count == usize::MAX
                },
                distinct_seq(touched@),
                forall|x: PointId| #![trigger touched@.contains(x)]
                    touched@.contains(x) <==> ids@.contains(x) && exists|k: int|
                        0 <= k < i && hv0[k].version < op && #[trigger] hv0[k].points.contains_key(
                            x,
                        ),
            decreases h0e.len() - i,
        {
            let ghost touched_before = touched@;
            let ghost before = self.segments@;
            let mut seg = self.segments.remove(i);
            proof {
                assert(seg == h0e[i as int]);
                assert(old(self).segments@[i as int].wf());
            }
            let c = seg.apply_points_op(op, ids, m, &mut touched);
            self.segments.insert(i, seg);
            proof {
                assert(self.segments@ =~= before.update(i as int, seg));
                assert(hv0[i as int] == h0e[i as int]@);
                assert(hv0.take(i as int + 1).drop_last() =~= hv0.take(i as int));
                assert(hv0.take(i as int + 1).last() == hv0[i as int]);
                if count <= usize::MAX - c {
                } else {
                }
                assert forall|x: PointId| #![trigger touched@.contains(x)]
                    touched@.contains(x) <==> ids@.contains(x) && exists|k: int|
                        0 <= k < i as int + 1 && hv0[k].version < op
                        && #[trigger] hv0[k].points.contains_key(x) by {
                    if touched@.contains(x) {
                        if touched_before.contains(x) {
                            let k = choose|k: int|
                                0 <= k < i as int && hv0[k].version < op
                                    && #[trigger] hv0[k].points.contains_key(x);
                            assert(hv0[k].points.contains_key(x));
                        } else {
                            assert(hv0[i as int].points.contains_key(x));
                        }
                    }
                    if ids@.contains(x) && exists|k: int|
                        0 <= k < i as int + 1 && hv0[k].version < op
                            && #[trigger] hv0[k].points.contains_key(x) {
                        let k = choose|k: int|
                            0 <= k < i as int + 1 && hv0[k].version < op
                                && #[trigger] hv0[k].points.contains_key(x);
                        if k < i as int {
                            assert(touched_before.contains(x));
                        } else {
                            assert(hv0[i as int].version < op
                                && hv0[i as int].points.contains_key(x));
                        }
                    }
                }
            }
            if c <= usize::MAX - count {
                count += c;
            } else {
                count = usize::MAX;
            }
            i += 1;
        }
        proof {
            assert(hv0.take(h0e.len() as int) =~= hv0);
            assert forall|k: int| 0 <= k < hv0.len() implies #[trigger] holder_apply(
                hv0,
                op,
                ids@,
                m@,
            )[k] == self@[k] by {
                assert(self.segments@[k]@ == seg_apply(hv0[k], op, ids@, m@));
            }
            assert(self@ =~= holder_apply(hv0, op, ids@, m@));
        }
        (count, touched)
    }

    /// Fans a payload wipe out over every segment once, with no id filter.
    /// Returns the number of segments that applied it.
    pub fn apply_wipe(&mut self, op: SeqNum) -> (count: usize)
        requires
            old(self).wf(),
        ensures
            final(self).wf(),
            final(self)@ == holder_wipe(old(self)@, op),
            count == wipe_count(old(self)@, op),
    {
        let ghost h0e = self.segments@;
        let ghost hv0 = self@;
        let mut count: usize = 0;
        let mut i: usize = 0;
        proof {
            assert(hv0.take(0) =~= Seq::<SegView>::empty());
        }
        while i < self.segments.len()
            invariant
                i <= h0e.len(),
                old(self).wf(),
                h0e == old(self).segments@,
                self.segments@.len() == h0e.len(),
                hv0 == h0e.map_values(|s: Segment| s@),
                forall|k: int| i <= k < h0e.len() ==> self.segments@[k] == h0e[k],
                forall|k: int|
                    0 <= k < i ==> (#[trigger] self.segments@[k])@ == seg_wipe(hv0[k], op)
                        && self.segments@[k].wf(),
                count == wipe_count(hv0.take(i as int), op),
                count <= i,
            decreases h0e.len() - i,
        {
            let ghost before = self.segments@;
            let mut seg = self.segments.remove(i);
            proof {
                assert(seg == h0e[i as int]);
                assert(old(self).segments@[i as int].wf());
            }
            let applied = seg.wipe_op(op);
            self.segments.insert(i, seg);
            proof {
                assert(self.segments@ =~= before.update(i as int, seg));
                assert(hv0[i as int] == h0e[i as int]@);
                assert(hv0.take(i as int + 1).drop_last() =~= hv0.take(i as int));
                assert(hv0.take(i as int + 1).last() == hv0[i as int]);
            }
            if applied {
                count += 1;
            }
            i += 1;
        }
        proof {
            assert(hv0.take(h0e.len() as int) =~= hv0);
            assert forall|k: int| 0 <= k < hv0.len() implies #[trigger] holder_wipe(hv0, op)[k]
                == self@[k] by {
                assert(self.segments@[k]@ == seg_wipe(hv0[k], op));
            }
            assert(self@ =~= holder_wipe(hv0, op));
        }
        count
    }
}

} // verus!
