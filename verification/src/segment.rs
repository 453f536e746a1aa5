use vstd::prelude::*;

use crate::assoc::{assoc_view, assoc_wf, lemma_assoc_contains, lemma_assoc_index,
    lemma_assoc_push, lemma_assoc_remove, lemma_assoc_update};
use crate::payload::{pl_remove, pl_set, pl_view, PayloadList};
use crate::types::{PayloadValV, PayloadValue, PointId, SeqNum, VectorElem, MAX_DIM};

verus! {

/// The stored data of one point: its vector and its payload.
pub struct PointData {
    pub vector: Vec<VectorElem>,
    pub payload: PayloadList,
}

/// Mathematical value of one stored point.
pub struct PointV {
    pub vector: Seq<VectorElem>,
    pub payload: Map<Seq<char>, PayloadValV>,
}

impl View for PointData {
    type V = PointV;

    open spec fn view(&self) -> PointV {
        PointV { vector: self.vector@, payload: pl_view(self.payload@) }
    }
}

/// One shard of the collection: some points plus the largest operation
/// sequence number the segment has applied.
pub struct Segment {
    pub version: SeqNum,
    pub points: Vec<(PointId, PointData)>,
}

/// Mathematical value of a segment.
pub struct SegView {
    pub version: SeqNum,
    pub points: Map<PointId, PointV>,
}

impl View for Segment {
    type V = SegView;

    open spec fn view(&self) -> SegView {
        SegView { version: self.version, points: assoc_view(self.points@) }
    }
}

/// A point-level mutation, fanned out by the holder over segments.
pub enum PointMutation {
    /// Replace the vector of the point; insert the point if absent.
    Upsert { pairs: Vec<(PointId, Vec<VectorElem>)> },
    /// Remove the point.
    Delete,
    /// Store each pair on the point's payload, in order.
    SetPayload { pairs: Vec<(String, PayloadValue)> },
    /// Remove each key from the point's payload.
    DeletePayload { keys: Vec<String> },
    /// Remove the point's whole payload.
    ClearPayload,
}

/// Mathematical value of a point-level mutation.
pub enum MutationV {
    Upsert { vectors: Map<PointId, Seq<VectorElem>> },
    Delete,
    SetPayload { pairs: Seq<(Seq<char>, PayloadValV)> },
    DeletePayload { keys: Seq<Seq<char>> },
    ClearPayload,
}

impl View for PointMutation {
    type V = MutationV;

    open spec fn view(&self) -> MutationV {
        match self {
            PointMutation::Upsert { pairs } => MutationV::Upsert { vectors: assoc_view(pairs@) },
            PointMutation::Delete => MutationV::Delete,
            PointMutation::SetPayload { pairs } => MutationV::SetPayload {
                pairs: pairs@.map_values(|p: (String, PayloadValue)| (p.0@, p.1@)),
            },
            PointMutation::DeletePayload { keys } => MutationV::DeletePayload {
                keys: keys@.map_values(|k: String| k@),
            },
            PointMutation::ClearPayload => MutationV::ClearPayload,
        }
    }
}

/// Folds a sequence of payload pairs into a payload map, in order;
/// a later pair with the same key wins.
pub open spec fn apply_pairs(
    pl: Map<Seq<char>, PayloadValV>,
    pairs: Seq<(Seq<char>, PayloadValV)>,
) -> Map<Seq<char>, PayloadValV>
    decreases pairs.len(),
{
    if pairs.len() == 0 {
        pl
    } else {
        apply_pairs(pl.insert(pairs[0].0, pairs[0].1), pairs.drop_first())
    }
}

/// Removes a sequence of keys from a payload map, in order.
pub open spec fn remove_keys(
    pl: Map<Seq<char>, PayloadValV>,
    keys: Seq<Seq<char>>,
) -> Map<Seq<char>, PayloadValV>
    decreases keys.len(),
{
    if keys.len() == 0 {
        pl
    } else {
        remove_keys(pl.remove(keys[0]), keys.drop_first())
    }
}

/// What one mutation does to one point of a point map.
pub open spec fn mut_apply(
    m: MutationV,
    id: PointId,
    pts: Map<PointId, PointV>,
) -> Map<PointId, PointV> {
    match m {
        MutationV::Delete => pts.remove(id),
        MutationV::Upsert { vectors } => pts.insert(
            id,
            PointV {
                vector: vectors[id],
                payload: if pts.contains_key(id) {
                    pts[id].payload
                } else {
                    Map::empty()
                },
            },
        ),
        MutationV::SetPayload { pairs } => if pts.contains_key(id) {
            pts.insert(id, PointV { vector: pts[id].vector, payload: apply_pairs(pts[id].payload, pairs) })
        } else {
            pts
        },
        MutationV::DeletePayload { keys } => if pts.contains_key(id) {
            pts.insert(id, PointV { vector: pts[id].vector, payload: remove_keys(pts[id].payload, keys) })
        } else {
            pts
        },
        MutationV::ClearPayload => if pts.contains_key(id) {
            pts.insert(id, PointV { vector: pts[id].vector, payload: Map::empty() })
        } else {
            pts
        },
    }
}

/// The point map after visiting `ids` in order and mutating each id the
/// map holds at its visit.
pub open spec fn seg_step_pts(
    pts: Map<PointId, PointV>,
    m: MutationV,
    ids: Seq<PointId>,
) -> Map<PointId, PointV>
    decreases ids.len(),
{
    if ids.len() == 0 {
        pts
    } else if pts.contains_key(ids[0]) {
        seg_step_pts(mut_apply(m, ids[0], pts), m, ids.drop_first())
    } else {
        seg_step_pts(pts, m, ids.drop_first())
    }
}

/// How many visits of `ids`, in order, found their id in the map.
pub open spec fn seg_step_count(pts: Map<PointId, PointV>, m: MutationV, ids: Seq<PointId>) -> nat
    decreases ids.len(),
{
    if ids.len() == 0 {
        0
    } else if pts.contains_key(ids[0]) {
        1 + seg_step_count(mut_apply(m, ids[0], pts), m, ids.drop_first())
    } else {
        seg_step_count(pts, m, ids.drop_first())
    }
}

/// What one point operation does to one segment: a segment whose version
/// has reached `op` is skipped whole; otherwise every held id of `ids` is
/// mutated against the segment's state before the operation, and the
/// version advances to `op` exactly when some id was touched.
pub open spec fn seg_apply(s: SegView, op: SeqNum, ids: Seq<PointId>, m: MutationV) -> SegView {
    if s.version >= op {
        s
    } else {
        SegView {
            version: if seg_step_count(s.points, m, ids) > 0 {
                op
            } else {
                s.version
            },
            points: seg_step_pts(s.points, m, ids),
        }
    }
}

/// The point map after upserting every id of `ids`, held or not.
pub open spec fn upsert_all_pts(
    pts: Map<PointId, PointV>,
    vectors: Map<PointId, Seq<VectorElem>>,
    ids: Seq<PointId>,
) -> Map<PointId, PointV>
    decreases ids.len(),
{
    if ids.len() == 0 {
        pts
    } else {
        upsert_all_pts(
            mut_apply(MutationV::Upsert { vectors }, ids[0], pts),
            vectors,
            ids.drop_first(),
        )
    }
}

/// What inserting the residual ids of an upsert does to the segment that
/// was picked for them.
pub open spec fn seg_upsert_all(
    s: SegView,
    op: SeqNum,
    vectors: Map<PointId, Seq<VectorElem>>,
    ids: Seq<PointId>,
) -> SegView {
    if s.version >= op || ids.len() == 0 {
        s
    } else {
        SegView { version: op, points: upsert_all_pts(s.points, vectors, ids) }
    }
}

/// Well-formedness of a mutation value: every vector to be stored fits
/// the collection-wide dimension bound.
pub open spec fn pm_wf(m: PointMutation) -> bool {
    match m {
        PointMutation::Upsert { pairs } => assoc_wf(pairs@) && forall|i: int|
            0 <= i < pairs@.len() ==> #[trigger] pairs@[i].1@.len() <= MAX_DIM,
        _ => true,
    }
}


/// Well-formedness of a point list: each payload is an association list
/// and each vector fits the dimension bound.
pub open spec fn points_wf(s: Seq<(PointId, PointData)>) -> bool {
    forall|i: int| 0 <= i < s.len() ==> assoc_wf(#[trigger] s[i].1.payload@)
        && s[i].1.vector@.len() <= MAX_DIM
}

/// Replacing one pair by a well-formed pair keeps the list well-formed.
pub proof fn lemma_points_wf_update(s: Seq<(PointId, PointData)>, i: int, p: (PointId, PointData))
    requires
        points_wf(s),
        0 <= i < s.len(),
        assoc_wf(p.1.payload@),
        p.1.vector@.len() <= MAX_DIM,
    ensures
        points_wf(s.update(i, p)),
{
    assert forall|k: int| 0 <= k < s.update(i, p).len() implies assoc_wf(
        #[trigger] s.update(i, p)[k].1.payload@,
    ) && s.update(i, p)[k].1.vector@.len() <= MAX_DIM by {
        if k != i {
            assert(s.update(i, p)[k] == s[k]);
            assert(assoc_wf(s[k].1.payload@) && s[k].1.vector@.len() <= MAX_DIM);
        }
    }
}

/// Appending a well-formed pair keeps the list well-formed.
pub proof fn lemma_points_wf_push(s: Seq<(PointId, PointData)>, p: (PointId, PointData))
    requires
        points_wf(s),
        assoc_wf(p.1.payload@),
        p.1.vector@.len() <= MAX_DIM,
    ensures
        points_wf(s.push(p)),
{
    assert forall|k: int| 0 <= k < s.push(p).len() implies assoc_wf(
        #[trigger] s.push(p)[k].1.payload@,
    ) && s.push(p)[k].1.vector@.len() <= MAX_DIM by {
        if k < s.len() {
            assert(s.push(p)[k] == s[k]);
            assert(assoc_wf(s[k].1.payload@) && s[k].1.vector@.len() <= MAX_DIM);
        } else {
            assert(s.push(p)[k] == p);
        }
    }
}

/// Removing a pair keeps the list well-formed.
pub proof fn lemma_points_wf_remove(s: Seq<(PointId, PointData)>, i: int)
    requires
        points_wf(s),
        0 <= i < s.len(),
    ensures
        points_wf(s.remove(i)),
{
    assert forall|k: int| 0 <= k < s.remove(i).len() implies assoc_wf(
        #[trigger] s.remove(i)[k].1.payload@,
    ) && s.remove(i)[k].1.vector@.len() <= MAX_DIM by {
        let ko = if k < i { k } else { k + 1 };
        assert(s.remove(i)[k] == s[ko]);
        assert(assoc_wf(s[ko].1.payload@) && s[ko].1.vector@.len() <= MAX_DIM);
    }
}

impl Segment {
    /// Distinct point ids, well-formed payload lists, bounded vectors.
    pub open spec fn wf(&self) -> bool {
        &&& assoc_wf(self.points@)
        &&& points_wf(self.points@)
    }

    /// A fresh, empty segment.
    pub fn new() -> (r: Segment)
        ensures
            r.wf(),
            r@.version == 0,
            r@.points == Map::<PointId, PointV>::empty(),
    {
        let r = Segment { version: 0, points: Vec::new() };
        proof {
            assert(r@.points =~= Map::<PointId, PointV>::empty());
        }
        r
    }

    /// The largest operation sequence number this segment has applied.
    pub fn version(&self) -> (r: SeqNum)
        ensures
            r == self@.version,
    {
        self.version
    }

    /// Finds the position of a point in the segment's list.
    pub fn find_point(&self, id: PointId) -> (r: Option<usize>)
        ensures
            match r {
                Some(i) => i < self.points.len() && self.points@[i as int].0 == id,
                None => forall|j: int| 0 <= j < self.points.len() ==> self.points@[j].0 != id,
            },
    {
        let mut j: usize = 0;
        while j < self.points.len()
            invariant
                j <= self.points.len(),
                forall|k: int| 0 <= k < j ==> self.points@[k].0 != id,
            decreases self.points.len() - j,
        {
            if self.points[j].0 == id {
                return Some(j);
            }
            j += 1;
        }
        None
    }

    /// Whether this segment holds the point.
    pub fn contains(&self, id: PointId) -> (r: bool)
        ensures
            r == self@.points.contains_key(id),
    {
        proof {
            lemma_assoc_contains(self.points@, id);
        }
        self.find_point(id).is_some()
    }

    /// Applies one mutation to one held (or, for an upsert, possibly new)
    /// point. The segment's version is not consulted here; the caller
    /// gates on it per operation.
    #[verifier::rlimit(60)]
    pub fn apply_mutation(&mut self, id: PointId, m: &PointMutation)
        requires
            old(self).wf(),
            pm_wf(*m),
            m@ matches MutationV::Upsert { vectors } ==> vectors.contains_key(id),
        ensures
            final(self).wf(),
            final(self)@.points == mut_apply(m@, id, old(self)@.points),
            final(self)@.version == old(self)@.version,
            final(self).points@.len() <= old(self).points@.len() + 1,
    {
        let pos = self.find_point(id);
        proof {
            lemma_assoc_contains(self.points@, id);
        }
        match m {
            PointMutation::Delete => {
                match pos {
                    Some(i) => {
                        proof {
                            lemma_assoc_remove(self.points@, i as int);
                            lemma_points_wf_remove(self.points@, i as int);
                        }
                        self.points.remove(i);
                    },
                    None => {
                        proof {
                            assert(self@.points =~= mut_apply(m@, id, old(self)@.points));
                        }
                    },
                }
            },
            PointMutation::Upsert { pairs } => {
                let vi = find_vector(pairs, id);
                proof {
                    lemma_assoc_contains(pairs@, id);
                }
                let vi = vi.unwrap();
                let vector = clone_vector(&pairs[vi].1);
                proof {
                    lemma_assoc_index(pairs@, vi as int);
                }
                match pos {
                    Some(i) => {
                        let old_pair = self.points.remove(i);
                        proof {
                            lemma_assoc_index(old(self).points@, i as int);
                        }
                        let pair = (old_pair.0, PointData { vector, payload: old_pair.1.payload });
                        self.points.insert(i, pair);
                        proof {
                            assert(pairs@[vi as int].1@.len() <= MAX_DIM);
                            assert(self.points@ =~= old(self).points@.update(
                                i as int,
                                self.points@[i as int],
                            ));
                            lemma_assoc_update(old(self).points@, i as int, self.points@[i as int]);
                            assert(assoc_wf(old(self).points@[i as int].1.payload@) && old(
                                self,
                            ).points@[i as int].1.vector@.len() <= MAX_DIM);
                            assert(assoc_wf(self.points@[i as int].1.payload@)
                                && self.points@[i as int].1.vector@.len() <= MAX_DIM);
                            lemma_points_wf_update(
                                old(self).points@,
                                i as int,
                                self.points@[i as int],
                            );
                            assert(points_wf(self.points@));
                            assert(self@.points =~= mut_apply(m@, id, old(self)@.points));
                        }
                    },
                    None => {
                        self.points.push((id, PointData { vector, payload: Vec::new() }));
                        proof {
                            assert(self.points@ =~= old(self).points@.push(self.points@.last()));
                            lemma_assoc_push(old(self).points@, self.points@.last());
                            assert(pairs@[vi as int].1@.len() <= MAX_DIM);
                            assert(self.points@.last().1.payload@.len() == 0);
                            lemma_points_wf_push(old(self).points@, self.points@.last());
                            assert(points_wf(self.points@));
                            assert(pl_view(self.points@.last().1.payload@) =~= Map::<
                                Seq<char>,
                                PayloadValV,
                            >::empty());
                            assert(self@.points =~= mut_apply(m@, id, old(self)@.points));
                        }
                    },
                }
            },
            PointMutation::SetPayload { pairs } => {
                match pos {
                    Some(i) => {
                        let mut pair = self.points.remove(i);
                        proof {
                            lemma_assoc_index(old(self).points@, i as int);
                        }
                        set_pairs(&mut pair.1.payload, pairs);
                        self.points.insert(i, pair);
                        proof {
                            assert(self.points@ =~= old(self).points@.update(
                                i as int,
                                self.points@[i as int],
                            ));
                            lemma_assoc_update(old(self).points@, i as int, self.points@[i as int]);
                            assert(assoc_wf(old(self).points@[i as int].1.payload@) && old(
                                self,
                            ).points@[i as int].1.vector@.len() <= MAX_DIM);
                            assert(assoc_wf(self.points@[i as int].1.payload@)
                                && self.points@[i as int].1.vector@.len() <= MAX_DIM);
                            lemma_points_wf_update(
                                old(self).points@,
                                i as int,
                                self.points@[i as int],
                            );
                            assert(points_wf(self.points@));
                            assert(self@.points =~= mut_apply(m@, id, old(self)@.points));
                        }
                    },
                    None => {
                        proof {
                            assert(self@.points =~= mut_apply(m@, id, old(self)@.points));
                        }
                    },
                }
            },
            PointMutation::DeletePayload { keys } => {
                match pos {
                    Some(i) => {
                        let mut pair = self.points.remove(i);
                        proof {
                            lemma_assoc_index(old(self).points@, i as int);
                        }
                        remove_listed_keys(&mut pair.1.payload, keys);
                        self.points.insert(i, pair);
                        proof {
                            assert(self.points@ =~= old(self).points@.update(
                                i as int,
                                self.points@[i as int],
                            ));
                            lemma_assoc_update(old(self).points@, i as int, self.points@[i as int]);
                            assert(assoc_wf(old(self).points@[i as int].1.payload@) && old(
                                self,
                            ).points@[i as int].1.vector@.len() <= MAX_DIM);
                            assert(assoc_wf(self.points@[i as int].1.payload@)
                                && self.points@[i as int].1.vector@.len() <= MAX_DIM);
                            lemma_points_wf_update(
                                old(self).points@,
                                i as int,
                                self.points@[i as int],
                            );
                            assert(points_wf(self.points@));
                            assert(self@.points =~= mut_apply(m@, id, old(self)@.points));
                        }
                    },
                    None => {
                        proof {
                            assert(self@.points =~= mut_apply(m@, id, old(self)@.points));
                        }
                    },
                }
            },
            PointMutation::ClearPayload => {
                match pos {
                    Some(i) => {
                        let old_pair = self.points.remove(i);
                        proof {
                            lemma_assoc_index(old(self).points@, i as int);
                        }
                        let pair = (
                            old_pair.0,
                            PointData { vector: old_pair.1.vector, payload: Vec::new() },
                        );
                        self.points.insert(i, pair);
                        proof {
                            assert(self.points@ =~= old(self).points@.update(
                                i as int,
                                self.points@[i as int],
                            ));
                            lemma_assoc_update(old(self).points@, i as int, self.points@[i as int]);
                            assert(assoc_wf(old(self).points@[i as int].1.payload@) && old(
                                self,
                            ).points@[i as int].1.vector@.len() <= MAX_DIM);
                            assert(assoc_wf(self.points@[i as int].1.payload@)
                                && self.points@[i as int].1.vector@.len() <= MAX_DIM);
                            lemma_points_wf_update(
                                old(self).points@,
                                i as int,
                                self.points@[i as int],
                            );
                            assert(points_wf(self.points@));
                            assert(pl_view(self.points@[i as int].1.payload@) =~= Map::<
                                Seq<char>,
                                PayloadValV,
                            >::empty());
                            assert(self@.points =~= mut_apply(m@, id, old(self)@.points));
                        }
                    },
                    None => {
                        proof {
                            assert(self@.points =~= mut_apply(m@, id, old(self)@.points));
                        }
                    },
                }
            },
        }
    }
}

/// Count contribution of one segment to a fan-out: zero when the segment
/// is skipped for its version, else the number of touching visits.
pub open spec fn seg_count_of(s: SegView, op: SeqNum, ids: Seq<PointId>, m: MutationV) -> nat {
    if s.version >= op {
        0
    } else {
        seg_step_count(s.points, m, ids)
    }
}

/// The payload of every point is removed; vectors and membership stay.
pub open spec fn wiped_pts(pts: Map<PointId, PointV>) -> Map<PointId, PointV> {
    Map::new(
        |k: PointId| pts.contains_key(k),
        |k: PointId| PointV { vector: pts[k].vector, payload: Map::empty() },
    )
}

/// What one payload wipe does to one segment.
pub open spec fn seg_wipe(s: SegView, op: SeqNum) -> SegView {
    if s.version >= op {
        s
    } else {
        SegView { version: op, points: wiped_pts(s.points) }
    }
}

impl Segment {
    /// Applies one operation's mutation to every id of `ids` this segment
    /// holds, in input order, against the segment's state before the
    /// operation; ids actually touched are appended (without duplicates)
    /// to `touched`. A segment whose version has reached `op` is skipped.
    pub fn apply_points_op(
        &mut self,
        op: SeqNum,
        ids: &Vec<PointId>,
        m: &PointMutation,
        touched: &mut Vec<PointId>,
    ) -> (count: usize)
        requires
            old(self).wf(),
            pm_wf(*m),
            m@ matches MutationV::Upsert { vectors } ==> forall|j: int|
                0 <= j < ids@.len() ==> vectors.contains_key(#[trigger] ids@[j]),
            crate::types::distinct_seq(old(touched)@),
        ensures
            final(self).wf(),
            final(self)@ == seg_apply(old(self)@, op, ids@, m@),
            count == seg_count_of(old(self)@, op, ids@, m@),
            crate::types::distinct_seq(final(touched)@),
            forall|x: PointId|
                final(touched)@.contains(x) <==> old(touched)@.contains(x) || (old(self)@.version
                    < op && ids@.contains(x) && old(self)@.points.contains_key(x)),
    {
        if self.version >= op {
            return 0;
        }
        let ghost pts0 = self@.points;
        let ghost mv = m@;
        let mut count: usize = 0;
        let mut j: usize = 0;
        proof {
            assert(ids@.skip(0) =~= ids@);
            assert(ids@.take(0) =~= Seq::<PointId>::empty());
        }
        while j < ids.len()
            invariant
                j <= ids@.len(),
                self.wf(),
                self.version == old(self).version,
                old(self)@.version < op,
                pm_wf(*m),
                mv == m@,
                m@ matches MutationV::Upsert { vectors } ==> forall|k: int|
                    0 <= k < ids@.len() ==> vectors.contains_key(#[trigger] ids@[k]),
                seg_step_pts(pts0, mv, ids@) == seg_step_pts(self@.points, mv, ids@.skip(j as int)),
                seg_step_count(pts0, mv, ids@) == count + seg_step_count(
                    self@.points,
                    mv,
                    ids@.skip(j as int),
                ),
                count <= j,
                crate::types::distinct_seq(touched@),
                forall|x: PointId| #![trigger touched@.contains(x)]
                    touched@.contains(x) <==> old(touched)@.contains(x) || (ids@.take(
                        j as int,
                    ).contains(x) && pts0.contains_key(x)),
                forall|x: PointId| #![trigger self@.points.contains_key(x)]
                    self@.points.contains_key(x) <==> pts0.contains_key(x) && !(mv
                        is Delete && ids@.take(j as int).contains(x)),
            decreases ids@.len() - j,
        {
            let id = ids[j];
            proof {
                assert(ids@.skip(j as int)[0] == id);
                assert(ids@.skip(j as int).drop_first() =~= ids@.skip(j as int + 1));
                assert(ids@.take(j as int + 1) =~= ids@.take(j as int).push(id));
                assert(ids@.contains(id));
                assert forall|x: PointId| #[trigger] ids@.take(j as int + 1).contains(x) <==> (
                ids@.take(j as int).contains(x) || x == id) by {
                    broadcast use vstd::seq_lib::lemma_seq_contains_after_push;

                    assert(ids@.take(j as int + 1) == ids@.take(j as int).push(id));
                    assert(ids@.take(j as int).push(id).contains(x) <==> (id == x || ids@.take(
                        j as int,
                    ).contains(x)));
                }
            }
            let ghost pts_before = self@.points;
            let ghost touched_before = touched@;
            if self.contains(id) {
                self.apply_mutation(id, m);
                count += 1;
                proof {
                    assert forall|x: PointId| #![trigger self@.points.contains_key(x)]
                        self@.points.contains_key(x) <==> (pts_before.contains_key(x) && !(mv
                        is Delete && x == id)) by {
                        match mv {
                            MutationV::Delete => {},
                            MutationV::Upsert { vectors } => {},
                            MutationV::SetPayload { pairs } => {},
                            MutationV::DeletePayload { keys } => {},
                            MutationV::ClearPayload => {},
                        }
                    }
                }
                if !crate::types::vec_contains_id(touched, id) {
                    touched.push(id);
                    proof {
                        broadcast use vstd::seq_lib::lemma_seq_contains_after_push;

                        assert(touched@ == touched_before.push(id));
                        assert forall|x: PointId| #![trigger touched@.contains(x)]
                            touched@.contains(x) <==> (touched_before.contains(x) || x == id) by {
                            assert(touched_before.push(id).contains(x) <==> (id == x
                                || touched_before.contains(x)));
                        }
                        assert forall|a: int, b: int| 0 <= a < b < touched@.len() implies touched@[a]
                            != touched@[b] by {
                            if b == touched@.len() - 1 {
                                assert(touched_before[a] == touched@[a]);
                                if touched_before[a] == id {
                                    assert(touched_before.contains(id));
                                }
                            } else {
                                assert(touched_before[a] == touched@[a]);
                                assert(touched_before[b] == touched@[b]);
                            }
                        }
                    }
                } else {
                    proof {
                        assert(touched@.contains(id));
                        assert forall|x: PointId| #![trigger touched@.contains(x)]
                            touched@.contains(x) <==> (touched_before.contains(x) || x == id) by {}
                    }
                }
                proof {
                    assert(touched@.contains(id));
                    assert(pts_before.contains_key(id));
                    assert(pts0.contains_key(id));
                }
            } else {
                proof {
                    assert(self@.points == pts_before);
                    if pts0.contains_key(id) {
                        assert(mv is Delete && ids@.take(j as int).contains(id));
                        assert(touched@.contains(id));
                    }
                }
            }
            proof {
                assert forall|x: PointId| #![trigger touched@.contains(x)]
                    touched@.contains(x) <==> (old(touched)@.contains(x) || (ids@.take(
                    j as int + 1,
                ).contains(x) && pts0.contains_key(x))) by {
                    assert(touched_before.contains(x) <==> (old(touched)@.contains(x) || (
                    ids@.take(j as int).contains(x) && pts0.contains_key(x))));
                    assert(ids@.take(j as int + 1).contains(x) <==> (ids@.take(
                        j as int,
                    ).contains(x) || x == id));
                }
                assert forall|x: PointId| #![trigger self@.points.contains_key(x)]
                    self@.points.contains_key(x) <==> (pts0.contains_key(x) && !(mv
                    is Delete && ids@.take(j as int + 1).contains(x))) by {
                    assert(pts_before.contains_key(x) <==> (pts0.contains_key(x) && !(mv
                        is Delete && ids@.take(j as int).contains(x))));
                    assert(ids@.take(j as int + 1).contains(x) <==> (ids@.take(
                        j as int,
                    ).contains(x) || x == id));
                }
            }
            j += 1;
        }
        proof {
            assert(ids@.skip(ids@.len() as int) =~= Seq::<PointId>::empty());
            assert(ids@.take(ids@.len() as int) =~= ids@);
        }
        if count > 0 {
            self.version = op;
        }
        count
    }

    /// Upserts every id of `ids` into this segment, held or not; used for
    /// the residual ids of an upsert. A segment whose version has reached
    /// `op` absorbs the whole batch as a no-op.
    pub fn upsert_all(&mut self, op: SeqNum, ids: &Vec<PointId>, m: &PointMutation)
        requires
            old(self).wf(),
            pm_wf(*m),
            m@ matches MutationV::Upsert { vectors } ==> forall|j: int|
                0 <= j < ids@.len() ==> vectors.contains_key(#[trigger] ids@[j]),
            m is Upsert,
        ensures
            final(self).wf(),
            final(self)@ == seg_upsert_all(old(self)@, op, m@->Upsert_vectors, ids@),
    {
        if self.version >= op || ids.len() == 0 {
            return ;
        }
        let ghost pts0 = self@.points;
        let ghost vectors = m@->Upsert_vectors;
        let mut j: usize = 0;
        proof {
            assert(ids@.skip(0) =~= ids@);
        }
        while j < ids.len()
            invariant
                j <= ids@.len(),
                self.wf(),
                self.version == old(self).version,
                pm_wf(*m),
                m@ matches MutationV::Upsert { vectors } ==> forall|k: int|
                    0 <= k < ids@.len() ==> vectors.contains_key(#[trigger] ids@[k]),
                m is Upsert,
                vectors == m@->Upsert_vectors,
                upsert_all_pts(pts0, vectors, ids@) == upsert_all_pts(
                    self@.points,
                    vectors,
                    ids@.skip(j as int),
                ),
            decreases ids@.len() - j,
        {
            let id = ids[j];
            proof {
                assert(ids@.skip(j as int)[0] == id);
                assert(ids@.skip(j as int).drop_first() =~= ids@.skip(j as int + 1));
                assert(ids@.contains(id));
            }
            self.apply_mutation(id, m);
            j += 1;
        }
        proof {
            assert(ids@.skip(ids@.len() as int) =~= Seq::<PointId>::empty());
        }
        self.version = op;
    }

    /// Removes the payload of every point; the segment's version advances
    /// to `op` unless it had already reached it.
    pub fn wipe_op(&mut self, op: SeqNum) -> (applied: bool)
        requires
            old(self).wf(),
        ensures
            final(self).wf(),
            final(self)@ == seg_wipe(old(self)@, op),
            applied == (old(self)@.version < op),
    {
        if self.version >= op {
            return false;
        }
        let ghost pts0seq = self.points@;
        let mut newpts: Vec<(PointId, PointData)> = Vec::new();
        while self.points.len() > 0
            invariant
                newpts@.len() + self.points@.len() == pts0seq.len(),
                forall|k: int|
                    0 <= k < newpts@.len() ==> #[trigger] newpts@[k].0 == pts0seq[k].0
                        && newpts@[k].1.vector@ == pts0seq[k].1.vector@
                        && newpts@[k].1.payload@.len() == 0,
                forall|k: int|
                    0 <= k < self.points@.len() ==> #[trigger] self.points@[k] == pts0seq[k
                        + newpts@.len()],
                self.version == old(self).version,
            decreases self.points@.len(),
        {
            let ghost before = self.points@;
            let pair = self.points.remove(0);
            newpts.push((pair.0, PointData { vector: pair.1.vector, payload: Vec::new() }));
            proof {
                assert(self.points@ =~= before.subrange(1, before.len() as int));
                assert forall|k: int| 0 <= k < self.points@.len() implies #[trigger] self.points@[k]
                    == pts0seq[k + newpts@.len()] by {
                    assert(self.points@[k] == before[k + 1]);
                }
            }
        }
        let ghost np = newpts@;
        self.points = newpts;
        self.version = op;
        proof {
            assert(self.points@ == np);
            assert(np.len() == pts0seq.len());
            assert forall|i: int| 0 <= i < np.len() implies (#[trigger] np[i]).0 == pts0seq[i].0
                && np[i].1.vector@ == pts0seq[i].1.vector@ && np[i].1.payload@.len() == 0 by {
                assert(np[i].0 == pts0seq[i].0);
            }
            lemma_wiped_view(pts0seq, np);
            assert(old(self).wf());
            assert forall|i: int| 0 <= i < np.len() implies assoc_wf(
                #[trigger] np[i].1.payload@,
            ) && np[i].1.vector@.len() <= MAX_DIM by {
                assert(np[i].0 == pts0seq[i].0);
                assert(assoc_wf(pts0seq[i].1.payload@) && pts0seq[i].1.vector@.len() <= MAX_DIM);
            }
            assert(points_wf(np));
            assert forall|i: int, k: int| 0 <= i < k < np.len() implies np[i].0@ != np[k].0@ by {
                assert(np[i].0 == pts0seq[i].0);
                assert(np[k].0 == pts0seq[k].0);
                assert(pts0seq[i].0@ != pts0seq[k].0@);
            }
            assert(assoc_wf(np));
        }
        true
    }
}

/// A list whose pairs keep the keys and vectors of another and carry empty
/// payloads denotes the wiped map of the other.
pub proof fn lemma_wiped_view(a: Seq<(PointId, PointData)>, b: Seq<(PointId, PointData)>)
    requires
        a.len() == b.len(),
        forall|k: int| 0 <= k < b.len() ==> (#[trigger] b[k]).0 == a[k].0,
        forall|k: int| 0 <= k < b.len() ==> (#[trigger] b[k]).1.vector@ == a[k].1.vector@,
        forall|k: int| 0 <= k < b.len() ==> (#[trigger] b[k]).1.payload@.len() == 0,
    ensures
        assoc_view(b) == wiped_pts(assoc_view(a)),
    decreases a.len(),
{
    if a.len() == 0 {
        assert(assoc_view(b) =~= wiped_pts(assoc_view(a)));
    } else {
        assert forall|k: int|
            0 <= k < b.drop_first().len() implies (#[trigger] b.drop_first()[k]).0
            == a.drop_first()[k].0 && b.drop_first()[k].1.vector@ == a.drop_first()[k].1.vector@
            && b.drop_first()[k].1.payload@.len() == 0 by {
            assert(b.drop_first()[k] == b[k + 1]);
            assert(a.drop_first()[k] == a[k + 1]);
        }
        lemma_wiped_view(a.drop_first(), b.drop_first());
        assert(b[0].0 == a[0].0 && b[0].1.vector@ == a[0].1.vector@ && b[0].1.payload@.len() == 0);
        assert(b[0].1.payload@ =~= Seq::<(String, PayloadValue)>::empty());
        assert(pl_view(b[0].1.payload@) =~= Map::<Seq<char>, PayloadValV>::empty());
        assert(assoc_view(b) =~= wiped_pts(assoc_view(a)));
    }
}


/// Finds the position of an id in an upsert's id/vector pairs.
pub fn find_vector(pairs: &Vec<(PointId, Vec<VectorElem>)>, id: PointId) -> (r: Option<usize>)
    ensures
        match r {
            Some(i) => i < pairs.len() && pairs@[i as int].0 == id,
            None => forall|j: int| 0 <= j < pairs.len() ==> pairs@[j].0 != id,
        },
{
    let mut j: usize = 0;
    while j < pairs.len()
        invariant
            j <= pairs.len(),
            forall|k: int| 0 <= k < j ==> pairs@[k].0 != id,
        decreases pairs.len() - j,
    {
        if pairs[j].0 == id {
            return Some(j);
        }
        j += 1;
    }
    None
}

/// Returns a vector with the same elements.
pub fn clone_vector(v: &Vec<VectorElem>) -> (r: Vec<VectorElem>)
    ensures
        r@ == v@,
{
    let mut r: Vec<VectorElem> = Vec::new();
    let mut j: usize = 0;
    while j < v.len()
        invariant
            j <= v.len(),
            r@ == v@.take(j as int),
        decreases v.len() - j,
    {
        r.push(v[j]);
        proof {
            assert(r@ =~= v@.take(j + 1 as int));
        }
        j += 1;
    }
    proof {
        assert(r@ =~= v@);
    }
    r
}

/// Stores every pair on a payload list, in order.
fn set_pairs(pl: &mut PayloadList, pairs: &Vec<(String, PayloadValue)>)
    requires
        assoc_wf(old(pl)@),
    ensures
        assoc_wf(final(pl)@),
        pl_view(final(pl)@) == apply_pairs(
            pl_view(old(pl)@),
            pairs@.map_values(|p: (String, PayloadValue)| (p.0@, p.1@)),
        ),
{
    let ghost pv = pairs@.map_values(|p: (String, PayloadValue)| (p.0@, p.1@));
    proof {
        assert(pv.skip(0) =~= pv);
    }
    let mut j: usize = 0;
    while j < pairs.len()
        invariant
            j <= pairs.len(),
            assoc_wf(pl@),
            apply_pairs(pl_view(old(pl)@), pv) == apply_pairs(pl_view(pl@), pv.skip(j as int)),
            pv == pairs@.map_values(|p: (String, PayloadValue)| (p.0@, p.1@)),
        decreases pairs.len() - j,
    {
        let p = &pairs[j];
        proof {
            assert(pv.skip(j as int)[0] == (p.0@, p.1@));
            assert(pv.skip(j as int).drop_first() =~= pv.skip(j + 1 as int));
        }
        pl_set(pl, &p.0, &p.1);
        j += 1;
    }
    proof {
        assert(pv.skip(pairs@.len() as int) =~= Seq::<(Seq<char>, PayloadValV)>::empty());
    }
}

/// Removes every listed key from a payload list, in order.
fn remove_listed_keys(pl: &mut PayloadList, keys: &Vec<String>)
    requires
        assoc_wf(old(pl)@),
    ensures
        assoc_wf(final(pl)@),
        pl_view(final(pl)@) == remove_keys(pl_view(old(pl)@), keys@.map_values(|k: String| k@)),
{
    let ghost kv = keys@.map_values(|k: String| k@);
    proof {
        assert(kv.skip(0) =~= kv);
    }
    let mut j: usize = 0;
    while j < keys.len()
        invariant
            j <= keys.len(),
            assoc_wf(pl@),
            remove_keys(pl_view(old(pl)@), kv) == remove_keys(pl_view(pl@), kv.skip(j as int)),
            kv == keys@.map_values(|k: String| k@),
        decreases keys.len() - j,
    {
        proof {
            assert(kv.skip(j as int)[0] == keys@[j as int]@);
            assert(kv.skip(j as int).drop_first() =~= kv.skip(j + 1 as int));
        }
        pl_remove(pl, &keys[j]);
        j += 1;
    }
    proof {
        assert(kv.skip(keys@.len() as int) =~= Seq::<Seq<char>>::empty());
    }
}

} // verus!
