use vstd::prelude::*;

use crate::assoc::{assoc_view, lemma_assoc_contains};
use crate::holder::{holder_apply, holder_count, holder_touches, holder_wipe, wipe_count,
    SegmentHolder};
use crate::segment::{seg_upsert_all, MutationV, PointMutation, SegView};
use crate::types::{distinct_seq, vec_contains_id, CollectionUpdateOperations, PayloadOperation,
    PayloadValue, PointId, PointOperation, SeqNum, UpdateError, VectorElem, MAX_DIM};

verus! {

/// The vector each id of an upsert is aligned with, as a map. Upserts
/// carry pairwise distinct ids, so each id has exactly one aligned vector.
pub open spec fn vec_map(
    ids: Seq<PointId>,
    vectors: Seq<Vec<VectorElem>>,
) -> Map<PointId, Seq<VectorElem>>
    decreases ids.len(),
{
    if ids.len() == 0 || vectors.len() == 0 {
        Map::empty()
    } else {
        vec_map(ids.drop_first(), vectors.drop_first()).insert(ids[0], vectors[0]@)
    }
}

/// An association list built pairwise from aligned ids and vectors denotes
/// their aligned map.
proof fn lemma_vec_map(
    pairs: Seq<(PointId, Vec<VectorElem>)>,
    ids: Seq<PointId>,
    vectors: Seq<Vec<VectorElem>>,
)
    requires
        pairs.len() == ids.len(),
        ids.len() == vectors.len(),
        forall|k: int| 0 <= k < pairs.len() ==> (#[trigger] pairs[k]).0 == ids[k],
        forall|k: int| 0 <= k < pairs.len() ==> (#[trigger] pairs[k]).1@ == vectors[k]@,
    ensures
        assoc_view(pairs) == vec_map(ids, vectors),
    decreases pairs.len(),
{
    if pairs.len() > 0 {
        assert(forall|k: int|
            0 <= k < pairs.drop_first().len() ==> #[trigger] pairs.drop_first()[k] == pairs[k + 1]);
        assert(forall|k: int|
            0 <= k < ids.drop_first().len() ==> #[trigger] ids.drop_first()[k] == ids[k + 1]);
        assert(forall|k: int|
            0 <= k < vectors.drop_first().len() ==> #[trigger] vectors.drop_first()[k] == vectors[k
                + 1]);
        lemma_vec_map(pairs.drop_first(), ids.drop_first(), vectors.drop_first());
        assert(assoc_view(pairs) =~= vec_map(ids, vectors));
    } else {
        assert(assoc_view(pairs) =~= vec_map(ids, vectors));
    }
}

/// The ids of an upsert, in input order, that no live segment would let
/// the fan-out touch: the ids to be inserted as brand-new points.
pub open spec fn untouched_ids(ids: Seq<PointId>, h: Seq<SegView>, op: SeqNum) -> Seq<PointId>
    decreases ids.len(),
{
    if ids.len() == 0 {
        Seq::empty()
    } else if holder_touches(h, op, ids[0]) {
        untouched_ids(ids.drop_first(), h, op)
    } else {
        seq![ids[0]] + untouched_ids(ids.drop_first(), h, op)
    }
}

/// The whole state after an upsert: the fan-out over the segments that
/// already hold an id, then the residual ids inserted into the segment
/// picked at position `c`.
pub open spec fn spec_upsert(
    h: Seq<SegView>,
    op: SeqNum,
    ids: Seq<PointId>,
    vm: Map<PointId, Seq<VectorElem>>,
    c: int,
) -> Seq<SegView> {
    let h1 = holder_apply(h, op, ids, MutationV::Upsert { vectors: vm });
    h1.update(c, seg_upsert_all(h1[c], op, vm, untouched_ids(ids, h, op)))
}

/// Applies collection-level update operations by dispatching through the
/// holder's fan-out primitives.
pub struct SimpleSegmentUpdater {}

impl SimpleSegmentUpdater {
    /// Reports the first id of `points`, in input order, that is not in
    /// `processed`; on success returns how many ids were processed.
    pub fn check_unprocessed_points(
        points: &Vec<PointId>,
        processed: &Vec<PointId>,
    ) -> (r: Result<usize, UpdateError>)
        ensures
            match r {
                Ok(n) => n == processed@.len() && forall|k: int|
                    0 <= k < points@.len() ==> processed@.contains(#[trigger] points@[k]),
                Err(e) => (e matches UpdateError::NotFound { missed_point_id } && exists|k: int|
                    0 <= k < points@.len() && missed_point_id == points@[k]
                        && !processed@.contains(points@[k]) && forall|l: int|
                        0 <= l < k ==> processed@.contains(#[trigger] points@[l])),
            },
    {
        let mut k: usize = 0;
        while k < points.len()
            invariant
                k <= points@.len(),
                forall|l: int| 0 <= l < k ==> processed@.contains(#[trigger] points@[l]),
            decreases points@.len() - k,
        {
            if !vec_contains_id(processed, points[k]) {
                return Err(UpdateError::NotFound { missed_point_id: points[k] });
            }
            k += 1;
        }
        Ok(processed.len())
    }

    /// Deletes the named points from every segment holding them; deletions
    /// of absent ids are silent. Returns the number of deletions.
    pub fn delete_points(
        &self,
        holder: &mut SegmentHolder,
        op: SeqNum,
        ids: &Vec<PointId>,
    ) -> (r: Result<usize, UpdateError>)
        requires
            old(holder).wf(),
        ensures
            final(holder).wf(),
            final(holder)@ == holder_apply(old(holder)@, op, ids@, MutationV::Delete),
            r matches Ok(n) && count_matches(n, holder_count(
                old(holder)@,
                op,
                ids@,
                MutationV::Delete,
            )),
    {
        let (count, _touched) = holder.apply_points(op, ids, &PointMutation::Delete);
        Ok(count)
    }

    /// Upserts with a caller-fixed residual segment: every segment already
    /// holding an id applies the new vector; ids held nowhere are inserted
    /// into the segment at position `choice`. Returns the number of
    /// segment-level writes of the fan-out.
    pub fn upsert_points_with(
        &self,
        holder: &mut SegmentHolder,
        op: SeqNum,
        ids: &Vec<PointId>,
        vectors: &Vec<Vec<VectorElem>>,
        choice: usize,
    ) -> (r: Result<usize, UpdateError>)
        requires
            old(holder).wf(),
            ids@.len() == vectors@.len(),
            distinct_seq(ids@),
            forall|k: int| 0 <= k < vectors@.len() ==> (#[trigger] vectors@[k])@.len() <= MAX_DIM,
            choice < old(holder)@.len(),
        ensures
            final(holder).wf(),
            final(holder)@ == spec_upsert(
                old(holder)@,
                op,
                ids@,
                vec_map(ids@, vectors@),
                choice as int,
            ),
            r matches Ok(n) && count_matches(n, holder_count(
                old(holder)@,
                op,
                ids@,
                MutationV::Upsert { vectors: vec_map(ids@, vectors@) },
            )),
    {
        let ghost hv0 = holder@;
        let ghost vm = vec_map(ids@, vectors@);

        // Pair each id with its vector.
        let mut pairs: Vec<(PointId, Vec<VectorElem>)> = Vec::new();
        let mut j: usize = 0;
        while j < ids.len()
            invariant
                j <= ids@.len(),
                ids@.len() == vectors@.len(),
                pairs@.len() == j,
                forall|k: int| 0 <= k < j ==> (#[trigger] pairs@[k]).0 == ids@[k],
                forall|k: int| 0 <= k < j ==> (#[trigger] pairs@[k]).1@ == vectors@[k]@,
            decreases ids@.len() - j,
        {
            let v = crate::segment::clone_vector(&vectors[j]);
            pairs.push((ids[j], v));
            j += 1;
        }
        let m = PointMutation::Upsert { pairs };
        proof {
            let pairs_v = m->Upsert_pairs@;
            lemma_vec_map(pairs_v, ids@, vectors@);
            assert(m@ == MutationV::Upsert { vectors: vm });
            assert forall|x: int, y: int| 0 <= x < y < pairs_v.len() implies pairs_v[x].0@
                != pairs_v[y].0@ by {
                assert(ids@[x] != ids@[y]);
            }
            assert forall|k: int| 0 <= k < pairs_v.len() implies #[trigger] pairs_v[k].1@.len()
                <= MAX_DIM by {
                assert(vectors@[k]@.len() <= MAX_DIM);
            }
            assert(crate::segment::pm_wf(m));
            assert forall|k: int| 0 <= k < ids@.len() implies vm.contains_key(
                #[trigger] ids@[k],
            ) by {
                lemma_assoc_contains(pairs_v, ids@[k]);
                assert(pairs_v[k].0 == ids@[k]);
            }
        }
        let (count, touched) = holder.apply_points(op, ids, &m);

        // The residual ids: those no segment held.
        let mut residual: Vec<PointId> = Vec::new();
        let mut k: usize = 0;
        proof {
            assert(ids@.skip(0) =~= ids@);
            assert(residual@ + untouched_ids(ids@.skip(0), hv0, op) =~= untouched_ids(
                ids@,
                hv0,
                op,
            ));
        }
        while k < ids.len()
            invariant
                k <= ids@.len(),
                distinct_seq(touched@),
                forall|x: PointId|
                    touched@.contains(x) <==> ids@.contains(x) && holder_touches(hv0, op, x),
                untouched_ids(ids@, hv0, op) == residual@ + untouched_ids(
                    ids@.skip(k as int),
                    hv0,
                    op,
                ),
                forall|l: int| 0 <= l < residual@.len() ==> ids@.contains(#[trigger] residual@[l]),
            decreases ids@.len() - k,
        {
            let id = ids[k];
            proof {
                assert(ids@.skip(k as int)[0] == id);
                assert(ids@.skip(k as int).drop_first() =~= ids@.skip(k as int + 1));
                assert(ids@.contains(id));
            }
            if !vec_contains_id(&touched, id) {
                residual.push(id);
                proof {
                    assert(residual@ + untouched_ids(ids@.skip(k as int + 1), hv0, op)
                        =~= untouched_ids(ids@, hv0, op));
                }
            }
            k += 1;
        }
        proof {
            assert(ids@.skip(ids@.len() as int) =~= Seq::<PointId>::empty());
            assert(untouched_ids(ids@.skip(ids@.len() as int), hv0, op) =~= Seq::<
                PointId,
            >::empty());
            assert(residual@ =~= untouched_ids(ids@, hv0, op));
        }

        // Insert the residual ids into the picked segment.
        let ghost h1e = holder.segments@;
        proof {
            assert(holder@.len() == hv0.len());
            assert(holder.segments@.len() == holder@.len());
            assert(holder@[choice as int] == holder.segments@[choice as int]@);
        }
        let mut seg = holder.segments.remove(choice);
        proof {
            assert(holder_apply(hv0, op, ids@, m@)[choice as int] == seg@);
            assert forall|l: int| 0 <= l < residual@.len() implies (
            m@->Upsert_vectors).contains_key(#[trigger] residual@[l]) by {
                let k = choose|k: int| 0 <= k < ids@.len() && ids@[k] == residual@[l];
                assert(vm.contains_key(ids@[k]));
            }
        }
        seg.upsert_all(op, &residual, &m);
        holder.segments.insert(choice, seg);
        proof {
            assert(holder.segments@ =~= h1e.update(choice as int, seg));
            assert forall|l: int| 0 <= l < holder@.len() implies #[trigger] holder@[l]
                == spec_upsert(hv0, op, ids@, vm, choice as int)[l] by {
                if l != choice as int {
                    assert(holder.segments@[l] == h1e[l]);
                }
            }
            assert(holder@ =~= spec_upsert(hv0, op, ids@, vm, choice as int));
        }
        Ok(count)
    }

    /// Checks each id in every segment, updating the points that exist;
    /// ids held nowhere are inserted into a randomly drawn segment. Fails
    /// with a service error when no segment exists.
    pub fn upsert_points(
        &self,
        holder: &mut SegmentHolder,
        op: SeqNum,
        ids: &Vec<PointId>,
        vectors: &Vec<Vec<VectorElem>>,
    ) -> (r: Result<usize, UpdateError>)
        requires
            old(holder).wf(),
            ids@.len() == vectors@.len(),
            distinct_seq(ids@),
            forall|k: int| 0 <= k < vectors@.len() ==> (#[trigger] vectors@[k])@.len() <= MAX_DIM,
        ensures
            final(holder).wf(),
            r is Err <==> old(holder)@.len() == 0,
            r matches Err(e) ==> e is ServiceError && *final(holder) == *old(holder),
            r matches Ok(n) ==> count_matches(n, holder_count(
                old(holder)@,
                op,
                ids@,
                MutationV::Upsert { vectors: vec_map(ids@, vectors@) },
            )) && exists|c: int|
                0 <= c < old(holder)@.len() && final(holder)@ == spec_upsert(
                    old(holder)@,
                    op,
                    ids@,
                    vec_map(ids@, vectors@),
                    c,
                ),
    {
        match holder.random_segment_index() {
            None => Err(
                UpdateError::ServiceError {
                    error: "No segments exists, expected at least one".to_owned(),
                },
            ),
            Some(choice) => {
                let r = self.upsert_points_with(holder, op, ids, vectors, choice);
                proof {
                    assert(holder@ == spec_upsert(
                        old(holder)@,
                        op,
                        ids@,
                        vec_map(ids@, vectors@),
                        choice as int,
                    ));
                }
                r
            },
        }
    }

    /// Stores every pair of `payload` on each named point, in every
    /// segment holding it; fails with the first id found in no segment,
    /// after the found ids were written (partial success is visible).
    pub fn set_payload(
        &self,
        holder: &mut SegmentHolder,
        op: SeqNum,
        payload: &Vec<(String, PayloadValue)>,
        points: &Vec<PointId>,
    ) -> (r: Result<usize, UpdateError>)
        requires
            old(holder).wf(),
        ensures
            final(holder).wf(),
            final(holder)@ == holder_apply(
                old(holder)@,
                op,
                points@,
                MutationV::SetPayload {
                    pairs: payload@.map_values(|p: (String, PayloadValue)| (p.0@, p.1@)),
                },
            ),
            payload_op_result(r, old(holder)@, op, points@, holder_count(
                old(holder)@,
                op,
                points@,
                MutationV::SetPayload {
                    pairs: payload@.map_values(|p: (String, PayloadValue)| (p.0@, p.1@)),
                },
            )),
    {
        let cloned = clone_payload_pairs(payload);
        let m = PointMutation::SetPayload { pairs: cloned };
        proof {
            assert(m@->SetPayload_pairs =~= payload@.map_values(
                |p: (String, PayloadValue)| (p.0@, p.1@),
            ));
        }
        let (count, touched) = holder.apply_points(op, points, &m);
        let checked = Self::check_unprocessed_points(points, &touched);
        proof {
            lemma_payload_result(checked is Ok, touched@, old(holder)@, op, points@);
        }
        match checked {
            Ok(_) => Ok(count),
            Err(e) => Err(e),
        }
    }

    /// Removes the named keys from each named point, in every segment
    /// holding it; fails with the first id found in no segment.
    pub fn delete_payload(
        &self,
        holder: &mut SegmentHolder,
        op: SeqNum,
        points: &Vec<PointId>,
        keys: &Vec<String>,
    ) -> (r: Result<usize, UpdateError>)
        requires
            old(holder).wf(),
        ensures
            final(holder).wf(),
            final(holder)@ == holder_apply(
                old(holder)@,
                op,
                points@,
                MutationV::DeletePayload { keys: keys@.map_values(|k: String| k@) },
            ),
            payload_op_result(r, old(holder)@, op, points@, holder_count(
                old(holder)@,
                op,
                points@,
                MutationV::DeletePayload { keys: keys@.map_values(|k: String| k@) },
            )),
    {
        let cloned = clone_keys(keys);
        let m = PointMutation::DeletePayload { keys: cloned };
        proof {
            assert(m@->DeletePayload_keys =~= keys@.map_values(|k: String| k@));
        }
        let (count, touched) = holder.apply_points(op, points, &m);
        let checked = Self::check_unprocessed_points(points, &touched);
        proof {
            lemma_payload_result(checked is Ok, touched@, old(holder)@, op, points@);
        }
        match checked {
            Ok(_) => Ok(count),
            Err(e) => Err(e),
        }
    }

    /// Removes the whole payload of each named point, in every segment
    /// holding it; fails with the first id found in no segment.
    pub fn clear_payload(
        &self,
        holder: &mut SegmentHolder,
        op: SeqNum,
        points: &Vec<PointId>,
    ) -> (r: Result<usize, UpdateError>)
        requires
            old(holder).wf(),
        ensures
            final(holder).wf(),
            final(holder)@ == holder_apply(old(holder)@, op, points@, MutationV::ClearPayload),
            payload_op_result(r, old(holder)@, op, points@, holder_count(
                old(holder)@,
                op,
                points@,
                MutationV::ClearPayload,
            )),
    {
        let m = PointMutation::ClearPayload;
        let (count, touched) = holder.apply_points(op, points, &m);
        let checked = Self::check_unprocessed_points(points, &touched);
        proof {
            lemma_payload_result(checked is Ok, touched@, old(holder)@, op, points@);
        }
        match checked {
            Ok(_) => Ok(count),
            Err(e) => Err(e),
        }
    }

    /// Removes the payload of every point of every segment.
    pub fn wipe_payload(&self, holder: &mut SegmentHolder, op: SeqNum) -> (r: Result<
        usize,
        UpdateError,
    >)
        requires
            old(holder).wf(),
        ensures
            final(holder).wf(),
            final(holder)@ == holder_wipe(old(holder)@, op),
            r matches Ok(n) && n == wipe_count(old(holder)@, op),
    {
        Ok(holder.apply_wipe(op))
    }

    /// Dispatches one point operation.
    pub fn process_point_operation(
        &self,
        holder: &mut SegmentHolder,
        op: SeqNum,
        point_operation: &PointOperation,
    ) -> (r: Result<usize, UpdateError>)
        requires
            old(holder).wf(),
            point_op_wf(*point_operation),
        ensures
            final(holder).wf(),
            match point_operation {
                PointOperation::Upsert { ids, vectors } => {
                    &&& (r is Err <==> old(holder)@.len() == 0)
                    &&& (r matches Err(e) ==> e is ServiceError && *final(holder) == *old(holder))
                    &&& (r is Ok ==> exists|c: int|
                        0 <= c < old(holder)@.len() && final(holder)@ == spec_upsert(
                            old(holder)@,
                            op,
                            ids@,
                            vec_map(ids@, vectors@),
                            c,
                        ))
                },
                PointOperation::Delete { ids } => final(holder)@ == holder_apply(
                    old(holder)@,
                    op,
                    ids@,
                    MutationV::Delete,
                ) && (r matches Ok(n) && count_matches(n, holder_count(
                    old(holder)@,
                    op,
                    ids@,
                    MutationV::Delete,
                ))),
            },
    {
        match point_operation {
            PointOperation::Upsert { ids, vectors } => self.upsert_points(
                holder,
                op,
                ids,
                vectors,
            ),
            PointOperation::Delete { ids } => self.delete_points(holder, op, ids),
        }
    }

    /// Dispatches one payload operation.
    pub fn process_payload_operation(
        &self,
        holder: &mut SegmentHolder,
        op: SeqNum,
        payload_operation: &PayloadOperation,
    ) -> (r: Result<usize, UpdateError>)
        requires
            old(holder).wf(),
        ensures
            final(holder).wf(),
            match payload_operation {
                PayloadOperation::SetPayload { payload, points } => final(holder)@ == holder_apply(
                    old(holder)@,
                    op,
                    points@,
                    MutationV::SetPayload {
                        pairs: payload@.map_values(|p: (String, PayloadValue)| (p.0@, p.1@)),
                    },
                ) && payload_op_result(r, old(holder)@, op, points@, holder_count(
                    old(holder)@,
                    op,
                    points@,
                    MutationV::SetPayload {
                        pairs: payload@.map_values(|p: (String, PayloadValue)| (p.0@, p.1@)),
                    },
                )),
                PayloadOperation::DeletePayload { keys, points } => final(holder)@ == holder_apply(
                    old(holder)@,
                    op,
                    points@,
                    MutationV::DeletePayload { keys: keys@.map_values(|k: String| k@) },
                ) && payload_op_result(r, old(holder)@, op, points@, holder_count(
                    old(holder)@,
                    op,
                    points@,
                    MutationV::DeletePayload { keys: keys@.map_values(|k: String| k@) },
                )),
                PayloadOperation::ClearPayload { points } => final(holder)@ == holder_apply(
                    old(holder)@,
                    op,
                    points@,
                    MutationV::ClearPayload,
                ) && payload_op_result(r, old(holder)@, op, points@, holder_count(
                    old(holder)@,
                    op,
                    points@,
                    MutationV::ClearPayload,
                )),
                PayloadOperation::WipePayload => final(holder)@ == holder_wipe(old(holder)@, op)
                    && (r matches Ok(n) && n == wipe_count(old(holder)@, op)),
            },
    {
        match payload_operation {
            PayloadOperation::SetPayload { payload, points } => self.set_payload(
                holder,
                op,
                payload,
                points,
            ),
            PayloadOperation::DeletePayload { keys, points } => self.delete_payload(
                holder,
                op,
                points,
                keys,
            ),
            PayloadOperation::ClearPayload { points } => self.clear_payload(holder, op, points),
            PayloadOperation::WipePayload => self.wipe_payload(holder, op),
        }
    }

    /// Applies one collection-level operation tagged with `op`.
    pub fn update(
        &self,
        holder: &mut SegmentHolder,
        op: SeqNum,
        operation: &CollectionUpdateOperations,
    ) -> (r: Result<usize, UpdateError>)
        requires
            old(holder).wf(),
            operation matches CollectionUpdateOperations::PointOperation(p) ==> point_op_wf(*p),
        ensures
            final(holder).wf(),
            r matches Err(e) ==> e is ServiceError || e is NotFound,
            match operation {
                CollectionUpdateOperations::PointOperation(p) => match p {
                    PointOperation::Upsert { ids, vectors } => {
                        &&& (r is Err <==> old(holder)@.len() == 0)
                        &&& (r matches Err(e) ==> e is ServiceError && *final(holder) == *old(
                            holder,
                        ))
                        &&& (r is Ok ==> exists|c: int|
                            0 <= c < old(holder)@.len() && final(holder)@ == spec_upsert(
                                old(holder)@,
                                op,
                                ids@,
                                vec_map(ids@, vectors@),
                                c,
                            ))
                    },
                    PointOperation::Delete { ids } => final(holder)@ == holder_apply(
                        old(holder)@,
                        op,
                        ids@,
                        MutationV::Delete,
                    ) && (r matches Ok(n) && count_matches(n, holder_count(
                        old(holder)@,
                        op,
                        ids@,
                        MutationV::Delete,
                    ))),
                },
                CollectionUpdateOperations::PayloadOperation(p) => match p {
                    PayloadOperation::SetPayload { payload, points } => final(holder)@
                        == holder_apply(
                        old(holder)@,
                        op,
                        points@,
                        MutationV::SetPayload {
                            pairs: payload@.map_values(|q: (String, PayloadValue)| (q.0@, q.1@)),
                        },
                    ) && payload_op_result(r, old(holder)@, op, points@, holder_count(
                        old(holder)@,
                        op,
                        points@,
                        MutationV::SetPayload {
                            pairs: payload@.map_values(|q: (String, PayloadValue)| (q.0@, q.1@)),
                        },
                    )),
                    PayloadOperation::DeletePayload { keys, points } => final(holder)@
                        == holder_apply(
                        old(holder)@,
                        op,
                        points@,
                        MutationV::DeletePayload { keys: keys@.map_values(|k: String| k@) },
                    ) && payload_op_result(r, old(holder)@, op, points@, holder_count(
                        old(holder)@,
                        op,
                        points@,
                        MutationV::DeletePayload { keys: keys@.map_values(|k: String| k@) },
                    )),
                    PayloadOperation::ClearPayload { points } => final(holder)@ == holder_apply(
                        old(holder)@,
                        op,
                        points@,
                        MutationV::ClearPayload,
                    ) && payload_op_result(r, old(holder)@, op, points@, holder_count(
                        old(holder)@,
                        op,
                        points@,
                        MutationV::ClearPayload,
                    )),
                    PayloadOperation::WipePayload => final(holder)@ == holder_wipe(old(holder)@, op)
                        && (r matches Ok(n) && n == wipe_count(old(holder)@, op)),
                },
            },
    {
        match operation {
            CollectionUpdateOperations::PointOperation(point_operation) => self
                .process_point_operation(holder, op, point_operation),
            CollectionUpdateOperations::PayloadOperation(payload_operation) => self
                .process_payload_operation(holder, op, payload_operation),
        }
    }
}

/// Well-formedness of a point operation: an upsert carries one vector per
/// id, with distinct ids and bounded dimensions.
pub open spec fn point_op_wf(o: PointOperation) -> bool {
    match o {
        PointOperation::Upsert { ids, vectors } => ids@.len() == vectors@.len() && distinct_seq(
            ids@,
        ) && forall|k: int| 0 <= k < vectors@.len() ==> (#[trigger] vectors@[k])@.len() <= MAX_DIM,
        PointOperation::Delete { .. } => true,
    }
}

/// A returned count equals the mathematical count, saturating at the
/// machine bound.
pub open spec fn count_matches(n: usize, c: nat) -> bool {
    if c <= usize::MAX {
        n == c
    } else {
        n == usize::MAX
    }
}

/// The result contract every id-filtered payload operation meets: success
/// exactly when every named id was touched in some segment, else the first
/// missed id in input order; the count reports the fan-out's writes.
pub open spec fn payload_op_result(
    r: Result<usize, UpdateError>,
    h: Seq<SegView>,
    op: SeqNum,
    points: Seq<PointId>,
    c: nat,
) -> bool {
    match r {
        Ok(n) => count_matches(n, c) && forall|k: int|
            0 <= k < points.len() ==> holder_touches(h, op, #[trigger] points[k]),
        Err(e) => (e matches UpdateError::NotFound { missed_point_id } && exists|k: int|
            0 <= k < points.len() && missed_point_id == points[k] && !holder_touches(
                h,
                op,
                points[k],
            ) && forall|l: int| 0 <= l < k ==> holder_touches(h, op, #[trigger] points[l])),
    }
}

/// Links the touched-set of a fan-out to the per-id touch predicate.
proof fn lemma_payload_result(
    ok: bool,
    touched: Seq<PointId>,
    h: Seq<SegView>,
    op: SeqNum,
    points: Seq<PointId>,
)
    requires
        forall|x: PointId| touched.contains(x) <==> points.contains(x) && holder_touches(h, op, x),
    ensures
        forall|k: int|
            0 <= k < points.len() ==> (touched.contains(#[trigger] points[k]) <==> holder_touches(
                h,
                op,
                points[k],
            )),
{
    assert forall|k: int| 0 <= k < points.len() implies (touched.contains(#[trigger] points[k])
        <==> holder_touches(h, op, points[k])) by {
        assert(points.contains(points[k]));
    }
}

/// Returns payload pairs with the same mathematical content.
fn clone_payload_pairs(payload: &Vec<(String, PayloadValue)>) -> (r: Vec<(String, PayloadValue)>)
    ensures
        r@.len() == payload@.len(),
        forall|k: int|
            0 <= k < payload@.len() ==> (#[trigger] r@[k]).0@ == payload@[k].0@ && r@[k].1@
                == payload@[k].1@,
{
    let mut r: Vec<(String, PayloadValue)> = Vec::new();
    let mut j: usize = 0;
    while j < payload.len()
        invariant
            j <= payload@.len(),
            r@.len() == j,
            forall|k: int|
                0 <= k < j ==> (#[trigger] r@[k]).0@ == payload@[k].0@ && r@[k].1@
                    == payload@[k].1@,
        decreases payload@.len() - j,
    {
        let p = &payload[j];
        r.push((p.0.clone(), p.1.duplicate()));
        j += 1;
    }
    r
}

/// Returns keys with the same mathematical content.
fn clone_keys(keys: &Vec<String>) -> (r: Vec<String>)
    ensures
        r@.len() == keys@.len(),
        forall|k: int| 0 <= k < keys@.len() ==> (#[trigger] r@[k])@ == keys@[k]@,
{
    let mut r: Vec<String> = Vec::new();
    let mut j: usize = 0;
    while j < keys.len()
        invariant
            j <= keys@.len(),
            r@.len() == j,
            forall|k: int| 0 <= k < j ==> (#[trigger] r@[k])@ == keys@[k]@,
        decreases keys@.len() - j,
    {
        r.push(keys[j].clone());
        j += 1;
    }
    r
}

} // verus!
