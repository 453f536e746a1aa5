use vstd::prelude::*;

use crate::holder::{holder_apply, holder_touches, holder_wipe};
use crate::search::record_reflects;
use crate::segment::{apply_pairs, mut_apply, seg_apply, seg_step_count, seg_step_pts,
    seg_upsert_all, seg_wipe, upsert_all_pts, MutationV, PointV, SegView};
use crate::types::{distinct_seq, PayloadValV, PointId, Record, SeqNum, UpdateError, VectorElem};
use crate::update::{payload_op_result, spec_upsert, untouched_ids};

verus! {

/// Whether some live segment holds the point.
pub open spec fn held_somewhere(h: Seq<SegView>, x: PointId) -> bool {
    exists|si: int| 0 <= si < h.len() && (#[trigger] h[si]).points.contains_key(x)
}

/// A fan-out that touched nothing leaves the point map unchanged.
pub proof fn lemma_count_zero(pts: Map<PointId, PointV>, m: MutationV, ids: Seq<PointId>)
    requires
        seg_step_count(pts, m, ids) == 0,
    ensures
        seg_step_pts(pts, m, ids) == pts,
        forall|x: PointId| ids.contains(x) ==> !pts.contains_key(x),
    decreases ids.len(),
{
    if ids.len() > 0 {
        assert(!pts.contains_key(ids[0]));
        lemma_count_zero(pts, m, ids.drop_first());
        assert forall|x: PointId| ids.contains(x) implies !pts.contains_key(x) by {
            let k = choose|k: int| 0 <= k < ids.len() && ids[k] == x;
            if k > 0 {
                assert(ids.drop_first()[k - 1] == x);
                assert(ids.drop_first().contains(x));
            }
        }
    }
}

/// Applying one operation to one segment twice is the same as applying it
/// once: the version gate absorbs the replay.
pub proof fn lemma_seg_apply_idempotent(s: SegView, op: SeqNum, ids: Seq<PointId>, m: MutationV)
    ensures
        seg_apply(seg_apply(s, op, ids, m), op, ids, m) == seg_apply(s, op, ids, m),
{
    if s.version < op {
        let c = seg_step_count(s.points, m, ids);
        if c == 0 {
            lemma_count_zero(s.points, m, ids);
            assert(seg_apply(s, op, ids, m) == s);
        }
    }
}

/// Replaying a point operation with the same sequence number leaves the
/// whole segment set identical to a single application.
pub proof fn lemma_holder_apply_idempotent(
    h: Seq<SegView>,
    op: SeqNum,
    ids: Seq<PointId>,
    m: MutationV,
)
    ensures
        holder_apply(holder_apply(h, op, ids, m), op, ids, m) == holder_apply(h, op, ids, m),
{
    let h1 = holder_apply(h, op, ids, m);
    assert forall|k: int| 0 <= k < h1.len() implies #[trigger] holder_apply(h1, op, ids, m)[k]
        == h1[k] by {
        assert(h1[k] == seg_apply(h[k], op, ids, m));
        lemma_seg_apply_idempotent(h[k], op, ids, m);
    }
    assert(holder_apply(h1, op, ids, m) =~= h1);
}

/// Replaying a payload wipe with the same sequence number leaves the whole
/// segment set identical to a single application.
pub proof fn lemma_wipe_idempotent(h: Seq<SegView>, op: SeqNum)
    ensures
        holder_wipe(holder_wipe(h, op), op) == holder_wipe(h, op),
{
    let h1 = holder_wipe(h, op);
    assert forall|k: int| 0 <= k < h1.len() implies #[trigger] holder_wipe(h1, op)[k] == h1[k] by {
        assert(h1[k] == seg_wipe(h[k], op));
    }
    assert(holder_wipe(h1, op) =~= h1);
}

/// Replaying a whole upsert with the same sequence number leaves the
/// segment set identical, provided the replay's residual segment is one
/// the operation has already reached; a replay that draws a segment the
/// operation never touched may insert the points there a second time.
pub proof fn lemma_upsert_idempotent(
    h: Seq<SegView>,
    op: SeqNum,
    ids: Seq<PointId>,
    vm: Map<PointId, Seq<VectorElem>>,
    c: int,
    c2: int,
)
    requires
        0 <= c < h.len(),
        0 <= c2 < spec_upsert(h, op, ids, vm, c).len(),
        spec_upsert(h, op, ids, vm, c)[c2].version >= op,
    ensures
        spec_upsert(spec_upsert(h, op, ids, vm, c), op, ids, vm, c2) == spec_upsert(
            h,
            op,
            ids,
            vm,
            c,
        ),
{
    let h1 = holder_apply(h, op, ids, MutationV::Upsert { vectors: vm });
    let post = spec_upsert(h, op, ids, vm, c);
    assert(post.len() == h.len());
    // Replaying the fan-out changes nothing: every segment of `post` is
    // either at version >= op, or holds none of the ids.
    assert forall|k: int| 0 <= k < post.len() implies #[trigger] seg_apply(post[k], op, ids, m_of(
        vm,
    )) == post[k] by {
        if post[k].version < op {
            // such a segment was skipped or counted zero both rounds
            if k == c {
                assert(post[k] == seg_upsert_all(h1[c], op, vm, untouched_ids(ids, h, op)));
                assert(post[k].version < op ==> post[k] == h1[c]);
            }
            assert(post[k] == h1[k]);
            assert(h1[k] == seg_apply(h[k], op, ids, m_of(vm)));
            if h[k].version >= op {
                assert(post[k].version >= op);
            } else {
                if seg_step_count(h[k].points, m_of(vm), ids) > 0 {
                    assert(post[k].version == op);
                } else {
                    lemma_count_zero(h[k].points, m_of(vm), ids);
                    assert(post[k].points == h[k].points);
                    lemma_count_zero(post[k].points, m_of(vm), ids);
                    assert(seg_apply(post[k], op, ids, m_of(vm)) == post[k]);
                }
            }
        }
    }
    let h2 = holder_apply(post, op, ids, m_of(vm));
    assert(h2 =~= post);
    assert(seg_upsert_all(h2[c2], op, vm, untouched_ids(ids, post, op)) == h2[c2]);
    assert(spec_upsert(post, op, ids, vm, c2) =~= post);
}

/// The upsert mutation as a mutation value.
pub open spec fn m_of(vm: Map<PointId, Seq<VectorElem>>) -> MutationV {
    MutationV::Upsert { vectors: vm }
}

/// Folding an upsert over the held ids preserves membership and stores the
/// aligned vector on every held target; other points are untouched.
pub proof fn lemma_upsert_fold(
    pts: Map<PointId, PointV>,
    vm: Map<PointId, Seq<VectorElem>>,
    ids: Seq<PointId>,
)
    ensures
        forall|x: PointId|
            seg_step_pts(pts, m_of(vm), ids).contains_key(x) <==> pts.contains_key(x),
        forall|x: PointId|
            ids.contains(x) && pts.contains_key(x) ==> seg_step_pts(
                pts,
                m_of(vm),
                ids,
            )[x].vector == vm[x],
        forall|x: PointId|
            !ids.contains(x) && pts.contains_key(x) ==> seg_step_pts(pts, m_of(vm), ids)[x]
                == pts[x],
    decreases ids.len(),
{
    if ids.len() > 0 {
        let id0 = ids[0];
        assert(ids.contains(id0));
        assert forall|x: PointId| ids.drop_first().contains(x) implies ids.contains(x) by {
            let k = choose|k: int| 0 <= k < ids.drop_first().len() && ids.drop_first()[k] == x;
            assert(ids[k + 1] == x);
        }
        assert forall|x: PointId| ids.contains(x) && x != id0 implies ids.drop_first().contains(
            x,
        ) by {
            let k = choose|k: int| 0 <= k < ids.len() && ids[k] == x;
            assert(k > 0);
            assert(ids.drop_first()[k - 1] == x);
        }
        if pts.contains_key(id0) {
            let pts1 = mut_apply(m_of(vm), id0, pts);
            lemma_upsert_fold(pts1, vm, ids.drop_first());
            let post = seg_step_pts(pts, m_of(vm), ids);
            assert(post == seg_step_pts(pts1, m_of(vm), ids.drop_first()));
            assert(pts1 == pts.insert(id0, PointV { vector: vm[id0], payload: pts[id0].payload }));
            assert forall|x: PointId| #![trigger post.contains_key(x)]
                post.contains_key(x) <==> pts.contains_key(x) by {
                assert(post.contains_key(x) <==> pts1.contains_key(x));
                assert(pts1.contains_key(x) <==> pts.contains_key(x));
            }
            assert forall|x: PointId| ids.contains(x) && pts.contains_key(x) implies (
            #[trigger] post[x]).vector == vm[x] by {
                if x == id0 {
                    if !ids.drop_first().contains(x) {
                        assert(post[id0] == pts1[id0]);
                    }
                } else {
                    assert(ids.drop_first().contains(x));
                    assert(pts1.contains_key(x) && pts1[x] == pts[x]);
                }
            }
            assert forall|x: PointId| !ids.contains(x) && pts.contains_key(x) implies (
            #[trigger] post[x]) == pts[x] by {
                assert(pts1[x] == pts[x]);
            }
        } else {
            lemma_upsert_fold(pts, vm, ids.drop_first());
            let post = seg_step_pts(pts, m_of(vm), ids);
            assert(post == seg_step_pts(pts, m_of(vm), ids.drop_first()));
            assert forall|x: PointId| #![trigger post.contains_key(x)]
                post.contains_key(x) <==> pts.contains_key(x) by {}
            assert forall|x: PointId| ids.contains(x) && pts.contains_key(x) implies (
            #[trigger] post[x]).vector == vm[x] by {
                assert(x != id0);
                assert(ids.drop_first().contains(x));
            }
        }
    }
}

/// Upserting a residual batch holds every batch id afterwards, with the
/// aligned vector; other points are untouched.
pub proof fn lemma_upsert_all_fold(
    pts: Map<PointId, PointV>,
    vm: Map<PointId, Seq<VectorElem>>,
    ids: Seq<PointId>,
)
    ensures
        forall|x: PointId|
            ids.contains(x) ==> upsert_all_pts(pts, vm, ids).contains_key(x) && upsert_all_pts(
                pts,
                vm,
                ids,
            )[x].vector == vm[x],
        forall|x: PointId|
            !ids.contains(x) ==> (upsert_all_pts(pts, vm, ids).contains_key(x)
                <==> pts.contains_key(x)) && (pts.contains_key(x) ==> upsert_all_pts(
                pts,
                vm,
                ids,
            )[x] == pts[x]),
    decreases ids.len(),
{
    if ids.len() > 0 {
        let id0 = ids[0];
        assert(ids.contains(id0));
        assert forall|x: PointId| ids.drop_first().contains(x) implies ids.contains(x) by {
            let k = choose|k: int| 0 <= k < ids.drop_first().len() && ids.drop_first()[k] == x;
            assert(ids[k + 1] == x);
        }
        assert forall|x: PointId| ids.contains(x) && x != id0 implies ids.drop_first().contains(
            x,
        ) by {
            let k = choose|k: int| 0 <= k < ids.len() && ids[k] == x;
            assert(k > 0);
            assert(ids.drop_first()[k - 1] == x);
        }
        let pts1 = mut_apply(m_of(vm), id0, pts);
        lemma_upsert_all_fold(pts1, vm, ids.drop_first());
    }
}

/// An id of an upsert is residual exactly when the fan-out touches it in
/// no live segment.
pub proof fn lemma_untouched_ids(ids: Seq<PointId>, h: Seq<SegView>, op: SeqNum, x: PointId)
    ensures
        untouched_ids(ids, h, op).contains(x) <==> ids.contains(x) && !holder_touches(h, op, x),
    decreases ids.len(),
{
    if ids.len() > 0 {
        lemma_untouched_ids(ids.drop_first(), h, op, x);
        let rest = untouched_ids(ids.drop_first(), h, op);
        assert forall|y: PointId| ids.drop_first().contains(y) implies ids.contains(y) by {
            let k = choose|k: int|
                0 <= k < ids.drop_first().len() && ids.drop_first()[k] == y;
            assert(ids[k + 1] == y);
        }
        if holder_touches(h, op, ids[0]) {
            if ids.contains(x) && !holder_touches(h, op, x) {
                let k = choose|k: int| 0 <= k < ids.len() && ids[k] == x;
                assert(k > 0);
                assert(ids.drop_first()[k - 1] == x);
            }
        } else {
            let u = untouched_ids(ids, h, op);
            assert(u == seq![ids[0]] + rest);
            assert(u[0] == ids[0]);
            if u.contains(x) {
                let k = choose|k: int| 0 <= k < u.len() && u[k] == x;
                if k > 0 {
                    assert(rest[k - 1] == x);
                    assert(rest.contains(x));
                }
            }
            if ids.contains(x) && !holder_touches(h, op, x) {
                let k = choose|k: int| 0 <= k < ids.len() && ids[k] == x;
                if k > 0 {
                    assert(ids.drop_first()[k - 1] == x);
                    let l = choose|l: int| 0 <= l < rest.len() && rest[l] == x;
                    assert(u[l + 1] == x);
                } else {
                    assert(u[0] == x);
                }
            }
            if rest.contains(x) {
                let l = choose|l: int| 0 <= l < rest.len() && rest[l] == x;
                assert(u[l + 1] == x);
            }
        }
    }
}

/// After an upsert on a fresh sequence number, every live segment holding
/// one of the upserted ids holds its new vector, and every upserted id
/// that either existed somewhere or went to a residual segment the fan-out
/// had not already advanced is held somewhere: a retrieval of such an id
/// therefore reads the new vector, whichever maximal-version segment it
/// picks, until a later operation is accepted.
pub proof fn lemma_upsert_then_retrieve(
    h: Seq<SegView>,
    op: SeqNum,
    ids: Seq<PointId>,
    vm: Map<PointId, Seq<VectorElem>>,
    c: int,
    id: PointId,
)
    requires
        forall|si: int| 0 <= si < h.len() ==> (#[trigger] h[si]).version < op,
        0 <= c < h.len(),
        ids.contains(id),
        vm.contains_key(id),
        holder_touches(h, op, id) || seg_step_count(h[c].points, m_of(vm), ids) == 0,
    ensures
        forall|si: int|
            0 <= si < h.len() && (#[trigger] spec_upsert(h, op, ids, vm, c)[si]).points.contains_key(
                id,
            ) ==> spec_upsert(h, op, ids, vm, c)[si].points[id].vector == vm[id],
        held_somewhere(spec_upsert(h, op, ids, vm, c), id),
{
    let m = m_of(vm);
    let h1 = holder_apply(h, op, ids, m);
    let post = spec_upsert(h, op, ids, vm, c);
    let residual = untouched_ids(ids, h, op);
    lemma_untouched_ids(ids, h, op, id);
    assert forall|si: int|
        0 <= si < h.len() && (#[trigger] post[si]).points.contains_key(id) implies post[si].points[
        id].vector == vm[id] by {
        assert(h1[si] == seg_apply(h[si], op, ids, m));
        assert(h[si].version < op);
        lemma_upsert_fold(h[si].points, vm, ids);
        if si == c {
            assert(post[si] == seg_upsert_all(h1[c], op, vm, residual));
            if h1[c].version < op && residual.len() > 0 {
                lemma_upsert_all_fold(h1[c].points, vm, residual);
                lemma_untouched_ids(ids, h, op, id);
                if !residual.contains(id) {
                    assert(post[si].points.contains_key(id) ==> h1[c].points.contains_key(id));
                }
            } else {
                assert(post[si] == h1[c]);
            }
        } else {
            assert(post[si] == h1[si]);
        }
    }
    if holder_touches(h, op, id) {
        let si = choose|si: int|
            0 <= si < h.len() && h[si].version < op && #[trigger] h[si].points.contains_key(id);
        lemma_upsert_fold(h[si].points, vm, ids);
        assert(h1[si].points.contains_key(id));
        if si == c {
            if h1[c].version < op && residual.len() > 0 {
                lemma_upsert_all_fold(h1[c].points, vm, residual);
                assert(post[c].points.contains_key(id));
            } else {
                assert(post[c] == h1[c]);
            }
            assert(post[c].points.contains_key(id));
        } else {
            assert(post[si] == h1[si]);
            assert(post[si].points.contains_key(id));
        }
        assert(held_somewhere(post, id));
    } else {
        // id is residual; the chosen segment counted nothing, so its
        // version stayed below op and the residual batch ran there.
        assert(residual.contains(id));
        assert(h1[c] == seg_apply(h[c], op, ids, m));
        assert(h1[c].version == h[c].version);
        lemma_count_zero(h[c].points, m, ids);
        assert(post[c] == seg_upsert_all(h1[c], op, vm, residual));
        lemma_upsert_all_fold(h1[c].points, vm, residual);
        assert(post[c].points.contains_key(id));
        assert(held_somewhere(post, id));
    }
}

/// A payload operation over target ids either fails naming a target id
/// that, on a fresh sequence number, no live segment holds — after the
/// held targets were written — or it succeeds, and then every target id
/// was visited in some segment.
pub proof fn lemma_payload_targets(
    h: Seq<SegView>,
    op: SeqNum,
    points: Seq<PointId>,
    r: Result<usize, UpdateError>,
    c: nat,
)
    requires
        forall|si: int| 0 <= si < h.len() ==> (#[trigger] h[si]).version < op,
        payload_op_result(r, h, op, points, c),
    ensures
        r matches Err(e) ==> e matches UpdateError::NotFound { missed_point_id } && points.contains(
            missed_point_id,
        ) && !held_somewhere(h, missed_point_id),
        r is Ok ==> forall|k: int| #![trigger points[k]]
            0 <= k < points.len() ==> held_somewhere(h, points[k]),
{
    match r {
        Ok(_) => {
            assert forall|k: int| #![trigger points[k]] 0 <= k < points.len() implies
                held_somewhere(h, points[k]) by {
                assert(holder_touches(h, op, points[k]));
                let si = choose|si: int|
                    0 <= si < h.len() && h[si].version < op
                        && #[trigger] h[si].points.contains_key(points[k]);
                assert(h[si].points.contains_key(points[k]));
            }
        },
        Err(e) => {
            let k = choose|k: int|
                0 <= k < points.len() && e->NotFound_missed_point_id == points[k]
                    && !holder_touches(h, op, points[k]) && forall|l: int|
                    0 <= l < k ==> holder_touches(h, op, #[trigger] points[l]);
            assert(points.contains(points[k]));
            assert(!held_somewhere(h, points[k])) by {
                if held_somewhere(h, points[k]) {
                    let si = choose|si: int|
                        0 <= si < h.len() && (#[trigger] h[si]).points.contains_key(points[k]);
                    assert(holder_touches(h, op, points[k]));
                }
            }
        },
    }
}

/// After an upsert of `id` with vector `vm[id]` on a fresh sequence
/// number, any record that a retrieval of `id` builds carries exactly that
/// vector: every maximal-version segment holding the id holds it.
pub proof fn lemma_upsert_record(
    h: Seq<SegView>,
    op: SeqNum,
    ids: Seq<PointId>,
    vm: Map<PointId, Seq<VectorElem>>,
    c: int,
    id: PointId,
    rec: Record,
    with_payload: bool,
)
    requires
        forall|si: int| 0 <= si < h.len() ==> (#[trigger] h[si]).version < op,
        0 <= c < h.len(),
        ids.contains(id),
        vm.contains_key(id),
        holder_touches(h, op, id) || seg_step_count(h[c].points, m_of(vm), ids) == 0,
        rec.id == id,
        record_reflects(spec_upsert(h, op, ids, vm, c), rec, with_payload, true),
    ensures
        rec.vector matches Some(v) && v@ == vm[id],
{
    lemma_upsert_then_retrieve(h, op, ids, vm, c, id);
    let post = spec_upsert(h, op, ids, vm, c);
    let si = choose|si: int|
        0 <= si < post.len() && (#[trigger] post[si]).points.contains_key(rec.id) && (forall|
            sj: int,
        |
            0 <= sj < post.len() && (#[trigger] post[sj]).points.contains_key(rec.id)
                ==> post[sj].version <= post[si].version) && (match rec.payload {
            Some(p) => with_payload && crate::payload::pl_view(p@) == post[si].points[rec.id].payload,
            None => !with_payload,
        }) && (match rec.vector {
            Some(v) => v@ == post[si].points[rec.id].vector,
            None => false,
        });
    assert(post[si].points[id].vector == vm[id]);
}

/// Folding a payload write over distinct held ids stores the pairs on
/// every held target, keeps its vector, and leaves other points untouched.
pub proof fn lemma_set_payload_fold(
    pts: Map<PointId, PointV>,
    pairs: Seq<(Seq<char>, PayloadValV)>,
    ids: Seq<PointId>,
)
    requires
        distinct_seq(ids),
    ensures
        forall|x: PointId|
            seg_step_pts(pts, MutationV::SetPayload { pairs }, ids).contains_key(x)
                <==> pts.contains_key(x),
        forall|x: PointId|
            ids.contains(x) && pts.contains_key(x) ==> seg_step_pts(
                pts,
                MutationV::SetPayload { pairs },
                ids,
            )[x] == (PointV { vector: pts[x].vector, payload: apply_pairs(pts[x].payload, pairs) }),
        forall|x: PointId|
            !ids.contains(x) && pts.contains_key(x) ==> seg_step_pts(
                pts,
                MutationV::SetPayload { pairs },
                ids,
            )[x] == pts[x],
    decreases ids.len(),
{
    let m = MutationV::SetPayload { pairs };
    if ids.len() > 0 {
        let id0 = ids[0];
        assert(ids.contains(id0));
        assert forall|x: PointId| ids.drop_first().contains(x) implies ids.contains(x) by {
            let k = choose|k: int| 0 <= k < ids.drop_first().len() && ids.drop_first()[k] == x;
            assert(ids[k + 1] == x);
        }
        assert forall|x: PointId| ids.contains(x) && x != id0 implies ids.drop_first().contains(
            x,
        ) by {
            let k = choose|k: int| 0 <= k < ids.len() && ids[k] == x;
            assert(k > 0);
            assert(ids.drop_first()[k - 1] == x);
        }
        assert(!ids.drop_first().contains(id0)) by {
            if ids.drop_first().contains(id0) {
                let k = choose|k: int|
                    0 <= k < ids.drop_first().len() && ids.drop_first()[k] == id0;
                assert(ids[k + 1] == id0);
                assert(ids[0] != ids[k + 1]);
            }
        }
        assert(distinct_seq(ids.drop_first())) by {
            assert forall|a: int, b: int|
                0 <= a < b < ids.drop_first().len() implies ids.drop_first()[a]
                != ids.drop_first()[b] by {
                assert(ids.drop_first()[a] == ids[a + 1]);
                assert(ids.drop_first()[b] == ids[b + 1]);
            }
        }
        if pts.contains_key(id0) {
            let pts1 = mut_apply(m, id0, pts);
            lemma_set_payload_fold(pts1, pairs, ids.drop_first());
            let post = seg_step_pts(pts, m, ids);
            assert(post == seg_step_pts(pts1, m, ids.drop_first()));
            assert(pts1 == pts.insert(
                id0,
                PointV { vector: pts[id0].vector, payload: apply_pairs(pts[id0].payload, pairs) },
            ));
            assert forall|x: PointId| #![trigger post.contains_key(x)]
                post.contains_key(x) <==> pts.contains_key(x) by {
                assert(post.contains_key(x) <==> pts1.contains_key(x));
                assert(pts1.contains_key(x) <==> pts.contains_key(x));
            }
            assert forall|x: PointId| ids.contains(x) && pts.contains_key(x) implies (
            #[trigger] post[x]) == (PointV {
                vector: pts[x].vector,
                payload: apply_pairs(pts[x].payload, pairs),
            }) by {
                if x == id0 {
                    assert(post[id0] == pts1[id0]);
                } else {
                    assert(ids.drop_first().contains(x));
                    assert(pts1.contains_key(x) && pts1[x] == pts[x]);
                }
            }
            assert forall|x: PointId| !ids.contains(x) && pts.contains_key(x) implies (
            #[trigger] post[x]) == pts[x] by {
                assert(pts1[x] == pts[x]);
            }
        } else {
            lemma_set_payload_fold(pts, pairs, ids.drop_first());
            let post = seg_step_pts(pts, m, ids);
            assert(post == seg_step_pts(pts, m, ids.drop_first()));
            assert forall|x: PointId| ids.contains(x) && pts.contains_key(x) implies (
            #[trigger] post[x]) == (PointV {
                vector: pts[x].vector,
                payload: apply_pairs(pts[x].payload, pairs),
            }) by {
                assert(x != id0);
                assert(ids.drop_first().contains(x));
            }
        }
    }
}

/// Work done before a missed id is not rolled back: after a payload write
/// on a fresh sequence number over distinct targets, every segment holding
/// a target id carries the written pairs on it, whether or not the
/// operation reported a missed id.
pub proof fn lemma_set_payload_partial_success(
    h: Seq<SegView>,
    op: SeqNum,
    pairs: Seq<(Seq<char>, PayloadValV)>,
    points: Seq<PointId>,
    si: int,
    id: PointId,
)
    requires
        forall|k: int| 0 <= k < h.len() ==> (#[trigger] h[k]).version < op,
        distinct_seq(points),
        0 <= si < h.len(),
        points.contains(id),
        h[si].points.contains_key(id),
    ensures
        holder_apply(h, op, points, MutationV::SetPayload { pairs })[si].points.contains_key(id),
        holder_apply(h, op, points, MutationV::SetPayload { pairs })[si].points[id] == (PointV {
            vector: h[si].points[id].vector,
            payload: apply_pairs(h[si].points[id].payload, pairs),
        }),
{
    let m = MutationV::SetPayload { pairs };
    assert(holder_apply(h, op, points, m)[si] == seg_apply(h[si], op, points, m));
    assert(h[si].version < op);
    lemma_set_payload_fold(h[si].points, pairs, points);
}

} // verus!
