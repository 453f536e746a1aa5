use vstd::prelude::*;

use crate::assoc::{assoc_wf, lemma_assoc_contains, lemma_assoc_index};
use crate::holder::SegmentHolder;
use crate::payload::{pl_duplicate, pl_view};
use crate::segment::{clone_vector, PointData, SegView, Segment};
use crate::topk::{distinct_ids, peek_top_scores, sorted_by, topk_rel};
use crate::types::{vec_contains_id, Distance, Filter, FilterV, PayloadValV, PointId, Record,
    ScoredPoint, Score, SearchParams, SeqNum, VectorElem, MAX_DIM};

verus! {

/// The dot product of the first `n` aligned elements.
pub open spec fn dot_upto(q: Seq<VectorElem>, v: Seq<VectorElem>, n: int) -> int
    decreases n,
{
    if n <= 0 {
        0
    } else {
        dot_upto(q, v, n - 1) + q[n - 1] * v[n - 1]
    }
}

/// The squared euclidean distance of the first `n` aligned elements.
pub open spec fn sq_upto(q: Seq<VectorElem>, v: Seq<VectorElem>, n: int) -> int
    decreases n,
{
    if n <= 0 {
        0
    } else {
        sq_upto(q, v, n - 1) + (q[n - 1] - v[n - 1]) * (q[n - 1] - v[n - 1])
    }
}

/// The score a segment produces for a stored vector against a query,
/// over the aligned prefix of the two vectors.
pub open spec fn score_of(dist: Distance, q: Seq<VectorElem>, v: Seq<VectorElem>) -> int {
    let n = vstd::math::min(q.len() as int, v.len() as int);
    match dist {
        Distance::Dot => dot_upto(q, v, n),
        Distance::Euclid => sq_upto(q, v, n),
    }
}

/// Every prefix dot product stays within `n` times the largest element
/// product.
proof fn lemma_dot_bound(q: Seq<VectorElem>, v: Seq<VectorElem>, n: int)
    requires
        0 <= n <= q.len(),
        n <= v.len(),
    ensures
        -n * 0x4000000000000000 <= dot_upto(q, v, n) <= n * 0x4000000000000000,
    decreases n,
{
    if n > 0 {
        lemma_dot_bound(q, v, n - 1);
        let a = q[n - 1] as int;
        let b = v[n - 1] as int;
        assert(-0x4000000000000000 <= a * b <= 0x4000000000000000) by (nonlinear_arith)
            requires
                -0x80000000 <= a <= 0x7fffffff,
                -0x80000000 <= b <= 0x7fffffff,
        ;
        assert((n - 1) * 0x4000000000000000 + 0x4000000000000000 == n * 0x4000000000000000)
            by (nonlinear_arith);
    }
}

/// Every prefix squared distance stays within `n` times the largest
/// squared difference.
proof fn lemma_sq_bound(q: Seq<VectorElem>, v: Seq<VectorElem>, n: int)
    requires
        0 <= n <= q.len(),
        n <= v.len(),
    ensures
        0 <= sq_upto(q, v, n) <= n * 0x10000000000000000,
    decreases n,
{
    if n > 0 {
        lemma_sq_bound(q, v, n - 1);
        let d = (q[n - 1] as int) - (v[n - 1] as int);
        assert(0 <= d * d <= 0x10000000000000000) by (nonlinear_arith)
            requires
                -0x100000000 < d < 0x100000000,
        ;
        assert((n - 1) * 0x10000000000000000 + 0x10000000000000000 == n * 0x10000000000000000)
            by (nonlinear_arith);
    }
}

/// Scores one stored vector against the query under the metric.
pub fn score(dist: Distance, q: &Vec<VectorElem>, v: &Vec<VectorElem>) -> (r: Score)
    requires
        v@.len() <= MAX_DIM,
    ensures
        r == score_of(dist, q@, v@),
{
    let n = if q.len() < v.len() {
        q.len()
    } else {
        v.len()
    };
    let mut acc: i128 = 0;
    let mut k: usize = 0;
    while k < n
        invariant
            k <= n,
            n <= q@.len(),
            n <= v@.len(),
            n <= MAX_DIM,
            match dist {
                Distance::Dot => acc == dot_upto(q@, v@, k as int) && -(k as int)
                    * 0x4000000000000000 <= acc <= (k as int) * 0x4000000000000000,
                Distance::Euclid => acc == sq_upto(q@, v@, k as int) && 0 <= acc <= (k as int)
                    * 0x10000000000000000,
            },
        decreases n - k,
    {
        let a = q[k] as i64;
        let b = v[k] as i64;
        proof {
            match dist {
                Distance::Dot => {
                    lemma_dot_bound(q@, v@, k as int + 1);
                    assert((k as int) * 0x4000000000000000 <= MAX_DIM * 0x4000000000000000)
                        by (nonlinear_arith)
                        requires
                            0 <= k as int <= MAX_DIM,
                    ;
                },
                Distance::Euclid => {
                    lemma_sq_bound(q@, v@, k as int + 1);
                    assert((k as int) * 0x10000000000000000 <= MAX_DIM * 0x10000000000000000)
                        by (nonlinear_arith)
                        requires
                            0 <= k as int <= MAX_DIM,
                    ;
                },
            }
        }
        match dist {
            Distance::Dot => {
                let prod: i128 = (a as i128) * (b as i128);
                proof {
                    assert(-0x4000000000000000 <= (a as int) * (b as int) <= 0x4000000000000000)
                        by (nonlinear_arith)
                        requires
                            -0x80000000 <= a as int <= 0x7fffffff,
                            -0x80000000 <= b as int <= 0x7fffffff,
                    ;
                }
                acc = acc + prod;
            },
            Distance::Euclid => {
                let d: i128 = (a - b) as i128;
                let sq: i128 = d * d;
                proof {
                    assert(0 <= ((a as int) - (b as int)) * ((a as int) - (b as int))
                        <= 0x10000000000000000) by (nonlinear_arith)
                        requires
                            -0x100000000 < (a as int) - (b as int) < 0x100000000,
                    ;
                }
                acc = acc + sq;
            },
        }
        k += 1;
    }
    acc
}

/// Whether a point's payload passes the filter.
pub open spec fn filter_match(fo: Option<FilterV>, pl: Map<Seq<char>, PayloadValV>) -> bool {
    match fo {
        None => true,
        Some(f) => pl.contains_key(f.key) && pl[f.key] == f.value,
    }
}

/// The view of an optional borrowed filter.
pub open spec fn filter_view(filter: Option<&Filter>) -> Option<FilterV> {
    match filter {
        None => None,
        Some(f) => Some(f@),
    }
}

/// Decides whether a payload passes the filter.
fn filter_matches(filter: Option<&Filter>, payload: &Vec<(String, crate::types::PayloadValue)>) -> (r:
    bool)
    requires
        assoc_wf(payload@),
    ensures
        r == filter_match(filter_view(filter), pl_view(payload@)),
{
    match filter {
        None => true,
        Some(f) => {
            match crate::payload::pl_find(payload, &f.key) {
                None => {
                    proof {
                        lemma_assoc_contains(payload@, f.key@);
                    }
                    false
                },
                Some(i) => {
                    let r = payload[i].1.matches(&f.value);
                    proof {
                        lemma_assoc_index(payload@, i as int);
                    }
                    r
                },
            }
        },
    }
}

/// The scored points of a segment's list, in storage order: each point
/// passing the filter, scored against the query.
pub open spec fn candidates(
    pts: Seq<(PointId, PointData)>,
    dist: Distance,
    q: Seq<VectorElem>,
    fo: Option<FilterV>,
) -> Seq<ScoredPoint>
    decreases pts.len(),
{
    if pts.len() == 0 {
        Seq::empty()
    } else if filter_match(fo, pl_view(pts[0].1.payload@)) {
        seq![
            ScoredPoint { idx: pts[0].0, score: score_of(dist, q, pts[0].1.vector@) as Score },
        ] + candidates(pts.drop_first(), dist, q, fo)
    } else {
        candidates(pts.drop_first(), dist, q, fo)
    }
}


/// Whether `e` is one of the list's points, scored for the query and
/// passing the filter.
pub open spec fn candidate_from(
    pts: Seq<(PointId, PointData)>,
    dist: Distance,
    q: Seq<VectorElem>,
    fo: Option<FilterV>,
    e: ScoredPoint,
) -> bool {
    exists|i: int|
        0 <= i < pts.len() && e.idx == (#[trigger] pts[i]).0 && e.score == score_of(
            dist,
            q,
            pts[i].1.vector@,
        ) as Score && filter_match(fo, pl_view(pts[i].1.payload@))
}

/// Each candidate comes from a pair of the list, and on a well-formed
/// list the candidates carry pairwise distinct ids.
proof fn lemma_candidates(
    pts: Seq<(PointId, PointData)>,
    dist: Distance,
    q: Seq<VectorElem>,
    fo: Option<FilterV>,
)
    ensures
        forall|k: int| #![trigger candidates(pts, dist, q, fo)[k]]
            0 <= k < candidates(pts, dist, q, fo).len() ==> candidate_from(
                pts,
                dist,
                q,
                fo,
                candidates(pts, dist, q, fo)[k],
            ),
        assoc_wf(pts) ==> distinct_ids(candidates(pts, dist, q, fo)),
    decreases pts.len(),
{
    if pts.len() > 0 {
        lemma_candidates(pts.drop_first(), dist, q, fo);
        let c = candidates(pts, dist, q, fo);
        let ct = candidates(pts.drop_first(), dist, q, fo);
        assert(forall|i: int|
            0 <= i < pts.drop_first().len() ==> #[trigger] pts.drop_first()[i] == pts[i + 1]);
        assert forall|e: ScoredPoint| candidate_from(pts.drop_first(), dist, q, fo, e)
            implies candidate_from(pts, dist, q, fo, e) by {
            let i = choose|i: int|
                0 <= i < pts.drop_first().len() && e.idx == (#[trigger] pts.drop_first()[i]).0
                    && e.score == score_of(dist, q, pts.drop_first()[i].1.vector@) as Score
                    && filter_match(fo, pl_view(pts.drop_first()[i].1.payload@));
            assert(pts.drop_first()[i] == pts[i + 1]);
            assert(0 <= i + 1 < pts.len() && e.idx == (#[trigger] pts[i + 1]).0 && e.score
                == score_of(dist, q, pts[i + 1].1.vector@) as Score && filter_match(
                fo,
                pl_view(pts[i + 1].1.payload@),
            ));
        }
        if filter_match(fo, pl_view(pts[0].1.payload@)) {
            assert(c[0].idx == pts[0].0);
            assert(forall|k: int| 1 <= k < c.len() ==> #[trigger] c[k] == ct[k - 1]);
            assert forall|k: int| #![trigger candidates(pts, dist, q, fo)[k]]
                0 <= k < c.len() implies candidate_from(pts, dist, q, fo, c[k]) by {
                if k == 0 {
                    assert(0 <= 0 < pts.len() && c[0].idx == (#[trigger] pts[0]).0 && c[0].score
                        == score_of(dist, q, pts[0].1.vector@) as Score && filter_match(
                        fo,
                        pl_view(pts[0].1.payload@),
                    ));
                } else {
                    assert(c[k] == ct[k - 1]);
                    assert(candidate_from(pts.drop_first(), dist, q, fo, ct[k - 1]));
                }
            }
            if assoc_wf(pts) {
                assert(assoc_wf(pts.drop_first()));
                assert forall|a: int, b: int| 0 <= a < b < c.len() implies (#[trigger] c[a]).idx
                    != (#[trigger] c[b]).idx by {
                    if a == 0 {
                        assert(candidate_from(pts.drop_first(), dist, q, fo, ct[b - 1]));
                        let i = choose|i: int|
                            0 <= i < pts.drop_first().len() && ct[b - 1].idx == (
                            #[trigger] pts.drop_first()[i]).0 && ct[b - 1].score == score_of(
                                dist,
                                q,
                                pts.drop_first()[i].1.vector@,
                            ) as Score && filter_match(
                                fo,
                                pl_view(pts.drop_first()[i].1.payload@),
                            );
                        assert(pts[0].0@ != pts[i + 1].0@);
                    }
                }
            }
        } else {
            assert(forall|k: int| 0 <= k < c.len() ==> #[trigger] c[k] == ct[k]);
            assert forall|k: int| #![trigger candidates(pts, dist, q, fo)[k]]
                0 <= k < c.len() implies candidate_from(pts, dist, q, fo, c[k]) by {
                assert(c[k] == ct[k]);
                assert(candidate_from(pts.drop_first(), dist, q, fo, ct[k]));
            }
            if assoc_wf(pts) {
                assert(assoc_wf(pts.drop_first()));
            }
        }
    }
}


/// The set of point ids a stream of scored points carries.
pub open spec fn ids_of(s: Seq<ScoredPoint>) -> Set<PointId>
    decreases s.len(),
{
    if s.len() == 0 {
        Set::empty()
    } else {
        ids_of(s.drop_first()).insert(s[0].idx)
    }
}

/// Walks the stream in order and keeps the first occurrence of each point
/// id not yet in `seen`.
pub open spec fn dedup_first_from(s: Seq<ScoredPoint>, seen: Set<PointId>) -> Seq<ScoredPoint>
    decreases s.len(),
{
    if s.len() == 0 {
        Seq::empty()
    } else if seen.contains(s[0].idx) {
        dedup_first_from(s.drop_first(), seen)
    } else {
        seq![s[0]] + dedup_first_from(s.drop_first(), seen.insert(s[0].idx))
    }
}

/// Deduplicates a stream by point id; the first occurrence wins.
pub open spec fn dedup_first(s: Seq<ScoredPoint>) -> Seq<ScoredPoint> {
    dedup_first_from(s, Set::empty())
}

/// Appending an element adds its id to the stream's id set.
proof fn lemma_ids_of_push(s: Seq<ScoredPoint>, e: ScoredPoint)
    ensures
        ids_of(s.push(e)) == ids_of(s).insert(e.idx),
    decreases s.len(),
{
    if s.len() == 0 {
        assert(s.push(e).drop_first() =~= s);
        assert(ids_of(s.push(e)) =~= ids_of(s).insert(e.idx));
    } else {
        assert(s.push(e).drop_first() =~= s.drop_first().push(e));
        lemma_ids_of_push(s.drop_first(), e);
        assert(ids_of(s.push(e)) =~= ids_of(s).insert(e.idx));
    }
}

/// Deduplication distributes over concatenation: the tail is walked with
/// the head's ids already seen.
proof fn lemma_dedup_append(a: Seq<ScoredPoint>, b: Seq<ScoredPoint>, seen: Set<PointId>)
    ensures
        dedup_first_from(a + b, seen) == dedup_first_from(a, seen) + dedup_first_from(
            b,
            seen.union(ids_of(a)),
        ),
    decreases a.len(),
{
    if a.len() == 0 {
        assert(a + b =~= b);
        assert(seen.union(ids_of(a)) =~= seen);
        assert(dedup_first_from(a, seen) + dedup_first_from(b, seen) =~= dedup_first_from(b, seen));
    } else {
        assert((a + b).drop_first() =~= a.drop_first() + b);
        assert((a + b)[0] == a[0]);
        if seen.contains(a[0].idx) {
            lemma_dedup_append(a.drop_first(), b, seen);
            assert(seen.union(ids_of(a.drop_first())) =~= seen.union(ids_of(a)));
            assert(dedup_first_from(a + b, seen) =~= dedup_first_from(a, seen) + dedup_first_from(
                b,
                seen.union(ids_of(a)),
            ));
        } else {
            let seen1 = seen.insert(a[0].idx);
            lemma_dedup_append(a.drop_first(), b, seen1);
            assert(seen1.union(ids_of(a.drop_first())) =~= seen.union(ids_of(a)));
            assert(dedup_first_from(a + b, seen) =~= dedup_first_from(a, seen) + dedup_first_from(
                b,
                seen.union(ids_of(a)),
            ));
        }
    }
}

/// Whether some live segment holds the point with exactly this score for
/// the query, and the point passes the filter: the provenance of a hit.
pub open spec fn scored_by_some_segment(
    h: Seq<SegView>,
    dist: Distance,
    q: Seq<VectorElem>,
    fo: Option<FilterV>,
    e: ScoredPoint,
) -> bool {
    exists|si: int|
        0 <= si < h.len() && (#[trigger] h[si]).points.contains_key(e.idx) && e.score == score_of(
            dist,
            q,
            h[si].points[e.idx].vector,
        ) as Score && filter_match(fo, h[si].points[e.idx].payload)
}

/// Answers read queries against the live segment set: nearest-neighbor
/// search with fan-out, dedup and global top-k, and version-reconciled
/// point retrieval.
pub struct SimpleSegmentSearcher {
    pub distance: Distance,
}

impl SimpleSegmentSearcher {
    /// A searcher for a collection configured with the given metric.
    pub fn new(distance: Distance) -> (r: SimpleSegmentSearcher)
        ensures
            r.distance == distance,
    {
        SimpleSegmentSearcher { distance }
    }

    /// Searches one segment: every held point passing the filter is scored
    /// against the query, and the segment's best `top` come back, sorted.
    pub fn search_in_segment(
        segment: &Segment,
        vector: &Vec<VectorElem>,
        filter: Option<&Filter>,
        top: usize,
        params: Option<&SearchParams>,
        distance: Distance,
    ) -> (r: Vec<ScoredPoint>)
        requires
            segment.wf(),
        ensures
            topk_rel(
                candidates(segment.points@, distance, vector@, filter_view(filter)),
                r@,
                top as nat,
                distance,
            ),
    {
        let ghost fo = filter_view(filter);
        let ghost cand = candidates(segment.points@, distance, vector@, fo);
        let mut scored: Vec<ScoredPoint> = Vec::new();
        let mut k: usize = 0;
        proof {
            assert(segment.points@.skip(0) =~= segment.points@);
            assert(scored@ + candidates(segment.points@.skip(0), distance, vector@, fo) =~= cand);
        }
        while k < segment.points.len()
            invariant
                k <= segment.points@.len(),
                segment.wf(),
                cand == candidates(segment.points@, distance, vector@, fo),
                fo == filter_view(filter),
                cand =~= scored@ + candidates(
                    segment.points@.skip(k as int),
                    distance,
                    vector@,
                    fo,
                ),
            decreases segment.points@.len() - k,
        {
            let pair = &segment.points[k];
            proof {
                assert(segment.points@.skip(k as int)[0] == segment.points@[k as int]);
                assert(segment.points@.skip(k as int).drop_first() =~= segment.points@.skip(
                    k as int + 1,
                ));
            }
            if filter_matches(filter, &pair.1.payload) {
                let sc = score(distance, vector, &pair.1.vector);
                scored.push(ScoredPoint { idx: pair.0, score: sc });
                proof {
                    assert(scored@ + candidates(
                        segment.points@.skip(k as int + 1),
                        distance,
                        vector@,
                        fo,
                    ) =~= cand);
                }
            }
            k += 1;
        }
        proof {
            assert(segment.points@.skip(segment.points@.len() as int) =~= Seq::<
                (PointId, PointData),
            >::empty());
            assert(scored@ =~= cand);
            lemma_candidates(segment.points@, distance, vector@, fo);
        }
        peek_top_scores(&scored, top, distance)
    }

    /// Searches the whole collection: one search per segment, results
    /// concatenated, deduplicated by point id (the first occurrence wins),
    /// and reduced to the global top `top` under the metric's ordering.
    pub fn search(
        &self,
        holder: &SegmentHolder,
        vector: &Vec<VectorElem>,
        filter: Option<&Filter>,
        top: usize,
        params: Option<&SearchParams>,
    ) -> (r: Vec<ScoredPoint>)
        requires
            holder.wf(),
        ensures
            r@.len() <= top,
            distinct_ids(r@),
            sorted_by(self.distance, r@),
            forall|k: int|
                0 <= k < r@.len() ==> scored_by_some_segment(
                    holder@,
                    self.distance,
                    vector@,
                    filter_view(filter),
                    #[trigger] r@[k],
                ),
            exists|lists: Seq<Seq<ScoredPoint>>|
                {
                    &&& lists.len() == holder.segments@.len()
                    &&& (forall|si: int|
                        0 <= si < lists.len() ==> topk_rel(
                            candidates(
                                holder.segments@[si].points@,
                                self.distance,
                                vector@,
                                filter_view(filter),
                            ),
                            #[trigger] lists[si],
                            top as nat,
                            self.distance,
                        ))
                    &&& #[trigger] topk_rel(
                        dedup_first(lists.flatten()),
                        r@,
                        top as nat,
                        self.distance,
                    )
                },
    {
        let ghost fo = filter_view(filter);
        let mut union: Vec<ScoredPoint> = Vec::new();
        let mut seen: Vec<PointId> = Vec::new();
        let ghost mut lists: Seq<Seq<ScoredPoint>> = Seq::empty();
        let mut si: usize = 0;
        proof {
            assert(lists.flatten() =~= Seq::<ScoredPoint>::empty());
            assert(ids_of(lists.flatten()) =~= Set::<PointId>::empty());
        }
        while si < holder.segments.len()
            invariant
                si <= holder.segments@.len(),
                holder.wf(),
                fo == filter_view(filter),
                distinct_ids(union@),
                union@.len() == seen@.len(),
                forall|k: int| 0 <= k < union@.len() ==> (#[trigger] union@[k]).idx == seen@[k],
                forall|k: int|
                    0 <= k < union@.len() ==> scored_by_some_segment(
                        holder@,
                        self.distance,
                        vector@,
                        fo,
                        #[trigger] union@[k],
                    ),
                lists.len() == si,
                forall|k: int|
                    0 <= k < si ==> topk_rel(
                        candidates(holder.segments@[k].points@, self.distance, vector@, fo),
                        #[trigger] lists[k],
                        top as nat,
                        self.distance,
                    ),
                union@ == dedup_first(lists.flatten()),
                forall|x: PointId| #![trigger seen@.contains(x)]
                    seen@.contains(x) <==> ids_of(lists.flatten()).contains(x),
            decreases holder.segments@.len() - si,
        {
            let seg = &holder.segments[si];
            proof {
                assert(holder.segments@[si as int].wf());
            }
            let seg_res = Self::search_in_segment(seg, vector, filter, top, params, self.distance);
            let ghost cand = candidates(seg.points@, self.distance, vector@, fo);
            let ghost flat_base = lists.flatten();
            let mut e: usize = 0;
            proof {
                assert(seg_res@.take(0) =~= Seq::<ScoredPoint>::empty());
                assert(flat_base + seg_res@.take(0) =~= flat_base);
            }
            while e < seg_res.len()
                invariant
                    e <= seg_res@.len(),
                    holder.wf(),
                    si < holder.segments@.len(),
                    fo == filter_view(filter),
                    distinct_ids(union@),
                    union@.len() == seen@.len(),
                    forall|k: int| 0 <= k < union@.len() ==> (#[trigger] union@[k]).idx == seen@[k],
                    forall|k: int|
                        0 <= k < union@.len() ==> scored_by_some_segment(
                            holder@,
                            self.distance,
                            vector@,
                            fo,
                            #[trigger] union@[k],
                        ),
                    cand == candidates(
                        holder.segments@[si as int].points@,
                        self.distance,
                        vector@,
                        fo,
                    ),
                    forall|k: int| 0 <= k < seg_res@.len() ==> cand.contains(#[trigger] seg_res@[k]),
                    topk_rel(cand, seg_res@, top as nat, self.distance),
                    flat_base == lists.flatten(),
                    lists.len() == si,
                    forall|k: int|
                        0 <= k < si ==> topk_rel(
                            candidates(holder.segments@[k].points@, self.distance, vector@, fo),
                            #[trigger] lists[k],
                            top as nat,
                            self.distance,
                        ),
                    union@ == dedup_first(flat_base + seg_res@.take(e as int)),
                    forall|x: PointId| #![trigger seen@.contains(x)]
                        seen@.contains(x) <==> ids_of(flat_base + seg_res@.take(e as int)).contains(
                            x,
                        ),
                decreases seg_res@.len() - e,
            {
                let item = seg_res[e];
                proof {
                    let flat = flat_base + seg_res@.take(e as int);
                    assert(seg_res@.take(e as int + 1) =~= seg_res@.take(e as int).push(
                        seg_res@[e as int],
                    ));
                    assert(flat_base + seg_res@.take(e as int + 1) =~= flat.push(item));
                    assert(flat.push(item) =~= flat + seq![item]);
                    lemma_dedup_append(flat, seq![item], Set::empty());
                    assert(Set::<PointId>::empty().union(ids_of(flat)) =~= ids_of(flat));
                    assert(seq![item].drop_first() =~= Seq::<ScoredPoint>::empty());
                    if ids_of(flat).contains(item.idx) {
                        assert(dedup_first_from(Seq::<ScoredPoint>::empty(), ids_of(flat)) =~= Seq::<
                            ScoredPoint,
                        >::empty());
                        assert(dedup_first_from(seq![item], ids_of(flat)) =~= Seq::<
                            ScoredPoint,
                        >::empty());
                        assert(dedup_first(flat.push(item)) =~= dedup_first(flat));
                    } else {
                        assert(dedup_first_from(
                            Seq::<ScoredPoint>::empty(),
                            ids_of(flat).insert(item.idx),
                        ) =~= Seq::<ScoredPoint>::empty());
                        assert(dedup_first_from(seq![item], ids_of(flat)) =~= seq![item]);
                        assert(dedup_first(flat.push(item)) =~= dedup_first(flat) + seq![item]);
                    }
                    lemma_ids_of_push(flat, item);
                }
                if !vec_contains_id(&seen, item.idx) {
                    proof {
                        assert(union@.push(item) =~= union@ + seq![item]);
                    }
                    proof {
                        let pts = holder.segments@[si as int].points@;
                        assert(cand.contains(seg_res@[e as int]));
                        let ci = choose|ci: int| 0 <= ci < cand.len() && cand[ci] == item;
                        lemma_candidates(pts, self.distance, vector@, fo);
                        assert(cand[ci] == item);
                        assert(candidate_from(pts, self.distance, vector@, fo, item));
                        let pi = choose|pi: int|
                            0 <= pi < pts.len() && item.idx == (#[trigger] pts[pi]).0 && item.score
                                == score_of(self.distance, vector@, pts[pi].1.vector@) as Score
                                && filter_match(fo, pl_view(pts[pi].1.payload@));
                        lemma_assoc_index(pts, pi);
                        assert(holder@[si as int] == holder.segments@[si as int]@);
                        assert(scored_by_some_segment(
                            holder@,
                            self.distance,
                            vector@,
                            fo,
                            item,
                        )) by {
                            assert(holder@[si as int].points.contains_key(item.idx) && item.score
                                == score_of(
                                self.distance,
                                vector@,
                                holder@[si as int].points[item.idx].vector,
                            ) as Score && filter_match(
                                fo,
                                holder@[si as int].points[item.idx].payload,
                            ));
                        }
                        assert forall|k: int| 0 <= k < union@.len() implies (#[trigger] union@[k]).idx
                            != item.idx by {
                            assert(union@[k].idx == seen@[k]);
                            assert(seen@.contains(seen@[k]));
                        }
                    }
                    let ghost old_seen = seen@;
                    seen.push(item.idx);
                    union.push(item);
                    proof {
                        broadcast use vstd::seq_lib::lemma_seq_contains_after_push;

                        let flat = flat_base + seg_res@.take(e as int);
                        assert forall|x: PointId| #![trigger seen@.contains(x)]
                            seen@.contains(x) <==> ids_of(flat.push(item)).contains(x) by {
                            assert(seen@ == old_seen.push(item.idx));
                            assert(old_seen.push(item.idx).contains(x) <==> (item.idx == x
                                || old_seen.contains(x)));
                        }
                    }
                } else {
                    proof {
                        broadcast use vstd::seq_lib::lemma_seq_contains_after_push;

                        let flat = flat_base + seg_res@.take(e as int);
                        assert(seen@.contains(item.idx));
                        assert(ids_of(flat).contains(item.idx));
                        assert forall|x: PointId| #![trigger seen@.contains(x)]
                            seen@.contains(x) <==> ids_of(flat.push(item)).contains(x) by {}
                    }
                }
                e += 1;
            }
            proof {
                assert(seg_res@.take(seg_res@.len() as int) =~= seg_res@);
                lists.lemma_flatten_push(seg_res@);
                lists = lists.push(seg_res@);
                assert(lists.flatten() == flat_base + seg_res@);
                assert(lists[si as int] == seg_res@);
                assert(candidates(holder.segments@[si as int].points@, self.distance, vector@, fo)
                    == cand);
            }
            si += 1;
        }
        let r = peek_top_scores(&union, top, self.distance);
        proof {
            assert(lists.len() == holder.segments@.len());
            assert(union@ == dedup_first(lists.flatten()));
            assert(topk_rel(dedup_first(lists.flatten()), r@, top as nat, self.distance));
            assert(forall|k: int|
                0 <= k < lists.len() ==> topk_rel(
                    candidates(holder.segments@[k].points@, self.distance, vector@, fo),
                    #[trigger] lists[k],
                    top as nat,
                    self.distance,
                ));
            assert forall|k: int| 0 <= k < r@.len() implies scored_by_some_segment(
                holder@,
                self.distance,
                vector@,
                fo,
                #[trigger] r@[k],
            ) by {
                assert(union@.contains(r@[k]));
                let u = choose|u: int| 0 <= u < union@.len() && union@[u] == r@[k];
                assert(scored_by_some_segment(holder@, self.distance, vector@, fo, union@[u]));
            }
        }
        r
    }

    /// Retrieves the named points: for each id held anywhere, one record
    /// built from the segment with the largest version holding it, with
    /// payload and vector included as asked.
    pub fn retrieve(
        &self,
        holder: &SegmentHolder,
        points: &Vec<PointId>,
        with_payload: bool,
        with_vector: bool,
    ) -> (r: Vec<Record>)
        requires
            holder.wf(),
        ensures
            forall|k: int|
                0 <= k < r@.len() ==> record_reflects(
                    holder@,
                    #[trigger] r@[k],
                    with_payload,
                    with_vector,
                ),
            forall|k: int| 0 <= k < r@.len() ==> points@.contains((#[trigger] r@[k]).id),
            forall|a: int, b: int|
                0 <= a < b < r@.len() ==> (#[trigger] r@[a]).id != (#[trigger] r@[b]).id,
            forall|k: int|
                0 <= k < points@.len() && (exists|si: int|
                    0 <= si < holder@.len() && (#[trigger] holder@[si]).points.contains_key(
                        points@[k],
                    )) ==> exists|l: int| 0 <= l < r@.len() && (#[trigger] r@[l]).id == (
                #[trigger] points@[k]),
    {
        let mut out: Vec<Record> = Vec::new();
        let mut done: Vec<PointId> = Vec::new();
        let mut k: usize = 0;
        while k < points.len()
            invariant
                k <= points@.len(),
                holder.wf(),
                forall|l: int| 0 <= l < out@.len() ==> record_reflects(
                    holder@,
                    #[trigger] out@[l],
                    with_payload,
                    with_vector,
                ),
                forall|l: int| 0 <= l < out@.len() ==> points@.contains((#[trigger] out@[l]).id),
                forall|a: int, b: int|
                    0 <= a < b < out@.len() ==> (#[trigger] out@[a]).id != (#[trigger] out@[b]).id,
                forall|x: PointId| #![trigger done@.contains(x)]
                    done@.contains(x) <==> exists|l: int|
                        0 <= l < out@.len() && (#[trigger] out@[l]).id == x,
                forall|j: int|
                    0 <= j < k && (exists|si: int|
                        0 <= si < holder@.len() && (#[trigger] holder@[si]).points.contains_key(
                            points@[j],
                        )) ==> done@.contains(#[trigger] points@[j]),
            decreases points@.len() - k,
        {
            let id = points[k];
            proof {
                assert(points@.contains(id));
            }
            if !vec_contains_id(&done, id) {
                let mut best: Option<usize> = None;
                let mut best_version: SeqNum = 0;
                let mut si: usize = 0;
                while si < holder.segments.len()
                    invariant
                        si <= holder.segments@.len(),
                        holder.wf(),
                        match best {
                            None => forall|sj: int|
                                0 <= sj < si ==> !(#[trigger] holder@[sj]).points.contains_key(id),
                            Some(b) => b < si && si <= holder@.len()
                                && holder@[b as int].points.contains_key(id) && holder@[
                                b as int
                            ].version == best_version && forall|sj: int|
                                0 <= sj < si && (#[trigger] holder@[sj]).points.contains_key(id)
                                    ==> holder@[sj].version <= best_version,
                        },
                    decreases holder.segments@.len() - si,
                {
                    let seg = &holder.segments[si];
                    proof {
                        assert(holder@[si as int] == holder.segments@[si as int]@);
                    }
                    if seg.contains(id) {
                        let ver = seg.version();
                        match best {
                            None => {
                                best = Some(si);
                                best_version = ver;
                            },
                            Some(_) => {
                                if ver > best_version {
                                    best = Some(si);
                                    best_version = ver;
                                }
                            },
                        }
                    }
                    si += 1;
                }
                match best {
                    None => {},
                    Some(b) => {
                        let seg = &holder.segments[b];
                        proof {
                            assert(holder@[b as int] == holder.segments@[b as int]@);
                            assert(holder.segments@[b as int].wf());
                            lemma_assoc_contains(seg.points@, id);
                        }
                        let pos = seg.find_point(id).unwrap();
                        proof {
                            lemma_assoc_index(seg.points@, pos as int);
                        }
                        let pd = &seg.points[pos].1;
                        let rec = Record {
                            id,
                            payload: if with_payload {
                                Some(pl_duplicate(&pd.payload))
                            } else {
                                None
                            },
                            vector: if with_vector {
                                Some(clone_vector(&pd.vector))
                            } else {
                                None
                            },
                        };
                        proof {
                            assert(record_reflects(holder@, rec, with_payload, with_vector)) by {
                                assert(holder@[b as int].points.contains_key(rec.id)
                                    && holder@[b as int].version == best_version);
                            }
                        }
                        let ghost out0 = out@;
                        let ghost done0 = done@;
                        out.push(rec);
                        done.push(id);
                        proof {
                            broadcast use vstd::seq_lib::lemma_seq_contains_after_push;

                            assert(done@ == done0.push(id));
                            assert(out@ == out0.push(rec));
                            assert(out@.last().id == id);
                            assert forall|x: PointId| #![trigger done@.contains(x)]
                                done@.contains(x) <==> exists|l: int|
                                    0 <= l < out@.len() && (#[trigger] out@[l]).id == x by {
                                assert(done0.push(id).contains(x) <==> (id == x || done0.contains(
                                    x,
                                )));
                                if done@.contains(x) {
                                    if done0.contains(x) {
                                        let l = choose|l: int|
                                            0 <= l < out0.len() && (#[trigger] out0[l]).id == x;
                                        assert(out@[l].id == x);
                                    } else {
                                        assert(out@[out@.len() - 1].id == x);
                                    }
                                } else {
                                    if exists|l: int|
                                        0 <= l < out@.len() && (#[trigger] out@[l]).id == x {
                                        let l = choose|l: int|
                                            0 <= l < out@.len() && (#[trigger] out@[l]).id == x;
                                        if l < out0.len() {
                                            assert(out0[l].id == x);
                                            assert(done0.contains(x));
                                        }
                                    }
                                }
                            }
                            assert forall|a: int, b: int| 0 <= a < b < out@.len() implies (
                            #[trigger] out@[a]).id != (#[trigger] out@[b]).id by {
                                if b == out@.len() - 1 {
                                    assert(out@[a] == out0[a]);
                                    assert(done0.contains(out0[a].id));
                                }
                            }
                        }
                    },
                }
            }
            k += 1;
        }
        out
    }
}

/// A returned record reflects the data of a segment holding its id whose
/// version no other segment holding the id exceeds, with the payload and
/// vector present exactly as asked.
pub open spec fn record_reflects(
    h: Seq<SegView>,
    rec: Record,
    with_payload: bool,
    with_vector: bool,
) -> bool {
    exists|si: int|
        0 <= si < h.len() && (#[trigger] h[si]).points.contains_key(rec.id) && (forall|sj: int|
            0 <= sj < h.len() && (#[trigger] h[sj]).points.contains_key(rec.id) ==> h[sj].version
                <= h[si].version) && (match rec.payload {
            Some(p) => with_payload && pl_view(p@) == h[si].points[rec.id].payload,
            None => !with_payload,
        }) && (match rec.vector {
            Some(v) => with_vector && v@ == h[si].points[rec.id].vector,
            None => !with_vector,
        })
}

} // verus!
