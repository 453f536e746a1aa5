use vstd::prelude::*;

use crate::types::{Distance, ScoredPoint};

verus! {

/// Scores sorted best-first under the metric's ordering.
pub open spec fn sorted_by(dist: Distance, s: Seq<ScoredPoint>) -> bool {
    forall|i: int, j: int|
        0 <= i < j < s.len() ==> !dist.spec_better((#[trigger] s[j]).score, (#[trigger] s[i]).score)
}

/// Pairwise distinct point ids.
pub open spec fn distinct_ids(s: Seq<ScoredPoint>) -> bool {
    forall|i: int, j: int| 0 <= i < j < s.len() ==> (#[trigger] s[i]).idx != (#[trigger] s[j]).idx
}

/// Whether some element of `s` carries the id.
pub open spec fn has_id(s: Seq<ScoredPoint>, id: u64) -> bool {
    exists|k: int| 0 <= k < s.len() && (#[trigger] s[k]).idx == id
}

/// What a top-k reduction returns of its input: as many of the best-scored
/// elements as fit, sorted best-first, and closed under the ordering —
/// an input element is left out only when the buffer is full and the
/// element is no better than the worst kept one.
pub open spec fn topk_rel(
    input: Seq<ScoredPoint>,
    out: Seq<ScoredPoint>,
    top: nat,
    dist: Distance,
) -> bool {
    &&& out.len() == vstd::math::min(top as int, input.len() as int)
    &&& sorted_by(dist, out)
    &&& distinct_ids(out)
    &&& forall|k: int| 0 <= k < out.len() ==> input.contains(#[trigger] out[k])
    &&& forall|j: int|
        0 <= j < input.len() && !has_id(out, (#[trigger] input[j]).idx) ==> out.len() == top && (top
            > 0 ==> !dist.spec_better(input[j].score, out.last().score))
}

/// Reduces a stream of scored points to the global top `top` under the
/// metric's ordering, in a single pass over a bounded sorted buffer.
pub fn peek_top_scores(items: &Vec<ScoredPoint>, top: usize, dist: Distance) -> (r: Vec<
    ScoredPoint,
>)
    requires
        distinct_ids(items@),
    ensures
        topk_rel(items@, r@, top as nat, dist),
{
    let mut r: Vec<ScoredPoint> = Vec::new();
    if top == 0 {
        proof {
            assert(topk_rel(items@, r@, 0nat, dist));
        }
        return r;
    }
    let mut i: usize = 0;
    while i < items.len()
        invariant
            top > 0,
            i <= items@.len(),
            distinct_ids(items@),
            r@.len() == vstd::math::min(top as int, i as int),
            sorted_by(dist, r@),
            distinct_ids(r@),
            forall|k: int| 0 <= k < r@.len() ==> items@.take(i as int).contains(#[trigger] r@[k]),
            forall|j: int|
                0 <= j < i && !has_id(r@, (#[trigger] items@[j]).idx) ==> r@.len() == top
                    && !dist.spec_better(items@[j].score, r@.last().score),
        decreases items@.len() - i,
    {
        let e = items[i];
        let ghost r0 = r@;
        proof {
            assert(items@.take(i as int + 1) =~= items@.take(i as int).push(e));
            assert forall|x: ScoredPoint| #[trigger] items@.take(i as int + 1).contains(x) <==> (
            items@.take(i as int).contains(x) || x == e) by {
                broadcast use vstd::seq_lib::lemma_seq_contains_after_push;

                assert(items@.take(i as int + 1) == items@.take(i as int).push(e));
                assert(items@.take(i as int).push(e).contains(x) <==> (e == x || items@.take(
                    i as int,
                ).contains(x)));
            }
            assert forall|k: int| 0 <= k < r0.len() implies (#[trigger] r0[k]).idx != e.idx by {
                assert(items@.take(i as int).contains(r0[k]));
                let j = choose|j: int| 0 <= j < i && items@.take(i as int)[j] == r0[k];
                assert(items@[j] == r0[k]);
                assert(items@[j].idx != items@[i as int].idx);
            }
        }
        // Find the insert position: past every kept element not worse than e.
        let mut p: usize = 0;
        while p < r.len() && !dist.better(e.score, r[p].score)
            invariant
                p <= r@.len(),
                forall|k: int|
                    0 <= k < p ==> !dist.spec_better(e.score, (#[trigger] r@[k]).score),
                r@ == r0,
            decreases r@.len() - p,
        {
            p += 1;
        }
        r.insert(p, e);
        proof {
            assert(r@ =~= r0.insert(p as int, e));
            assert(forall|k: int| 0 <= k < p ==> #[trigger] r@[k] == r0[k]);
            assert(r@[p as int] == e);
            assert(forall|k: int| p < k < r@.len() ==> #[trigger] r@[k] == r0[k - 1]);
            assert forall|a: int, b: int| 0 <= a < b < r@.len() implies !dist.spec_better(
                (#[trigger] r@[b]).score,
                (#[trigger] r@[a]).score,
            ) by {
                if a < p as int && b == p as int {
                } else if a == p as int && b > p as int {
                    assert(r@[b] == r0[b - 1]);
                    assert(p < r0.len() ==> dist.spec_better(e.score, r0[p as int].score));
                    assert(!dist.spec_better(r0[b - 1].score, r0[p as int].score));
                } else if a < p as int && b > p as int {
                    assert(!dist.spec_better(r0[b - 1].score, r0[a].score));
                }
            }
        }
        let ghost r1 = r@;
        if r.len() > top {
            let popped = r.pop();
            proof {
                assert(r@ =~= r1.drop_last());
            }
        }
        proof {
            if r1.len() > top as nat {
                assert(r0.len() == top);
                assert(r@.len() == top);
                assert(r@ =~= r1.drop_last());
                assert(r@.last() == r1[top as int - 1]);
                assert(!dist.spec_better(r1[top as int].score, r1[top as int - 1].score));
                if p as int == top as int {
                    assert(r1[top as int - 1] == r0[top as int - 1]);
                } else {
                    assert(r1[top as int] == r0[top as int - 1]);
                }
                assert(!dist.spec_better(r0.last().score, r@.last().score));
            }
            assert forall|j: int|
                0 <= j < i as int + 1 && !has_id(r@, (#[trigger] items@[j]).idx) implies r@.len()
                == top && !dist.spec_better(items@[j].score, r@.last().score) by {
                if r1.len() <= top as nat {
                    // nothing popped: everything of r1 is kept
                    assert(r@ == r1);
                    if j == i as int {
                        assert(r1[p as int] == e);
                        assert(has_id(r@, items@[j].idx));
                    } else {
                        assert(!has_id(r0, items@[j].idx)) by {
                            if has_id(r0, items@[j].idx) {
                                let k = choose|k: int|
                                    0 <= k < r0.len() && (#[trigger] r0[k]).idx == items@[j].idx;
                                if k < p as int {
                                    assert(r1[k] == r0[k]);
                                    assert(has_id(r@, items@[j].idx));
                                } else {
                                    assert(r1[k + 1] == r0[k]);
                                    assert(has_id(r@, items@[j].idx));
                                }
                            }
                        }
                        assert(r0.len() == top);
                        assert(r1.len() == top + 1);
                    }
                } else {
                    assert(r0.len() == top);
                    assert(r@.len() == top);
                    if j == i as int {
                        assert(p as int == top as int) by {
                            if (p as int) < top as int {
                                assert(r@[p as int] == r1[p as int]);
                                assert(r1[p as int] == e);
                                assert(has_id(r@, items@[j].idx));
                            }
                        }
                        assert(!dist.spec_better(e.score, r0[top as int - 1].score));
                        assert(r@.last() == r1[top as int - 1]);
                        assert(r1[top as int - 1] == r0[top as int - 1]);
                    } else {
                        if has_id(r0, items@[j].idx) {
                            let k = choose|k: int|
                                0 <= k < r0.len() && (#[trigger] r0[k]).idx == items@[j].idx;
                            if k < p as int {
                                assert(r@[k] == r1[k] && r1[k] == r0[k]);
                                assert(has_id(r@, items@[j].idx));
                            } else if k + 1 < top as int {
                                assert(r@[k + 1] == r1[k + 1] && r1[k + 1] == r0[k]);
                                assert(has_id(r@, items@[j].idx));
                            } else {
                                // the element with this id is the old worst, now popped
                                assert(k == top as int - 1);
                                assert(items@.take(i as int).contains(r0[k]));
                                let jj = choose|jj: int|
                                    0 <= jj < i && items@.take(i as int)[jj] == r0[k];
                                assert(items@[jj] == r0[k]);
                                assert(jj == j) by {
                                    if jj != j {
                                        assert(items@[jj].idx != items@[j].idx);
                                    }
                                }
                                assert(items@[j].score == r0.last().score);
                            }
                        } else {
                            assert(!dist.spec_better(items@[j].score, r0.last().score));
                        }
                    }
                }
            }
        }
        i += 1;
    }
    proof {
        assert(items@.take(items@.len() as int) =~= items@);
    }
    r
}

} // verus!
