use vstd::prelude::*;

use crate::assoc::{assoc_view, assoc_wf, lemma_assoc_contains, lemma_assoc_push,
    lemma_assoc_remove, lemma_assoc_update};
use crate::types::{PayloadValV, PayloadValue};

verus! {

/// The key/value pairs a point carries, as an association list.
pub type PayloadList = Vec<(String, PayloadValue)>;

/// The finite map a payload list denotes.
pub open spec fn pl_view(list: Seq<(String, PayloadValue)>) -> Map<Seq<char>, PayloadValV> {
    assoc_view(list)
}

/// Finds the position of a key in a payload list.
pub fn pl_find(list: &PayloadList, key: &String) -> (r: Option<usize>)
    ensures
        match r {
            Some(i) => i < list.len() && list@[i as int].0@ == key@,
            None => forall|j: int| 0 <= j < list.len() ==> list@[j].0@ != key@,
        },
{
    let mut j: usize = 0;
    while j < list.len()
        invariant
            j <= list.len(),
            forall|k: int| 0 <= k < j ==> list@[k].0@ != key@,
        decreases list.len() - j,
    {
        let p = &list[j];
        if p.0.eq(key) {
            return Some(j);
        }
        j += 1;
    }
    None
}

/// Stores `value` under `key`, replacing any previous value of the key.
pub fn pl_set(list: &mut PayloadList, key: &String, value: &PayloadValue)
    requires
        assoc_wf(old(list)@),
    ensures
        assoc_wf(final(list)@),
        pl_view(final(list)@) == pl_view(old(list)@).insert(key@, value@),
{
    match pl_find(list, key) {
        Some(i) => {
            let mut pair = list.remove(i);
            pair.1 = value.duplicate();
            list.insert(i, pair);
            proof {
                assert(list@ =~= old(list)@.update(i as int, (pair.0, pair.1)));
                assert(list@[i as int].0@ == key@);
                lemma_assoc_update(old(list)@, i as int, list@[i as int]);
                assert(pl_view(list@) =~= pl_view(old(list)@).insert(key@, value@));
            }
        },
        None => {
            list.push((key.clone(), value.duplicate()));
            proof {
                assert(list@ =~= old(list)@.push(list@.last()));
                lemma_assoc_push(old(list)@, list@.last());
                assert(pl_view(list@) =~= pl_view(old(list)@).insert(key@, value@));
            }
        },
    }
}

/// Removes `key` and its value; absent keys are left silently.
pub fn pl_remove(list: &mut PayloadList, key: &String)
    requires
        assoc_wf(old(list)@),
    ensures
        assoc_wf(final(list)@),
        pl_view(final(list)@) == pl_view(old(list)@).remove(key@),
{
    match pl_find(list, key) {
        Some(i) => {
            proof {
                lemma_assoc_remove(old(list)@, i as int);
            }
            list.remove(i);
        },
        None => {
            proof {
                lemma_assoc_contains(list@, key@);
                assert(pl_view(list@) =~= pl_view(old(list)@).remove(key@));
            }
        },
    }
}

/// Returns a payload list with the same mathematical content, pair for pair.
pub fn pl_duplicate(list: &PayloadList) -> (r: PayloadList)
    ensures
        r@.len() == list@.len(),
        forall|i: int| 0 <= i < list@.len() ==> #[trigger] r@[i].0@ == list@[i].0@
            && r@[i].1@ == list@[i].1@,
        assoc_wf(list@) ==> assoc_wf(r@),
        pl_view(r@) == pl_view(list@),
    decreases list@.len(),
{
    let mut r: PayloadList = Vec::new();
    let mut j: usize = 0;
    while j < list.len()
        invariant
            j <= list.len(),
            r@.len() == j,
            forall|i: int| 0 <= i < j ==> #[trigger] r@[i].0@ == list@[i].0@ && r@[i].1@
                == list@[i].1@,
        decreases list.len() - j,
    {
        let p = &list[j];
        r.push((p.0.clone(), p.1.duplicate()));
        j += 1;
    }
    proof {
        if assoc_wf(list@) {
            assert(assoc_wf(r@));
        }
        lemma_pl_same_pairs_same_view(r@, list@);
    }
    r
}

/// Two lists whose pairs agree in mathematical content denote the same map.
pub proof fn lemma_pl_same_pairs_same_view(
    a: Seq<(String, PayloadValue)>,
    b: Seq<(String, PayloadValue)>,
)
    requires
        a.len() == b.len(),
        forall|i: int| 0 <= i < a.len() ==> #[trigger] a[i].0@ == b[i].0@ && a[i].1@ == b[i].1@,
    ensures
        pl_view(a) == pl_view(b),
    decreases a.len(),
{
    if a.len() > 0 {
        lemma_pl_same_pairs_same_view(a.drop_first(), b.drop_first());
        assert(pl_view(a) =~= pl_view(b));
    } else {
        assert(pl_view(a) =~= pl_view(b));
    }
}

} // verus!
