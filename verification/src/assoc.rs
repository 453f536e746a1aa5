use vstd::prelude::*;

verus! {

/// An association list: a sequence of key/value pairs with pairwise
/// distinct keys (compared by their mathematical values).
pub open spec fn assoc_wf<K: View, V>(s: Seq<(K, V)>) -> bool {
    forall|i: int, j: int| 0 <= i < j < s.len() ==> s[i].0@ != s[j].0@
}

/// The finite map that an association list denotes.
pub open spec fn assoc_view<K: View, V: View>(s: Seq<(K, V)>) -> Map<K::V, V::V>
    decreases s.len(),
{
    if s.len() == 0 {
        Map::empty()
    } else {
        assoc_view(s.drop_first()).insert(s[0].0@, s[0].1@)
    }
}

/// The denoted map holds a key exactly when some pair carries it.
pub proof fn lemma_assoc_contains<K: View, V: View>(s: Seq<(K, V)>, k: K::V)
    ensures
        assoc_view(s).contains_key(k) <==> exists|i: int| 0 <= i < s.len() && s[i].0@ == k,
    decreases s.len(),
{
    if s.len() > 0 {
        lemma_assoc_contains(s.drop_first(), k);
        if s[0].0@ == k {
            assert(assoc_view(s).contains_key(k));
        } else if assoc_view(s).contains_key(k) {
            let i = choose|i: int| 0 <= i < s.drop_first().len() && s.drop_first()[i].0@ == k;
            assert(s[i + 1].0@ == k);
        } else {
            assert forall|i: int| 0 <= i < s.len() implies s[i].0@ != k by {
                if i > 0 {
                    assert(s.drop_first()[i - 1].0@ == s[i].0@);
                }
            }
        }
    }
}

/// On a well-formed list the denoted map sends each pair's key to its value.
pub proof fn lemma_assoc_index<K: View, V: View>(s: Seq<(K, V)>, i: int)
    requires
        assoc_wf(s),
        0 <= i < s.len(),
    ensures
        assoc_view(s).contains_key(s[i].0@),
        assoc_view(s)[s[i].0@] == s[i].1@,
    decreases s.len(),
{
    lemma_assoc_contains(s, s[i].0@);
    if i > 0 {
        assert(s.drop_first()[i - 1] == s[i]);
        lemma_assoc_index(s.drop_first(), i - 1);
        assert(s[0].0@ != s[i].0@);
    }
}

/// Appending a pair with a fresh key inserts it into the denoted map.
pub proof fn lemma_assoc_push<K: View, V: View>(s: Seq<(K, V)>, p: (K, V))
    requires
        forall|i: int| 0 <= i < s.len() ==> s[i].0@ != p.0@,
    ensures
        assoc_view(s.push(p)) == assoc_view(s).insert(p.0@, p.1@),
        assoc_wf(s) ==> assoc_wf(s.push(p)),
    decreases s.len(),
{
    if s.len() == 0 {
        assert(s.push(p).drop_first() =~= s);
        assert(assoc_view(s.push(p)) =~= assoc_view(s).insert(p.0@, p.1@));
    } else {
        assert(s.push(p).drop_first() =~= s.drop_first().push(p));
        lemma_assoc_push(s.drop_first(), p);
        assert(assoc_view(s.push(p)) =~= assoc_view(s).insert(p.0@, p.1@));
    }
    if assoc_wf(s) {
        assert forall|i: int, j: int| 0 <= i < j < s.push(p).len() implies s.push(p)[i].0@
            != s.push(p)[j].0@ by {
            if j < s.len() {
                assert(s.push(p)[i] == s[i] && s.push(p)[j] == s[j]);
            } else {
                assert(s.push(p)[i] == s[i] && s.push(p)[j] == p);
            }
        }
    }
}

/// Replacing the pair that carries a key updates the denoted map at it.
pub proof fn lemma_assoc_update<K: View, V: View>(s: Seq<(K, V)>, i: int, p: (K, V))
    requires
        assoc_wf(s),
        0 <= i < s.len(),
        s[i].0@ == p.0@,
    ensures
        assoc_view(s.update(i, p)) == assoc_view(s).insert(p.0@, p.1@),
        assoc_wf(s.update(i, p)),
    decreases s.len(),
{
    assert forall|x: int, y: int| 0 <= x < y < s.len() implies s.update(i, p)[x].0@ != s.update(
        i,
        p,
    )[y].0@ by {
        assert(s[x].0@ != s[y].0@);
    }
    if i == 0 {
        assert(s.update(0, p).drop_first() =~= s.drop_first());
        assert(assoc_view(s.update(0, p)) =~= assoc_view(s).insert(p.0@, p.1@));
    } else {
        assert(s.update(i, p).drop_first() =~= s.drop_first().update(i - 1, p));
        assert(s.drop_first()[i - 1] == s[i]);
        lemma_assoc_update(s.drop_first(), i - 1, p);
        assert(s[0].0@ != p.0@);
        assert(assoc_view(s.update(i, p)) =~= assoc_view(s).insert(p.0@, p.1@));
    }
}

/// Removing the pair that carries a key removes it from the denoted map.
pub proof fn lemma_assoc_remove<K: View, V: View>(s: Seq<(K, V)>, i: int)
    requires
        assoc_wf(s),
        0 <= i < s.len(),
    ensures
        assoc_view(s.remove(i)) == assoc_view(s).remove(s[i].0@),
        assoc_wf(s.remove(i)),
    decreases s.len(),
{
    assert forall|x: int, y: int| 0 <= x < y < s.remove(i).len() implies s.remove(i)[x].0@
        != s.remove(i)[y].0@ by {
        let xo = if x < i { x } else { x + 1 };
        let yo = if y < i { y } else { y + 1 };
        assert(s.remove(i)[x] == s[xo] && s.remove(i)[y] == s[yo]);
        assert(s[xo].0@ != s[yo].0@);
    }
    if i == 0 {
        assert(s.remove(0) =~= s.drop_first());
        lemma_assoc_contains(s.drop_first(), s[0].0@);
        assert forall|j: int| 0 <= j < s.drop_first().len() implies s.drop_first()[j].0@
            != s[0].0@ by {
            assert(s.drop_first()[j] == s[j + 1]);
        }
        assert(!assoc_view(s.drop_first()).contains_key(s[0].0@));
        assert(assoc_view(s.remove(0)) =~= assoc_view(s).remove(s[0].0@));
    } else {
        assert(s.remove(i).drop_first() =~= s.drop_first().remove(i - 1));
        assert(s.drop_first()[i - 1] == s[i]);
        lemma_assoc_remove(s.drop_first(), i - 1);
        assert(s[0].0@ != s[i].0@);
        assert(assoc_view(s.remove(i)) =~= assoc_view(s).remove(s[i].0@));
    }
}

} // verus!
