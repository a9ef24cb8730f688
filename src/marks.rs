use vstd::prelude::*;

verus! {

/// Number of set flags in a sequence of flags.
pub open spec fn count_marked(v: Seq<bool>) -> nat
    decreases v.len(),
{
    if v.len() == 0 {
        0
    } else {
        count_marked(v.drop_last()) + if v.last() {
            1nat
        } else {
            0nat
        }
    }
}

pub proof fn lemma_count_bound(v: Seq<bool>)
    ensures
        count_marked(v) <= v.len(),
    decreases v.len(),
{
    if v.len() > 0 {
        lemma_count_bound(v.drop_last());
    }
}

pub proof fn lemma_count_none(n: nat)
    ensures
        count_marked(Seq::new(n, |i: int| false)) == 0,
    decreases n,
{
    if n > 0 {
        let v = Seq::new(n, |i: int| false);
        assert(v.drop_last() =~= Seq::new((n - 1) as nat, |i: int| false));
        lemma_count_none((n - 1) as nat);
    }
}

pub proof fn lemma_count_mark(v: Seq<bool>, i: int)
    requires
        0 <= i < v.len(),
        !v[i],
    ensures
        count_marked(v.update(i, true)) == count_marked(v) + 1,
    decreases v.len(),
{
    let w = v.update(i, true);
    if i == v.len() - 1 {
        assert(w.drop_last() =~= v.drop_last());
    } else {
        assert(w.drop_last() =~= v.drop_last().update(i, true));
        lemma_count_mark(v.drop_last(), i);
    }
}

/// With fewer flags set than entries, some entry is unset; with all set,
/// every entry is set.
pub proof fn lemma_count_full(v: Seq<bool>)
    ensures
        count_marked(v) < v.len() ==> exists|i: int| 0 <= i < v.len() && !v[i],
        count_marked(v) == v.len() ==> forall|i: int| 0 <= i < v.len() ==> v[i],
    decreases v.len(),
{
    if v.len() > 0 {
        let w = v.drop_last();
        lemma_count_full(w);
        lemma_count_bound(w);
        if count_marked(v) < v.len() {
            if v.last() {
                let i = choose|i: int| 0 <= i < w.len() && !w[i];
                assert(!v[i]);
            } else {
                assert(!v[v.len() - 1]);
            }
        }
        if count_marked(v) == v.len() {
            assert forall|i: int| 0 <= i < v.len() implies v[i] by {
                if i < v.len() - 1 {
                    assert(v[i] == w[i]);
                }
            }
        }
    }
}

} // verus!
