use crate::config::{entry_view, find_index, mark, name_marked, search_state, Ops};
use crate::graph::{
    deps_exist, deps_of, edge, find_key, has_key, keys_unique, lemma_deps_of_at, GraphModel,
};
use crate::lift::{resolve_strings, string_seq};
use crate::marks::{count_marked, lemma_count_bound, lemma_count_full, lemma_count_none};
use vstd::prelude::*;

verus! {

/// Why a task set does not form a directed acyclic graph.
#[derive(Debug)]
pub enum GraphError {
    /// A task lists itself among its dependencies.
    SelfDependency(String),
    /// A dependency (first field) of a task (second field) is not a task.
    UnknownDependency(String, String),
    /// The listed tasks could not be ordered: each of them waits on another.
    Cycle(Vec<String>),
}

/// `g` admits a ranking of names that strictly decreases along every
/// dependency edge, that is, it has no cycle.
pub open spec fn acyclic(g: GraphModel) -> bool {
    exists|rank: spec_fn(Seq<char>) -> nat| #[trigger] ranks_down(g, rank)
}

/// `rank` strictly decreases from each task to each of its dependencies.
pub open spec fn ranks_down(g: GraphModel, rank: spec_fn(Seq<char>) -> nat) -> bool {
    forall|a: Seq<char>, b: Seq<char>| #[trigger] edge(g, a, b) ==> rank(a) > rank(b)
}

/// The task set is a valid DAG: every dependency exists and there is no cycle.
pub open spec fn valid_dag(g: GraphModel) -> bool {
    deps_exist(g) && acyclic(g)
}

/// Each listed name is a task that depends directly on a listed name.
pub open spec fn cycle_witness(g: GraphModel, ms: Seq<Seq<char>>) -> bool {
    &&& ms.len() > 0
    &&& forall|i: int|
        0 <= i < ms.len() ==> has_key(g, #[trigger] ms[i]) && exists|j: int|
            0 <= j < ms.len() && edge(g, ms[i], ms[j])
}

/// Dependency `k` of task `i` names the task itself or no task.
pub open spec fn bad_edge(g: GraphModel, i: int, k: int) -> bool {
    0 <= i < g.len() && 0 <= k < g[i].1.len() && (g[i].1[k] == g[i].0 || !has_key(g, g[i].1[k]))
}

/// `(i, k)` is the first bad dependency, in task order then list order.
pub open spec fn first_bad_edge(g: GraphModel, i: int, k: int) -> bool {
    &&& bad_edge(g, i, k)
    &&& forall|a: int, b: int| 0 <= a < i && 0 <= b < g[a].1.len() ==> !#[trigger] bad_edge(g, a, b)
    &&& forall|b: int| 0 <= b < k ==> !#[trigger] bad_edge(g, i, b)
}

/// The error `e` is the one the graph `g` calls for: the first bad
/// dependency decides between a self-dependency and an unknown one; a cycle
/// is reported only when no dependency is bad.
pub open spec fn explains(g: GraphModel, e: GraphError) -> bool {
    match e {
        GraphError::SelfDependency(op) => exists|i: int, k: int|
            #[trigger] first_bad_edge(g, i, k) && g[i].1[k] == g[i].0 && op@ == g[i].0,
        GraphError::UnknownDependency(dep, op) => exists|i: int, k: int|
            #[trigger] first_bad_edge(g, i, k) && g[i].1[k] != g[i].0 && dep@ == g[i].1[k] && op@ == g[i].0,
        GraphError::Cycle(ms) => deps_exist(g) && (forall|i: int, k: int| !#[trigger] bad_edge(g, i, k))
            && cycle_witness(g, string_seq(ms@)),
    }
}

/// `order` lists every task of `g` once, each after all of its dependencies.
pub open spec fn topological(g: GraphModel, order: Seq<Seq<char>>) -> bool {
    &&& order.len() == g.len()
    &&& forall|x: int| 0 <= x < g.len() ==> order.contains(#[trigger] g[x].0)
    &&& forall|k: int| 0 <= k < order.len() ==> has_key(g, #[trigger] order[k])
    &&& order.no_duplicates()
    &&& forall|k: int, m: int|
        0 <= k < order.len() && 0 <= m < deps_of(g, order[k]).len() ==> order.take(k).contains(
            #[trigger] deps_of(g, order[k])[m],
        )
}

spec fn is_min_rank(ms: Seq<Seq<char>>, rank: spec_fn(Seq<char>) -> nat, i: int) -> bool {
    0 <= i < ms.len() && forall|j: int| 0 <= j < ms.len() ==> rank(ms[i]) <= rank(#[trigger] ms[j])
}

proof fn lemma_min_rank(ms: Seq<Seq<char>>, rank: spec_fn(Seq<char>) -> nat)
    requires
        ms.len() > 0,
    ensures
        exists|i: int| #[trigger] is_min_rank(ms, rank, i),
    decreases ms.len(),
{
    if ms.len() > 1 {
        let rest = ms.drop_last();
        lemma_min_rank(rest, rank);
        let i = choose|i: int| #[trigger] is_min_rank(rest, rank, i);
        if rank(ms.last()) < rank(ms[i]) {
            assert forall|j: int| 0 <= j < ms.len() implies rank(ms[ms.len() - 1]) <= rank(#[trigger] ms[j]) by {
                if j < ms.len() - 1 {
                    assert(ms[j] == rest[j]);
                }
            }
            assert(is_min_rank(ms, rank, ms.len() - 1));
        } else {
            assert forall|j: int| 0 <= j < ms.len() implies rank(ms[i]) <= rank(#[trigger] ms[j]) by {
                if j < ms.len() - 1 {
                    assert(ms[j] == rest[j]);
                }
            }
            assert(is_min_rank(ms, rank, i));
        }
    } else {
        assert forall|j: int| 0 <= j < ms.len() implies rank(ms[0]) <= rank(#[trigger] ms[j]) by {}
        assert(is_min_rank(ms, rank, 0));
    }
}

/// A cycle witness rules out any ranking.
pub proof fn lemma_witness_not_acyclic(g: GraphModel, ms: Seq<Seq<char>>)
    requires
        cycle_witness(g, ms),
    ensures
        !acyclic(g),
{
    if acyclic(g) {
        let rank = choose|rank: spec_fn(Seq<char>) -> nat| #[trigger] ranks_down(g, rank);
        lemma_min_rank(ms, rank);
        let i = choose|i: int| #[trigger] is_min_rank(ms, rank, i);
        assert(has_key(g, ms[i]));
        let j = choose|j: int| 0 <= j < ms.len() && edge(g, ms[i], ms[j]);
        assert(rank(ms[i]) <= rank(ms[j]));
    }
}

/// A topological order gives a ranking: the position in the order.
pub proof fn lemma_topological_acyclic(g: GraphModel, order: Seq<Seq<char>>)
    requires
        keys_unique(g),
        topological(g, order),
    ensures
        acyclic(g),
{
    let rank = |s: Seq<char>| (choose|k: int| 0 <= k < order.len() && order[k] == s) as nat;
    assert forall|a: Seq<char>, b: Seq<char>| #[trigger] edge(g, a, b) implies rank(a) > rank(b) by {
        assert(deps_of(g, a).len() > 0);
        let x = crate::graph::find_key(g, a).unwrap();
        assert(g[x].0 == a);
        assert(order.contains(g[x].0));
        let ka = choose|k: int| 0 <= k < order.len() && order[k] == a;
        let m = choose|m: int| 0 <= m < deps_of(g, a).len() && deps_of(g, a)[m] == b;
        assert(deps_of(g, order[ka])[m] == b);
        assert(order.take(ka).contains(b));
        let kb = choose|k2: int| 0 <= k2 < order.take(ka).len() && order.take(ka)[k2] == b;
        assert(order[kb] == b);
        let rb = choose|k: int| 0 <= k < order.len() && order[k] == b;
        assert(rb == kb);
    }
    assert(ranks_down(g, rank));
}

/// The task named `d` sits at one of the first `k` positions of `order`.
pub open spec fn placed_before(g: GraphModel, order: Seq<usize>, k: int, d: Seq<char>) -> bool {
    exists|k2: int| 0 <= k2 < k && #[trigger] g[order[k2] as int].0 == d
}

proof fn lemma_placed_prefix(g: GraphModel, o1: Seq<usize>, o2: Seq<usize>, k: int, d: Seq<char>)
    requires
        o1.len() <= o2.len(),
        forall|i: int| 0 <= i < o1.len() ==> o2[i] == o1[i],
        0 <= k <= o1.len(),
        placed_before(g, o1, k, d),
    ensures
        placed_before(g, o2, k, d),
{
    let k2 = choose|k2: int| 0 <= k2 < k && #[trigger] g[o1[k2] as int].0 == d;
    assert(o2[k2] == o1[k2]);
    assert(g[o2[k2] as int].0 == d);
}

/// True when every dependency of the task at `p` is flagged in `placed`.
fn deps_placed(ops: &Ops, p: usize, placed: &Vec<bool>) -> (r: bool)
    requires
        p < ops.entries@.len(),
        placed@.len() == ops.entries@.len(),
        deps_exist(ops.graph()),
        keys_unique(ops.graph()),
    ensures
        r == forall|m: int| 0 <= m < ops.graph()[p as int].1.len() ==> name_marked(ops.graph(), placed@, #[trigger] ops.graph()[p as int].1[m]),
{
    let ghost g = ops.graph();
    let deps = resolve_strings(&ops.entries[p].1.depends_on);
    assert(g[p as int] == entry_view(ops.entries@[p as int]));
    let mut m: usize = 0;
    while m < deps.len()
        invariant
            m <= deps@.len(),
            g == ops.graph(),
            p < g.len(),
            placed@.len() == g.len(),
            deps_exist(g),
            keys_unique(g),
            string_seq(deps@) == g[p as int].1,
            forall|mm: int| 0 <= mm < m ==> name_marked(g, placed@, #[trigger] g[p as int].1[mm]),
        decreases deps@.len() - m,
    {
        assert(deps@[m as int]@ == g[p as int].1[m as int]);
        assert(has_key(g, g[p as int].1[m as int]));
        let x = find_index(ops, &deps[m]).unwrap();
        if !placed[x] {
            proof {
                if name_marked(g, placed@, g[p as int].1[m as int]) {
                    let y = choose|y: int| 0 <= y < g.len() && placed@[y] && (#[trigger] g[y]).0 == g[p as int].1[m as int];
                    assert(g[y].0 == g[x as int].0);
                }
            }
            return false;
        }
        m += 1;
    }
    true
}

/// Orders the tasks so that each comes after all of its dependencies, by
/// taking, round after round, every task whose dependencies are already
/// placed. Fails on a self-dependency, an unknown dependency, or a cycle.
#[verifier::rlimit(100)]
pub fn topological_order(ops: &Ops) -> (r: Result<Vec<String>, GraphError>)
    requires
        keys_unique(ops.graph()),
    ensures
        r.is_ok() <==> valid_dag(ops.graph()),
        r matches Ok(order) ==> topological(ops.graph(), string_seq(order@)),
        r matches Err(e) ==> explains(ops.graph(), e),
{
    let ghost g = ops.graph();
    let n = ops.entries.len();
    let mut i: usize = 0;
    while i < n
        invariant
            i <= n,
            g == ops.graph(),
            n == g.len(),
            keys_unique(g),
            forall|a: int, k: int| 0 <= a < i && 0 <= k < g[a].1.len() ==> !#[trigger] bad_edge(g, a, k),
        decreases n - i,
    {
        let deps = resolve_strings(&ops.entries[i].1.depends_on);
        assert(g[i as int] == entry_view(ops.entries@[i as int]));
        proof {
            lemma_deps_of_at(g, i as int);
        }
        let mut k: usize = 0;
        while k < deps.len()
            invariant
                i < n,
                k <= deps@.len(),
                g == ops.graph(),
                n == g.len(),
                keys_unique(g),
                string_seq(deps@) == g[i as int].1,
                deps_of(g, g[i as int].0) == g[i as int].1,
                forall|a: int, kk: int| 0 <= a < i && 0 <= kk < g[a].1.len() ==> !#[trigger] bad_edge(g, a, kk),
                forall|kk: int| 0 <= kk < k ==> !#[trigger] bad_edge(g, i as int, kk),
            decreases deps@.len() - k,
        {
            assert(deps@[k as int]@ == g[i as int].1[k as int]);
            if deps[k] == ops.entries[i].0 {
                proof {
                    assert(edge(g, g[i as int].0, g[i as int].0));
                    if acyclic(g) {
                        let rank = choose|rank: spec_fn(Seq<char>) -> nat| #[trigger] ranks_down(g, rank);
                        assert(rank(g[i as int].0) > rank(g[i as int].0));
                    }
                    assert(first_bad_edge(g, i as int, k as int));
                }
                return Err(GraphError::SelfDependency(ops.entries[i].0.clone()));
            }
            if !ops.contains_key(&deps[k]) {
                proof {
                    assert(edge(g, g[i as int].0, g[i as int].1[k as int]));
                    assert(first_bad_edge(g, i as int, k as int));
                }
                return Err(GraphError::UnknownDependency(deps[k].clone(), ops.entries[i].0.clone()));
            }
            k += 1;
        }
        i += 1;
    }
    assert forall|a: int, k: int| !#[trigger] bad_edge(g, a, k) by {}
    assert forall|a: int, k: int| 0 <= a < g.len() && 0 <= k < g[a].1.len() implies has_key(g, #[trigger] g[a].1[k]) by {
        assert(!bad_edge(g, a, k));
    }
    assert(deps_exist(g));
    let mut placed: Vec<bool> = Vec::new();
    let mut z: usize = 0;
    while z < n
        invariant
            z <= n,
            placed@ == Seq::new(z as nat, |i: int| false),
        decreases n - z,
    {
        placed.push(false);
        z += 1;
        proof {
            assert(placed@ =~= Seq::new(z as nat, |i: int| false));
        }
    }
    proof {
        lemma_count_none(n as nat);
    }
    let mut order: Vec<usize> = Vec::new();
    while order.len() < n
        invariant
            g == ops.graph(),
            n == g.len(),
            keys_unique(g),
            deps_exist(g),
            forall|a: int, k: int| !#[trigger] bad_edge(g, a, k),
            search_state(n as nat, placed@, order@),
            forall|k: int, m: int|
                0 <= k < order@.len() && 0 <= m < g[order@[k] as int].1.len() ==> placed_before(g, order@, k, #[trigger] g[order@[k] as int].1[m]),
        decreases n - order@.len(),
    {
        let snapshot = placed.clone();
        assert(snapshot@ =~= placed@);
        let ghost o0 = order@;
        let olen = order.len();
        let mut p: usize = 0;
        while p < n
            invariant
                g == ops.graph(),
                n == g.len(),
                keys_unique(g),
                deps_exist(g),
                forall|a: int, k: int| !#[trigger] bad_edge(g, a, k),
                p <= n,
                olen == o0.len(),
                search_state(n as nat, snapshot@, o0),
                search_state(n as nat, placed@, order@),
                order@.len() >= olen,
                order@.subrange(0, olen as int) == o0,
                placed@ == snapshot@ || order@.len() > olen,
                forall|x: int| 0 <= x < n && snapshot@[x] ==> #[trigger] placed@[x],
                forall|x: int| p <= x < n ==> #[trigger] placed@[x] == snapshot@[x],
                forall|x: int|
                    0 <= x < p && !snapshot@[x] && !(#[trigger] placed@[x]) ==> exists|m: int|
                        0 <= m < g[x].1.len() && !name_marked(g, snapshot@, #[trigger] g[x].1[m]),
                forall|k: int, m: int|
                    0 <= k < order@.len() && 0 <= m < g[order@[k] as int].1.len() ==> placed_before(g, order@, k, #[trigger] g[order@[k] as int].1[m]),
            decreases n - p,
        {
            if !snapshot[p] {
                let ok = deps_placed(ops, p, &snapshot);
                if ok {
                    let ghost before = order@;
                    let ghost pl = placed@;
                    mark(&mut placed, &mut order, p);
                    proof {
                        assert(!pl[p as int]);
                        assert(order@ == before.push(p));
                        assert(order@.subrange(0, olen as int) =~= before.subrange(0, olen as int));
                        assert forall|k: int, m: int|
                            0 <= k < order@.len() && 0 <= m < g[order@[k] as int].1.len() implies placed_before(g, order@, k, #[trigger] g[order@[k] as int].1[m]) by {
                            if k < before.len() {
                                assert(order@[k] == before[k]);
                                assert(placed_before(g, before, k, g[before[k] as int].1[m]));
                                lemma_placed_prefix(g, before, order@, k, g[before[k] as int].1[m]);
                            } else {
                                assert(order@[k] == p);
                                assert(name_marked(g, snapshot@, g[p as int].1[m]));
                                let y = choose|y: int| 0 <= y < g.len() && snapshot@[y] && (#[trigger] g[y]).0 == g[p as int].1[m];
                                let k2 = choose|k2: int| 0 <= k2 < o0.len() && #[trigger] o0[k2] == y;
                                assert(order@[k2] == o0[k2]);
                                assert(g[order@[k2] as int].0 == g[p as int].1[m]);
                            }
                        }
                    }
                }
            }
            p += 1;
        }
        if order.len() == olen {
            // nothing could be placed: every remaining task waits on another one
            proof {
                lemma_count_full(placed@);
            }
            let mut ms: Vec<String> = Vec::new();
            let ghost mpos: Seq<int> = Seq::empty();
            let mut x: usize = 0;
            while x < n
                invariant
                    g == ops.graph(),
                    n == g.len(),
                    x <= n,
                    placed@.len() == n,
                    forall|a: int, k: int| !#[trigger] bad_edge(g, a, k),
                    ms@.len() == mpos.len(),
                    forall|j: int| 0 <= j < mpos.len() ==> 0 <= #[trigger] mpos[j] < n && !placed@[mpos[j]] && ms@[j]@ == g[mpos[j]].0,
                    forall|y: int| 0 <= y < x && !placed@[y] ==> exists|j: int| 0 <= j < mpos.len() && #[trigger] mpos[j] == y,
                decreases n - x,
            {
                let ghost mp0 = mpos;
                if !placed[x] {
                    assert(g[x as int] == entry_view(ops.entries@[x as int]));
                    ms.push(ops.entries[x].0.clone());
                    proof {
                        mpos = mpos.push(x as int);
                    }
                }
                proof {
                    assert forall|y: int| 0 <= y < x + 1 && !placed@[y] implies exists|j: int| 0 <= j < mpos.len() && #[trigger] mpos[j] == y by {
                        if y == x {
                            assert(mpos[mpos.len() - 1] == y);
                        } else {
                            let j = choose|j: int| 0 <= j < mp0.len() && #[trigger] mp0[j] == y;
                            assert(mpos[j] == y);
                        }
                    }
                }
                x += 1;
            }
            proof {
                let msv = string_seq(ms@);
                let y0 = choose|i: int| 0 <= i < placed@.len() && !placed@[i];
                assert(!placed@[y0]);
                let j0 = choose|j: int| 0 <= j < mpos.len() && #[trigger] mpos[j] == y0;
                assert(0 <= j0 < mpos.len());
                assert(msv.len() == mpos.len());
                assert(msv.len() > 0);
                assert forall|i: int| 0 <= i < msv.len() implies has_key(g, #[trigger] msv[i]) && exists|j: int|
                    0 <= j < msv.len() && edge(g, msv[i], msv[j]) by {
                    let y = mpos[i];
                    assert(msv[i] == g[y].0);
                    assert(has_key(g, g[y].0));
                    let m = choose|m: int| 0 <= m < g[y].1.len() && !name_marked(g, snapshot@, #[trigger] g[y].1[m]);
                    let d = g[y].1[m];
                    assert(has_key(g, d));
                    let yd = choose|yd: int| 0 <= yd < g.len() && (#[trigger] g[yd]).0 == d;
                    assert(!snapshot@[yd]);
                    let jd = choose|j: int| 0 <= j < mpos.len() && #[trigger] mpos[j] == yd;
                    lemma_deps_of_at(g, y);
                    assert(deps_of(g, g[y].0)[m] == d);
                    assert(edge(g, msv[i], msv[jd]));
                }
                assert(cycle_witness(g, msv));
                lemma_witness_not_acyclic(g, msv);
            }
            return Err(GraphError::Cycle(ms));
        }
        proof {
            lemma_count_bound(placed@);
        }
    }
    proof {
        lemma_count_bound(placed@);
        lemma_count_full(placed@);
    }
    let mut r: Vec<String> = Vec::new();
    let mut k: usize = 0;
    while k < n
        invariant
            k <= n,
            n == order@.len(),
            g == ops.graph(),
            n == g.len(),
            search_state(n as nat, placed@, order@),
            r@.len() == k,
            forall|q: int| 0 <= q < k ==> (#[trigger] r@[q])@ == g[order@[q] as int].0,
        decreases n - k,
    {
        let p = order[k];
        assert(g[p as int] == entry_view(ops.entries@[p as int]));
        r.push(ops.entries[p].0.clone());
        k += 1;
    }
    proof {
        let rv = string_seq(r@);
        assert forall|q: int| 0 <= q < rv.len() implies rv[q] == g[order@[q] as int].0 by {
            assert(rv[q] == r@[q]@);
        }
        assert forall|x: int| 0 <= x < g.len() implies rv.contains(#[trigger] g[x].0) by {
            assert(placed@[x]);
            let q = choose|q: int| 0 <= q < order@.len() && #[trigger] order@[q] == x;
            assert(rv[q] == g[x].0);
        }
        assert forall|q: int| 0 <= q < rv.len() implies has_key(g, #[trigger] rv[q]) by {
            assert(g[order@[q] as int].0 == rv[q]);
        }
        assert forall|k1: int, k2: int| 0 <= k1 < rv.len() && 0 <= k2 < rv.len() && k1 != k2 implies rv[k1] != rv[k2] by {
            assert(rv[k1] == g[order@[k1] as int].0 && rv[k2] == g[order@[k2] as int].0);
        }
        assert forall|q: int, m: int|
            0 <= q < rv.len() && 0 <= m < deps_of(g, rv[q]).len() implies rv.take(q).contains(
                #[trigger] deps_of(g, rv[q])[m],
            ) by {
            lemma_deps_of_at(g, order@[q] as int);
            assert(deps_of(g, rv[q])[m] == g[order@[q] as int].1[m]);
            assert(placed_before(g, order@, q, g[order@[q] as int].1[m]));
            let k2 = choose|k2: int| 0 <= k2 < q && #[trigger] g[order@[k2] as int].0 == g[order@[q] as int].1[m];
            assert(rv[k2] == g[order@[k2] as int].0);
            assert(rv.take(q)[k2] == rv[k2]);
        }
        assert(topological(g, rv));
        lemma_topological_acyclic(g, rv);
    }
    Ok(r)
}

#[verifier::external_type_specification]
#[verifier::external_body]
#[verifier::reject_recursive_types(K)]
#[verifier::reject_recursive_types(V)]
#[verifier::reject_recursive_types(S)]
pub struct ExIndexMap<K, V, S>(indexmap::IndexMap<K, V, S>);

/// The entries of a map from task name to names, in the map's order.
pub uninterp spec fn dag_map_entries(m: indexmap::IndexMap<String, Vec<String>>) -> GraphModel;

/// Relies on `indexmap::IndexMap::new`: the map is empty.
#[verifier::external_body]
fn dag_map_new() -> (r: indexmap::IndexMap<String, Vec<String>>)
    ensures
        dag_map_entries(r) == Seq::<(Seq<char>, Seq<Seq<char>>)>::empty(),
{
    indexmap::IndexMap::new()
}

/// Relies on `indexmap::IndexMap::insert`: a key already present keeps its
/// place and takes the new value; a new key goes last.
#[verifier::external_body]
fn dag_map_insert(m: &mut indexmap::IndexMap<String, Vec<String>>, key: String, value: Vec<String>)
    ensures
        match find_key(dag_map_entries(*old(m)), key@) {
            Some(i) => dag_map_entries(*final(m)) == dag_map_entries(*old(m)).update(i, (key@, string_seq(value@))),
            None => dag_map_entries(*final(m)) == dag_map_entries(*old(m)).push((key@, string_seq(value@))),
        },
{
    m.insert(key, value);
}

/// Relies on `indexmap::IndexMap::len`.
#[verifier::external_body]
fn dag_map_len(m: &indexmap::IndexMap<String, Vec<String>>) -> (r: usize)
    ensures
        r == dag_map_entries(*m).len(),
{
    m.len()
}

/// Relies on `indexmap::IndexMap::get_index`: the entry at that position,
/// if any.
#[verifier::external_body]
fn dag_map_get_index(m: &indexmap::IndexMap<String, Vec<String>>, i: usize) -> (r: Option<(&String, &Vec<String>)>)
    ensures
        i < dag_map_entries(*m).len() ==> r is Some && r.unwrap().0@ == dag_map_entries(*m)[i as int].0
            && string_seq(r.unwrap().1@) == dag_map_entries(*m)[i as int].1,
        i >= dag_map_entries(*m).len() ==> r is None,
{
    m.get_index(i)
}

/// The DAG: for each task, in reverse topological order, the tasks that
/// depend on it directly (its downstream), in declaration order.
#[derive(Debug)]
pub struct Dag {
    pub map: indexmap::IndexMap<String, Vec<String>>,
}

impl Dag {
    pub open spec fn view_entries(&self) -> GraphModel {
        dag_map_entries(self.map)
    }

    pub open spec fn keys_view(&self) -> Seq<Seq<char>> {
        self.view_entries().map_values(|e: (Seq<char>, Seq<Seq<char>>)| e.0)
    }

    /// Number of tasks.
    pub fn len(&self) -> (r: usize)
        ensures
            r == self.view_entries().len(),
    {
        dag_map_len(&self.map)
    }

    /// The task at position `i` and its downstream tasks.
    pub fn get_index(&self, i: usize) -> (r: Option<(&String, &Vec<String>)>)
        ensures
            i < self.view_entries().len() ==> r is Some && r.unwrap().0@ == self.view_entries()[i as int].0
                && string_seq(r.unwrap().1@) == self.view_entries()[i as int].1,
            i >= self.view_entries().len() ==> r is None,
    {
        dag_map_get_index(&self.map, i)
    }

    /// The task names, in the DAG's order.
    pub fn keys(&self) -> (r: Vec<String>)
        ensures
            string_seq(r@) == self.keys_view(),
    {
        let n = self.len();
        let mut r: Vec<String> = Vec::new();
        let mut i: usize = 0;
        while i < n
            invariant
                n == self.view_entries().len(),
                i <= n,
                r@.len() == i,
                forall|j: int| 0 <= j < i ==> (#[trigger] r@[j])@ == self.view_entries()[j].0,
            decreases n - i,
        {
            match self.get_index(i) {
                Some((k, _)) => r.push(k.clone()),
                None => {},
            }
            i += 1;
        }
        assert forall|j: int| 0 <= j < r@.len() implies string_seq(r@)[j] == self.keys_view()[j] by {
            assert(self.keys_view()[j] == self.view_entries()[j].0);
            assert(string_seq(r@)[j] == r@[j]@);
        }
        assert(string_seq(r@) =~= self.keys_view());
        r
    }
}

/// `s` read backwards.
pub open spec fn reversed<A>(s: Seq<A>) -> Seq<A> {
    Seq::new(s.len(), |i: int| s[s.len() - 1 - i])
}

/// Holds of the tasks that depend directly on `item`.
pub open spec fn depends_on_item(item: Seq<char>) -> spec_fn((Seq<char>, Seq<Seq<char>>)) -> bool {
    |e: (Seq<char>, Seq<Seq<char>>)| e.1.contains(item)
}

/// The names of the tasks of `g`, in order.
pub open spec fn names_of(g: GraphModel) -> Seq<Seq<char>> {
    Seq::new(g.len(), |i: int| g[i].0)
}

/// The names of the tasks of `g` that depend directly on `item`, in
/// declaration order.
pub open spec fn downstream(g: GraphModel, item: Seq<char>) -> Seq<Seq<char>> {
    names_of(g.filter(depends_on_item(item)))
}

/// Whether `s` is among `v`.
pub fn contains_string(v: &Vec<String>, s: &String) -> (r: bool)
    ensures
        r == string_seq(v@).contains(s@),
{
    let mut i: usize = 0;
    while i < v.len()
        invariant
            i <= v@.len(),
            forall|j: int| 0 <= j < i ==> (#[trigger] v@[j])@ != s@,
        decreases v@.len() - i,
    {
        if v[i] == *s {
            assert(string_seq(v@)[i as int] == s@);
            return true;
        }
        i += 1;
    }
    proof {
        if string_seq(v@).contains(s@) {
            let j = choose|j: int| 0 <= j < string_seq(v@).len() && string_seq(v@)[j] == s@;
            assert(v@[j]@ == s@);
        }
    }
    false
}

/// The tasks that depend directly on `item`, in declaration order.
fn downstream_of(ops: &Ops, item: &String) -> (r: Vec<String>)
    ensures
        string_seq(r@) == downstream(ops.graph(), item@),
{
    let ghost g = ops.graph();
    let ghost pred = depends_on_item(item@);
    let mut r: Vec<String> = Vec::new();
    let mut j: usize = 0;
    while j < ops.entries.len()
        invariant
            j <= g.len(),
            g == ops.graph(),
            pred == depends_on_item(item@),
            string_seq(r@) == names_of(g.take(j as int).filter(pred)),
        decreases g.len() - j,
    {
        let deps = resolve_strings(&ops.entries[j].1.depends_on);
        assert(g[j as int] == entry_view(ops.entries@[j as int]));
        let hit = contains_string(&deps, item);
        let ghost r0 = r@;
        if hit {
            r.push(ops.entries[j].0.clone());
        }
        proof {
            let t = g.take(j as int + 1);
            assert(t.drop_last() =~= g.take(j as int));
            assert(t.last() == g[j as int]);
            reveal(Seq::filter);
            assert(t.filter(pred) == if pred(t.last()) {
                t.drop_last().filter(pred).push(t.last())
            } else {
                t.drop_last().filter(pred)
            });
            assert(pred(t.last()) == hit);
            let f0 = t.drop_last().filter(pred);
            if hit {
                assert(t.filter(pred) == f0.push(g[j as int]));
                assert(names_of(f0.push(g[j as int])) =~= names_of(f0).push(g[j as int].0));
                assert(string_seq(r@) =~= string_seq(r0).push(ops.entries@[j as int].0@));
            } else {
                assert(t.filter(pred) == f0);
                assert(r@ == r0);
            }
            assert(string_seq(r@) =~= names_of(t.filter(pred)));
        }
        j += 1;
    }
    assert(g.take(j as int) =~= g);
    r
}

/// Builds the DAG: the tasks in reverse topological order, each with its
/// downstream tasks, so that every downstream task comes earlier. Fails as
/// `topological_order` does.
pub fn build_dag(ops: &Ops) -> (r: Result<Dag, GraphError>)
    requires
        keys_unique(ops.graph()),
    ensures
        r.is_ok() <==> valid_dag(ops.graph()),
        r matches Ok(dag) ==> topological(ops.graph(), reversed(dag.keys_view())),
        r matches Ok(dag) ==> forall|i: int|
            0 <= i < dag.view_entries().len() ==> (#[trigger] dag.view_entries()[i]).1 == downstream(
                ops.graph(),
                dag.view_entries()[i].0,
            ),
        r matches Ok(dag) ==> forall|i: int, k: int|
            0 <= i < dag.view_entries().len() && 0 <= k < dag.view_entries()[i].1.len()
                ==> dag.keys_view().take(i).contains(#[trigger] dag.view_entries()[i].1[k]),
        r matches Err(e) ==> explains(ops.graph(), e),
{
    let ghost g = ops.graph();
    let order = match topological_order(ops) {
        Ok(o) => o,
        Err(e) => {
            return Err(e);
        },
    };
    let ghost ov = string_seq(order@);
    let n = order.len();
    let mut entries: Vec<(String, Vec<String>)> = Vec::new();
    let mut t: usize = n;
    while t > 0
        invariant
            t <= n,
            n == ov.len(),
            g == ops.graph(),
            ov == string_seq(order@),
            entries@.len() == n - t,
            forall|i: int|
                0 <= i < entries@.len() ==> (#[trigger] entries@[i]).0@ == ov[n - 1 - i] && string_seq(
                    entries@[i].1@,
                ) == downstream(g, ov[n - 1 - i]),
        decreases t,
    {
        t -= 1;
        let nexts = downstream_of(ops, &order[t]);
        entries.push((order[t].clone(), nexts));
    }
    let ghost ents = entries@;
    let ghost ev = ents.map_values(|e: (String, Vec<String>)| (e.0@, string_seq(e.1@)));
    let mut map = dag_map_new();
    let mut k: usize = 0;
    while k < n
        invariant
            k <= n,
            n == ents.len(),
            n == ov.len(),
            entries@ == ents.skip(k as int),
            ev == ents.map_values(|e: (String, Vec<String>)| (e.0@, string_seq(e.1@))),
            dag_map_entries(map) == ev.take(k as int),
            ov.no_duplicates(),
            forall|i: int| 0 <= i < n ==> (#[trigger] ents[i]).0@ == ov[n - 1 - i],
        decreases n - k,
    {
        let (name, nexts) = entries.remove(0);
        assert(ents[k as int] == (name, nexts));
        proof {
            let m0 = dag_map_entries(map);
            if crate::graph::has_key(m0, name@) {
                let x = choose|x: int| 0 <= x < m0.len() && (#[trigger] m0[x]).0 == name@;
                assert(m0[x] == ev[x]);
                assert(ov[n - 1 - x] == ov[n - 1 - k]);
            }
        }
        dag_map_insert(&mut map, name, nexts);
        k += 1;
        assert(dag_map_entries(map) =~= ev.take(k as int));
        assert(entries@ =~= ents.skip(k as int));
    }
    assert(ev.take(n as int) =~= ev);
    let dag = Dag { map };
    proof {
        let ve = dag.view_entries();
        let kv = dag.keys_view();
        assert(reversed(kv) =~= ov) by {
            assert forall|i: int| 0 <= i < ov.len() implies reversed(kv)[i] == ov[i] by {
                assert(kv[n - 1 - i] == ve[n - 1 - i].0);
                assert(ents[n - 1 - i].0@ == ov[n - 1 - (n - 1 - i)]);
            }
        }
        assert forall|i: int, k: int|
            0 <= i < ve.len() && 0 <= k < ve[i].1.len() implies kv.take(i).contains(
                #[trigger] ve[i].1[k],
            ) by {
            let item = ov[n - 1 - i];
            let d = ve[i].1[k];
            assert(ve[i].1 == downstream(g, item));
            let pred = depends_on_item(item);
            let f = g.filter(pred);
            assert(d == f[k].0);
            g.lemma_filter_pred(pred, k);
            assert(f.contains(f[k]));
            g.lemma_filter_contains_rev(pred, f[k]);
            assert(g.contains(f[k]));
            let x = choose|x: int| 0 <= x < g.len() && g[x] == f[k];
            lemma_deps_of_at(g, x);
            assert(edge(g, d, item));
            assert(ov.contains(g[x].0));
            let q = choose|q: int| 0 <= q < ov.len() && ov[q] == d;
            let m = choose|m: int| 0 <= m < deps_of(g, d).len() && deps_of(g, d)[m] == item;
            assert(deps_of(g, ov[q])[m] == item);
            assert(ov.take(q).contains(item));
            let p = choose|p: int| 0 <= p < ov.take(q).len() && ov.take(q)[p] == item;
            assert(ov[p] == item);
            assert(p == n - 1 - i);
            assert(kv[n - 1 - q] == ov[q]) by {
                assert(kv[n - 1 - q] == ve[n - 1 - q].0);
                assert(ents[n - 1 - q].0@ == ov[n - 1 - (n - 1 - q)]);
            }
            assert(kv.take(i)[n - 1 - q] == d);
        }
    }
    Ok(dag)
}

} // verus!
