use vstd::prelude::*;

verus! {

/// A task graph seen as a sequence of (task name, names of its direct
/// dependencies), in declaration order.
pub type GraphModel = Seq<(Seq<char>, Seq<Seq<char>>)>;

/// `name` is the name of a task of `g`.
pub open spec fn has_key(g: GraphModel, name: Seq<char>) -> bool {
    exists|i: int| 0 <= i < g.len() && (#[trigger] g[i]).0 == name
}

/// No two tasks of `g` share a name.
pub open spec fn keys_unique(g: GraphModel) -> bool {
    forall|i: int, j: int|
        0 <= i < g.len() && 0 <= j < g.len() && (#[trigger] g[i]).0 == (#[trigger] g[j]).0 ==> i
            == j
}

/// Every dependency named in `g` is a task of `g`.
pub open spec fn deps_exist(g: GraphModel) -> bool {
    forall|i: int, k: int|
        0 <= i < g.len() && 0 <= k < g[i].1.len() ==> has_key(g, #[trigger] g[i].1[k])
}

/// The graph is well formed: names are unique and every dependency exists.
pub open spec fn well_formed(g: GraphModel) -> bool {
    keys_unique(g) && deps_exist(g)
}

/// The first position of `name` among the tasks of `g`.
pub open spec fn find_key(g: GraphModel, name: Seq<char>) -> Option<int> {
    if has_key(g, name) {
        Some(
            choose|i: int|
                0 <= i < g.len() && (#[trigger] g[i]).0 == name && forall|j: int|
                    0 <= j < i ==> (#[trigger] g[j]).0 != name,
        )
    } else {
        None
    }
}

pub proof fn lemma_find_key(g: GraphModel, i: int)
    requires
        0 <= i < g.len(),
        keys_unique(g) || forall|j: int| 0 <= j < i ==> (#[trigger] g[j]).0 != g[i].0,
    ensures
        find_key(g, g[i].0) == Some(i),
{
    let name = g[i].0;
    assert(has_key(g, name));
    let k = choose|k: int|
        0 <= k < g.len() && (#[trigger] g[k]).0 == name && forall|j: int|
            0 <= j < k ==> (#[trigger] g[j]).0 != name;
    if k < i {
    } else if k > i {
        assert(g[i].0 == name);
    }
}

/// The direct dependencies of `name` (empty for an unknown name).
pub open spec fn deps_of(g: GraphModel, name: Seq<char>) -> Seq<Seq<char>> {
    match find_key(g, name) {
        Some(i) => g[i].1,
        None => Seq::empty(),
    }
}

/// `a` depends directly on `b`.
pub open spec fn edge(g: GraphModel, a: Seq<char>, b: Seq<char>) -> bool {
    deps_of(g, a).contains(b)
}

/// `p` is a walk along dependency edges: each entry depends directly on the
/// next one.
pub open spec fn is_walk(g: GraphModel, p: Seq<Seq<char>>) -> bool {
    p.len() >= 2 && forall|i: int| 0 <= i < p.len() - 1 ==> edge(g, #[trigger] p[i], p[i + 1])
}

/// `b` is a transitive dependency of `a` (one or more edges).
pub open spec fn depends_transitively(g: GraphModel, a: Seq<char>, b: Seq<char>) -> bool {
    exists|p: Seq<Seq<char>>| #[trigger] is_walk(g, p) && p[0] == a && p.last() == b
}

/// `b` is a transitive dependency of one of `jobs`.
pub open spec fn dependency_of_any(g: GraphModel, jobs: Seq<Seq<char>>, b: Seq<char>) -> bool {
    exists|j: int| 0 <= j < jobs.len() && depends_transitively(g, #[trigger] jobs[j], b)
}

pub proof fn lemma_deps_of_at(g: GraphModel, i: int)
    requires
        keys_unique(g),
        0 <= i < g.len(),
    ensures
        deps_of(g, g[i].0) == g[i].1,
{
    lemma_find_key(g, i);
}

pub proof fn lemma_transitive_step(g: GraphModel, a: Seq<char>, c: Seq<char>, b: Seq<char>)
    requires
        depends_transitively(g, a, c),
        edge(g, c, b),
    ensures
        depends_transitively(g, a, b),
{
    let p = choose|p: Seq<Seq<char>>| #[trigger] is_walk(g, p) && p[0] == a && p.last() == c;
    let q = p.push(b);
    assert forall|i: int| 0 <= i < q.len() - 1 implies edge(g, #[trigger] q[i], q[i + 1]) by {
        if i < p.len() - 1 {
            assert(q[i] == p[i] && q[i + 1] == p[i + 1]);
        }
    }
    assert(is_walk(g, q));
}

pub proof fn lemma_edge_transitive(g: GraphModel, a: Seq<char>, b: Seq<char>)
    requires
        edge(g, a, b),
    ensures
        depends_transitively(g, a, b),
{
    let p = seq![a, b];
    assert(is_walk(g, p));
}

} // verus!
