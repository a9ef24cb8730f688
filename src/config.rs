use crate::graph::{
    dependency_of_any, depends_transitively, deps_of, edge, find_key, has_key, is_walk,
    lemma_deps_of_at, lemma_edge_transitive, lemma_find_key, lemma_transitive_step, well_formed,
    GraphModel,
};
use crate::marks::{count_marked, lemma_count_bound, lemma_count_mark, lemma_count_none};
use crate::lift::{resolve_strings, string_seq, Lift};
use vstd::prelude::*;

verus! {

/// A declared task, as read from the configuration.
#[derive(Debug)]
pub struct Task {
    pub workdir: Option<String>,
    pub command: Option<String>,
    pub entrypoint: Option<String>,
    pub watch: Lift<String>,
    pub ignore: Lift<String>,
    /// Inline environment, in declaration order.
    pub env: Vec<(String, String)>,
    pub env_file: Lift<String>,
    pub depends_on: Lift<String>,
    /// Output redirections: (regular expression, redirection URI).
    pub pipe: Vec<(String, String)>,
    /// Colouring rules: (regular expression, colour).
    pub color: Vec<(String, String)>,
}

impl Task {
    /// A task that runs `command` and has no other setting.
    pub fn new(command: Option<String>) -> (r: Task)
        ensures
            r.command == command,
            r.depends_on.items().len() == 0,
            r.watch.items().len() == 0,
            r.ignore.items().len() == 0,
            r.env_file.items().len() == 0,
            r.workdir.is_none(),
            r.entrypoint.is_none(),
            r.env@.len() == 0,
            r.pipe@.len() == 0,
            r.color@.len() == 0,
    {
        Task {
            workdir: None,
            command,
            entrypoint: None,
            watch: Lift::Empty,
            ignore: Lift::Empty,
            env: Vec::new(),
            env_file: Lift::Empty,
            depends_on: Lift::Empty,
            pipe: Vec::new(),
            color: Vec::new(),
        }
    }

    /// A task with no dependency starts as soon as the runner does.
    pub fn is_root(&self) -> (r: bool)
        ensures
            r == (self.depends_on.items().len() == 0),
    {
        match &self.depends_on {
            Lift::More(v) => v.len() == 0,
            Lift::One(_) => false,
            Lift::Empty => true,
        }
    }

    /// The names of its direct dependencies.
    pub open spec fn deps_view(&self) -> Seq<Seq<char>> {
        string_seq(self.depends_on.items())
    }
}

/// The declared tasks by name, in declaration order.
#[derive(Debug)]
pub struct Ops {
    pub entries: Vec<(String, Task)>,
}

/// The graph of one entry of `Ops`.
pub open spec fn entry_view(e: (String, Task)) -> (Seq<char>, Seq<Seq<char>>) {
    (e.0@, e.1.deps_view())
}

impl Ops {
    pub open spec fn graph(&self) -> GraphModel {
        self.entries@.map_values(|e: (String, Task)| entry_view(e))
    }

    pub open spec fn names(&self) -> Seq<Seq<char>> {
        self.entries@.map_values(|e: (String, Task)| e.0@)
    }

    pub fn new() -> (r: Ops)
        ensures
            r.entries@.len() == 0,
    {
        Ops { entries: Vec::new() }
    }

    /// Adds a task under `name`, replacing the task already held under that
    /// name in its place, or appending it at the end.
    pub fn insert(&mut self, name: String, task: Task)
        ensures
            match find_key(old(self).graph(), name@) {
                Some(i) => final(self).entries@ == old(self).entries@.update(i, (name, task)),
                None => final(self).entries@ == old(self).entries@.push((name, task)),
            },
    {
        let found = find_index(self, &name);
        match found {
            Some(i) => {
                self.entries.set(i, (name, task));
            },
            None => {
                self.entries.push((name, task));
            },
        }
    }

    pub fn contains_key(&self, name: &String) -> (r: bool)
        ensures
            r == has_key(self.graph(), name@),
    {
        find_index(self, name).is_some()
    }

    pub fn len(&self) -> (r: usize)
        ensures
            r == self.entries@.len(),
    {
        self.entries.len()
    }
}

/// Position of the task named `name`, if any.
pub(crate) fn find_index(ops: &Ops, name: &String) -> (r: Option<usize>)
    ensures
        r.is_some() == has_key(ops.graph(), name@),
        r.is_some() ==> r.unwrap() < ops.entries@.len() && ops.graph()[r.unwrap() as int].0
            == name@,
        r.is_some() ==> find_key(ops.graph(), name@) == Some(r.unwrap() as int),
        r.is_none() ==> find_key(ops.graph(), name@).is_none(),
{
    let ghost g = ops.graph();
    let mut i: usize = 0;
    while i < ops.entries.len()
        invariant
            i <= ops.entries@.len(),
            g == ops.graph(),
            forall|j: int| 0 <= j < i ==> (#[trigger] g[j]).0 != name@,
        decreases ops.entries@.len() - i,
    {
        if ops.entries[i].0 == *name {
            proof {
                lemma_find_key(g, i as int);
            }
            return Some(i);
        }
        i += 1;
    }
    proof {
        if has_key(g, name@) {
            let k = choose|k: int| 0 <= k < g.len() && (#[trigger] g[k]).0 == name@;
            assert(g[k].0 != name@);
        }
    }
    None
}

/// Returns the direct dependencies of `job_name` (none for an unknown name).
pub fn get_dependencies(ops: &Ops, job_name: &str) -> (r: Vec<String>)
    ensures
        string_seq(r@) == deps_of(ops.graph(), job_name@),
{
    let name = job_name.to_owned();
    dependencies_of(ops, &name)
}

pub(crate) fn dependencies_of(ops: &Ops, name: &String) -> (r: Vec<String>)
    ensures
        string_seq(r@) == deps_of(ops.graph(), name@),
{
    match find_index(ops, name) {
        Some(i) => {
            let r = resolve_strings(&ops.entries[i].1.depends_on);
            proof {
                let g = ops.graph();
                assert(g[i as int] == entry_view(ops.entries@[i as int]));
            }
            r
        },
        None => Vec::new(),
    }
}

/// Some task named `name` is flagged in `visited`.
pub open spec fn name_marked(g: GraphModel, visited: Seq<bool>, name: Seq<char>) -> bool {
    exists|x: int| 0 <= x < g.len() && visited[x] && (#[trigger] g[x]).0 == name
}

/// The search state: `order` lists, without repetition, the flagged positions.
pub open spec fn search_state(n: nat, visited: Seq<bool>, order: Seq<usize>) -> bool {
    &&& visited.len() == n
    &&& order.len() == count_marked(visited)
    &&& forall|k: int| 0 <= k < order.len() ==> (#[trigger] order[k]) < n && visited[order[k] as int]
    &&& forall|x: int| 0 <= x < n && visited[x] ==> exists|k: int| 0 <= k < order.len() && #[trigger] order[k] == x
    &&& forall|k1: int, k2: int| 0 <= k1 < order.len() && 0 <= k2 < order.len() && k1 != k2 ==> #[trigger] order[k1] != #[trigger] order[k2]
}

/// Flags position `x` and queues it, unless it is already flagged.
pub(crate) fn mark(visited: &mut Vec<bool>, order: &mut Vec<usize>, x: usize)
    requires
        search_state(old(visited)@.len(), old(visited)@, old(order)@),
        x < old(visited)@.len(),
    ensures
        search_state(old(visited)@.len(), final(visited)@, final(order)@),
        final(visited)@ == old(visited)@.update(x as int, true),
        old(visited)@[x as int] ==> final(order)@ == old(order)@,
        !old(visited)@[x as int] ==> final(order)@ == old(order)@.push(x),
{
    if !visited[x] {
        proof {
            lemma_count_mark(visited@, x as int);
        }
        let ghost o = order@;
        visited.set(x, true);
        order.push(x);
        proof {
            assert forall|k1: int, k2: int| 0 <= k1 < order@.len() && 0 <= k2 < order@.len() && k1 != k2 implies #[trigger] order@[k1] != #[trigger] order@[k2] by {
                if k1 < o.len() && k2 < o.len() {
                    assert(order@[k1] == o[k1] && order@[k2] == o[k2]);
                } else if k1 < o.len() {
                    assert(order@[k1] == o[k1]);
                } else {
                    assert(order@[k2] == o[k2]);
                }
            }
            assert forall|y: int| 0 <= y < visited@.len() && visited@[y] implies exists|k: int|
                0 <= k < order@.len() && #[trigger] order@[k] == y by {
                if y == x {
                    assert(order@[o.len() as int] == y);
                } else {
                    let k = choose|k: int| 0 <= k < o.len() && #[trigger] o[k] == y;
                    assert(order@[k] == y);
                }
            }
        }
    } else {
        proof {
            assert(visited@.update(x as int, true) =~= visited@);
        }
    }
}

/// Returns every transitive dependency of the given jobs, each once.
#[verifier::rlimit(60)]
pub fn get_all_dependencies(ops: &Ops, jobs: &[String]) -> (r: Vec<String>)
    requires
        well_formed(ops.graph()),
    ensures
        forall|b: Seq<char>|
            (exists|k: int| 0 <= k < r@.len() && (#[trigger] r@[k])@ == b) <==> dependency_of_any(
                ops.graph(),
                string_seq(jobs@),
                b,
            ),
        string_seq(r@).no_duplicates(),
{
    let ghost g = ops.graph();
    let ghost js = string_seq(jobs@);
    let n = ops.entries.len();
    let mut visited: Vec<bool> = Vec::new();
    let mut z: usize = 0;
    while z < n
        invariant
            z <= n,
            visited@ == Seq::new(z as nat, |i: int| false),
        decreases n - z,
    {
        visited.push(false);
        z += 1;
        proof {
            assert(visited@ =~= Seq::new(z as nat, |i: int| false));
        }
    }
    proof {
        lemma_count_none(n as nat);
    }
    let mut order: Vec<usize> = Vec::new();
    // seed with the direct dependencies of the jobs
    let mut j: usize = 0;
    while j < jobs.len()
        invariant
            j <= jobs@.len(),
            g == ops.graph(),
            js == string_seq(jobs@),
            well_formed(g),
            n == g.len(),
            search_state(n as nat, visited@, order@),
            forall|k: int|
                0 <= k < order@.len() ==> dependency_of_any(g, js, (#[trigger] g[order@[k] as int]).0),
            forall|jj: int, m: int|
                0 <= jj < j && 0 <= m < deps_of(g, js[jj]).len() ==> name_marked(
                    g,
                    visited@,
                    #[trigger] deps_of(g, js[jj])[m],
                ),
        decreases jobs@.len() - j,
    {
        let deps = dependencies_of(ops, &jobs[j]);
        let mut m: usize = 0;
        while m < deps.len()
            invariant
                j < jobs@.len(),
                m <= deps@.len(),
                g == ops.graph(),
                js == string_seq(jobs@),
                well_formed(g),
                n == g.len(),
                string_seq(deps@) == deps_of(g, js[j as int]),
                search_state(n as nat, visited@, order@),
                forall|k: int|
                    0 <= k < order@.len() ==> dependency_of_any(g, js, (#[trigger] g[order@[k] as int]).0),
                forall|jj: int, mm: int|
                    0 <= jj < j && 0 <= mm < deps_of(g, js[jj]).len() ==> name_marked(
                        g,
                        visited@,
                        #[trigger] deps_of(g, js[jj])[mm],
                    ),
                forall|mm: int|
                    0 <= mm < m ==> name_marked(g, visited@, #[trigger] deps_of(g, js[j as int])[mm]),
            decreases deps@.len() - m,
        {
            let ghost d = deps@[m as int]@;
            assert(d == deps_of(g, js[j as int])[m as int]);
            proof {
                // d is a direct dependency of a job, hence a task of the graph
                lemma_deps_exist_of(g, js[j as int], m as int);
            }
            let x = find_index(ops, &deps[m]).unwrap();
            let ghost before = visited@;
            mark(&mut visited, &mut order, x);
            proof {
                assert(js[j as int] == jobs@[j as int]@);
                lemma_edge_transitive(g, js[j as int], d);
                assert(g[x as int].0 == d);
                assert(dependency_of_any(g, js, d));
                assert(visited@[x as int]);
                assert forall|jj: int, mm: int|
                    0 <= jj < j && 0 <= mm < deps_of(g, js[jj]).len() implies name_marked(
                    g,
                    visited@,
                    #[trigger] deps_of(g, js[jj])[mm],
                ) by {
                    let y = choose|y: int|
                        0 <= y < g.len() && before[y] && (#[trigger] g[y]).0 == deps_of(g, js[jj])[mm];
                    assert(visited@[y]);
                }
                assert forall|mm: int| 0 <= mm < m + 1 implies name_marked(
                    g,
                    visited@,
                    #[trigger] deps_of(g, js[j as int])[mm],
                ) by {
                    if mm < m {
                        let y = choose|y: int|
                            0 <= y < g.len() && before[y] && (#[trigger] g[y]).0 == deps_of(
                                g,
                                js[j as int],
                            )[mm];
                        assert(visited@[y]);
                    }
                }
            }
            m += 1;
        }
        j += 1;
    }
    // expand queued positions until nothing new appears
    let mut i: usize = 0;
    while i < order.len()
        invariant
            i <= order@.len(),
            g == ops.graph(),
            js == string_seq(jobs@),
            well_formed(g),
            n == g.len(),
            search_state(n as nat, visited@, order@),
            forall|k: int|
                0 <= k < order@.len() ==> dependency_of_any(g, js, (#[trigger] g[order@[k] as int]).0),
            forall|jj: int, m: int|
                0 <= jj < js.len() && 0 <= m < deps_of(g, js[jj]).len() ==> name_marked(
                    g,
                    visited@,
                    #[trigger] deps_of(g, js[jj])[m],
                ),
            forall|k: int, m: int|
                0 <= k < i && 0 <= m < g[order@[k] as int].1.len() ==> name_marked(
                    g,
                    visited@,
                    #[trigger] g[order@[k] as int].1[m],
                ),
        decreases n - i,
    {
        proof {
            lemma_count_bound(visited@);
        }
        let p = order[i];
        let deps = resolve_strings(&ops.entries[p].1.depends_on);
        let ghost src = g[p as int].0;
        assert(g[p as int] == entry_view(ops.entries@[p as int]));
        assert(string_seq(deps@) == g[p as int].1);
        let mut m: usize = 0;
        while m < deps.len()
            invariant
                i < order@.len(),
                p == order@[i as int],
                p < n,
                m <= deps@.len(),
                g == ops.graph(),
                js == string_seq(jobs@),
                well_formed(g),
                n == g.len(),
                src == g[p as int].0,
                string_seq(deps@) == g[p as int].1,
                search_state(n as nat, visited@, order@),
                forall|k: int|
                    0 <= k < order@.len() ==> dependency_of_any(g, js, (#[trigger] g[order@[k] as int]).0),
                forall|jj: int, mm: int|
                    0 <= jj < js.len() && 0 <= mm < deps_of(g, js[jj]).len() ==> name_marked(
                        g,
                        visited@,
                        #[trigger] deps_of(g, js[jj])[mm],
                    ),
                forall|k: int, mm: int|
                    0 <= k < i && 0 <= mm < g[order@[k] as int].1.len() ==> name_marked(
                        g,
                        visited@,
                        #[trigger] g[order@[k] as int].1[mm],
                    ),
                forall|mm: int| 0 <= mm < m ==> name_marked(g, visited@, #[trigger] g[p as int].1[mm]),
            decreases deps@.len() - m,
        {
            let ghost d = deps@[m as int]@;
            assert(d == g[p as int].1[m as int]);
            let x = find_index(ops, &deps[m]).unwrap();
            let ghost before = visited@;
            let ghost obefore = order@;
            mark(&mut visited, &mut order, x);
            proof {
                assert(order@[i as int] == obefore[i as int]);
                lemma_deps_of_at(g, p as int);
                assert(edge(g, src, d));
                assert(dependency_of_any(g, js, src));
                let jj = choose|jj: int| 0 <= jj < js.len() && depends_transitively(g, #[trigger] js[jj], src);
                lemma_transitive_step(g, js[jj], src, d);
                assert(g[x as int].0 == d);
                assert forall|k: int| 0 <= k < order@.len() implies dependency_of_any(g, js, (#[trigger] g[order@[k] as int]).0) by {
                    if k < obefore.len() {
                        assert(order@[k] == obefore[k]);
                    } else {
                        assert(depends_transitively(g, js[jj], g[order@[k] as int].0));
                    }
                }
                assert forall|j2: int, mm: int|
                    0 <= j2 < js.len() && 0 <= mm < deps_of(g, js[j2]).len() implies name_marked(
                    g,
                    visited@,
                    #[trigger] deps_of(g, js[j2])[mm],
                ) by {
                    let y = choose|y: int|
                        0 <= y < g.len() && before[y] && (#[trigger] g[y]).0 == deps_of(g, js[j2])[mm];
                    assert(visited@[y]);
                }
                assert forall|k: int, mm: int|
                    0 <= k < i && 0 <= mm < g[order@[k] as int].1.len() implies name_marked(
                    g,
                    visited@,
                    #[trigger] g[order@[k] as int].1[mm],
                ) by {
                    assert(order@[k] == obefore[k]);
                    let y = choose|y: int|
                        0 <= y < g.len() && before[y] && (#[trigger] g[y]).0 == g[obefore[k] as int].1[mm];
                    assert(visited@[y]);
                }
                assert forall|mm: int| 0 <= mm < m + 1 implies name_marked(
                    g,
                    visited@,
                    #[trigger] g[p as int].1[mm],
                ) by {
                    if mm < m {
                        let y = choose|y: int|
                            0 <= y < g.len() && before[y] && (#[trigger] g[y]).0 == g[p as int].1[mm];
                        assert(visited@[y]);
                    }
                }
            }
            m += 1;
        }
        i += 1;
    }
    // collect the names
    let mut r: Vec<String> = Vec::new();
    let mut k: usize = 0;
    while k < order.len()
        invariant
            k <= order@.len(),
            g == ops.graph(),
            n == g.len(),
            search_state(n as nat, visited@, order@),
            well_formed(g),
            r@.len() == k,
            forall|q: int| 0 <= q < k ==> (#[trigger] r@[q])@ == g[order@[q] as int].0,
        decreases order@.len() - k,
    {
        let p = order[k];
        assert(g[p as int] == entry_view(ops.entries@[p as int]));
        r.push(ops.entries[p].0.clone());
        k += 1;
    }
    proof {
        assert forall|q1: int, q2: int| 0 <= q1 < r@.len() && 0 <= q2 < r@.len() && q1 != q2 implies string_seq(r@)[q1] != string_seq(r@)[q2] by {
            assert(string_seq(r@)[q1] == g[order@[q1] as int].0);
            assert(string_seq(r@)[q2] == g[order@[q2] as int].0);
            assert(order@[q1] != order@[q2]);
        }
        assert forall|b: Seq<char>|
            (exists|q: int| 0 <= q < r@.len() && (#[trigger] r@[q])@ == b) <==> dependency_of_any(
                g,
                js,
                b,
            ) by {
            if exists|q: int| 0 <= q < r@.len() && (#[trigger] r@[q])@ == b {
                let q = choose|q: int| 0 <= q < r@.len() && (#[trigger] r@[q])@ == b;
                assert(g[order@[q] as int].0 == b);
            }
            if dependency_of_any(g, js, b) {
                let jj = choose|jj: int| 0 <= jj < js.len() && depends_transitively(g, #[trigger] js[jj], b);
                let w = choose|w: Seq<Seq<char>>| #[trigger] is_walk(g, w) && w[0] == js[jj] && w.last() == b;
                lemma_walk_marked(g, js, jj, w, visited@, order@, (w.len() - 1) as int);
                let y = choose|y: int| 0 <= y < g.len() && visited@[y] && (#[trigger] g[y]).0 == b;
                let q = choose|q: int| 0 <= q < order@.len() && #[trigger] order@[q] == y;
                assert(r@[q]@ == b);
            }
        }
    }
    r
}

proof fn lemma_deps_exist_of(g: GraphModel, name: Seq<char>, m: int)
    requires
        well_formed(g),
        0 <= m < deps_of(g, name).len(),
    ensures
        has_key(g, deps_of(g, name)[m]),
{
    let i = find_key(g, name).unwrap();
    assert(g[i].1[m] == deps_of(g, name)[m]);
}

/// Along a walk that starts at a job, every later entry is flagged once the
/// search has expanded every queued position.
proof fn lemma_walk_marked(
    g: GraphModel,
    js: Seq<Seq<char>>,
    jj: int,
    w: Seq<Seq<char>>,
    visited: Seq<bool>,
    order: Seq<usize>,
    t: int,
)
    requires
        well_formed(g),
        0 <= jj < js.len(),
        is_walk(g, w),
        w[0] == js[jj],
        1 <= t < w.len(),
        search_state(g.len(), visited, order),
        forall|j2: int, m: int|
            0 <= j2 < js.len() && 0 <= m < deps_of(g, js[j2]).len() ==> name_marked(
                g,
                visited,
                #[trigger] deps_of(g, js[j2])[m],
            ),
        forall|k: int, m: int|
            0 <= k < order.len() && 0 <= m < g[order[k] as int].1.len() ==> name_marked(
                g,
                visited,
                #[trigger] g[order[k] as int].1[m],
            ),
    ensures
        name_marked(g, visited, w[t]),
    decreases t,
{
    assert(edge(g, w[t - 1], w[t]));
    if t == 1 {
        let m = choose|m: int| 0 <= m < deps_of(g, js[jj]).len() && deps_of(g, js[jj])[m] == w[1];
        assert(deps_of(g, js[jj])[m] == w[1]);
    } else {
        lemma_walk_marked(g, js, jj, w, visited, order, t - 1);
        let y = choose|y: int| 0 <= y < g.len() && visited[y] && (#[trigger] g[y]).0 == w[t - 1];
        let k = choose|k: int| 0 <= k < order.len() && #[trigger] order[k] == y;
        lemma_deps_of_at(g, y);
        let m = choose|m: int| 0 <= m < g[y].1.len() && g[y].1[m] == w[t];
        assert(g[order[k] as int].1[m] == w[t]);
    }
}

} // verus!
