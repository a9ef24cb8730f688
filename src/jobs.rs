use crate::config::{entry_view, get_all_dependencies, Ops, Task};
use crate::dag::contains_string;
use crate::graph::{
    dependency_of_any, depends_transitively, deps_of, edge, find_key, has_key, is_walk,
    keys_unique, lemma_deps_of_at, lemma_find_key, well_formed, GraphModel,
};
use crate::lift::{resolve_strings, string_seq, Lift};
use crate::text::{concat, join, joined};
use vstd::prelude::*;
use vstd::string::StringExecFns;

verus! {

/// Code-point lexicographic order on strings, which for valid UTF-8 is the
/// byte order that `Ord for str` uses.
pub open spec fn lex_le(a: Seq<char>, b: Seq<char>) -> bool
    decreases a.len(),
{
    if a.len() == 0 {
        true
    } else if b.len() == 0 {
        false
    } else if (a[0] as u32) != (b[0] as u32) {
        (a[0] as u32) < (b[0] as u32)
    } else {
        lex_le(a.drop_first(), b.drop_first())
    }
}

/// `s` holds the items of `t`, in ascending order.
pub open spec fn sorted_permutation(s: Seq<Seq<char>>, t: Seq<Seq<char>>) -> bool {
    &&& s.to_multiset() == t.to_multiset()
    &&& forall|i: int, j: int| 0 <= i < j < s.len() ==> lex_le(#[trigger] s[i], #[trigger] s[j])
}

/// Relies on `slice::sort` for `String`: a stable sort by `Ord for str`,
/// which compares the bytes lexicographically.
#[verifier::external_body]
fn sort_strings(v: &mut Vec<String>)
    ensures
        sorted_permutation(string_seq(final(v)@), string_seq(old(v)@)),
{
    v.sort();
}

/// The line that lists one job and its direct dependencies.
pub open spec fn job_line(name: Seq<char>, deps: Seq<Seq<char>>) -> Seq<char> {
    if deps.len() > 0 {
        "  - "@ + name + " ("@ + joined(deps, ","@) + ")"@
    } else {
        "  - "@ + name
    }
}

/// One line per job of `g`, in declaration order.
pub open spec fn job_lines(g: GraphModel) -> Seq<Seq<char>> {
    Seq::new(g.len(), |i: int| job_line(g[i].0, g[i].1))
}

/// The job listing: the job lines sorted, one per line.
pub open spec fn is_job_listing(g: GraphModel, r: Seq<char>) -> bool {
    exists|lines: Seq<Seq<char>>| #[trigger] sorted_permutation(lines, job_lines(g)) && r == joined(lines, "\n"@)
}

/// Returns the names of all the jobs, in declaration order.
pub fn get_jobs(ops: &Ops) -> (r: Vec<&String>)
    ensures
        r@.len() == ops.entries@.len(),
        forall|i: int| 0 <= i < r@.len() ==> *(#[trigger] r@[i]) == ops.entries@[i].0,
{
    let mut r: Vec<&String> = Vec::new();
    let mut i: usize = 0;
    while i < ops.entries.len()
        invariant
            i <= ops.entries@.len(),
            r@.len() == i,
            forall|j: int| 0 <= j < i ==> *(#[trigger] r@[j]) == ops.entries@[j].0,
        decreases ops.entries@.len() - i,
    {
        r.push(&ops.entries[i].0);
        i += 1;
    }
    r
}

fn format_job(name: &String, deps: &Vec<String>) -> (r: String)
    ensures
        r@ == job_line(name@, string_seq(deps@)),
{
    let mut line = concat("  - ", name.as_str());
    if deps.len() > 0 {
        line.append(" (");
        let inner = join(deps, ",");
        line.append(inner.as_str());
        line.append(")");
    }
    line
}

/// Returns the jobs and their direct dependencies, one per line, sorted.
pub fn get_formatted_list_of_jobs(ops: &Ops) -> (r: String)
    ensures
        is_job_listing(ops.graph(), r@),
{
    let ghost g = ops.graph();
    let mut lines: Vec<String> = Vec::new();
    let mut i: usize = 0;
    while i < ops.entries.len()
        invariant
            i <= g.len(),
            g == ops.graph(),
            lines@.len() == i,
            forall|j: int| 0 <= j < i ==> (#[trigger] lines@[j])@ == job_lines(g)[j],
        decreases g.len() - i,
    {
        let deps = resolve_strings(&ops.entries[i].1.depends_on);
        assert(g[i as int] == entry_view(ops.entries@[i as int]));
        let line = format_job(&ops.entries[i].0, &deps);
        assert(line@ == job_lines(g)[i as int]);
        lines.push(line);
        i += 1;
    }
    assert(string_seq(lines@) =~= job_lines(g));
    sort_strings(&mut lines);
    let r = join(&lines, "\n");
    assert(sorted_permutation(string_seq(lines@), job_lines(g)));
    r
}

/// A requested job that the configuration does not define.
#[derive(Debug)]
pub struct FilterError {
    pub job: String,
    pub message: String,
}

impl FilterError {
    /// The message shown to the user.
    pub fn to_string(&self) -> (r: String)
        ensures
            r@ == self.message@,
    {
        self.message.clone()
    }
}

/// The message for a requested job that is not defined.
pub open spec fn unknown_job_message(job: Seq<char>, listing: Seq<char>) -> Seq<char> {
    "job '"@ + job + "' not found in config file."@ + "\n\n"@ + "Valid jobs are:\n"@ + listing
}

/// A job is kept when it was requested or some requested job depends on it.
pub open spec fn kept_by(g: GraphModel, run: Seq<Seq<char>>) -> spec_fn((String, Task)) -> bool {
    |e: (String, Task)| run.contains(e.0@) || dependency_of_any(g, run, e.0@)
}

/// Restricts the jobs to those requested in `run` and their transitive
/// dependencies, keeping their order. An empty `run` keeps every job. Fails,
/// leaving the jobs as they are, when a requested job is not defined.
pub fn filter_jobs(ops: &mut Ops, run: &[String]) -> (r: Result<(), FilterError>)
    requires
        well_formed(old(ops).graph()),
    ensures
        r.is_err() <==> exists|k: int| 0 <= k < run@.len() && !has_key(old(ops).graph(), (#[trigger] run@[k])@),
        r matches Err(e) ==> (exists|k: int|
            0 <= k < run@.len() && (#[trigger] run@[k]) == e.job && !has_key(old(ops).graph(), e.job@)
                && forall|k2: int| 0 <= k2 < k ==> has_key(old(ops).graph(), (#[trigger] run@[k2])@))
            && exists|listing: Seq<char>| #[trigger] is_job_listing(old(ops).graph(), listing)
                && e.message@ == unknown_job_message(e.job@, listing),
        r.is_err() ==> final(ops).entries@ == old(ops).entries@,
        r.is_ok() && run@.len() == 0 ==> final(ops).entries@ == old(ops).entries@,
        r.is_ok() && run@.len() > 0 ==> final(ops).entries@ == old(ops).entries@.filter(
            kept_by(old(ops).graph(), string_seq(run@)),
        ),
{
    let ghost g = ops.graph();
    let mut k: usize = 0;
    while k < run.len()
        invariant
            k <= run@.len(),
            g == ops.graph(),
            forall|k2: int| 0 <= k2 < k ==> has_key(g, (#[trigger] run@[k2])@),
        decreases run@.len() - k,
    {
        if !ops.contains_key(&run[k]) {
            let listing = get_formatted_list_of_jobs(ops);
            let mut message = concat("job '", run[k].as_str());
            message.append("' not found in config file.");
            message.append("\n\n");
            message.append("Valid jobs are:\n");
            message.append(listing.as_str());
            let job = run[k].clone();
            assert(is_job_listing(g, listing@));
            assert(message@ =~= unknown_job_message(job@, listing@));
            return Err(FilterError { job, message });
        }
        k += 1;
    }
    if run.len() == 0 {
        return Ok(());
    }
    let all = get_all_dependencies(ops, run);
    let ghost pred = kept_by(g, string_seq(run@));
    let mut old_entries: Vec<(String, Task)> = Vec::new();
    std::mem::swap(&mut ops.entries, &mut old_entries);
    let ghost o = old_entries@;
    let mut kept: Vec<(String, Task)> = Vec::new();
    let n = old_entries.len();
    let mut i: usize = 0;
    while i < n
        invariant
            n == o.len(),
            i <= n,
            i + old_entries@.len() == o.len(),
            old_entries@ == o.skip(i as int),
            kept@ == o.take(i as int).filter(pred),
            pred == kept_by(g, string_seq(run@)),
            g == o.map_values(|e: (String, Task)| entry_view(e)),
            forall|b: Seq<char>|
                (exists|q: int| 0 <= q < all@.len() && (#[trigger] all@[q])@ == b) <==> dependency_of_any(
                    g,
                    string_seq(run@),
                    b,
                ),
        decreases n - i,
    {
        let e = old_entries.remove(0);
        let ghost kept0 = kept@;
        let in_run = contains_in_slice(run, &e.0);
        let in_deps = contains_string(&all, &e.0);
        proof {
            assert(o[i as int] == e);
            if in_deps {
                let q = choose|q: int| 0 <= q < string_seq(all@).len() && string_seq(all@)[q] == e.0@;
                assert(all@[q]@ == e.0@);
            }
            if dependency_of_any(g, string_seq(run@), e.0@) {
                let q = choose|q: int| 0 <= q < all@.len() && (#[trigger] all@[q])@ == e.0@;
                assert(string_seq(all@)[q] == e.0@);
            }
            assert(pred(e) == (in_run || in_deps));
        }
        if in_run || in_deps {
            kept.push(e);
        }
        i += 1;
        proof {
            let t = o.take(i as int);
            assert(t.drop_last() =~= o.take(i - 1));
            assert(t.last() == e);
            reveal(Seq::filter);
            assert(old_entries@ =~= o.skip(i as int));
        }
    }
    assert(o.take(i as int) =~= o);
    ops.entries = kept;
    Ok(())
}

fn contains_in_slice(v: &[String], s: &String) -> (r: bool)
    ensures
        r == string_seq(v@).contains(s@),
{
    let mut i: usize = 0;
    while i < v.len()
        invariant
            i <= v@.len(),
            forall|j: int| 0 <= j < i ==> (#[trigger] v@[j])@ != s@,
        decreases v@.len() - i,
    {
        if v[i] == *s {
            assert(string_seq(v@)[i as int] == s@);
            return true;
        }
        i += 1;
    }
    proof {
        if string_seq(v@).contains(s@) {
            let j = choose|j: int| 0 <= j < string_seq(v@).len() && string_seq(v@)[j] == s@;
            assert(v@[j]@ == s@);
        }
    }
    false
}

/// Holds of the names that no name of `ds` reaches in `g`.
pub open spec fn not_reached_from(g: GraphModel, ds: Seq<Seq<char>>) -> spec_fn(Seq<char>) -> bool {
    |e: Seq<char>| !dependency_of_any(g, ds, e)
}

/// A dependency list without the entries that another entry already
/// depends on, transitively.
pub open spec fn simplified(g: GraphModel, ds: Seq<Seq<char>>) -> Seq<Seq<char>> {
    ds.filter(not_reached_from(g, ds))
}

/// `h` is `g` with each dependency list simplified against `g`.
pub open spec fn is_simplification(g: GraphModel, h: GraphModel) -> bool {
    &&& h.len() == g.len()
    &&& forall|i: int| 0 <= i < g.len() ==> (#[trigger] h[i]).0 == g[i].0 && h[i].1 == simplified(g, g[i].1)
}

/// Two tasks agree on everything but their dependencies.
pub open spec fn same_except_deps(a: Task, b: Task) -> bool {
    &&& a.workdir == b.workdir
    &&& a.command == b.command
    &&& a.entrypoint == b.entrypoint
    &&& a.watch == b.watch
    &&& a.ignore == b.ignore
    &&& a.env == b.env
    &&& a.env_file == b.env_file
    &&& a.pipe == b.pipe
    &&& a.color == b.color
}

/// Removes from each task's dependencies those that another of its
/// dependencies already depends on, transitively.
#[verifier::rlimit(60)]
pub fn simplify_dependencies(ops: &mut Ops)
    requires
        well_formed(old(ops).graph()),
    ensures
        is_simplification(old(ops).graph(), final(ops).graph()),
        final(ops).entries@.len() == old(ops).entries@.len(),
        forall|i: int|
            0 <= i < old(ops).entries@.len() ==> (#[trigger] final(ops).entries@[i]).0 == old(ops).entries@[i].0
                && same_except_deps(final(ops).entries@[i].1, old(ops).entries@[i].1),
{
    let ghost g = ops.graph();
    let n = ops.entries.len();
    let mut lists: Vec<Vec<String>> = Vec::new();
    let mut i: usize = 0;
    while i < n
        invariant
            i <= n,
            n == g.len(),
            g == ops.graph(),
            well_formed(g),
            lists@.len() == i,
            forall|j: int| 0 <= j < i ==> string_seq((#[trigger] lists@[j])@) == simplified(g, g[j].1),
        decreases n - i,
    {
        let ds = resolve_strings(&ops.entries[i].1.depends_on);
        assert(g[i as int] == entry_view(ops.entries@[i as int]));
        let ghost dsv = string_seq(ds@);
        let reach = get_all_dependencies(ops, ds.as_slice());
        let ghost pred = not_reached_from(g, dsv);
        let mut kept: Vec<String> = Vec::new();
        let mut m: usize = 0;
        while m < ds.len()
            invariant
                m <= ds@.len(),
                dsv == string_seq(ds@),
                pred == not_reached_from(g, dsv),
                string_seq(kept@) == dsv.take(m as int).filter(pred),
                forall|b: Seq<char>|
                    (exists|q: int| 0 <= q < reach@.len() && (#[trigger] reach@[q])@ == b) <==> dependency_of_any(
                        g,
                        dsv,
                        b,
                    ),
            decreases ds@.len() - m,
        {
            let hit = contains_string(&reach, &ds[m]);
            let ghost k0 = kept@;
            proof {
                if hit {
                    let q = choose|q: int| 0 <= q < string_seq(reach@).len() && string_seq(reach@)[q] == ds@[m as int]@;
                    assert(reach@[q]@ == ds@[m as int]@);
                }
                if dependency_of_any(g, dsv, ds@[m as int]@) {
                    let q = choose|q: int| 0 <= q < reach@.len() && (#[trigger] reach@[q])@ == ds@[m as int]@;
                    assert(string_seq(reach@)[q] == ds@[m as int]@);
                }
                assert(pred(dsv[m as int]) == !hit);
            }
            if !hit {
                kept.push(ds[m].clone());
            }
            m += 1;
            proof {
                let t = dsv.take(m as int);
                assert(t.drop_last() =~= dsv.take(m - 1));
                assert(t.last() == dsv[m - 1]);
                reveal(Seq::filter);
                if !hit {
                    assert(string_seq(kept@) =~= string_seq(k0).push(dsv[m - 1]));
                } else {
                    assert(kept@ == k0);
                }
            }
        }
        assert(dsv.take(m as int) =~= dsv);
        lists.push(kept);
        i += 1;
    }
    let mut old_entries: Vec<(String, Task)> = Vec::new();
    std::mem::swap(&mut ops.entries, &mut old_entries);
    let ghost o = old_entries@;
    let ghost l = lists@;
    let mut j: usize = 0;
    while j < n
        invariant
            j <= n,
            n == o.len(),
            g == o.map_values(|e: (String, Task)| entry_view(e)),
            old_entries@ == o.skip(j as int),
            lists@ == l.skip(j as int),
            l.len() == n,
            forall|q: int| 0 <= q < n ==> string_seq((#[trigger] l[q])@) == simplified(g, g[q].1),
            ops.entries@.len() == j,
            forall|q: int|
                0 <= q < j ==> (#[trigger] ops.entries@[q]).0 == o[q].0 && same_except_deps(ops.entries@[q].1, o[q].1)
                    && ops.entries@[q].1.deps_view() == simplified(g, g[q].1),
        decreases n - j,
    {
        let (name, mut task) = old_entries.remove(0);
        let deps = lists.remove(0);
        assert(deps == l[j as int]);
        task.depends_on = Lift::More(deps);
        ops.entries.push((name, task));
        j += 1;
        assert(old_entries@ =~= o.skip(j as int));
        assert(lists@ =~= l.skip(j as int));
    }
    proof {
        let h = ops.graph();
        assert forall|q: int| 0 <= q < g.len() implies (#[trigger] h[q]).0 == g[q].0 && h[q].1 == simplified(g, g[q].1) by {
            assert(h[q] == entry_view(ops.entries@[q]));
        }
    }
}

/// Every edge of the simplified graph is an edge of the original one.
proof fn lemma_simplified_edge(g: GraphModel, h: GraphModel, a: Seq<char>, b: Seq<char>)
    requires
        keys_unique(g),
        is_simplification(g, h),
        edge(h, a, b),
    ensures
        edge(g, a, b),
{
    assert(has_key(h, a));
    let i = choose|i: int| 0 <= i < h.len() && (#[trigger] h[i]).0 == a;
    assert(keys_unique(h)) by {
        assert forall|x: int, y: int|
            0 <= x < h.len() && 0 <= y < h.len() && (#[trigger] h[x]).0 == (#[trigger] h[y]).0 implies x == y by {
            assert(g[x].0 == h[x].0 && g[y].0 == h[y].0);
        }
    }
    lemma_deps_of_at(h, i);
    lemma_deps_of_at(g, i);
    let ds = g[i].1;
    assert(h[i].1 == simplified(g, ds));
    ds.lemma_filter_contains_rev(not_reached_from(g, ds), b);
}

proof fn lemma_simplified_walk(g: GraphModel, h: GraphModel, p: Seq<Seq<char>>)
    requires
        keys_unique(g),
        is_simplification(g, h),
        is_walk(h, p),
    ensures
        is_walk(g, p),
{
    assert forall|i: int| 0 <= i < p.len() - 1 implies edge(g, #[trigger] p[i], p[i + 1]) by {
        lemma_simplified_edge(g, h, p[i], p[i + 1]);
    }
}

/// After simplification no dependency of a task reaches, directly or
/// transitively, any dependency of that same task.
pub proof fn lemma_simplified_independent(g: GraphModel, h: GraphModel, i: int, a: int, b: int)
    requires
        keys_unique(g),
        is_simplification(g, h),
        0 <= i < h.len(),
        0 <= a < h[i].1.len(),
        0 <= b < h[i].1.len(),
    ensures
        !depends_transitively(h, h[i].1[a], h[i].1[b]),
{
    let ds = g[i].1;
    let pred = not_reached_from(g, ds);
    assert(h[i].1 == ds.filter(pred));
    ds.lemma_filter_pred(pred, b);
    assert(ds.filter(pred).contains(h[i].1[a]));
    ds.lemma_filter_contains_rev(pred, h[i].1[a]);
    if depends_transitively(h, h[i].1[a], h[i].1[b]) {
        let p = choose|p: Seq<Seq<char>>| #[trigger] is_walk(h, p) && p[0] == h[i].1[a] && p.last() == h[i].1[b];
        lemma_simplified_walk(g, h, p);
        assert(depends_transitively(g, h[i].1[a], h[i].1[b]));
        let x = choose|x: int| 0 <= x < ds.len() && ds[x] == h[i].1[a];
        assert(dependency_of_any(g, ds, h[i].1[b]));
    }
}

/// Filtering with a predicate that holds of every item keeps the sequence.
proof fn lemma_filter_keeps_all(s: Seq<Seq<char>>, pred: spec_fn(Seq<char>) -> bool)
    requires
        forall|i: int| 0 <= i < s.len() ==> pred(#[trigger] s[i]),
    ensures
        s.filter(pred) == s,
    decreases s.len(),
{
    reveal(Seq::filter);
    if s.len() > 0 {
        lemma_filter_keeps_all(s.drop_last(), pred);
        assert(s.drop_last().push(s.last()) =~= s);
    }
}

/// Simplification is idempotent: simplifying the simplified graph gives it
/// back, so the DAG rebuilt from the simplified form has the same downstream
/// lists as the DAG of the simplified graph.
pub proof fn lemma_simplification_idempotent(g: GraphModel, h: GraphModel, h2: GraphModel)
    requires
        keys_unique(g),
        is_simplification(g, h),
        is_simplification(h, h2),
    ensures
        h2 == h,
{
    assert(keys_unique(h)) by {
        assert forall|x: int, y: int|
            0 <= x < h.len() && 0 <= y < h.len() && (#[trigger] h[x]).0 == (#[trigger] h[y]).0 implies x == y by {
            assert(g[x].0 == h[x].0 && g[y].0 == h[y].0);
        }
    }
    assert forall|i: int| 0 <= i < h.len() implies #[trigger] h2[i] == h[i] by {
        let ds = g[i].1;
        let s = h[i].1;
        assert(s == ds.filter(not_reached_from(g, ds)));
        assert forall|k: int| 0 <= k < s.len() implies not_reached_from(h, s)(#[trigger] s[k]) by {
            ds.lemma_filter_pred(not_reached_from(g, ds), k);
            if dependency_of_any(h, s, s[k]) {
                let j = choose|j: int| 0 <= j < s.len() && depends_transitively(h, #[trigger] s[j], s[k]);
                let p = choose|p: Seq<Seq<char>>| #[trigger] is_walk(h, p) && p[0] == s[j] && p.last() == s[k];
                lemma_simplified_walk(g, h, p);
                assert(depends_transitively(g, s[j], s[k]));
                assert(s.contains(s[j]));
                ds.lemma_filter_contains_rev(not_reached_from(g, ds), s[j]);
                let m = choose|m: int| 0 <= m < ds.len() && ds[m] == s[j];
                assert(depends_transitively(g, ds[m], s[k]));
                assert(dependency_of_any(g, ds, s[k]));
            }
        }
        lemma_filter_keeps_all(s, not_reached_from(h, s));
        assert(h2[i].1 == simplified(h, h[i].1));
        assert(h2[i].0 == h[i].0);
    }
    assert(h2 =~= h);
}

} // verus!
