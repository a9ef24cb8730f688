use crate::lift::string_seq;
use crate::text::concat;
use vstd::prelude::*;
use vstd::string::StringExecFns;

verus! {

/// A task as the graph view draws it: a name and its dependencies.
#[derive(Debug, PartialEq, Eq)]
pub struct Task {
    pub name: String,
    pub depends_on: Vec<String>,
}

/// The glyphs the graph is drawn with.
#[derive(Debug, Clone, Copy, PartialEq, Eq)]
pub enum LineFormat {
    Ascii,
    Boxed,
}

impl LineFormat {
    /// Box-drawing characters when `boxed`, plain ASCII otherwise.
    pub fn from_flag(boxed: bool) -> (r: LineFormat)
        ensures
            r == (if boxed {
                LineFormat::Boxed
            } else {
                LineFormat::Ascii
            }),
    {
        if boxed {
            LineFormat::Boxed
        } else {
            LineFormat::Ascii
        }
    }
}

/// The dependencies of one task in a task file.
#[derive(Debug, Clone, PartialEq, Eq)]
pub struct DependsOn {
    pub depends_on: Vec<String>,
}

/// Tasks by name with their dependencies, in file order.
#[derive(Debug, Clone, PartialEq, Eq)]
pub struct TaskFile {
    pub file: Vec<(String, DependsOn)>,
}

impl TaskFile {
    /// The tasks of the file, in order.
    pub fn to_tasks(self) -> (r: Vec<Task>)
        ensures
            r@.len() == self.file@.len(),
            forall|i: int| 0 <= i < r@.len() ==> (#[trigger] r@[i]).name == self.file@[i].0 && r@[i].depends_on == self.file@[i].1.depends_on,
    {
        let mut file = self.file;
        let ghost f = file@;
        let n = file.len();
        let mut r: Vec<Task> = Vec::new();
        let mut i: usize = 0;
        while i < n
            invariant
                n == f.len(),
                i <= n,
                file@ == f.skip(i as int),
                r@.len() == i,
                forall|j: int| 0 <= j < i ==> (#[trigger] r@[j]).name == f[j].0 && r@[j].depends_on == f[j].1.depends_on,
            decreases n - i,
        {
            let (name, deps) = file.remove(0);
            assert(f[i as int] == (name, deps));
            r.push(Task { name, depends_on: deps.depends_on });
            i += 1;
            assert(file@ =~= f.skip(i as int));
        }
        r
    }
}

/// Some task of `tasks` depends on `name`.
pub open spec fn is_dependency(tasks: Seq<Task>, name: Seq<char>) -> bool {
    exists|i: int, k: int|
        0 <= i < tasks.len() && 0 <= k < tasks[i].depends_on@.len() && (#[trigger] tasks[i].depends_on@[k])@ == name
}

/// Holds of the tasks that neither depend on nor are depended on by another.
pub open spec fn independent_in(tasks: Seq<Task>) -> spec_fn(Task) -> bool {
    |t: Task| t.depends_on@.len() == 0 && !is_dependency(tasks, t.name@)
}

/// Holds of the other tasks.
pub open spec fn dependent_in(tasks: Seq<Task>) -> spec_fn(Task) -> bool {
    |t: Task| !(t.depends_on@.len() == 0 && !is_dependency(tasks, t.name@))
}

/// The tasks a list of references points to.
pub open spec fn derefs(s: Seq<&Task>) -> Seq<Task> {
    s.map_values(|t: &Task| *t)
}

fn is_dependency_of(tasks: &[Task], name: &String) -> (r: bool)
    ensures
        r == is_dependency(tasks@, name@),
{
    let mut i: usize = 0;
    while i < tasks.len()
        invariant
            i <= tasks@.len(),
            forall|a: int, k: int|
                0 <= a < i && 0 <= k < tasks@[a].depends_on@.len() ==> (#[trigger] tasks@[a].depends_on@[k])@ != name@,
        decreases tasks@.len() - i,
    {
        let mut k: usize = 0;
        while k < tasks[i].depends_on.len()
            invariant
                i < tasks@.len(),
                k <= tasks@[i as int].depends_on@.len(),
                forall|a: int, kk: int|
                    0 <= a < i && 0 <= kk < tasks@[a].depends_on@.len() ==> (#[trigger] tasks@[a].depends_on@[kk])@ != name@,
                forall|kk: int| 0 <= kk < k ==> (#[trigger] tasks@[i as int].depends_on@[kk])@ != name@,
            decreases tasks@[i as int].depends_on@.len() - k,
        {
            if tasks[i].depends_on[k] == *name {
                return true;
            }
            k += 1;
        }
        i += 1;
    }
    false
}

impl Task {
    /// Splits the tasks into those with no dependency that no task depends
    /// on, and the others, keeping their order.
    pub fn split_tasks(tasks: &[Task]) -> (r: (Vec<&Task>, Vec<&Task>))
        ensures
            derefs(r.0@) == tasks@.filter(independent_in(tasks@)),
            derefs(r.1@) == tasks@.filter(dependent_in(tasks@)),
    {
        let ghost ind = independent_in(tasks@);
        let ghost dep = dependent_in(tasks@);
        let mut a: Vec<&Task> = Vec::new();
        let mut b: Vec<&Task> = Vec::new();
        let mut i: usize = 0;
        while i < tasks.len()
            invariant
                i <= tasks@.len(),
                ind == independent_in(tasks@),
                dep == dependent_in(tasks@),
                derefs(a@) == tasks@.take(i as int).filter(ind),
                derefs(b@) == tasks@.take(i as int).filter(dep),
            decreases tasks@.len() - i,
        {
            let t = &tasks[i];
            let independent = t.depends_on.len() == 0 && !is_dependency_of(tasks, &t.name);
            let ghost a0 = a@;
            let ghost b0 = b@;
            if independent {
                a.push(t);
            } else {
                b.push(t);
            }
            i += 1;
            proof {
                let s = tasks@.take(i as int);
                assert(s.drop_last() =~= tasks@.take(i - 1));
                assert(s.last() == tasks@[i - 1]);
                reveal(Seq::filter);
                if independent {
                    assert(derefs(a@) =~= derefs(a0).push(*t));
                    assert(b@ == b0);
                } else {
                    assert(derefs(b@) =~= derefs(b0).push(*t));
                    assert(a@ == a0);
                }
            }
        }
        assert(tasks@.take(i as int) =~= tasks@);
        (a, b)
    }
}

/// The node number of `name`: the last entry for it wins.
pub open spec fn dict_get(dict: Seq<(String, usize)>, name: Seq<char>) -> Option<usize>
    decreases dict.len(),
{
    if dict.len() == 0 {
        None
    } else if dict.last().0@ == name {
        Some(dict.last().1)
    } else {
        dict_get(dict.drop_last(), name)
    }
}

fn lookup(dict: &Vec<(String, usize)>, name: &String) -> (r: Option<usize>)
    ensures
        r == dict_get(dict@, name@),
{
    let mut i: usize = dict.len();
    assert(dict@.take(i as int) =~= dict@);
    while i > 0
        invariant
            i <= dict@.len(),
            dict_get(dict@, name@) == dict_get(dict@.take(i as int), name@),
        decreases i,
    {
        let ghost t = dict@.take(i as int);
        assert(t.drop_last() =~= dict@.take(i - 1));
        if dict[i - 1].0 == *name {
            return Some(dict[i - 1].1);
        }
        i -= 1;
    }
    None
}

/// The edges (dependency node, `uid`) for a dependent task, or `None` when
/// it has no dependency or one of them has no node.
pub open spec fn edges_of(deps: Seq<String>, uid: usize, dict: Seq<(String, usize)>) -> Option<Seq<(usize, usize)>> {
    if deps.len() == 0 || exists|k: int| 0 <= k < deps.len() && dict_get(dict, (#[trigger] deps[k])@).is_none() {
        None
    } else {
        Some(Seq::new(deps.len(), |k: int| (dict_get(dict, deps[k]@).unwrap(), uid)))
    }
}

/// The layout of the dependency graph: the independent tasks apart, a node
/// number for each dependent task and the edges between them.
pub struct Graph {
    pub independent_tasks: Vec<String>,
    pub nodes_dictionary: Vec<(String, usize)>,
    pub edges: Vec<(usize, usize)>,
}

impl Graph {
    /// Lays out the graph of `tasks_list`.
    pub fn from_tasks_list(tasks_list: &[Task]) -> (r: Graph)
        ensures
            string_seq(r.independent_tasks@) == tasks_list@.filter(independent_in(tasks_list@)).map_values(|t: Task| t.name@),
    {
        let (independent, dependent) = Task::split_tasks(tasks_list);
        let mut names: Vec<String> = Vec::new();
        let mut i: usize = 0;
        while i < independent.len()
            invariant
                i <= independent@.len(),
                names@.len() == i,
                forall|j: int| 0 <= j < i ==> (#[trigger] names@[j])@ == independent@[j].name@,
            decreases independent@.len() - i,
        {
            names.push(independent[i].name.clone());
            i += 1;
        }
        assert(string_seq(names@) =~= derefs(independent@).map_values(|t: Task| t.name@));
        let mut dict: Vec<(String, usize)> = Vec::new();
        Self::populate_node_dictionary(&mut dict, &dependent);
        let edges = Self::build_edges(&dependent, &dict);
        Graph { independent_tasks: names, nodes_dictionary: dict, edges }
    }

    /// Numbers the dependent tasks in order.
    pub fn populate_node_dictionary(nodes_dictionary: &mut Vec<(String, usize)>, dependent_tasks: &Vec<&Task>)
        ensures
            final(nodes_dictionary)@.len() == old(nodes_dictionary)@.len() + dependent_tasks@.len(),
            final(nodes_dictionary)@.subrange(0, old(nodes_dictionary)@.len() as int) == old(nodes_dictionary)@,
            forall|u: int|
                0 <= u < dependent_tasks@.len() ==> (#[trigger] final(nodes_dictionary)@[old(nodes_dictionary)@.len() + u]).0
                    == dependent_tasks@[u].name && final(nodes_dictionary)@[old(nodes_dictionary)@.len() + u].1 == u,
    {
        let ghost d0 = nodes_dictionary@;
        let mut uid: usize = 0;
        while uid < dependent_tasks.len()
            invariant
                uid <= dependent_tasks@.len(),
                nodes_dictionary@.len() == d0.len() + uid,
                nodes_dictionary@.subrange(0, d0.len() as int) == d0,
                forall|u: int|
                    0 <= u < uid ==> (#[trigger] nodes_dictionary@[d0.len() + u]).0 == dependent_tasks@[u].name
                        && nodes_dictionary@[d0.len() + u].1 == u,
            decreases dependent_tasks@.len() - uid,
        {
            nodes_dictionary.push((dependent_tasks[uid].name.clone(), uid));
            uid += 1;
            assert(nodes_dictionary@.subrange(0, d0.len() as int) =~= d0);
        }
    }

    /// The edges into the dependent task `uid` from each of its
    /// dependencies, or `None` when it has none or one has no node.
    pub fn dependecies_lists_to_tuple_nodes(dependecies_lists: &Vec<String>, uid: usize, nodes_dictionary: &Vec<(String, usize)>) -> (r: Option<Vec<(usize, usize)>>)
        ensures
            match r {
                Some(v) => edges_of(dependecies_lists@, uid, nodes_dictionary@) == Some(v@),
                None => edges_of(dependecies_lists@, uid, nodes_dictionary@).is_none(),
            },
    {
        if dependecies_lists.len() == 0 {
            return None;
        }
        let mut result: Vec<(usize, usize)> = Vec::new();
        let mut k: usize = 0;
        while k < dependecies_lists.len()
            invariant
                k <= dependecies_lists@.len(),
                result@.len() == k,
                forall|j: int| 0 <= j < k ==> dict_get(nodes_dictionary@, (#[trigger] dependecies_lists@[j])@).is_some(),
                forall|j: int| 0 <= j < k ==> #[trigger] result@[j] == (dict_get(nodes_dictionary@, dependecies_lists@[j]@).unwrap(), uid),
            decreases dependecies_lists@.len() - k,
        {
            match lookup(nodes_dictionary, &dependecies_lists[k]) {
                Some(node) => result.push((node, uid)),
                None => {
                    return None;
                },
            }
            k += 1;
        }
        assert(result@ =~= Seq::new(dependecies_lists@.len(), |j: int| (dict_get(nodes_dictionary@, dependecies_lists@[j]@).unwrap(), uid)));
        Some(result)
    }

    fn build_edges(dependent_tasks: &Vec<&Task>, nodes_dictionary: &Vec<(String, usize)>) -> (r: Vec<(usize, usize)>) {
        let mut edges: Vec<(usize, usize)> = Vec::new();
        let mut uid: usize = 0;
        while uid < dependent_tasks.len()
            invariant
                uid <= dependent_tasks@.len(),
            decreases dependent_tasks@.len() - uid,
        {
            if let Some(mut found) = Self::dependecies_lists_to_tuple_nodes(&dependent_tasks[uid].depends_on, uid, nodes_dictionary) {
                edges.append(&mut found);
            }
            uid += 1;
        }
        edges
    }

    /// Each node number with its task name.
    pub fn nodes(&self) -> (r: Vec<(usize, String)>)
        ensures
            r@.len() == self.nodes_dictionary@.len(),
            forall|i: int| 0 <= i < r@.len() ==> (#[trigger] r@[i]).0 == self.nodes_dictionary@[i].1 && r@[i].1 == self.nodes_dictionary@[i].0,
    {
        let mut r: Vec<(usize, String)> = Vec::new();
        let mut i: usize = 0;
        while i < self.nodes_dictionary.len()
            invariant
                i <= self.nodes_dictionary@.len(),
                r@.len() == i,
                forall|j: int| 0 <= j < i ==> (#[trigger] r@[j]).0 == self.nodes_dictionary@[j].1 && r@[j].1 == self.nodes_dictionary@[j].0,
            decreases self.nodes_dictionary@.len() - i,
        {
            let (name, uid) = &self.nodes_dictionary[i];
            r.push((*uid, name.clone()));
            i += 1;
        }
        r
    }

    /// The edges, as (from, to) node numbers.
    pub fn edges(&self) -> (r: Vec<(usize, usize)>)
        ensures
            r@ == self.edges@,
    {
        let mut r: Vec<(usize, usize)> = Vec::new();
        let mut i: usize = 0;
        while i < self.edges.len()
            invariant
                i <= self.edges@.len(),
                r@ == self.edges@.take(i as int),
            decreases self.edges@.len() - i,
        {
            r.push(self.edges[i]);
            i += 1;
            assert(r@ =~= self.edges@.take(i as int));
        }
        assert(self.edges@.take(i as int) =~= self.edges@);
        r
    }

    /// The independent tasks on one line, `|a|    |b|`, followed by a blank
    /// line; empty when there are none.
    pub fn format_independent_task(&self) -> (r: String)
        ensures
            r@ == independent_line(string_seq(self.independent_tasks@)),
    {
        if self.independent_tasks.len() == 0 {
            return String::new();
        }
        let mut line = concat("|", self.independent_tasks[0].as_str());
        line.append("|");
        let mut i: usize = 1;
        while i < self.independent_tasks.len()
            invariant
                1 <= i <= self.independent_tasks@.len(),
                line@ == boxed_names(string_seq(self.independent_tasks@).take(i as int)),
            decreases self.independent_tasks@.len() - i,
        {
            line.append("    |");
            line.append(self.independent_tasks[i].as_str());
            line.append("|");
            i += 1;
            proof {
                let t = string_seq(self.independent_tasks@).take(i as int);
                assert(t.drop_last() =~= string_seq(self.independent_tasks@).take(i - 1));
            }
        }
        assert(string_seq(self.independent_tasks@).take(i as int) =~= string_seq(self.independent_tasks@));
        line.append("\n");
        line.append("\n");
        line
    }
}

/// `|a|    |b|    |c|` for the names a, b, c.
pub open spec fn boxed_names(names: Seq<Seq<char>>) -> Seq<char>
    decreases names.len(),
{
    if names.len() == 0 {
        Seq::empty()
    } else if names.len() == 1 {
        "|"@ + names[0] + "|"@
    } else {
        boxed_names(names.drop_last()) + "    |"@ + names.last() + "|"@
    }
}

/// The independent-task line and the blank line after it, or nothing.
pub open spec fn independent_line(names: Seq<Seq<char>>) -> Seq<char> {
    if names.len() == 0 {
        Seq::empty()
    } else {
        boxed_names(names) + "\n"@ + "\n"@
    }
}

} // verus!
