use crate::config::{get_all_dependencies, Ops};
use crate::dag::{contains_string, topological_order, valid_dag, GraphError};
use crate::graph::{dependency_of_any, has_key, keys_unique, well_formed};
use crate::lift::string_seq;
use vstd::prelude::*;

verus! {

/// Options of the self-upgrade subcommand.
#[derive(Debug, Clone)]
pub struct Upgrade {
    /// Upgrade to this version instead of the latest.
    pub version: Option<String>,
    /// Do not ask for confirmation.
    pub yes: bool,
}

/// Options of the subcommand that runs one task and its dependencies, one
/// after the other.
#[derive(Debug, Clone)]
pub struct Execute {
    pub task: String,
}

/// Subcommands about the runner itself.
#[derive(Debug, Clone, Copy, PartialEq, Eq)]
pub enum SelfCommand {
    Upgrade,
}

/// Why a serial run cannot be planned.
#[derive(Debug)]
pub enum SerialError {
    NotFound(String),
    Graph(GraphError),
}

/// Holds of the requested task and its transitive dependencies.
pub open spec fn needed_by(g: crate::graph::GraphModel, task: Seq<char>) -> spec_fn(Seq<char>) -> bool {
    |n: Seq<char>| n == task || dependency_of_any(g, seq![task], n)
}

impl Execute {
    /// The tasks to run, in order: the requested task and everything it
    /// depends on, each after its own dependencies.
    pub fn plan(&self, ops: &Ops) -> (r: Result<Vec<String>, SerialError>)
        requires
            keys_unique(ops.graph()),
        ensures
            !has_key(ops.graph(), self.task@) ==> r matches Err(SerialError::NotFound(_)),
            has_key(ops.graph(), self.task@) ==> (r is Ok <==> valid_dag(ops.graph())),
            r matches Ok(p) ==> exists|order: Seq<Seq<char>>|
                crate::dag::topological(ops.graph(), order) && string_seq(p@) == order.filter(needed_by(ops.graph(), self.task@)),
    {
        if !ops.contains_key(&self.task) {
            return Err(SerialError::NotFound(self.task.clone()));
        }
        let order = match topological_order(ops) {
            Ok(o) => o,
            Err(e) => {
                return Err(SerialError::Graph(e));
            },
        };
        let ghost g = ops.graph();
        let mut jobs: Vec<String> = Vec::new();
        jobs.push(self.task.clone());
        assert(string_seq(jobs@) =~= seq![self.task@]);
        let deps = get_all_dependencies(ops, jobs.as_slice());
        let ghost pred = needed_by(g, self.task@);
        let ghost ov = string_seq(order@);
        let mut plan: Vec<String> = Vec::new();
        let mut i: usize = 0;
        while i < order.len()
            invariant
                i <= order@.len(),
                ov == string_seq(order@),
                pred == needed_by(g, self.task@),
                g == ops.graph(),
                string_seq(jobs@) == seq![self.task@],
                string_seq(plan@) == ov.take(i as int).filter(pred),
                forall|b: Seq<char>|
                    (exists|q: int| 0 <= q < deps@.len() && (#[trigger] deps@[q])@ == b) <==> dependency_of_any(
                        g,
                        string_seq(jobs@),
                        b,
                    ),
            decreases order@.len() - i,
        {
            let ghost plan0 = plan@;
            let is_dep = contains_string(&deps, &order[i]);
            let keep = order[i] == self.task || is_dep;
            proof {
                if is_dep {
                    let q = choose|q: int| 0 <= q < string_seq(deps@).len() && string_seq(deps@)[q] == order@[i as int]@;
                    assert(deps@[q]@ == order@[i as int]@);
                }
                if dependency_of_any(g, seq![self.task@], order@[i as int]@) {
                    let q = choose|q: int| 0 <= q < deps@.len() && (#[trigger] deps@[q])@ == order@[i as int]@;
                    assert(string_seq(deps@)[q] == order@[i as int]@);
                }
                assert(pred(ov[i as int]) == keep);
            }
            if keep {
                plan.push(order[i].clone());
            }
            i += 1;
            proof {
                let t = ov.take(i as int);
                assert(t.drop_last() =~= ov.take(i - 1));
                assert(t.last() == ov[i - 1]);
                reveal(Seq::filter);
                if keep {
                    assert(string_seq(plan@) =~= string_seq(plan0).push(ov[i - 1]));
                } else {
                    assert(plan@ == plan0);
                }
            }
        }
        assert(ov.take(i as int) =~= ov);
        Ok(plan)
    }
}

} // verus!
