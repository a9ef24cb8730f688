use crate::config::Ops;
use crate::dag::{build_dag, valid_dag, GraphError};
use crate::graph::{has_key, keys_unique, well_formed, GraphModel};
use crate::jobs::{filter_jobs, is_simplification, not_reached_from, simplified, simplify_dependencies, FilterError};
use vstd::prelude::*;

verus! {

/// Why a configuration cannot be used.
#[derive(Debug)]
pub enum ConfigError {
    Graph(GraphError),
    Filter(FilterError),
}

/// Where the configuration comes from and which jobs to keep.
pub struct ConfigBuilder {
    pub path: String,
    pub filter: Option<Vec<String>>,
}

/// Simplifying keeps the graph well formed.
pub proof fn lemma_simplification_well_formed(g: GraphModel, h: GraphModel)
    requires
        well_formed(g),
        is_simplification(g, h),
    ensures
        well_formed(h),
{
    assert forall|x: int, y: int| 0 <= x < h.len() && 0 <= y < h.len() && (#[trigger] h[x]).0 == (#[trigger] h[y]).0 implies x == y by {
        assert(g[x].0 == h[x].0 && g[y].0 == h[y].0);
    }
    assert forall|i: int, k: int| 0 <= i < h.len() && 0 <= k < h[i].1.len() implies has_key(h, #[trigger] h[i].1[k]) by {
        let ds = g[i].1;
        assert(h[i].1 == simplified(g, ds));
        assert(ds.filter(not_reached_from(g, ds)).contains(h[i].1[k]));
        ds.lemma_filter_contains_rev(not_reached_from(g, ds), h[i].1[k]);
        let m = choose|m: int| 0 <= m < ds.len() && ds[m] == h[i].1[k];
        assert(has_key(g, g[i].1[m]));
        let x = choose|x: int| 0 <= x < g.len() && (#[trigger] g[x]).0 == g[i].1[m];
        assert(h[x].0 == g[x].0);
    }
}

impl ConfigBuilder {
    pub fn new(path: String) -> (r: ConfigBuilder)
        ensures
            r.path == path,
            r.filter.is_none(),
    {
        ConfigBuilder { path, filter: None }
    }

    /// Keeps only the given jobs and what they depend on.
    pub fn filter(self, filter: Vec<String>) -> (r: ConfigBuilder)
        ensures
            r.path == self.path,
            r.filter == Some(filter),
    {
        ConfigBuilder { path: self.path, filter: Some(filter) }
    }

    /// Checks that the tasks form a DAG, simplifies their dependencies and
    /// applies the job filter, if any.
    pub fn prepare(&self, ops: &mut Ops) -> (r: Result<(), ConfigError>)
        requires
            keys_unique(old(ops).graph()),
        ensures
            (r matches Err(ConfigError::Graph(_))) <==> !valid_dag(old(ops).graph()),
            r is Ok ==> valid_dag(old(ops).graph()),
            r is Ok && self.filter is None ==> is_simplification(old(ops).graph(), final(ops).graph()),
    {
        match build_dag(ops) {
            Err(e) => {
                return Err(ConfigError::Graph(e));
            },
            Ok(_) => {},
        }
        let ghost g = ops.graph();
        simplify_dependencies(ops);
        proof {
            lemma_simplification_well_formed(g, ops.graph());
        }
        if let Some(run) = &self.filter {
            match filter_jobs(ops, run.as_slice()) {
                Err(e) => {
                    return Err(ConfigError::Filter(e));
                },
                Ok(()) => {},
            }
        }
        Ok(())
    }
}

} // verus!
