use whiz::config::{get_all_dependencies, get_dependencies, Ops, Task};
use whiz::dag::{build_dag, topological_order, GraphError};
use whiz::jobs::{filter_jobs, get_formatted_list_of_jobs, get_jobs, simplify_dependencies};
use whiz::lift::Lift;
use whiz::loader::{ConfigBuilder, ConfigError};

fn task(command: &str, deps: &[&str]) -> Task {
    let mut t = Task::new(Some(command.to_string()));
    if !deps.is_empty() {
        t.depends_on = Lift::More(deps.iter().map(|d| d.to_string()).collect());
    }
    t
}

fn ops_of(entries: &[(&str, &str, &[&str])]) -> Ops {
    let mut ops = Ops::new();
    for (name, command, deps) in entries {
        ops.insert(name.to_string(), task(command, deps));
    }
    ops
}

/// The dependency example, as the configuration loader produces it: checked,
/// then simplified. `with_alias` merges the keys of `d`.
fn dependencies_example() -> Ops {
    let mut ops = ops_of(&[
        ("a", "echo a", &[]),
        ("b", "echo b", &["a"]),
        ("c", "echo c", &["b"]),
        ("d", "echo c", &["a", "b", "c", "y", "z"]),
        ("y", "echo y", &[]),
        ("z", "echo z", &["y"]),
        ("not_child_dependency", "echo hello world", &[]),
        ("with_alias", "echo with_alias", &["a", "b", "c", "y", "z"]),
    ]);
    ConfigBuilder::new("whiz.yaml".to_string()).prepare(&mut ops).unwrap();
    ops
}

fn filtering_example() -> Ops {
    let mut ops = ops_of(&[
        ("not_test_dependency", "echo fails", &[]),
        ("test_dependency", "echo hello", &[]),
        ("test", "echo world", &["test_dependency"]),
    ]);
    ConfigBuilder::new("whiz.yaml".to_string()).prepare(&mut ops).unwrap();
    ops
}

fn sorted<T: Ord + Clone>(v: &[T]) -> Vec<T> {
    let mut v = v.to_vec();
    v.sort();
    v
}

fn names(ops: &Ops) -> Vec<String> {
    get_jobs(ops).into_iter().cloned().collect()
}

#[test]
fn gets_all_dependencies() {
    let config = dependencies_example();
    let jobs = &["c".to_string(), "z".to_string()];
    let jobs = get_all_dependencies(&config, jobs);
    assert_eq!(sorted(&jobs), vec!["a", "b", "y"]);
}

#[test]
fn gets_dependencies_from_config_file() {
    let config = dependencies_example();
    let jobs = get_dependencies(&config, "c");
    assert_eq!(sorted(&jobs), vec!["b"]);
}

#[test]
fn simplifies_dependencies() {
    let config = dependencies_example();
    let dependencies_d = get_dependencies(&config, "d");
    assert_eq!(sorted(&dependencies_d), vec!["c", "z"]);
}

#[test]
fn resolves_alias() {
    let config = dependencies_example();
    assert_eq!(
        sorted(&get_dependencies(&config, "d")),
        sorted(&get_dependencies(&config, "with_alias"))
    );
    let job = config.entries.iter().find(|(n, _)| n == "with_alias").unwrap();
    assert_eq!(job.1.command.clone().unwrap(), "echo with_alias");
}

#[test]
fn mod_filters_jobs() {
    let mut config = filtering_example();
    filter_jobs(&mut config, &["test".to_string()]).unwrap();
    assert_eq!(sorted(&names(&config)), vec!["test", "test_dependency"]);
}

#[test]
fn mod_fails_job_filtering() {
    let mut config = filtering_example();
    let expected_err = vec![
        "job 'doesnt_exist' not found in config file.",
        "",
        "Valid jobs are:",
        "  - not_test_dependency",
        "  - test (test_dependency)",
        "  - test_dependency",
    ]
    .join("\n");
    let mut err_message = String::new();
    if let Err(err) = filter_jobs(&mut config, &["doesnt_exist".to_string()]) {
        err_message = err.to_string();
    }
    assert_eq!(err_message, expected_err);
}

#[test]
fn mod_doesnt_filter_jobs() {
    let mut config = filtering_example();
    filter_jobs(&mut config, &[]).unwrap();
    assert_eq!(
        sorted(&names(&config)),
        vec!["not_test_dependency", "test", "test_dependency"]
    );
}

#[test]
fn config_filters_jobs() {
    let mut config = filtering_example();
    filter_jobs(&mut config, &["test".to_string()]).unwrap();
    assert_eq!(sorted(&names(&config)), vec!["test", "test_dependency"]);
}

#[test]
fn config_fails_job_filtering() {
    // the listing names each job's simplified dependencies
    let mut config = filtering_example();
    let expected_err = vec![
        "job 'doesnt_exist' not found in config file.",
        "",
        "Valid jobs are:",
        "  - not_test_dependency",
        "  - test (test_dependency)",
        "  - test_dependency",
    ]
    .join("\n");
    let err = filter_jobs(&mut config, &["doesnt_exist".to_string()]).unwrap_err();
    assert_eq!(err.to_string(), expected_err);
    assert_eq!(err.job, "doesnt_exist");
    assert_eq!(config.len(), 3);
}

#[test]
fn config_doesnt_filter_jobs() {
    let mut config = filtering_example();
    filter_jobs(&mut config, &[]).unwrap();
    assert_eq!(
        sorted(&names(&config)),
        sorted(&["test", "test_dependency", "not_test_dependency"])
    );
}

#[test]
fn filter_keeps_declaration_order() {
    let mut config = ops_of(&[
        ("x", "echo x", &[]),
        ("lib", "echo lib", &[]),
        ("app", "echo app", &["lib"]),
        ("other", "echo other", &[]),
    ]);
    filter_jobs(&mut config, &["app".to_string()]).unwrap();
    assert_eq!(names(&config), vec!["lib", "app"]);
}

#[test]
fn formatted_list_is_sorted_with_dependencies() {
    let config = ops_of(&[("b", "x", &["a", "c"]), ("a", "y", &[]), ("c", "z", &[])]);
    assert_eq!(get_formatted_list_of_jobs(&config), "  - a\n  - b (a,c)\n  - c");
}

#[test]
fn topological_order_puts_dependencies_first() {
    let config = ops_of(&[
        ("c", "echo c", &["a", "b"]),
        ("b", "echo b", &["a"]),
        ("a", "echo a", &[]),
    ]);
    let order = topological_order(&config).unwrap();
    assert_eq!(order, vec!["a", "b", "c"]);
}

#[test]
fn dag_lists_downstream_before_upstream() {
    let config = ops_of(&[("a", "echo a", &[]), ("b", "echo b", &["a"])]);
    let dag = build_dag(&config).unwrap();
    assert_eq!(dag.keys(), vec!["b", "a"]);
    assert_eq!(*dag.get_index(0).unwrap().1, Vec::<String>::new());
    assert_eq!(*dag.get_index(1).unwrap().1, vec!["b"]);
}

#[test]
fn fan_in_downstream_lists() {
    let config = ops_of(&[
        ("a", "sleep 0.1", &[]),
        ("b", "sleep 0.2", &[]),
        ("c", "echo c", &["a", "b"]),
    ]);
    let dag = build_dag(&config).unwrap();
    assert_eq!(dag.keys(), vec!["c", "b", "a"]);
    assert_eq!(*dag.get_index(1).unwrap().1, vec!["c"]);
    assert_eq!(*dag.get_index(2).unwrap().1, vec!["c"]);
}

#[test]
fn cycle_is_reported_with_its_tasks() {
    let config = ops_of(&[("a", "x", &["b"]), ("b", "y", &["a"])]);
    match build_dag(&config) {
        Err(GraphError::Cycle(names)) => {
            assert!(names.contains(&"a".to_string()));
            assert!(names.contains(&"b".to_string()));
        }
        other => panic!("unexpected {:?}", other.map(|d| d.keys())),
    }
}

#[test]
fn self_dependency_is_rejected() {
    let config = ops_of(&[("a", "x", &["a"])]);
    assert!(matches!(build_dag(&config), Err(GraphError::SelfDependency(n)) if n == "a"));
}

#[test]
fn unknown_dependency_is_rejected() {
    let config = ops_of(&[("a", "x", &["ghost"])]);
    assert!(matches!(
        build_dag(&config),
        Err(GraphError::UnknownDependency(d, op)) if d == "ghost" && op == "a"
    ));
}

#[test]
fn prepare_reports_graph_and_filter_errors() {
    let mut cyclic = ops_of(&[("a", "x", &["b"]), ("b", "y", &["a"])]);
    assert!(matches!(
        ConfigBuilder::new("f".to_string()).prepare(&mut cyclic),
        Err(ConfigError::Graph(_))
    ));
    let mut ops = ops_of(&[("a", "x", &[])]);
    let builder = ConfigBuilder::new("f".to_string()).filter(vec!["zz".to_string()]);
    assert!(matches!(builder.prepare(&mut ops), Err(ConfigError::Filter(_))));
}

#[test]
fn simplification_leaves_independent_dependencies() {
    let mut ops = ops_of(&[
        ("a", "x", &[]),
        ("b", "x", &["a"]),
        ("c", "x", &["a", "b"]),
    ]);
    simplify_dependencies(&mut ops);
    assert_eq!(get_dependencies(&ops, "c"), vec!["b"]);
    assert_eq!(get_dependencies(&ops, "b"), vec!["a"]);
}

#[test]
fn lift_resolves_each_shape() {
    assert_eq!(Lift::More(vec![1, 2]).resolve(), vec![1, 2]);
    assert_eq!(Lift::One(3).resolve(), vec![3]);
    assert_eq!(Lift::<i32>::Empty.resolve(), Vec::<i32>::new());
}

#[test]
fn roots_have_no_dependencies() {
    assert!(task("x", &[]).is_root());
    assert!(!task("x", &["a"]).is_root());
}
