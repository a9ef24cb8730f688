use whiz::graph_task::{Graph, Task};

fn task(name: &str, deps: &[&str]) -> Task {
    Task {
        name: name.to_owned(),
        depends_on: deps.iter().map(|d| d.to_string()).collect(),
    }
}

#[test]
fn test_split_tasks() {
    let task_vec = vec![task("once", &[]), task("once_b", &["once"]), task("third_task", &[])];
    assert_eq!(
        Task::split_tasks(&task_vec).0.get(0).unwrap(),
        &task_vec.get(2).unwrap()
    )
}

#[test]
fn split_multiple_tasks() {
    let tasks = vec![
        task("once", &[]),
        task("once_b", &["once"]),
        task("third_task", &[]),
        task("once_c", &["once", "once_b"]),
        task("speedy", &[]),
        task("err", &[]),
    ];
    let (indipendent_tasks, dependent_tasks) = Task::split_tasks(&tasks);
    assert_eq!(
        indipendent_tasks,
        &[
            tasks.get(2).unwrap(),
            tasks.get(4).unwrap(),
            tasks.get(5).unwrap()
        ]
    );
    assert_eq!(
        dependent_tasks,
        vec![
            tasks.get(0).unwrap(),
            tasks.get(1).unwrap(),
            tasks.get(3).unwrap()
        ]
    )
}

#[test]
fn dep_list_to_nodes() {
    let one = task("one", &[]);
    let two = task("two", &["one"]);
    let three = task("three", &["one", "two"]);
    let dependent_dictionary: Vec<(String, usize)> = vec![
        ("one".to_owned(), 1),
        ("two".to_owned(), 2),
        ("three".to_owned(), 3),
    ];
    let dependencies_for_one =
        Graph::dependecies_lists_to_tuple_nodes(&one.depends_on, 1, &dependent_dictionary);
    assert_eq!(dependencies_for_one, None);
    let dependencies_for_two =
        Graph::dependecies_lists_to_tuple_nodes(&two.depends_on, 2, &dependent_dictionary);
    let dependencies_for_three =
        Graph::dependecies_lists_to_tuple_nodes(&three.depends_on, 3, &dependent_dictionary);
    assert_eq!(dependencies_for_two, Some(vec![(1, 2)]));
    assert_eq!(dependencies_for_three, Some(vec![(1, 3), (2, 3)]));
}

#[test]
fn graph_layout_and_independent_line() {
    let tasks = vec![
        task("a", &[]),
        task("b", &["a"]),
        task("solo", &[]),
        task("other", &[]),
    ];
    let graph = Graph::from_tasks_list(&tasks);
    assert_eq!(graph.format_independent_task(), "|solo|    |other|\n\n");
    assert_eq!(graph.nodes(), vec![(0, "a".to_string()), (1, "b".to_string())]);
    assert_eq!(graph.edges(), vec![(0, 1)]);
    let empty = Graph::from_tasks_list(&[]);
    assert_eq!(empty.format_independent_task(), "");
}
