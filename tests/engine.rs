use whiz::config::Task;
use whiz::console::{Key, KeyAction, Navigator, Scroll};
use whiz::env::{lookup_var, parse_env_file, task_environment, EnvError};
use whiz::exec::{get_env, ExecBuilder, ExecError};
use whiz::lift::Lift;
use whiz::pipe::{dispatch_line, route_line, LineAction, OutputRedirection, Pipe, PipeError};
use whiz::reaper::{exit_code, GrimReaper};
use whiz::supervisor::{Action, ChildOutcome, ExitStatus, LogLine, Reload, Supervisor};
use whiz::watcher::{absolute_patterns, is_relevant, watch_subscription, ChangeKind, WatchGlob, WatchState};

fn s(x: &str) -> String {
    x.to_string()
}

fn pipe(re: &str, uri: &str) -> Pipe {
    Pipe::from((&s(re), &s(uri))).ok().unwrap()
}

fn is_spawn(a: &Action) -> bool {
    matches!(a, Action::Spawn(_))
}

#[test]
fn redirection_uris() {
    assert_eq!(OutputRedirection::from_str("./logs/server.log").ok().unwrap(), OutputRedirection::File(s("./logs/server.log")));
    assert_eq!(OutputRedirection::from_str("/dev/null").ok().unwrap(), OutputRedirection::File(s("/dev/null")));
    assert_eq!(OutputRedirection::from_str("whiz://virtual_views").ok().unwrap(), OutputRedirection::Tab(s("virtual_views")));
    assert_eq!(OutputRedirection::from_str("whiz://tab/sub").ok().unwrap(), OutputRedirection::Tab(s("tab/sub")));
    assert_eq!(OutputRedirection::from_str("file:///dev/null").ok().unwrap(), OutputRedirection::File(s("/dev/null")));
    assert!(matches!(OutputRedirection::from_str("http://x/y"), Err(PipeError::UnsupportedScheme(sc)) if sc == "http"));
    assert!(matches!(OutputRedirection::from_str("no scheme"), Err(PipeError::InvalidUri(_))));
    assert!(matches!(Pipe::from((&s("("), &s("whiz://x"))), Err(PipeError::InvalidRegex(_))));
}

#[test]
fn first_matching_pipe_wins() {
    let pipes = vec![pipe("^ERR", "whiz://errors"), pipe("E", "whiz://e"), pipe(".*", "/dev/null")];
    assert_eq!(route_line(&pipes, "ERR: boom"), Some(0));
    assert_eq!(route_line(&pipes, "an E"), Some(1));
    assert_eq!(route_line(&pipes, "plain"), Some(2));
    let only = vec![pipe("^x", "whiz://x")];
    assert_eq!(route_line(&only, "nope"), None);
}

#[test]
fn unmatched_line_goes_to_task_panel() {
    let pipes = vec![pipe("^x", "whiz://x")];
    let acts = dispatch_line(&s("web"), &pipes, s("hello"), &s("/base"));
    assert!(matches!(&acts[..], [LineAction::Output(p, l)] if p == "web" && l == "hello"));
}

#[test]
fn tab_name_expands_captures() {
    let pipes = vec![pipe("^\\[(\\w+)\\]", "whiz://log_$1")];
    let acts = dispatch_line(&s("web"), &pipes, s("[db] ready"), &s("/base"));
    assert!(matches!(&acts[..], [LineAction::RegisterPanel(n), LineAction::Output(p, l)]
        if n == "log_db" && p == "log_db" && l == "[db] ready"));
}

#[test]
fn file_pipe_ignores_path_before_append() {
    let pipes = vec![pipe(".*", "file://./out.log")];
    let acts = dispatch_line(&s("w"), &pipes, s("line one"), &s("/work"));
    assert_eq!(acts.len(), 2);
    match (&acts[0], &acts[1]) {
        (LineAction::IgnorePath(q), LineAction::Append(p, t)) => {
            assert_eq!(q, p);
            assert_eq!(p, "/work/./out.log");
            assert_eq!(t, "line one\n");
        }
        _ => panic!("unexpected actions"),
    }
    let abs = vec![pipe("(\\w+)", "/tmp/$1.log")];
    let acts = dispatch_line(&s("w"), &abs, s("alpha beta"), &s("/work"));
    assert!(matches!(&acts[0], LineAction::IgnorePath(q) if q == "/tmp/alpha.log beta"));
}

#[test]
fn linear_dependency_protocol() {
    let mut a = Supervisor::new(s("a"), vec![s("b")]);
    let mut b = Supervisor::new(s("b"), vec![]);
    let acts = a.on_reload(Reload::Start);
    assert!(matches!(&acts[0], Action::NotifyWillReload(n) if n == "b"));
    assert!(matches!(acts[1], Action::PanelRunning));
    let marker = match acts[2] { Action::Spawn(m) => m, _ => panic!("no spawn") };
    let acts_b = b.on_will_reload(&s("a"));
    assert!(matches!(&acts_b[0], Action::Log(LogLine::WaitingOn(n)) if n == "a"));
    assert_eq!(b.upstream(), vec![(s("a"), 1)]);
    let end = a.on_stdout_terminated(marker, ChildOutcome::Exited(ExitStatus::Exited(0)));
    assert!(matches!(&end[0], Action::NotifyReloaded(n) if n == "b"));
    assert!(matches!(end[1], Action::PanelExited(ExitStatus::Exited(0))));
    let acts_b = b.on_reload(Reload::Op(s("a")));
    assert!(b.upstream().is_empty());
    assert!(matches!(acts_b[0], Action::Log(LogLine::UpstreamFinished)));
    assert!(acts_b.iter().any(is_spawn));
}

#[test]
fn fan_in_waits_for_both_upstreams() {
    let mut c = Supervisor::new(s("c"), vec![]);
    c.on_will_reload(&s("a"));
    c.on_will_reload(&s("b"));
    let acts = c.on_reload(Reload::Op(s("a")));
    assert!(!acts.iter().any(is_spawn));
    assert_eq!(c.exit_status(), None);
    let acts = c.on_reload(Reload::Op(s("b")));
    assert!(acts.iter().any(is_spawn));
}

#[test]
fn overlapping_restarts_are_counted() {
    let mut c = Supervisor::new(s("c"), vec![]);
    c.on_will_reload(&s("a"));
    c.on_will_reload(&s("a"));
    assert_eq!(c.upstream(), vec![(s("a"), 2)]);
    assert!(!c.on_reload(Reload::Op(s("a"))).iter().any(is_spawn));
    assert!(c.on_reload(Reload::Op(s("a"))).iter().any(is_spawn));
    // a finished restart that was never announced leaves the counter at zero
    let mut d = Supervisor::new(s("d"), vec![]);
    assert!(d.on_reload(Reload::Op(s("x"))).iter().any(is_spawn));
    assert!(d.upstream().is_empty());
}

#[test]
fn reload_kills_running_child_before_spawning() {
    let mut a = Supervisor::new(s("a"), vec![s("b")]);
    a.on_reload(Reload::Start);
    let acts = a.on_reload(Reload::Manual);
    let kill = acts.iter().position(|x| matches!(x, Action::Kill)).unwrap();
    let spawn = acts.iter().position(is_spawn).unwrap();
    assert!(kill < spawn);
    assert!(matches!(&acts[1], Action::NotifyReloaded(n) if n == "b"));
    assert_eq!(acts.iter().filter(|x| is_spawn(x)).count(), 1);
    let watch = a.on_reload(Reload::Watch(s("/x/a.log")));
    assert!(watch.iter().any(|x| matches!(x, Action::Log(LogLine::FileChanged(f)) if f == "/x/a.log")));
}

#[test]
fn stale_end_of_output_is_ignored() {
    let mut a = Supervisor::new(s("a"), vec![]);
    let first = a.on_reload(Reload::Start);
    let old = match first[1] { Action::Spawn(m) => m, _ => panic!("no spawn") };
    a.on_reload(Reload::Manual);
    assert!(a.on_stdout_terminated(old, ChildOutcome::Killed).is_empty());
    assert_eq!(a.exit_status(), None);
}

#[test]
fn invitation_answered_on_exit() {
    let mut a = Supervisor::new(s("a"), vec![]);
    let acts = a.on_reload(Reload::Start);
    let m = match acts[1] { Action::Spawn(m) => m, _ => panic!("no spawn") };
    assert!(a.on_invite().is_empty());
    let end = a.on_stdout_terminated(m, ChildOutcome::Exited(ExitStatus::Exited(3)));
    assert!(matches!(end.last(), Some(Action::Rsvp(ExitStatus::Exited(3)))));
    assert!(matches!(a.on_invite()[..], [Action::Rsvp(ExitStatus::Exited(3))]));
    let mut k = Supervisor::new(s("k"), vec![]);
    k.on_reload(Reload::Start);
    let pill = k.on_poison_pill();
    assert!(matches!(pill[..], [Action::Kill, Action::Stop]));
    assert!(matches!(k.on_invite()[..], [Action::Rsvp(ExitStatus::Other(1))]));
}

#[test]
fn poll_records_exit() {
    let mut a = Supervisor::new(s("a"), vec![]);
    a.on_reload(Reload::Start);
    assert_eq!(a.on_poll(None), None);
    assert_eq!(a.on_poll(Some(ExitStatus::Signaled(9))), Some(ExitStatus::Signaled(9)));
}

#[test]
fn reaper_exit_codes() {
    let mut r = GrimReaper::start_new(vec![s("ok"), s("bad")]);
    assert_eq!(r.accept(&s("ok"), ExitStatus::Exited(0)), None);
    assert_eq!(r.accept(&s("bad"), ExitStatus::Exited(1)), Some(1));
    let mut all_ok = GrimReaper::start_new(vec![s("test")]);
    assert_eq!(all_ok.accept(&s("unknown"), ExitStatus::Exited(5)), None);
    assert_eq!(all_ok.accept(&s("test"), ExitStatus::Exited(0)), Some(0));
    let mut first = GrimReaper::start_new(vec![s("x"), s("y")]);
    first.accept(&s("y"), ExitStatus::Signaled(9));
    assert_eq!(first.accept(&s("x"), ExitStatus::Exited(2)), Some(9));
    assert_eq!(exit_code(ExitStatus::Undetermined), 1);
    assert_eq!(exit_code(ExitStatus::Other(7)), 7);
}

#[test]
fn exec_command_lines() {
    let t = Task::new(Some(s("ls -la")));
    let (cmd, args) = t.get_exec_command().unwrap();
    assert_eq!(cmd, "bash");
    assert_eq!(args, vec![s("-c"), s("ls -la")]);
    let mut py = Task::new(Some(s("print(1)")));
    py.entrypoint = Some(s("python3 -c"));
    assert_eq!(py.get_exec_command().unwrap(), (s("python3"), vec![s("-c"), s("print(1)")]));
    let mut bad = Task::new(None);
    bad.entrypoint = Some(s("'unclosed"));
    assert!(matches!(bad.get_exec_command(), Err(ExecError::InvalidEntrypoint(_))));
    let mut empty = Task::new(Some(s("")));
    empty.entrypoint = Some(s("bash -c"));
    assert_eq!(empty.get_exec_command().unwrap(), (s("bash"), vec![s("-c")]));
    let mut wd = Task::new(Some(s("ls")));
    wd.workdir = Some(s("sub"));
    assert_eq!(wd.get_absolute_workdir("/base"), "/base/sub");
    let b = ExecBuilder::new(&wd, "/base", get_env()).ok().unwrap();
    assert_eq!(b.to_string(), "EXEC: bash [\"-c\", \"ls\"] at \"/base/sub\"");
    assert_eq!(get_env(), vec![(s("RUST_LOG"), s("info"))]);
    wd.watch = Lift::One(s("*.rs"));
}

#[test]
fn watcher_selects_and_ignores() {
    let mut w = WatchState::new();
    w.add_glob(WatchGlob::new(s("w"), vec![s("/p/**/*.log")], vec![s("/p/skip/*")]).unwrap());
    w.add_glob(WatchGlob::new(s("v"), vec![s("/p/*.rs")], vec![]).unwrap());
    let paths = vec![s("/p/a.log"), s("/p/skip/b.log"), s("/p/m.rs"), s("/p/c.log")];
    let reloads = w.on_event(&paths);
    assert_eq!(reloads, vec![(s("w"), s("/p/a.log, /p/c.log")), (s("v"), s("/p/m.rs"))]);
    w.ignore_path(s("/p/a.log"));
    w.ignore_path(s("/p/c.log"));
    assert_eq!(w.on_event(&paths), vec![(s("v"), s("/p/m.rs"))]);
    assert!(WatchGlob::new(s("x"), vec![s("a[")], vec![]).is_none());
    assert!(is_relevant(ChangeKind::ModifyData));
    assert!(!is_relevant(ChangeKind::Other));
}

#[test]
fn console_navigation() {
    let mut nav = Navigator::new(vec![s("a"), s("b"), s("c")]);
    nav.previous();
    assert_eq!(nav.index, "c");
    nav.next();
    assert_eq!(nav.index, "a");
    nav.digit(2);
    assert_eq!(nav.index, "b");
    nav.digit(0);
    assert_eq!(nav.index, "c");
    nav.digit(9);
    assert_eq!(nav.index, "c");
    nav.register(s("d"));
    nav.register(s("a"));
    assert_eq!(nav.order.len(), 4);
    let mut sc = Scroll { lines: 10, shift: 0 };
    sc.up(5, 4);
    assert_eq!(sc.shift, 5);
    sc.up(5, 4);
    assert_eq!(sc.shift, 6);
    sc.down(10);
    assert_eq!(sc.shift, 0);
}

#[test]
fn environment_layers_and_interpolation() {
    let process = vec![(s("HOME"), s("/home/u")), (s("USER"), s("u"))];
    let shared = vec![(s("DATA"), s("$HOME/data")), (s("MISSING"), s("x${NOPE}y"))];
    let files = vec![parse_env_file("A=${DATA}/a\nB=\"line\\nnext\"\n").unwrap()];
    let inline = vec![(s("USER"), s("me-$USER"))];
    let env = task_environment(process, &shared, &files, &inline);
    assert_eq!(lookup_var(&env, "DATA"), "/home/u/data");
    assert_eq!(lookup_var(&env, "MISSING"), "xy");
    assert_eq!(lookup_var(&env, "A"), "/home/u/data/a");
    assert_eq!(lookup_var(&env, "B"), "line\nnext");
    assert_eq!(lookup_var(&env, "USER"), "me-u");
    assert_eq!(lookup_var(&env, "ABSENT"), "");
    assert_eq!(parse_env_file("=broken"), Err(EnvError::Unparsable));
}

#[test]
fn watch_patterns_are_made_absolute() {
    assert_eq!(
        absolute_patterns("/base/app", &vec![s("*.log"), s("../lib/*.rs"), s("/abs/x")]).unwrap(),
        vec![s("/base/app/*.log"), s("/base/lib/*.rs"), s("/abs/x")]
    );
    let none = watch_subscription(&s("t"), &vec![], &vec![], "/base", true).unwrap();
    assert!(none.is_none());
    let off = watch_subscription(&s("t"), &vec![s("*.rs")], &vec![], "/base", false).unwrap();
    assert!(off.is_none());
    let sub = watch_subscription(&s("t"), &vec![s("*.rs")], &vec![s("skip.rs")], "/base", true).unwrap().unwrap();
    assert_eq!(sub.command(), "t");
    assert!(sub.selects(&s("/base/main.rs")));
    assert!(!sub.selects(&s("/base/skip.rs")));
}

#[test]
fn task_pipes_compile_in_order() {
    let ok = whiz::pipe::task_pipes(&vec![(s("^a"), s("whiz://a")), (s("b"), s("./b.log"))]).ok().unwrap();
    assert_eq!(ok.len(), 2);
    assert_eq!(*ok[1].redirection(), OutputRedirection::File(s("./b.log")));
    assert!(whiz::pipe::task_pipes(&vec![(s("^a"), s("ftp://x"))]).is_err());
}

#[test]
fn keys_follow_the_console_table() {
    let mut nav = Navigator::new(vec![s("a"), s("b"), s("c")]);
    let mut sc = Scroll { lines: 30, shift: 0 };
    assert_eq!(nav.on_key(Key::Char('q'), &mut sc, 10), KeyAction::Quit);
    assert_eq!(nav.on_key(Key::Ctrl('c'), &mut sc, 10), KeyAction::Quit);
    assert_eq!(nav.on_key(Key::Char('l'), &mut sc, 10), KeyAction::Nothing);
    assert_eq!(nav.index, "b");
    assert_eq!(nav.on_key(Key::Char('r'), &mut sc, 10), KeyAction::Reload(s("b")));
    nav.on_key(Key::Left, &mut sc, 10);
    nav.on_key(Key::Char('h'), &mut sc, 10);
    assert_eq!(nav.index, "c");
    nav.on_key(Key::Char('1'), &mut sc, 10);
    assert_eq!(nav.index, "a");
    nav.on_key(Key::Char('0'), &mut sc, 10);
    assert_eq!(nav.index, "c");
    nav.on_key(Key::Char('k'), &mut sc, 10);
    nav.on_key(Key::Ctrl('p'), &mut sc, 10);
    assert_eq!(sc.shift, 2);
    nav.on_key(Key::Ctrl('b'), &mut sc, 10);
    assert_eq!(sc.shift, 12);
    nav.on_key(Key::Ctrl('d'), &mut sc, 10);
    assert_eq!(sc.shift, 7);
    nav.on_key(Key::Char('j'), &mut sc, 10);
    assert_eq!(sc.shift, 6);
    nav.on_key(Key::Ctrl('f'), &mut sc, 10);
    assert_eq!(sc.shift, 0);
    assert_eq!(nav.on_key(Key::Tab, &mut sc, 10), KeyAction::Nothing);
    assert_eq!(nav.index, "c");
}

#[test]
fn spawn_markers_count_up() {
    let mut a = Supervisor::new(s("a"), vec![]);
    let m1 = match a.on_reload(Reload::Start)[1] { Action::Spawn(m) => m, _ => panic!("no spawn") };
    let m2 = match a.on_reload(Reload::Manual).last() { Some(Action::Spawn(m)) => *m, _ => panic!("no spawn") };
    assert_eq!(m2, m1 + 1);
}
