use crate::lift::string_seq;
use vstd::prelude::*;

verus! {

/// How a child process ended.
#[derive(Debug, Clone, Copy, PartialEq, Eq, Structural)]
pub enum ExitStatus {
    Exited(u32),
    Signaled(u8),
    Other(i32),
    Undetermined,
}

impl ExitStatus {
    pub open spec fn is_success(self) -> bool {
        self == ExitStatus::Exited(0)
    }

    /// Whether the process exited with code zero.
    pub fn success(&self) -> (r: bool)
        ensures
            r == self.is_success(),
    {
        match self {
            ExitStatus::Exited(c) => *c == 0,
            _ => false,
        }
    }
}

/// The child process a supervisor owns.
#[derive(Debug, Clone, Copy, PartialEq, Eq, Structural)]
pub enum ChildState {
    NotStarted,
    Running,
    Killed,
    Exited(ExitStatus),
}

impl ChildState {
    pub open spec fn is_running(self) -> bool {
        self is Running
    }

    /// The terminal status, if the child has reached one.
    pub open spec fn status(self) -> Option<ExitStatus> {
        match self {
            ChildState::Killed => Some(ExitStatus::Undetermined),
            ChildState::Exited(s) => Some(s),
            _ => None,
        }
    }

    /// The status reported to the exit-status collector.
    pub open spec fn final_status(self) -> Option<ExitStatus> {
        match self {
            ChildState::Killed => Some(ExitStatus::Other(1)),
            ChildState::Exited(s) => Some(s),
            _ => None,
        }
    }
}

/// How a child that stopped writing output ended: it exited within the
/// grace period, or had to be killed.
#[derive(Debug, Clone, Copy, PartialEq, Eq, Structural)]
pub enum ChildOutcome {
    Exited(ExitStatus),
    Killed,
}

/// Why a supervisor is asked to (re)start its child.
#[derive(Debug, Clone)]
pub enum Reload {
    Start,
    Manual,
    /// Files matching the task's watch patterns changed.
    Watch(String),
    /// The named upstream task finished a restart.
    Op(String),
}

/// A line for the task's panel.
#[derive(Debug, Clone)]
pub enum LogLine {
    WaitingOn(String),
    ManualReload,
    /// A manual reload while upstream restarts are pending; the counters
    /// are those of `Supervisor::upstream`.
    ManualReloadWhilePending,
    FileChanged(String),
    UpstreamFinished,
}

/// What the runtime must do on behalf of a supervisor, in order.
#[derive(Debug, Clone)]
pub enum Action {
    /// Terminate the running child: graceful, then forced.
    Kill,
    /// Tell the named downstream task that the supervised task finished a restart.
    NotifyReloaded(String),
    /// Tell the named downstream task that the supervised task is about to restart.
    NotifyWillReload(String),
    /// Mark the panel as running.
    PanelRunning,
    /// Report the child's terminal status on the panel.
    PanelExited(ExitStatus),
    /// Spawn a new child, tagged with this marker.
    Spawn(u64),
    Log(LogLine),
    /// Answer the exit-status collector's invitation, then stop.
    Rsvp(ExitStatus),
    /// Stop the supervisor.
    Stop,
}

/// Per-task supervisor state: the child, the pending-upstream counters, the
/// marker of the current child, and whether an exit invitation is held.
pub struct Supervisor {
    pub name: String,
    pub downstream: Vec<String>,
    pub child: ChildState,
    /// Pending-upstream counters: names unique, counts at least one.
    pub pending: Vec<(String, usize)>,
    /// Marker of the current child; a stale end of output carries another.
    pub marker: u64,
    pub invited: bool,
}

/// The counter of `up` in a list of (name, counter) pairs, zero when absent.
pub open spec fn count_in(p: Seq<(String, usize)>, up: Seq<char>) -> nat {
    if exists|i: int| 0 <= i < p.len() && (#[trigger] p[i]).0@ == up {
        p[choose|i: int| 0 <= i < p.len() && (#[trigger] p[i]).0@ == up].1 as nat
    } else {
        0
    }
}

/// Names are unique and counters positive.
pub open spec fn counters_wf(p: Seq<(String, usize)>) -> bool {
    &&& forall|i: int, j: int|
        0 <= i < p.len() && 0 <= j < p.len() && (#[trigger] p[i]).0@ == (#[trigger] p[j]).0@ ==> i == j
    &&& forall|i: int| 0 <= i < p.len() ==> (#[trigger] p[i]).1 >= 1
}

proof fn lemma_count_in_at(p: Seq<(String, usize)>, i: int)
    requires
        counters_wf(p),
        0 <= i < p.len(),
    ensures
        count_in(p, p[i].0@) == p[i].1 as nat,
{
    let up = p[i].0@;
    let k = choose|k: int| 0 <= k < p.len() && (#[trigger] p[k]).0@ == up;
    assert(p[k].0@ == p[i].0@);
}

/// `acts` spawns at most once, and only after a `Kill` when a child was
/// running: a supervisor never holds two live children.
pub open spec fn spawn_guarded(was_running: bool, acts: Seq<Action>) -> bool {
    &&& forall|i: int|
        0 <= i < acts.len() && (#[trigger] acts[i]) is Spawn ==> !was_running || exists|j: int|
            0 <= j < i && acts[j] is Kill
    &&& forall|i: int, j: int| 0 <= i < j < acts.len() && (#[trigger] acts[i]) is Spawn ==> !((#[trigger] acts[j]) is Spawn)
}

/// The notifications sent to every downstream task, in order: finished
/// restarts (`true`) or announced ones (`false`).
pub open spec fn notify_seq(down: Seq<String>, reloaded: bool) -> Seq<Action> {
    Seq::new(
        down.len(),
        |i: int|
            if reloaded {
                Action::NotifyReloaded(down[i])
            } else {
                Action::NotifyWillReload(down[i])
            },
    )
}

/// What stopping the child emits: a kill and a finished-restart notice to
/// every downstream task when it ran, nothing otherwise.
pub open spec fn stop_seq(running: bool, down: Seq<String>) -> Seq<Action> {
    if running {
        seq![Action::Kill] + notify_seq(down, true)
    } else {
        Seq::empty()
    }
}

/// The marker of the next child: one more than the last, so markers only
/// repeat after 2^64 spawns.
pub open spec fn next_marker(m: u64) -> u64 {
    if m < u64::MAX {
        (m + 1) as u64
    } else {
        0
    }
}

/// What spawning emits.
pub open spec fn spawn_seq(marker: u64) -> Seq<Action> {
    seq![Action::PanelRunning, Action::Spawn(marker)]
}

impl Supervisor {
    pub open spec fn child(&self) -> ChildState {
        self.child
    }

    pub open spec fn marker(&self) -> u64 {
        self.marker
    }

    pub open spec fn invited(&self) -> bool {
        self.invited
    }

    /// Announced restarts of `up` that have not finished yet.
    pub open spec fn pending_count(&self, up: Seq<char>) -> nat {
        count_in(self.pending@, up)
    }

    /// Some upstream restart is still pending.
    pub open spec fn is_waiting(&self) -> bool {
        self.pending@.len() > 0
    }

    pub open spec fn wf(&self) -> bool {
        counters_wf(self.pending@)
    }

    /// A supervisor for task `name` whose direct dependents are `downstream`.
    pub fn new(name: String, downstream: Vec<String>) -> (r: Supervisor)
        ensures
            r.wf(),
            r.name == name,
            r.downstream == downstream,
            r.child() == ChildState::NotStarted,
            !r.invited(),
            !r.is_waiting(),
            forall|up: Seq<char>| r.pending_count(up) == 0,
    {
        Supervisor {
            name,
            downstream,
            child: ChildState::NotStarted,
            pending: Vec::new(),
            marker: 0,
            invited: false,
        }
    }

    /// The terminal status of the child, or `None` while it runs or before
    /// it started.
    pub fn exit_status(&self) -> (r: Option<ExitStatus>)
        ensures
            r == self.child().status(),
    {
        match self.child {
            ChildState::Killed => Some(ExitStatus::Undetermined),
            ChildState::Exited(s) => Some(s),
            _ => None,
        }
    }

    /// The upstream counters, in the order they were first announced.
    pub fn upstream(&self) -> (r: Vec<(String, usize)>)
        ensures
            r@ == self.pending@,
    {
        let mut r: Vec<(String, usize)> = Vec::new();
        let mut i: usize = 0;
        while i < self.pending.len()
            invariant
                i <= self.pending@.len(),
                r@ == self.pending@.take(i as int),
            decreases self.pending@.len() - i,
        {
            let (n, c) = &self.pending[i];
            r.push((n.clone(), *c));
            i += 1;
            assert(r@ =~= self.pending@.take(i as int));
        }
        assert(self.pending@.take(i as int) =~= self.pending@);
        r
    }

    fn position(&self, up: &String) -> (r: Option<usize>)
        ensures
            r matches Some(i) ==> i < self.pending@.len() && self.pending@[i as int].0@ == up@,
            r is None ==> forall|i: int| 0 <= i < self.pending@.len() ==> (#[trigger] self.pending@[i]).0@ != up@,
    {
        let mut i: usize = 0;
        while i < self.pending.len()
            invariant
                i <= self.pending@.len(),
                forall|j: int| 0 <= j < i ==> (#[trigger] self.pending@[j]).0@ != up@,
            decreases self.pending@.len() - i,
        {
            if self.pending[i].0 == *up {
                return Some(i);
            }
            i += 1;
        }
        None
    }

    /// Sends `Kill` if the child runs, marks it killed and tells every
    /// downstream task that the run ended.
    fn ensure_stopped(&mut self, acts: &mut Vec<Action>)
        ensures
            final(self).name == old(self).name,
            final(self).downstream == old(self).downstream,
            final(self).pending == old(self).pending,
            final(self).marker == old(self).marker,
            final(self).invited == old(self).invited,
            old(self).child.is_running() ==> final(self).child == ChildState::Killed,
            !old(self).child.is_running() ==> final(self).child == old(self).child,
            final(acts)@ == old(acts)@ + stop_seq(old(self).child.is_running(), old(self).downstream@),
    {
        if self.child == ChildState::Running {
            let ghost a0 = acts@;
            acts.push(Action::Kill);
            self.child = ChildState::Killed;
            self.notify(acts, true);
            assert(acts@ =~= a0 + stop_seq(true, self.downstream@));
        } else {
            assert(acts@ =~= acts@ + stop_seq(false, self.downstream@));
        }
    }

    /// Sends a notification of the given kind to every downstream task.
    fn notify(&self, acts: &mut Vec<Action>, reloaded: bool)
        ensures
            final(acts)@ == old(acts)@ + notify_seq(self.downstream@, reloaded),
    {
        let ghost a0 = acts@;
        let mut i: usize = 0;
        while i < self.downstream.len()
            invariant
                i <= self.downstream@.len(),
                acts@ == a0 + notify_seq(self.downstream@.take(i as int), reloaded),
            decreases self.downstream@.len() - i,
        {
            let n = self.downstream[i].clone();
            if reloaded {
                acts.push(Action::NotifyReloaded(n));
            } else {
                acts.push(Action::NotifyWillReload(n));
            }
            i += 1;
            assert(acts@ =~= a0 + notify_seq(self.downstream@.take(i as int), reloaded));
        }
        assert(self.downstream@.take(i as int) =~= self.downstream@);
    }
}

/// Counter update on an announcement (`true`) or a finished restart
/// (`false`) from `from`, seen for the counter of `up`.
pub open spec fn step_count(c: nat, announce: bool, from: Seq<char>, up: Seq<char>) -> nat {
    if from != up {
        c
    } else if announce {
        c + 1
    } else if c > 0 {
        (c - 1) as nat
    } else {
        0
    }
}

/// Same names at the same positions.
spec fn same_names(before: Seq<(String, usize)>, after: Seq<(String, usize)>) -> bool {
    after.len() == before.len() && forall|k: int| 0 <= k < before.len() ==> (#[trigger] after[k]).0@ == before[k].0@
}

proof fn lemma_update_counter(before: Seq<(String, usize)>, after: Seq<(String, usize)>, i: int, announce: bool, up: Seq<char>)
    requires
        counters_wf(before),
        0 <= i < before.len(),
        before[i].0@ == up,
        same_names(before, after),
        forall|k: int| 0 <= k < before.len() && k != i ==> #[trigger] after[k] == before[k],
        after[i].1 >= 1,
        after[i].1 as nat == step_count(before[i].1 as nat, announce, up, up),
    ensures
        counters_wf(after),
        forall|x: Seq<char>| #[trigger] count_in(after, x) == step_count(count_in(before, x), announce, up, x),
{
    assert forall|a: int, b: int| 0 <= a < after.len() && 0 <= b < after.len() && (#[trigger] after[a]).0@ == (#[trigger] after[b]).0@ implies a == b by {
        assert(after[a].0@ == before[a].0@ && after[b].0@ == before[b].0@);
    }
    assert forall|a: int| 0 <= a < after.len() implies (#[trigger] after[a]).1 >= 1 by {
        if a != i {
            assert(after[a] == before[a]);
        }
    }
    assert forall|x: Seq<char>| #[trigger] count_in(after, x) == step_count(count_in(before, x), announce, up, x) by {
        lemma_count_in_at(before, i);
        if x == up {
            lemma_count_in_at(after, i);
        } else if exists|k: int| 0 <= k < after.len() && (#[trigger] after[k]).0@ == x {
            let k = choose|k: int| 0 <= k < after.len() && (#[trigger] after[k]).0@ == x;
            assert(after[k] == before[k]);
            lemma_count_in_at(after, k);
            lemma_count_in_at(before, k);
        } else {
            assert forall|k: int| 0 <= k < before.len() implies (#[trigger] before[k]).0@ != x by {
                assert(after[k].0@ == before[k].0@);
            }
        }
    }
}

impl Supervisor {
    fn increment(&mut self, up: &String)
        requires
            old(self).wf(),
            old(self).pending_count(up@) < usize::MAX,
        ensures
            final(self).wf(),
            final(self).name == old(self).name,
            final(self).downstream == old(self).downstream,
            final(self).child == old(self).child,
            final(self).marker == old(self).marker,
            final(self).invited == old(self).invited,
            forall|x: Seq<char>| #[trigger] final(self).pending_count(x) == step_count(old(self).pending_count(x), true, up@, x),
    {
        let ghost before = self.pending@;
        match self.position(up) {
            Some(i) => {
                proof {
                    lemma_count_in_at(before, i as int);
                }
                let c = self.pending[i].1;
                let n = self.pending[i].0.clone();
                self.pending.set(i, (n, c + 1));
                proof {
                    lemma_update_counter(before, self.pending@, i as int, true, up@);
                }
            },
            None => {
                self.pending.push((up.clone(), 1));
                proof {
                    let after = self.pending@;
                    assert forall|a: int, b: int| 0 <= a < after.len() && 0 <= b < after.len() && (#[trigger] after[a]).0@ == (#[trigger] after[b]).0@ implies a == b by {
                        if a < before.len() {
                            assert(after[a] == before[a]);
                        }
                        if b < before.len() {
                            assert(after[b] == before[b]);
                        }
                    }
                    assert forall|a: int| 0 <= a < after.len() implies (#[trigger] after[a]).1 >= 1 by {
                        if a < before.len() {
                            assert(after[a] == before[a]);
                        }
                    }
                    assert forall|x: Seq<char>| #[trigger] count_in(after, x) == step_count(count_in(before, x), true, up@, x) by {
                        if x == up@ {
                            lemma_count_in_at(after, before.len() as int);
                        } else if exists|k: int| 0 <= k < after.len() && (#[trigger] after[k]).0@ == x {
                            let k = choose|k: int| 0 <= k < after.len() && (#[trigger] after[k]).0@ == x;
                            assert(after[k] == before[k]);
                            lemma_count_in_at(after, k);
                            lemma_count_in_at(before, k);
                        } else {
                            assert forall|k: int| 0 <= k < before.len() implies (#[trigger] before[k]).0@ != x by {
                                assert(after[k] == before[k]);
                            }
                        }
                    }
                }
            },
        }
    }

    fn decrement(&mut self, up: &String)
        requires
            old(self).wf(),
        ensures
            final(self).wf(),
            final(self).name == old(self).name,
            final(self).downstream == old(self).downstream,
            final(self).child == old(self).child,
            final(self).marker == old(self).marker,
            final(self).invited == old(self).invited,
            forall|x: Seq<char>| #[trigger] final(self).pending_count(x) == step_count(old(self).pending_count(x), false, up@, x),
    {
        let ghost before = self.pending@;
        match self.position(up) {
            Some(i) => {
                proof {
                    lemma_count_in_at(before, i as int);
                }
                let c = self.pending[i].1;
                if c > 1 {
                    let n = self.pending[i].0.clone();
                    self.pending.set(i, (n, c - 1));
                    proof {
                        lemma_update_counter(before, self.pending@, i as int, false, up@);
                    }
                } else {
                    let _ = self.pending.remove(i);
                    proof {
                        let after = self.pending@;
                        assert forall|k: int| 0 <= k < after.len() implies #[trigger] after[k] == before[if k < i { k } else { k + 1 }] by {}
                        assert forall|a: int, b: int| 0 <= a < after.len() && 0 <= b < after.len() && (#[trigger] after[a]).0@ == (#[trigger] after[b]).0@ implies a == b by {
                            assert(after[a] == before[if a < i { a } else { a + 1 }]);
                            assert(after[b] == before[if b < i { b } else { b + 1 }]);
                        }
                        assert forall|a: int| 0 <= a < after.len() implies (#[trigger] after[a]).1 >= 1 by {
                            assert(after[a] == before[if a < i { a } else { a + 1 }]);
                        }
                        assert forall|x: Seq<char>| #[trigger] count_in(after, x) == step_count(count_in(before, x), false, up@, x) by {
                            if exists|k: int| 0 <= k < after.len() && (#[trigger] after[k]).0@ == x {
                                let k = choose|k: int| 0 <= k < after.len() && (#[trigger] after[k]).0@ == x;
                                let k0 = if k < i { k } else { k + 1 };
                                assert(after[k] == before[k0]);
                                lemma_count_in_at(after, k);
                                lemma_count_in_at(before, k0);
                                if x == up@ {
                                    assert(before[k0].0@ == before[i as int].0@);
                                }
                            } else if x != up@ {
                                assert forall|k: int| 0 <= k < before.len() implies (#[trigger] before[k]).0@ != x by {
                                    if k < i {
                                        assert(after[k] == before[k]);
                                    } else if k > i {
                                        assert(after[k - 1] == before[k]);
                                    }
                                }
                            }
                        }
                    }
                }
            },
            None => {
                proof {
                    assert forall|x: Seq<char>| #[trigger] count_in(before, x) == step_count(count_in(before, x), false, up@, x) by {
                        if x == up@ {
                            assert(!(exists|k: int| 0 <= k < before.len() && (#[trigger] before[k]).0@ == x));
                        }
                    }
                }
            },
        }
    }
}

/// The counters are those of `old` after one announcement (`true`) or one
/// finished restart (`false`) from `from`.
pub open spec fn counters_step(old: Supervisor, new: Supervisor, announce: bool, from: Seq<char>) -> bool {
    forall|x: Seq<char>| #[trigger] new.pending_count(x) == step_count(old.pending_count(x), announce, from, x)
}

/// The counters did not change.
pub open spec fn counters_same(old: Supervisor, new: Supervisor) -> bool {
    forall|x: Seq<char>| #[trigger] new.pending_count(x) == old.pending_count(x)
}

impl Supervisor {
    /// Starts a new child: the child must not be running.
    fn spawn(&mut self, acts: &mut Vec<Action>)
        requires
            !old(self).child.is_running(),
        ensures
            final(self).child == ChildState::Running,
            final(self).marker == next_marker(old(self).marker),
            final(self).name == old(self).name,
            final(self).downstream == old(self).downstream,
            final(self).pending == old(self).pending,
            final(self).invited == old(self).invited,
            final(acts)@ == old(acts)@ + spawn_seq(final(self).marker),
    {
        self.marker = if self.marker < u64::MAX {
            self.marker + 1
        } else {
            0
        };
        self.child = ChildState::Running;
        acts.push(Action::PanelRunning);
        acts.push(Action::Spawn(self.marker));
    }

    /// An upstream task announces a restart: count it, stop the child and
    /// pass the announcement on downstream.
    pub fn on_will_reload(&mut self, from: &String) -> (r: Vec<Action>)
        requires
            old(self).wf(),
            old(self).pending_count(from@) < usize::MAX,
        ensures
            final(self).wf(),
            counters_step(*old(self), *final(self), true, from@),
            final(self).child == (if old(self).child.is_running() {
                ChildState::Killed
            } else {
                old(self).child
            }),
            final(self).name == old(self).name && final(self).downstream == old(self).downstream,
            final(self).marker == old(self).marker && final(self).invited == old(self).invited,
            r@ == seq![Action::Log(LogLine::WaitingOn(*from))] + stop_seq(
                old(self).child.is_running(),
                old(self).downstream@,
            ) + notify_seq(old(self).downstream@, false),
            spawn_guarded(old(self).child.is_running(), r@),
    {
        let ghost s0 = *self;
        self.increment(from);
        let ghost s1 = *self;
        let mut acts: Vec<Action> = Vec::new();
        acts.push(Action::Log(LogLine::WaitingOn(from.clone())));
        self.ensure_stopped(&mut acts);
        self.notify(&mut acts, false);
        proof {
            assert forall|x: Seq<char>| #[trigger] self.pending_count(x) == step_count(s0.pending_count(x), true, from@, x) by {
                assert(s1.pending_count(x) == step_count(s0.pending_count(x), true, from@, x));
            }
            assert forall|i: int| 0 <= i < acts@.len() implies !((#[trigger] acts@[i]) is Spawn) by {}
        }
        acts
    }

    /// A reload request: stop the child, then restart it, unless this is an
    /// upstream's finished restart and other upstream restarts are still
    /// pending.
    pub fn on_reload(&mut self, kind: Reload) -> (r: Vec<Action>)
        requires
            old(self).wf(),
        ensures
            final(self).wf(),
            final(self).name == old(self).name && final(self).downstream == old(self).downstream,
            final(self).invited == old(self).invited,
            spawn_guarded(old(self).child.is_running(), r@),
            !(kind is Op) ==> counters_same(*old(self), *final(self)),
            kind matches Reload::Op(up) ==> counters_step(*old(self), *final(self), false, up@),
            final(self).child.is_running() <==> !(kind is Op) || !final(self).is_waiting(),
            !final(self).child.is_running() ==> final(self).child == (if old(self).child.is_running() {
                ChildState::Killed
            } else {
                old(self).child
            }) && final(self).marker == old(self).marker,
            final(self).child.is_running() ==> final(self).marker == next_marker(old(self).marker),
            ({
                let stop = stop_seq(old(self).child.is_running(), old(self).downstream@);
                let will = notify_seq(old(self).downstream@, false);
                let spawn = spawn_seq(final(self).marker);
                match kind {
                    Reload::Start => r@ == stop + will + spawn,
                    Reload::Manual => r@ == stop + seq![
                        Action::Log(
                            if old(self).is_waiting() {
                                LogLine::ManualReloadWhilePending
                            } else {
                                LogLine::ManualReload
                            },
                        ),
                    ] + will + spawn,
                    Reload::Watch(files) => r@ == stop + seq![Action::Log(LogLine::FileChanged(files))] + will + spawn,
                    Reload::Op(_) => if final(self).is_waiting() {
                        r@ == stop
                    } else {
                        r@ == stop + seq![Action::Log(LogLine::UpstreamFinished)] + spawn
                    },
                }
            }),
    {
        let ghost s0 = *self;
        let mut acts: Vec<Action> = Vec::new();
        self.ensure_stopped(&mut acts);
        match kind {
            Reload::Start => {
                self.notify(&mut acts, false);
            },
            Reload::Manual => {
                if self.pending.len() > 0 {
                    acts.push(Action::Log(LogLine::ManualReloadWhilePending));
                } else {
                    acts.push(Action::Log(LogLine::ManualReload));
                }
                self.notify(&mut acts, false);
            },
            Reload::Watch(files) => {
                acts.push(Action::Log(LogLine::FileChanged(files)));
                self.notify(&mut acts, false);
            },
            Reload::Op(up) => {
                let ghost s1 = *self;
                self.decrement(&up);
                proof {
                    assert forall|x: Seq<char>| #[trigger] self.pending_count(x) == step_count(s0.pending_count(x), false, up@, x) by {
                        assert(self.pending_count(x) == step_count(s1.pending_count(x), false, up@, x));
                    }
                }
                if self.pending.len() > 0 {
                    proof {
                        assert forall|i: int| 0 <= i < acts@.len() implies !((#[trigger] acts@[i]) is Spawn) by {}
                    }
                    return acts;
                }
                acts.push(Action::Log(LogLine::UpstreamFinished));
            },
        }
        let ghost a1 = acts@;
        let ghost s2 = *self;
        self.spawn(&mut acts);
        proof {
            assert forall|x: Seq<char>| #[trigger] self.pending_count(x) == s2.pending_count(x) by {}
            assert forall|i: int| 0 <= i < acts@.len() && (#[trigger] acts@[i]) is Spawn implies !s0.child.is_running() || exists|j: int|
                0 <= j < i && acts@[j] is Kill by {
                if i < a1.len() {
                    assert(acts@[i] == a1[i]);
                }
                if s0.child.is_running() {
                    assert(acts@[0] is Kill);
                }
            }
            assert forall|i: int, j: int| 0 <= i < j < acts@.len() && (#[trigger] acts@[i]) is Spawn implies !((#[trigger] acts@[j]) is Spawn) by {
                assert(acts@[i] == a1[i] || i == acts@.len() - 2);
            }
        }
        acts
    }

    /// The child's output ended. When `marker` names the current child, its
    /// outcome is recorded, downstream tasks are told, the panel shows the
    /// status and a held exit invitation is answered; otherwise the end
    /// belongs to an earlier child and is ignored.
    pub fn on_stdout_terminated(&mut self, marker: u64, outcome: ChildOutcome) -> (r: Vec<Action>)
        ensures
            final(self).name == old(self).name && final(self).downstream == old(self).downstream,
            final(self).pending == old(self).pending && final(self).marker == old(self).marker,
            final(self).invited == old(self).invited,
            marker != old(self).marker ==> final(self).child == old(self).child && r@.len() == 0,
            marker == old(self).marker ==> final(self).child == (if old(self).child.is_running() {
                match outcome {
                    ChildOutcome::Exited(s) => ChildState::Exited(s),
                    ChildOutcome::Killed => ChildState::Killed,
                }
            } else {
                old(self).child
            }),
            marker == old(self).marker ==> r@ == (if old(self).child.is_running() {
                notify_seq(old(self).downstream@, true)
            } else {
                Seq::empty()
            }) + seq![
                match final(self).child.status() {
                    Some(s) => Action::PanelExited(s),
                    None => Action::PanelRunning,
                },
            ] + (if old(self).invited && final(self).child.final_status().is_some() {
                seq![Action::Rsvp(final(self).child.final_status().unwrap())]
            } else {
                Seq::empty()
            }),
            forall|i: int| 0 <= i < r@.len() ==> !((#[trigger] r@[i]) is Spawn),
    {
        let mut acts: Vec<Action> = Vec::new();
        if marker != self.marker {
            return acts;
        }
        if self.child == ChildState::Running {
            self.child = match outcome {
                ChildOutcome::Exited(s) => ChildState::Exited(s),
                ChildOutcome::Killed => ChildState::Killed,
            };
            self.notify(&mut acts, true);
        }
        match self.exit_status() {
            Some(s) => acts.push(Action::PanelExited(s)),
            None => acts.push(Action::PanelRunning),
        }
        if self.invited {
            match self.child {
                ChildState::Killed => acts.push(Action::Rsvp(ExitStatus::Other(1))),
                ChildState::Exited(s) => acts.push(Action::Rsvp(s)),
                _ => {},
            }
        }
        proof {
            assert forall|i: int| 0 <= i < acts@.len() implies !((#[trigger] acts@[i]) is Spawn) by {}
        }
        acts
    }

    /// Polls the child: `status` is what the process reported, if it ended.
    /// Returns the terminal status, if any.
    pub fn on_poll(&mut self, status: Option<ExitStatus>) -> (r: Option<ExitStatus>)
        ensures
            final(self).name == old(self).name && final(self).downstream == old(self).downstream,
            final(self).pending == old(self).pending && final(self).marker == old(self).marker,
            final(self).invited == old(self).invited,
            final(self).child == (match (old(self).child, status) {
                (ChildState::Running, Some(s)) => ChildState::Exited(s),
                _ => old(self).child,
            }),
            r == final(self).child.status(),
    {
        if self.child == ChildState::Running {
            if let Some(s) = status {
                self.child = ChildState::Exited(s);
            }
        }
        self.exit_status()
    }

    /// The exit-status collector's invitation: answered at once when the
    /// child is terminal, held otherwise.
    pub fn on_invite(&mut self) -> (r: Vec<Action>)
        ensures
            final(self).name == old(self).name && final(self).downstream == old(self).downstream,
            final(self).pending == old(self).pending && final(self).marker == old(self).marker,
            final(self).child == old(self).child,
            match old(self).child.final_status() {
                Some(s) => r@ == seq![Action::Rsvp(s)] && final(self).invited == old(self).invited,
                None => r@.len() == 0 && final(self).invited,
            },
    {
        let mut acts: Vec<Action> = Vec::new();
        match self.child {
            ChildState::Killed => acts.push(Action::Rsvp(ExitStatus::Other(1))),
            ChildState::Exited(s) => acts.push(Action::Rsvp(s)),
            _ => {
                self.invited = true;
            },
        }
        acts
    }

    /// Asked to stop: answer a held invitation if the child is terminal, kill
    /// a running child, and stop.
    pub fn on_poison_pill(&mut self) -> (r: Vec<Action>)
        ensures
            final(self).name == old(self).name && final(self).downstream == old(self).downstream,
            final(self).pending == old(self).pending && final(self).marker == old(self).marker,
            final(self).invited == old(self).invited,
            final(self).child == (if old(self).child.is_running() {
                ChildState::Killed
            } else {
                old(self).child
            }),
            r@ == (if old(self).invited && old(self).child.final_status().is_some() {
                seq![Action::Rsvp(old(self).child.final_status().unwrap())]
            } else {
                Seq::empty()
            }) + (if old(self).child.is_running() {
                seq![Action::Kill]
            } else {
                Seq::empty()
            }) + seq![Action::Stop],
    {
        let mut acts: Vec<Action> = Vec::new();
        if self.invited {
            match self.child {
                ChildState::Killed => acts.push(Action::Rsvp(ExitStatus::Other(1))),
                ChildState::Exited(s) => acts.push(Action::Rsvp(s)),
                _ => {},
            }
        }
        if self.child == ChildState::Running {
            acts.push(Action::Kill);
            self.child = ChildState::Killed;
        }
        acts.push(Action::Stop);
        acts
    }
}

/// The counter of `up` after feeding `events` to a fresh supervisor; each
/// event is an announcement (`true`) or a finished restart (`false`) from
/// the named upstream task.
pub open spec fn count_after(events: Seq<(bool, Seq<char>)>, up: Seq<char>) -> nat
    decreases events.len(),
{
    if events.len() == 0 {
        0
    } else {
        step_count(count_after(events.drop_last(), up), events.last().0, events.last().1, up)
    }
}

/// How many events of `events` are `(kind, up)`.
pub open spec fn occurrences(events: Seq<(bool, Seq<char>)>, kind: bool, up: Seq<char>) -> nat
    decreases events.len(),
{
    if events.len() == 0 {
        0
    } else {
        occurrences(events.drop_last(), kind, up) + if events.last() == (kind, up) {
            1nat
        } else {
            0nat
        }
    }
}

/// Whatever the interleaving, as long as no upstream restart finishes before
/// it was announced, the counter of each upstream task equals the restarts
/// announced minus those finished: it never goes below zero and is zero
/// once every announced restart has finished.
pub proof fn lemma_counter_balance(events: Seq<(bool, Seq<char>)>, up: Seq<char>)
    requires
        forall|k: int| 0 <= k <= events.len() ==> occurrences(#[trigger] events.take(k), false, up) <= occurrences(events.take(k), true, up),
    ensures
        count_after(events, up) == occurrences(events, true, up) - occurrences(events, false, up),
    decreases events.len(),
{
    if events.len() > 0 {
        let rest = events.drop_last();
        assert forall|k: int| 0 <= k <= rest.len() implies occurrences(#[trigger] rest.take(k), false, up) <= occurrences(rest.take(k), true, up) by {
            assert(rest.take(k) =~= events.take(k));
        }
        lemma_counter_balance(rest, up);
        assert(events.take(events.len() as int) =~= events);
    }
}

} // verus!
