use crate::supervisor::ExitStatus;
use vstd::prelude::*;

verus! {

/// The process exit code that stands for a failed task's status.
pub open spec fn code_of(s: ExitStatus) -> i32 {
    match s {
        ExitStatus::Exited(c) => c as i32,
        ExitStatus::Other(c) => c,
        ExitStatus::Signaled(c) => c as i32,
        ExitStatus::Undetermined => 1,
    }
}

/// Exit code for a task's terminal status.
pub fn exit_code(s: ExitStatus) -> (r: i32)
    ensures
        r == code_of(s),
{
    match s {
        ExitStatus::Exited(c) => c as i32,
        ExitStatus::Other(c) => c,
        ExitStatus::Signaled(c) => c as i32,
        ExitStatus::Undetermined => 1,
    }
}

/// Collects the terminal statuses of the invited tasks and decides the
/// process exit code once all have answered.
pub struct GrimReaper {
    /// Tasks that have not answered yet.
    pub live: Vec<String>,
    /// Failed tasks and their statuses, in the order they answered.
    pub failures: Vec<(String, ExitStatus)>,
}

/// The exit code once every task answered: zero when none failed, else the
/// code of the first failure.
pub open spec fn final_code(failures: Seq<(String, ExitStatus)>) -> i32 {
    if failures.len() == 0 {
        0
    } else {
        code_of(failures[0].1)
    }
}

impl GrimReaper {
    /// A collector waiting on the given tasks.
    pub fn start_new(targets: Vec<String>) -> (r: GrimReaper)
        ensures
            r.live == targets,
            r.failures@.len() == 0,
    {
        GrimReaper { live: targets, failures: Vec::new() }
    }

    /// Task `name` answered with `status`. Returns the process exit code
    /// when no task is left to wait on. An answer from a task that is not
    /// awaited changes nothing.
    pub fn accept(&mut self, name: &String, status: ExitStatus) -> (r: Option<i32>)
        ensures
            (exists|i: int| 0 <= i < old(self).live@.len() && (#[trigger] old(self).live@[i])@ == name@) ==> {
                &&& exists|i: int|
                    0 <= i < old(self).live@.len() && old(self).live@[i]@ == name@ && (forall|j: int|
                        0 <= j < i ==> (#[trigger] old(self).live@[j])@ != name@) && final(self).live@
                        == old(self).live@.remove(i)
                &&& final(self).failures@ == if status.is_success() {
                    old(self).failures@
                } else {
                    old(self).failures@.push((*name, status))
                }
                &&& r == if final(self).live@.len() == 0 {
                    Some(final_code(final(self).failures@))
                } else {
                    None
                }
            },
            !(exists|i: int| 0 <= i < old(self).live@.len() && (#[trigger] old(self).live@[i])@ == name@) ==> {
                &&& final(self).live == old(self).live
                &&& final(self).failures == old(self).failures
                &&& r.is_none()
            },
    {
        let mut i: usize = 0;
        while i < self.live.len()
            invariant
                i <= self.live@.len(),
                self.live == old(self).live,
                self.failures == old(self).failures,
                forall|j: int| 0 <= j < i ==> (#[trigger] self.live@[j])@ != name@,
            decreases self.live@.len() - i,
        {
            if self.live[i] == *name {
                assert(old(self).live@[i as int]@ == name@);
                let _ = self.live.remove(i);
                assert(self.live@ == old(self).live@.remove(i as int));
                if !status.success() {
                    self.failures.push((name.clone(), status));
                }
                if self.live.len() == 0 {
                    if self.failures.len() == 0 {
                        return Some(0);
                    } else {
                        return Some(exit_code(self.failures[0].1));
                    }
                }
                return None;
            }
            i += 1;
        }
        None
    }
}

} // verus!
