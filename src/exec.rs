use crate::config::Task;
use crate::lift::string_seq;
use crate::pipe::{join_path, path_joined};
use crate::text::{concat, join, joined};
use vstd::string::StringExecFns;
use vstd::prelude::*;

verus! {

/// The words of `s` split as a POSIX shell would; `None` on unbalanced
/// quotes or a trailing escape.
pub uninterp spec fn shell_words(s: Seq<char>) -> Option<Seq<Seq<char>>>;

/// The `Debug` form of a string: quoted, with special characters escaped.
pub uninterp spec fn debug_of_str(s: Seq<char>) -> Seq<char>;

/// The `Debug` form of a list of strings: `[` then each item's `Debug`
/// form separated by `, `, then `]`.
pub open spec fn debug_of_list(items: Seq<Seq<char>>) -> Seq<char> {
    "["@ + joined(items.map_values(|s: Seq<char>| debug_of_str(s)), ", "@) + "]"@
}

/// The line describing a command about to run.
pub open spec fn exec_description(cmd: Seq<char>, args: Seq<Seq<char>>, cwd: Seq<char>) -> Seq<char> {
    "EXEC: "@ + cmd + " "@ + debug_of_list(args) + " at "@ + debug_of_str(cwd)
}

/// Relies on `shlex::split`.
#[verifier::external_body]
fn split_words(s: &str) -> (r: Option<Vec<String>>)
    ensures
        match r {
            Some(v) => shell_words(s@) == Some(string_seq(v@)),
            None => shell_words(s@).is_none(),
        },
{
    shlex::split(s)
}

/// Relies on `Debug for str`.
#[verifier::external_body]
fn debug_str(s: &str) -> (r: String)
    ensures
        r@ == debug_of_str(s@),
{
    format!("{:?}", s)
}

/// The `Debug` form of a list of strings.
pub fn debug_list(items: &Vec<String>) -> (r: String)
    ensures
        r@ == debug_of_list(string_seq(items@)),
{
    let mut parts: Vec<String> = Vec::new();
    let mut i: usize = 0;
    while i < items.len()
        invariant
            i <= items@.len(),
            parts@.len() == i,
            forall|j: int| 0 <= j < i ==> (#[trigger] parts@[j])@ == debug_of_str(items@[j]@),
        decreases items@.len() - i,
    {
        parts.push(debug_str(items[i].as_str()));
        i += 1;
    }
    assert(string_seq(parts@) =~= string_seq(items@).map_values(|s: Seq<char>| debug_of_str(s)));
    let inner = join(&parts, ", ");
    let mut r = concat("[", inner.as_str());
    r.append("]");
    r
}

/// Builds the line describing a command about to run.
fn describe(cmd: &String, args: &Vec<String>, cwd: &String) -> (r: String)
    ensures
        r@ == exec_description(cmd@, string_seq(args@), cwd@),
{
    let mut r = concat("EXEC: ", cmd.as_str());
    r.append(" ");
    let list = debug_list(args);
    r.append(list.as_str());
    r.append(" at ");
    let d = debug_str(cwd.as_str());
    r.append(d.as_str());
    assert(r@ =~= exec_description(cmd@, string_seq(args@), cwd@));
    r
}

/// The entry point used when a task names none.
pub fn default_entrypoint() -> (r: &'static str)
    ensures
        r@ == "bash -c"@,
{
    "bash -c"
}

/// Why a task's command line could not be built.
#[derive(Debug, Clone, PartialEq, Eq)]
pub enum ExecError {
    /// The entry point does not split into shell words.
    InvalidEntrypoint(String),
    /// Neither an entry point nor a command gives a program to run.
    EmptyCommand,
}

/// Holds of the non-empty words.
pub open spec fn non_empty() -> spec_fn(Seq<char>) -> bool {
    |w: Seq<char>| w.len() > 0
}

/// The entry point text in effect: the task's own unless absent or empty.
pub open spec fn entrypoint_text(entrypoint: Option<Seq<char>>) -> Seq<char> {
    match entrypoint {
        Some(e) => if e.len() > 0 {
            e
        } else {
            "bash -c"@
        },
        None => "bash -c"@,
    }
}

/// The entry point's words followed by the command, if any.
pub open spec fn command_words(words: Seq<Seq<char>>, command: Option<Seq<char>>) -> Seq<Seq<char>> {
    match command {
        Some(c) => words.push(c),
        None => words,
    }
}

pub open spec fn opt_str(o: Option<String>) -> Option<Seq<char>> {
    match o {
        Some(s) => Some(s@),
        None => None,
    }
}

impl Task {
    /// The working directory: `workdir` under `base_dir`, or `base_dir`.
    pub fn get_absolute_workdir(&self, base_dir: &str) -> (r: String)
        ensures
            r@ == match self.workdir {
                Some(w) => path_joined(base_dir@, w@),
                None => base_dir@,
            },
    {
        match &self.workdir {
            Some(path) => join_path(base_dir, path.as_str()),
            None => base_dir.to_owned(),
        }
    }

    /// The program and its arguments: the entry point split into shell
    /// words, then the command as one more argument; empty arguments are
    /// dropped.
    pub fn get_exec_command(&self) -> (r: Result<(String, Vec<String>), ExecError>)
        ensures
            match shell_words(entrypoint_text(opt_str(self.entrypoint))) {
                None => r matches Err(ExecError::InvalidEntrypoint(_)),
                Some(words) => {
                    let all = command_words(words, opt_str(self.command));
                    if all.len() == 0 {
                        r matches Err(ExecError::EmptyCommand)
                    } else {
                        r matches Ok((cmd, args)) && cmd@ == all[0] && string_seq(args@) == all.drop_first().filter(non_empty())
                    }
                },
            },
    {
        let entry: String = match &self.entrypoint {
            Some(e) => if e.unicode_len() > 0 {
                e.clone()
            } else {
                default_entrypoint().to_owned()
            },
            None => default_entrypoint().to_owned(),
        };
        assert(entry@ == entrypoint_text(opt_str(self.entrypoint)));
        let mut words = match split_words(entry.as_str()) {
            Some(w) => w,
            None => {
                return Err(ExecError::InvalidEntrypoint(entry));
            },
        };
        if let Some(c) = &self.command {
            words.push(c.clone());
        }
        let ghost all = string_seq(words@);
        assert(all == command_words(shell_words(entry@).unwrap(), opt_str(self.command)));
        if words.len() == 0 {
            return Err(ExecError::EmptyCommand);
        }
        let cmd = words[0].clone();
        let mut args: Vec<String> = Vec::new();
        let mut i: usize = 1;
        while i < words.len()
            invariant
                1 <= i <= words@.len(),
                all == string_seq(words@),
                string_seq(args@) == all.drop_first().take(i - 1).filter(non_empty()),
            decreases words@.len() - i,
        {
            let ghost a0 = args@;
            if words[i].unicode_len() > 0 {
                args.push(words[i].clone());
            }
            proof {
                let t = all.drop_first().take(i as int);
                assert(t.drop_last() =~= all.drop_first().take(i - 1));
                assert(t.last() == words@[i as int]@);
                reveal(Seq::filter);
                assert(string_seq(args@) =~= t.filter(non_empty()));
            }
            i += 1;
        }
        assert(all.drop_first().take(i - 1) =~= all.drop_first());
        Ok((cmd, args))
    }
}

/// A command ready to run: program, arguments, directory and environment.
pub struct ExecBuilder {
    pub env: Vec<(String, String)>,
    pub cwd: String,
    pub cmd: String,
    pub args: Vec<String>,
}

impl ExecBuilder {
    /// The command of `task`, run in its working directory under `base_dir`
    /// with the environment `env`.
    pub fn new(task: &Task, base_dir: &str, env: Vec<(String, String)>) -> (r: Result<ExecBuilder, ExecError>)
        ensures
            match r {
                Ok(b) => task.get_exec_command_ok(b.cmd@, string_seq(b.args@)) && b.env == env && b.cwd@
                    == match task.workdir {
                    Some(w) => path_joined(base_dir@, w@),
                    None => base_dir@,
                },
                Err(e) => task.get_exec_command_err(e),
            },
    {
        let cwd = task.get_absolute_workdir(base_dir);
        let (cmd, args) = task.get_exec_command()?;
        Ok(ExecBuilder { env, cwd, cmd, args })
    }

    /// The line shown in verbose mode before the command runs.
    pub fn to_string(&self) -> (r: String)
        ensures
            r@ == exec_description(self.cmd@, string_seq(self.args@), self.cwd@),
    {
        describe(&self.cmd, &self.args, &self.cwd)
    }
}

impl Task {
    /// `get_exec_command` succeeds with this program and these arguments.
    pub open spec fn get_exec_command_ok(&self, cmd: Seq<char>, args: Seq<Seq<char>>) -> bool {
        match shell_words(entrypoint_text(opt_str(self.entrypoint))) {
            None => false,
            Some(words) => {
                let all = command_words(words, opt_str(self.command));
                all.len() > 0 && cmd == all[0] && args == all.drop_first().filter(non_empty())
            },
        }
    }

    /// `get_exec_command` fails with this error.
    pub open spec fn get_exec_command_err(&self, e: ExecError) -> bool {
        match shell_words(entrypoint_text(opt_str(self.entrypoint))) {
            None => e is InvalidEntrypoint,
            Some(words) => command_words(words, opt_str(self.command)).len() == 0 && e is EmptyCommand,
        }
    }
}

/// Environment added to the runner's own logging.
pub fn get_env() -> (r: Vec<(String, String)>)
    ensures
        r@.len() == 1,
        r@[0].0@ == "RUST_LOG"@,
        r@[0].1@ == "info"@,
{
    let mut env: Vec<(String, String)> = Vec::new();
    env.push(("RUST_LOG".to_owned(), "info".to_owned()));
    env
}

} // verus!
