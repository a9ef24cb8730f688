use crate::text::concat;
use vstd::prelude::*;
use vstd::string::StringExecFns;

verus! {

#[verifier::external_type_specification]
#[verifier::external_body]
pub struct ExRegex(regex::Regex);

#[verifier::external_type_specification]
#[verifier::external_body]
pub struct ExRegexError(regex::Error);

#[verifier::external_type_specification]
#[verifier::external_body]
pub struct ExUrlParseError(url::ParseError);

/// Whether `pattern` is a regular expression the regex crate accepts.
pub uninterp spec fn regex_accepts(pattern: Seq<char>) -> bool;

/// Whether the regular expression `pattern` matches somewhere in `line`.
pub uninterp spec fn regex_matches(pattern: Seq<char>, line: Seq<char>) -> bool;

/// The first match of `pattern` in `line`, with capture references of
/// `template` expanded against it; empty when nothing matches.
pub uninterp spec fn capture_expansion(pattern: Seq<char>, line: Seq<char>, template: Seq<char>) -> Seq<char>;

/// `line` with the first match of `pattern` replaced by `template`, capture
/// references expanded.
pub uninterp spec fn first_replaced(pattern: Seq<char>, line: Seq<char>, template: Seq<char>) -> Seq<char>;

/// The scheme, host and path of `s` parsed as a URL; `None` when it does not
/// parse.
pub uninterp spec fn url_parts(s: Seq<char>) -> Option<(Seq<char>, Option<Seq<char>>, Seq<char>)>;

/// `rel` joined onto the directory `base`.
pub uninterp spec fn path_joined(base: Seq<char>, rel: Seq<char>) -> Seq<char>;

/// Relies on `regex::Regex::new`: compiles `pattern`, or reports why not.
#[verifier::external_body]
fn compile_regex(pattern: &str) -> (r: Result<regex::Regex, regex::Error>)
    ensures
        r.is_ok() == regex_accepts(pattern@),
{
    regex::Regex::new(pattern)
}

/// Relies on `regex::Regex::is_match`.
#[verifier::external_body]
fn pipe_is_match(p: &Pipe, line: &str) -> (r: bool)
    ensures
        r == regex_matches(p.pattern(), line@),
{
    p.regex.is_match(line)
}

/// Relies on `regex::Regex::captures` and `Captures::expand`.
#[verifier::external_body]
fn pipe_expand(p: &Pipe, line: &str, template: &str) -> (r: String)
    ensures
        r@ == capture_expansion(p.pattern(), line@, template@),
{
    let mut dst = String::new();
    if let Some(caps) = p.regex.captures(line) {
        caps.expand(template, &mut dst);
    }
    dst
}

/// Relies on `regex::Regex::replace`.
#[verifier::external_body]
fn pipe_replace(p: &Pipe, line: &str, template: &str) -> (r: String)
    ensures
        r@ == first_replaced(p.pattern(), line@, template@),
{
    p.regex.replace(line, template).into_owned()
}

/// The view of an optional string.
pub open spec fn opt_view(o: Option<String>) -> Option<Seq<char>> {
    match o {
        Some(s) => Some(s@),
        None => None,
    }
}

/// Relies on `url::Url::parse`, reading back the scheme, the host and the
/// path.
#[verifier::external_body]
fn parse_url(s: &str) -> (r: Result<(String, Option<String>, String), url::ParseError>)
    ensures
        match r {
            Ok((scheme, host, path)) => url_parts(s@) == Some((scheme@, opt_view(host), path@)),
            Err(_) => url_parts(s@).is_none(),
        },
{
    url::Url::parse(s).map(|u| (u.scheme().to_string(), u.host().map(|h| h.to_string()), u.path().to_string()))
}

/// Relies on `std::path::Path::join`.
#[verifier::external_body]
pub(crate) fn join_path(base: &str, rel: &str) -> (r: String)
    ensures
        r@ == path_joined(base@, rel@),
{
    std::path::Path::new(base).join(rel).to_string_lossy().into_owned()
}

/// Where matched output goes.
#[derive(Debug, Clone, PartialEq, Eq)]
pub enum OutputRedirection {
    /// A panel whose name is this template, expanded against the match.
    Tab(String),
    /// A file whose path is this template, expanded against the line.
    File(String),
}

/// Why a pipe could not be set up.
#[derive(Debug)]
pub enum PipeError {
    InvalidRegex(regex::Error),
    InvalidUri(url::ParseError),
    /// The scheme is neither `file` nor `whiz`.
    UnsupportedScheme(String),
}

/// Whether `s` starts with `/` or `.`, so names a file path directly.
pub open spec fn is_plain_path(s: Seq<char>) -> bool {
    s.len() > 0 && (s[0] == '/' || s[0] == '.')
}

/// The redirection a URI denotes, `None` for an unknown scheme.
pub open spec fn redirection_of(scheme: Seq<char>, host: Option<Seq<char>>, path: Seq<char>) -> Option<(bool, Seq<char>)> {
    let target = match host {
        Some(h) => h + path,
        None => path,
    };
    if scheme == "whiz"@ {
        Some((true, target))
    } else if scheme == "file"@ {
        Some((false, target))
    } else {
        None
    }
}

impl OutputRedirection {
    /// Whether this is a tab (`true`) or a file (`false`), and its target.
    pub open spec fn view(&self) -> (bool, Seq<char>) {
        match self {
            OutputRedirection::Tab(t) => (true, t@),
            OutputRedirection::File(t) => (false, t@),
        }
    }

    /// Parses a redirection URI: a path starting with `/` or `.` is a file;
    /// otherwise `whiz://host/path` is a tab and `file://host/path` a file,
    /// with host and path concatenated.
    pub fn from_str(uri: &str) -> (r: Result<OutputRedirection, PipeError>)
        ensures
            is_plain_path(uri@) ==> (r matches Ok(o) && o@ == (false, uri@)),
            !is_plain_path(uri@) ==> match url_parts(uri@) {
                None => r matches Err(PipeError::InvalidUri(_)),
                Some((scheme, host, path)) => match redirection_of(scheme, host, path) {
                    Some(v) => (r matches Ok(o) && o@ == v),
                    None => (r matches Err(PipeError::UnsupportedScheme(s)) && s@ == scheme),
                },
            },
    {
        if uri.unicode_len() > 0 {
            let c = uri.get_char(0);
            if c == '/' || c == '.' {
                return Ok(OutputRedirection::File(uri.to_owned()));
            }
        }
        match parse_url(uri) {
            Err(e) => Err(PipeError::InvalidUri(e)),
            Ok((scheme, host, path)) => {
                let target = match host {
                    Some(h) => concat(h.as_str(), path.as_str()),
                    None => path,
                };
                proof {
                    reveal_strlit("whiz");
                    reveal_strlit("file");
                }
                if scheme_is(&scheme, "whiz") {
                    Ok(OutputRedirection::Tab(target))
                } else if scheme_is(&scheme, "file") {
                    Ok(OutputRedirection::File(target))
                } else {
                    Err(PipeError::UnsupportedScheme(scheme))
                }
            },
        }
    }
}

fn scheme_is(s: &String, lit: &str) -> (r: bool)
    ensures
        r == (s@ == lit@),
{
    let t = lit.to_owned();
    *s == t
}

/// A compiled regular expression and where its matching lines go.
pub struct Pipe {
    pattern: String,
    regex: regex::Regex,
    redirection: OutputRedirection,
}

impl Pipe {
    pub closed spec fn pattern(&self) -> Seq<char> {
        self.pattern@
    }

    /// Whether matched lines go to a tab (`true`) or a file, and the target.
    pub closed spec fn target(&self) -> (bool, Seq<char>) {
        self.redirection@
    }

    pub fn redirection(&self) -> (r: &OutputRedirection)
        ensures
            r@ == self.target(),
    {
        &self.redirection
    }

    /// Builds a pipe from (regular expression, redirection URI).
    pub fn from(pipe_config: (&String, &String)) -> (r: Result<Pipe, PipeError>)
        ensures
            r matches Ok(p) ==> p.pattern() == pipe_config.0@ && regex_accepts(pipe_config.0@),
            !regex_accepts(pipe_config.0@) ==> r matches Err(PipeError::InvalidRegex(_)),
            regex_accepts(pipe_config.0@) ==> (r is Ok <==> OutputRedirection::from_str_ok(pipe_config.1@)),
            r matches Ok(p) ==> OutputRedirection::parsed(pipe_config.1@, p.target()),
    {
        let (pattern, uri) = pipe_config;
        let regex = match compile_regex(pattern.as_str()) {
            Ok(re) => re,
            Err(e) => {
                return Err(PipeError::InvalidRegex(e));
            },
        };
        let redirection = OutputRedirection::from_str(uri.as_str())?;
        Ok(Pipe { pattern: pattern.clone(), regex, redirection })
    }
}

impl OutputRedirection {
    /// `uri` parses to the redirection `v`.
    pub open spec fn parsed(uri: Seq<char>, v: (bool, Seq<char>)) -> bool {
        if is_plain_path(uri) {
            v == (false, uri)
        } else {
            match url_parts(uri) {
                Some((scheme, host, path)) => redirection_of(scheme, host, path) == Some(v),
                None => false,
            }
        }
    }

    /// `uri` parses to some redirection.
    pub open spec fn from_str_ok(uri: Seq<char>) -> bool {
        is_plain_path(uri) || match url_parts(uri) {
            Some((scheme, host, path)) => redirection_of(scheme, host, path).is_some(),
            None => false,
        }
    }
}

/// What to do with one line of a task's output.
#[derive(Debug, Clone)]
pub enum LineAction {
    /// Append the line (second field) to the panel (first field).
    Output(String, String),
    /// Create the panel if it does not exist yet.
    RegisterPanel(String),
    /// Keep the watcher from reporting changes to this path.
    IgnorePath(String),
    /// Append the text (second field) to the file (first field), creating
    /// its directory if needed.
    Append(String, String),
}

/// `r` is the first pipe whose expression matches `line`, or `None` when no
/// expression matches.
pub open spec fn routes_to(pipes: Seq<Pipe>, line: Seq<char>, r: Option<usize>) -> bool {
    match r {
        Some(i) => i < pipes.len() && regex_matches(pipes[i as int].pattern(), line) && forall|j: int|
            0 <= j < i ==> !regex_matches((#[trigger] pipes[j]).pattern(), line),
        None => forall|j: int| 0 <= j < pipes.len() ==> !regex_matches((#[trigger] pipes[j]).pattern(), line),
    }
}

/// `a` announces `path` as ignored.
pub open spec fn ignores(a: LineAction, path: Seq<char>) -> bool {
    match a {
        LineAction::IgnorePath(q) => q@ == path,
        _ => false,
    }
}

/// Every appended path was announced as ignored by an earlier action.
pub open spec fn ignored_before_append(acts: Seq<LineAction>) -> bool {
    forall|i: int|
        0 <= i < acts.len() ==> match #[trigger] acts[i] {
            LineAction::Append(p, _) => exists|j: int| 0 <= j < i && #[trigger] ignores(acts[j], p@),
            _ => true,
        }
}

/// The path a file pipe writes to: the expanded template, under `cwd` unless
/// it is absolute.
pub open spec fn file_target(cwd: Seq<char>, expanded: Seq<char>) -> Seq<char> {
    if expanded.len() > 0 && expanded[0] == '/' {
        expanded
    } else {
        path_joined(cwd, expanded)
    }
}

/// Finds the first pipe whose expression matches `line`.
pub fn route_line(pipes: &Vec<Pipe>, line: &str) -> (r: Option<usize>)
    ensures
        routes_to(pipes@, line@, r),
{
    let mut i: usize = 0;
    while i < pipes.len()
        invariant
            i <= pipes@.len(),
            forall|j: int| 0 <= j < i ==> !regex_matches((#[trigger] pipes@[j]).pattern(), line@),
        decreases pipes@.len() - i,
    {
        if pipe_is_match(&pipes[i], line) {
            return Some(i);
        }
        i += 1;
    }
    None
}

/// Decides where one output line of task `task` goes: to the first matching
/// pipe's tab or file, or to the task's own panel when no pipe matches. A
/// file path is announced as ignored before the line is appended to it.
pub fn dispatch_line(task: &String, pipes: &Vec<Pipe>, line: String, cwd: &String) -> (r: Vec<LineAction>)
    ensures
        ignored_before_append(r@),
        exists|k: Option<usize>| #[trigger] routes_to(pipes@, line@, k) && match k {
            None => r@.len() == 1 && (r@[0] matches LineAction::Output(p, l) && p@ == task@ && l@ == line@),
            Some(i) => {
                let pipe = pipes@[i as int];
                let (tab, template) = pipe.target();
                if tab {
                    let name = capture_expansion(pipe.pattern(), line@, template);
                    &&& r@.len() == 2
                    &&& (r@[0] matches LineAction::RegisterPanel(n) && n@ == name)
                    &&& (r@[1] matches LineAction::Output(p, l) && p@ == name && l@ == line@)
                } else {
                    let path = file_target(cwd@, first_replaced(pipe.pattern(), line@, template));
                    &&& r@.len() == 2
                    &&& (r@[0] matches LineAction::IgnorePath(q) && q@ == path)
                    &&& (r@[1] matches LineAction::Append(p, t) && p@ == path && t@ == line@ + "\n"@)
                }
            },
        },
{
    let mut acts: Vec<LineAction> = Vec::new();
    let k = route_line(pipes, line.as_str());
    match k {
        None => {
            acts.push(LineAction::Output(task.clone(), line));
        },
        Some(i) => {
            let pipe = &pipes[i];
            match pipe.redirection() {
                OutputRedirection::Tab(template) => {
                    let name = pipe_expand(pipe, line.as_str(), template.as_str());
                    acts.push(LineAction::RegisterPanel(name.clone()));
                    acts.push(LineAction::Output(name, line));
                },
                OutputRedirection::File(template) => {
                    let expanded = pipe_replace(pipe, line.as_str(), template.as_str());
                    let absolute = expanded.unicode_len() > 0 && expanded.as_str().get_char(0) == '/';
                    let path = if absolute {
                        expanded
                    } else {
                        join_path(cwd.as_str(), expanded.as_str())
                    };
                    let mut text = line;
                    text.append("\n");
                    acts.push(LineAction::IgnorePath(path.clone()));
                    acts.push(LineAction::Append(path, text));
                    proof {
                        assert(acts@[1] matches LineAction::Append(p, _) && p@ == path@);
                        assert(acts@[0] matches LineAction::IgnorePath(q) && q@ == path@);
                        assert(ignores(acts@[0], path@));
                    }
                },
            }
        },
    }
    assert(routes_to(pipes@, line@, k));
    acts
}

/// A (regular expression, redirection URI) pair gives a pipe.
pub open spec fn pipe_config_ok(re: Seq<char>, uri: Seq<char>) -> bool {
    regex_accepts(re) && OutputRedirection::from_str_ok(uri)
}

/// Compiles a task's pipes, in declaration order.
pub fn task_pipes(config: &Vec<(String, String)>) -> (r: Result<Vec<Pipe>, PipeError>)
    ensures
        r is Ok <==> forall|i: int| 0 <= i < config@.len() ==> pipe_config_ok((#[trigger] config@[i]).0@, config@[i].1@),
        r matches Ok(v) ==> v@.len() == config@.len() && forall|i: int|
            0 <= i < v@.len() ==> (#[trigger] v@[i]).pattern() == config@[i].0@ && OutputRedirection::parsed(
                config@[i].1@,
                v@[i].target(),
            ),
{
    let mut out: Vec<Pipe> = Vec::new();
    let mut i: usize = 0;
    while i < config.len()
        invariant
            i <= config@.len(),
            out@.len() == i,
            forall|j: int| 0 <= j < i ==> pipe_config_ok((#[trigger] config@[j]).0@, config@[j].1@),
            forall|j: int|
                0 <= j < i ==> (#[trigger] out@[j]).pattern() == config@[j].0@ && OutputRedirection::parsed(
                    config@[j].1@,
                    out@[j].target(),
                ),
        decreases config@.len() - i,
    {
        let (re, uri) = &config[i];
        match Pipe::from((re, uri)) {
            Ok(p) => out.push(p),
            Err(e) => {
                return Err(e);
            },
        }
        i += 1;
    }
    Ok(out)
}

} // verus!
