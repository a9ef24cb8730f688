use crate::dag::contains_string;
use crate::lift::string_seq;
use crate::text::{join, joined};
use path_absolutize::Absolutize;
use vstd::prelude::*;

verus! {

#[verifier::external_type_specification]
#[verifier::external_body]
pub struct ExGlobSet(globset::GlobSet);

/// Whether every pattern of `patterns` is a valid glob.
pub uninterp spec fn globs_valid(patterns: Seq<Seq<char>>) -> bool;

/// Whether `path` matches one of the glob `patterns`.
pub uninterp spec fn globs_match(patterns: Seq<Seq<char>>, path: Seq<char>) -> bool;

/// Relies on `globset::Glob::new` and `GlobSetBuilder::build`: compiles the
/// patterns into one set, or fails on an invalid pattern.
#[verifier::external_body]
fn build_globset(patterns: &Vec<String>) -> (r: Option<globset::GlobSet>)
    ensures
        r.is_some() == globs_valid(string_seq(patterns@)),
{
    let mut builder = globset::GlobSetBuilder::new();
    for p in patterns {
        builder.add(globset::Glob::new(p).ok()?);
    }
    builder.build().ok()
}

/// A compiled glob set together with the patterns it was built from.
pub struct Globs {
    patterns: Vec<String>,
    set: globset::GlobSet,
}

impl Globs {
    /// The patterns the set was built from.
    pub closed spec fn patterns(&self) -> Seq<Seq<char>> {
        string_seq(self.patterns@)
    }

    /// Compiles `patterns`; `None` when one is not a valid glob.
    pub fn build(patterns: Vec<String>) -> (r: Option<Globs>)
        ensures
            r is Some <==> globs_valid(string_seq(patterns@)),
            r matches Some(g) ==> g.patterns() == string_seq(patterns@),
    {
        let set = build_globset(&patterns)?;
        Some(Globs { patterns, set })
    }
}

/// Relies on `globset::GlobSet::is_match`; the set is the one built from
/// the patterns it is kept with.
#[verifier::external_body]
fn set_matches(globs: &Globs, path: &String) -> (r: bool)
    ensures
        r == globs_match(globs.patterns(), path@),
{
    globs.set.is_match(path.as_str())
}

/// A task's subscription: paths that match `on` and not `off` reload it.
pub struct WatchGlob {
    command: String,
    on: Globs,
    off: Globs,
}

impl WatchGlob {
    /// The task this subscription reloads.
    pub closed spec fn target(&self) -> Seq<char> {
        self.command@
    }

    pub fn command(&self) -> (r: &String)
        ensures
            r@ == self.target(),
    {
        &self.command
    }

    pub closed spec fn on_view(&self) -> Seq<Seq<char>> {
        self.on.patterns()
    }

    pub closed spec fn off_view(&self) -> Seq<Seq<char>> {
        self.off.patterns()
    }

    /// A subscription of task `command` to absolute include and exclude
    /// patterns; `None` when a pattern is not a valid glob.
    pub fn new(command: String, on: Vec<String>, off: Vec<String>) -> (r: Option<WatchGlob>)
        ensures
            r is Some <==> globs_valid(string_seq(on@)) && globs_valid(string_seq(off@)),
            r matches Some(g) ==> g.target() == command@ && g.on_view() == string_seq(on@) && g.off_view()
                == string_seq(off@),
    {
        let on_set = Globs::build(on)?;
        let off_set = Globs::build(off)?;
        Some(WatchGlob { command, on: on_set, off: off_set })
    }

    /// Whether a change to `path` concerns this subscription.
    pub fn selects(&self, path: &String) -> (r: bool)
        ensures
            r == (globs_match(self.on_view(), path@) && !globs_match(self.off_view(), path@)),
    {
        set_matches(&self.on, path) && !set_matches(&self.off, path)
    }
}

/// The kind of a file-system change.
#[derive(Debug, Clone, Copy, PartialEq, Eq, Structural)]
pub enum ChangeKind {
    Create,
    Remove,
    ModifyData,
    ModifyName,
    Other,
}

/// Only creations, removals, and changes of content or name count.
pub fn is_relevant(kind: ChangeKind) -> (r: bool)
    ensures
        r == !(kind is Other),
{
    !matches!(kind, ChangeKind::Other)
}

/// Holds of the paths of an event that reach a subscription.
pub open spec fn selected_by(ignored: Seq<Seq<char>>, on: Seq<Seq<char>>, off: Seq<Seq<char>>) -> spec_fn(Seq<char>) -> bool {
    |p: Seq<char>| !ignored.contains(p) && globs_match(on, p) && !globs_match(off, p)
}

/// The watcher's state: the subscriptions and the paths never to report.
pub struct WatchState {
    pub globs: Vec<WatchGlob>,
    pub ignore: Vec<String>,
}

/// The reloads one event causes: for each subscription in order whose
/// selected paths are not empty, its task and those paths joined by ", ".
pub open spec fn reloads_for(globs: Seq<WatchGlob>, ignored: Seq<Seq<char>>, paths: Seq<Seq<char>>) -> Seq<(Seq<char>, Seq<char>)>
    decreases globs.len(),
{
    if globs.len() == 0 {
        Seq::empty()
    } else {
        let g = globs.last();
        let sel = paths.filter(selected_by(ignored, g.on_view(), g.off_view()));
        let rest = reloads_for(globs.drop_last(), ignored, paths);
        if sel.len() > 0 {
            rest.push((g.target(), joined(sel, ", "@)))
        } else {
            rest
        }
    }
}

impl WatchState {
    pub fn new() -> (r: WatchState)
        ensures
            r.globs@.len() == 0,
            r.ignore@.len() == 0,
    {
        WatchState { globs: Vec::new(), ignore: Vec::new() }
    }

    /// Adds a subscription.
    pub fn add_glob(&mut self, glob: WatchGlob)
        ensures
            final(self).globs@ == old(self).globs@.push(glob),
            final(self).ignore == old(self).ignore,
    {
        self.globs.push(glob);
    }

    /// Never reports `path` again.
    pub fn ignore_path(&mut self, path: String)
        ensures
            final(self).globs == old(self).globs,
            string_seq(final(self).ignore@).to_set() == string_seq(old(self).ignore@).to_set().insert(path@),
    {
        if !contains_string(&self.ignore, &path) {
            let ghost i0 = string_seq(self.ignore@);
            self.ignore.push(path);
            proof {
                assert(string_seq(self.ignore@) =~= i0.push(path@));
                i0.lemma_push_to_set_commute(path@);
            }
        } else {
            proof {
                assert(string_seq(self.ignore@).to_set() =~= string_seq(self.ignore@).to_set().insert(path@));
            }
        }
    }

    /// The paths of one change event that concern `glob`.
    fn select(&self, glob: &WatchGlob, paths: &Vec<String>) -> (r: Vec<String>)
        ensures
            string_seq(r@) == string_seq(paths@).filter(selected_by(string_seq(self.ignore@), glob.on_view(), glob.off_view())),
    {
        let ghost pred = selected_by(string_seq(self.ignore@), glob.on_view(), glob.off_view());
        let ghost ps = string_seq(paths@);
        let mut r: Vec<String> = Vec::new();
        let mut i: usize = 0;
        while i < paths.len()
            invariant
                i <= paths@.len(),
                ps == string_seq(paths@),
                pred == selected_by(string_seq(self.ignore@), glob.on_view(), glob.off_view()),
                string_seq(r@) == ps.take(i as int).filter(pred),
            decreases paths@.len() - i,
        {
            let ghost r0 = r@;
            let keep = !contains_string(&self.ignore, &paths[i]) && glob.selects(&paths[i]);
            if keep {
                r.push(paths[i].clone());
            }
            i += 1;
            proof {
                let t = ps.take(i as int);
                assert(t.drop_last() =~= ps.take(i - 1));
                assert(t.last() == paths@[i - 1]@);
                assert(pred(t.last()) == keep);
                reveal(Seq::filter);
                assert(string_seq(r@) =~= t.filter(pred));
            }
        }
        assert(ps.take(i as int) =~= ps);
        r
    }

    /// The reloads a change event causes: for each subscription, in order,
    /// the task and the selected paths joined by ", ", when any path is
    /// selected.
    pub fn on_event(&self, paths: &Vec<String>) -> (r: Vec<(String, String)>)
        ensures
            r@.map_values(|e: (String, String)| (e.0@, e.1@)) == reloads_for(
                self.globs@,
                string_seq(self.ignore@),
                string_seq(paths@),
            ),
    {
        let mut r: Vec<(String, String)> = Vec::new();
        let mut k: usize = 0;
        while k < self.globs.len()
            invariant
                k <= self.globs@.len(),
                r@.map_values(|e: (String, String)| (e.0@, e.1@)) == reloads_for(
                    self.globs@.take(k as int),
                    string_seq(self.ignore@),
                    string_seq(paths@),
                ),
            decreases self.globs@.len() - k,
        {
            let ghost r0 = r@;
            let glob = &self.globs[k];
            let sel = self.select(glob, paths);
            if sel.len() > 0 {
                let trigger = join(&sel, ", ");
                r.push((glob.command().clone(), trigger));
            }
            k += 1;
            proof {
                let t = self.globs@.take(k as int);
                assert(t.drop_last() =~= self.globs@.take(k - 1));
                assert(t.last() == self.globs@[k - 1]);
                assert(r@.map_values(|e: (String, String)| (e.0@, e.1@)) =~= reloads_for(t, string_seq(self.ignore@), string_seq(paths@)));
            }
        }
        assert(self.globs@.take(k as int) =~= self.globs@);
        r
    }
}

/// `pattern` made absolute against the directory `cwd`, with `.` and `..`
/// resolved; `None` when that fails.
pub uninterp spec fn absolutized(cwd: Seq<char>, pattern: Seq<char>) -> Option<Seq<char>>;

/// Relies on `path_absolutize::Absolutize::absolutize_from`.
#[verifier::external_body]
fn absolutize_pattern(cwd: &str, pattern: &str) -> (r: Option<String>)
    requires
        is_absolute(cwd@),
    ensures
        match r {
            Some(p) => absolutized(cwd@, pattern@) == Some(p@),
            None => absolutized(cwd@, pattern@).is_none(),
        },
{
    std::path::Path::new(pattern).absolutize_from(cwd).ok().map(|p| p.to_string_lossy().into_owned())
}

/// `p` is an absolute path.
pub open spec fn is_absolute(p: Seq<char>) -> bool {
    p.len() > 0 && p[0] == '/'
}

/// Why a task's watch patterns cannot be used.
#[derive(Debug, Clone, PartialEq, Eq)]
pub enum WatchError {
    /// A pattern could not be made absolute.
    InvalidPath(String),
    /// A pattern is not a valid glob.
    InvalidGlob,
}

/// Every pattern made absolute against `cwd`, or `None` if one fails.
pub open spec fn all_absolutized(cwd: Seq<char>, patterns: Seq<Seq<char>>) -> Option<Seq<Seq<char>>> {
    if forall|i: int| 0 <= i < patterns.len() ==> (#[trigger] absolutized(cwd, patterns[i])).is_some() {
        Some(Seq::new(patterns.len(), |i: int| absolutized(cwd, patterns[i]).unwrap()))
    } else {
        None
    }
}

/// The patterns made absolute against `cwd`.
pub fn absolute_patterns(cwd: &str, patterns: &Vec<String>) -> (r: Result<Vec<String>, WatchError>)
    requires
        is_absolute(cwd@),
    ensures
        match all_absolutized(cwd@, string_seq(patterns@)) {
            Some(v) => r matches Ok(out) && string_seq(out@) == v,
            None => r matches Err(WatchError::InvalidPath(_)),
        },
{
    let ghost ps = string_seq(patterns@);
    let mut out: Vec<String> = Vec::new();
    let mut i: usize = 0;
    while i < patterns.len()
        invariant
            i <= patterns@.len(),
            is_absolute(cwd@),
            ps == string_seq(patterns@),
            out@.len() == i,
            forall|j: int| 0 <= j < i ==> absolutized(cwd@, #[trigger] ps[j]) == Some(out@[j]@),
        decreases patterns@.len() - i,
    {
        match absolutize_pattern(cwd, patterns[i].as_str()) {
            Some(p) => out.push(p),
            None => {
                assert(absolutized(cwd@, ps[i as int]).is_none());
                return Err(WatchError::InvalidPath(patterns[i].clone()));
            },
        }
        i += 1;
    }
    assert forall|j: int| 0 <= j < ps.len() implies (#[trigger] absolutized(cwd@, ps[j])).is_some() by {}
    assert(string_seq(out@) =~= Seq::new(ps.len(), |j: int| absolutized(cwd@, ps[j]).unwrap()));
    Ok(out)
}

/// The subscription of task `name` that watches `watch` minus `ignore`,
/// both relative to `cwd`; none when watching is off or `watch` is empty.
pub fn watch_subscription(name: &String, watch: &Vec<String>, ignore: &Vec<String>, cwd: &str, enabled: bool) -> (r: Result<Option<WatchGlob>, WatchError>)
    requires
        is_absolute(cwd@),
    ensures
        !enabled || watch@.len() == 0 ==> r matches Ok(None),
        enabled && watch@.len() > 0 ==> !(r matches Ok(None)),
        r matches Ok(Some(g)) ==> g.target() == name@ && Some(g.on_view()) == all_absolutized(cwd@, string_seq(watch@))
            && Some(g.off_view()) == all_absolutized(cwd@, string_seq(ignore@)),
        enabled && watch@.len() > 0 && all_absolutized(cwd@, string_seq(watch@)).is_some()
            && all_absolutized(cwd@, string_seq(ignore@)).is_some() ==> (r is Ok <==> globs_valid(
            all_absolutized(cwd@, string_seq(watch@)).unwrap(),
        ) && globs_valid(all_absolutized(cwd@, string_seq(ignore@)).unwrap())),
{
    if !enabled || watch.len() == 0 {
        return Ok(None);
    }
    let on = absolute_patterns(cwd, watch)?;
    let off = absolute_patterns(cwd, ignore)?;
    match WatchGlob::new(name.clone(), on, off) {
        Some(g) => Ok(Some(g)),
        None => Err(WatchError::InvalidGlob),
    }
}

} // verus!
