use vstd::prelude::*;

verus! {

/// An environment as (name, value) pairs; a later pair overrides an earlier
/// one with the same name.
pub type EnvModel = Seq<(Seq<char>, Seq<char>)>;

/// The view of an environment.
pub open spec fn env_view(e: Seq<(String, String)>) -> EnvModel {
    e.map_values(|p: (String, String)| (p.0@, p.1@))
}

/// The value of `name` in `env`: the last pair for it wins.
pub open spec fn env_get(env: EnvModel, name: Seq<char>) -> Option<Seq<char>>
    decreases env.len(),
{
    if env.len() == 0 {
        None
    } else if env.last().0 == name {
        Some(env.last().1)
    } else {
        env_get(env.drop_last(), name)
    }
}

/// `value` with each `$NAME` or `${NAME}` (the pattern `\$\{?(\w+)\}?`)
/// replaced by the value of NAME in `env`, or by nothing when NAME is unset.
pub uninterp spec fn vars_replaced(value: Seq<char>, env: EnvModel) -> Seq<char>;

/// The entries of a dotenv text, sorted by name; `None` when it does not
/// parse.
pub uninterp spec fn dotenv_entries(text: Seq<char>) -> Option<EnvModel>;

/// `s` with each two-character sequence `\n` turned into a newline, from
/// left to right.
pub open spec fn newlines_unescaped(s: Seq<char>) -> Seq<char>
    decreases s.len(),
{
    if s.len() < 2 {
        s
    } else if s[0] == '\\' && s[1] == 'n' {
        seq!['\n'] + newlines_unescaped(s.skip(2))
    } else {
        seq![s[0]] + newlines_unescaped(s.skip(1))
    }
}

/// The value of `name` in `env`, or the empty string.
pub fn lookup_var(env: &Vec<(String, String)>, name: &str) -> (r: String)
    ensures
        r@ == match env_get(env_view(env@), name@) {
            Some(v) => v,
            None => Seq::empty(),
        },
{
    let key = name.to_owned();
    let mut i: usize = env.len();
    assert(env_view(env@).take(i as int) =~= env_view(env@));
    while i > 0
        invariant
            i <= env@.len(),
            key@ == name@,
            env_get(env_view(env@), name@) == env_get(env_view(env@).take(i as int), name@),
        decreases i,
    {
        let ghost t = env_view(env@).take(i as int);
        assert(t.drop_last() =~= env_view(env@).take(i - 1));
        assert(t.last() == (env@[i - 1].0@, env@[i - 1].1@));
        if env[i - 1].0 == key {
            return env[i - 1].1.clone();
        }
        i -= 1;
    }
    String::new()
}

/// Relies on `regex::Regex::replace_all` with the pattern `\$\{?(\w+)\}?`;
/// each match is replaced by `lookup_var` of its first group.
#[verifier::external_body]
fn replace_vars(value: &str, env: &Vec<(String, String)>) -> (r: String)
    ensures
        r@ == vars_replaced(value@, env_view(env@)),
{
    let re = regex::Regex::new(r"\$\{?(\w+)\}?").unwrap();
    re.replace_all(value, |caps: &regex::Captures| lookup_var(env, &caps[1])).into_owned()
}

/// Relies on `dotenv_parser::parse_dotenv`, whose map iterates by name.
#[verifier::external_body]
fn parse_env_text(text: &str) -> (r: Option<Vec<(String, String)>>)
    ensures
        match r {
            Some(v) => dotenv_entries(text@) == Some(env_view(v@)),
            None => dotenv_entries(text@).is_none(),
        },
{
    dotenv_parser::parse_dotenv(text).ok().map(|m| m.into_iter().collect())
}

/// Relies on `str::replace`, which replaces every non-overlapping match from
/// left to right.
#[verifier::external_body]
fn unescape_newlines(s: &str) -> (r: String)
    ensures
        r@ == newlines_unescaped(s@),
{
    s.replace("\\n", "\n")
}

/// Each value of `layer` interpolated against `base` plus the pairs of the
/// layer that come before it.
pub open spec fn layered(base: EnvModel, layer: EnvModel) -> EnvModel
    decreases layer.len(),
{
    if layer.len() == 0 {
        base
    } else {
        let before = layered(base, layer.drop_last());
        before.push((layer.last().0, vars_replaced(layer.last().1, before)))
    }
}

/// Appends `layer` to `env`, interpolating each value against what `env`
/// holds when the pair is added.
pub fn add_layer(env: &mut Vec<(String, String)>, layer: &Vec<(String, String)>)
    ensures
        env_view(final(env)@) == layered(env_view(old(env)@), env_view(layer@)),
{
    let ghost base = env_view(env@);
    let mut i: usize = 0;
    while i < layer.len()
        invariant
            i <= layer@.len(),
            env_view(env@) == layered(base, env_view(layer@).take(i as int)),
        decreases layer@.len() - i,
    {
        let value = replace_vars(layer[i].1.as_str(), env);
        let ghost e0 = env@;
        env.push((layer[i].0.clone(), value));
        i += 1;
        proof {
            let t = env_view(layer@).take(i as int);
            assert(t.drop_last() =~= env_view(layer@).take(i - 1));
            assert(env_view(env@) =~= env_view(e0).push((layer@[i - 1].0@, vars_replaced(layer@[i - 1].1@, env_view(e0)))));
        }
    }
    assert(env_view(layer@).take(i as int) =~= env_view(layer@));
}

/// Why an env file could not be used.
#[derive(Debug, Clone, PartialEq, Eq)]
pub enum EnvError {
    /// The file's text does not parse as dotenv.
    Unparsable,
}

/// The pairs of a dotenv text, with `\n` in values turned into newlines.
pub open spec fn dotenv_layer(entries: EnvModel) -> EnvModel {
    entries.map_values(|p: (Seq<char>, Seq<char>)| (p.0, newlines_unescaped(p.1)))
}

/// Parses the text of an env file.
pub fn parse_env_file(text: &str) -> (r: Result<Vec<(String, String)>, EnvError>)
    ensures
        match dotenv_entries(text@) {
            Some(entries) => r matches Ok(v) && env_view(v@) == dotenv_layer(entries),
            None => r == Err::<Vec<(String, String)>, EnvError>(EnvError::Unparsable),
        },
{
    let pairs = match parse_env_text(text) {
        Some(p) => p,
        None => {
            return Err(EnvError::Unparsable);
        },
    };
    let mut out: Vec<(String, String)> = Vec::new();
    let mut i: usize = 0;
    while i < pairs.len()
        invariant
            i <= pairs@.len(),
            out@.len() == i,
            forall|j: int| 0 <= j < i ==> (#[trigger] out@[j]).0@ == pairs@[j].0@ && out@[j].1@ == newlines_unescaped(pairs@[j].1@),
        decreases pairs@.len() - i,
    {
        let v = unescape_newlines(pairs[i].1.as_str());
        out.push((pairs[i].0.clone(), v));
        i += 1;
    }
    assert(env_view(out@) =~= dotenv_layer(env_view(pairs@)));
    Ok(out)
}

/// The environment of a child: the process environment, then the shared
/// environment, then the env files in order, then the task's own variables;
/// each value is interpolated against what comes before it, and later names
/// override earlier ones.
pub fn task_environment(
    process: Vec<(String, String)>,
    shared: &Vec<(String, String)>,
    files: &Vec<Vec<(String, String)>>,
    inline: &Vec<(String, String)>,
) -> (r: Vec<(String, String)>)
    ensures
        env_view(r@) == layered(
            layered_files(layered(env_view(process@), env_view(shared@)), files@),
            env_view(inline@),
        ),
{
    let mut env = process;
    add_layer(&mut env, shared);
    let mut k: usize = 0;
    while k < files.len()
        invariant
            k <= files@.len(),
            env_view(env@) == layered_files(layered(env_view(process@), env_view(shared@)), files@.take(k as int)),
        decreases files@.len() - k,
    {
        add_layer(&mut env, &files[k]);
        k += 1;
        assert(files@.take(k as int).drop_last() =~= files@.take(k - 1));
    }
    assert(files@.take(k as int) =~= files@);
    add_layer(&mut env, inline);
    env
}

/// `base` with each file's pairs layered on in order.
pub open spec fn layered_files(base: EnvModel, files: Seq<Vec<(String, String)>>) -> EnvModel
    decreases files.len(),
{
    if files.len() == 0 {
        base
    } else {
        layered(layered_files(base, files.drop_last()), env_view(files.last()@))
    }
}

} // verus!
