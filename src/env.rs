use vstd::prelude::*;
use crate::map::{StrMap, has_key, inserted, lookup, unique_keys};

verus! {

/// Whether `c` separates the components of a path on this platform.
pub uninterp spec fn is_path_separator(c: char) -> bool;

/// Relies on std::path::is_separator: whether `c` is one of this platform's
/// path separators, a fact about the character and the target alone.
#[verifier::external_body]
fn platform_is_separator(c: char) -> (r: bool)
    ensures
        r == is_path_separator(c),
{
    std::path::is_separator(c)
}

/// `;` on platforms whose paths use `\` as a separator, `:` on all others.
pub open spec fn list_separator() -> Seq<char> {
    if is_path_separator('\\') {
        seq![';']
    } else {
        seq![':']
    }
}

/// The separator placed between entries of the binary search path.
pub fn path_list_separator() -> (r: &'static str)
    ensures
        r@ == list_separator(),
{
    proof {
        reveal_strlit(";");
        reveal_strlit(":");
    }
    if platform_is_separator('\\') {
        ";"
    } else {
        ":"
    }
}

/// The name of the binary search path variable.
pub open spec fn path_var() -> Seq<char> {
    seq!['P', 'A', 'T', 'H']
}

/// The name of the variable that records the initial working directory.
pub open spec fn init_cwd_var() -> Seq<char> {
    seq!['I', 'N', 'I', 'T', '_', 'C', 'W', 'D']
}

/// Variables with their values as character sequences.
pub open spec fn texts(s: Seq<(Seq<char>, String)>) -> Seq<(Seq<char>, Seq<char>)> {
    s.map_values(|e: (Seq<char>, String)| (e.0, e.1@))
}

/// Looking up and setting a variable commute with taking the values' text.
pub proof fn lemma_texts(s: Seq<(Seq<char>, String)>, k: Seq<char>, v: String)
    requires
        unique_keys(s),
    ensures
        unique_keys(texts(s)),
        texts(inserted(s, k, v)) == inserted(texts(s), k, v@),
        lookup(texts(s), k) == match lookup(s, k) {
            Some(x) => Some(x@),
            None => None::<Seq<char>>,
        },
{
    let t = texts(s);
    assert(forall|i: int| 0 <= i < s.len() ==> #[trigger] t[i].0 == s[i].0);
    if has_key(s, k) {
        let i = choose|i: int| 0 <= i < s.len() && #[trigger] s[i].0 == k;
        let j = choose|j: int| 0 <= j < t.len() && #[trigger] t[j].0 == k;
        assert(t[i].0 == k);
        assert(s[j].0 == k);
        assert(i == j);
        assert(texts(inserted(s, k, v)) =~= inserted(texts(s), k, v@));
    } else {
        assert(!has_key(t, k));
        assert(texts(inserted(s, k, v)) =~= inserted(texts(s), k, v@));
    }
}

/// The value of the path variable once `value` is put in front of `current`.
pub open spec fn prepended_path(current: Option<Seq<char>>, value: Seq<char>) -> Seq<char> {
    match current {
        None => value,
        Some(p) => if p.len() == 0 {
            value
        } else {
            value + list_separator() + p
        },
    }
}

/// Puts `value` in front of the binary search path; an unset or empty path
/// becomes exactly `value`. No other variable changes.
pub fn prepend_to_path(env_vars: &mut StrMap<String>, value: String)
    requires
        old(env_vars).wf(),
    ensures
        final(env_vars).wf(),
        texts(final(env_vars)@) == inserted(
            texts(old(env_vars)@),
            path_var(),
            prepended_path(lookup(texts(old(env_vars)@), path_var()), value@),
        ),
{
    proof {
        reveal_strlit("PATH");
    }
    let key = "PATH".to_owned();
    assert(key@ =~= path_var());
    let new_path = match env_vars.get(&key) {
        Some(p) => {
            if p.as_str().is_empty() {
                value
            } else {
                let mut joined = value;
                joined.append(path_list_separator());
                joined.append(p.as_str());
                joined
            }
        },
        None => value,
    };
    proof {
        lemma_texts(env_vars@, path_var(), new_path);
    }
    assert(new_path@ =~= prepended_path(lookup(texts(env_vars@), path_var()), value@));
    env_vars.insert(key, new_path);
}

/// The path variable after each of `values` is prepended in turn, starting
/// from `current`.
pub open spec fn path_after_all(current: Option<Seq<char>>, values: Seq<Seq<char>>) -> Option<
    Seq<char>,
>
    decreases values.len(),
{
    if values.len() == 0 {
        current
    } else {
        Some(prepended_path(path_after_all(current, values.drop_last()), values.last()))
    }
}

/// `values` from the last to the first, joined by the list separator.
pub open spec fn newest_first(values: Seq<Seq<char>>) -> Seq<char>
    decreases values.len(),
{
    if values.len() == 0 {
        Seq::empty()
    } else if values.len() == 1 {
        values[0]
    } else {
        values.last() + list_separator() + newest_first(values.drop_last())
    }
}

/// Prepending non-empty values one after another to an unset or empty path
/// yields every value, the most recent first, each once, separated by the
/// list separator.
pub proof fn lemma_repeated_prepend(current: Option<Seq<char>>, values: Seq<Seq<char>>)
    requires
        current is None || current == Some(Seq::<char>::empty()),
        values.len() > 0,
        forall|i: int| 0 <= i < values.len() ==> (#[trigger] values[i]).len() > 0,
    ensures
        path_after_all(current, values) == Some(newest_first(values)),
        newest_first(values).len() > 0,
    decreases values.len(),
{
    if values.len() == 1 {
        assert(values.drop_last().len() == 0);
        assert(values.last() == values[0]);
    } else {
        let rest = values.drop_last();
        assert(forall|i: int| 0 <= i < rest.len() ==> #[trigger] rest[i] == values[i]);
        lemma_repeated_prepend(current, rest);
        assert(values.last() == values[values.len() - 1]);
    }
}

/// The process environment that scripts start from: `base` (a later entry
/// for a name replaces an earlier one), with the initial working directory
/// recorded as `cwd` where `base` does not already set it.
pub open spec fn env_from(base: Seq<(String, String)>) -> Seq<(Seq<char>, String)>
    decreases base.len(),
{
    if base.len() == 0 {
        Seq::empty()
    } else {
        inserted(env_from(base.drop_last()), base.last().0@, base.last().1)
    }
}

/// `env` with the initial working directory set to `cwd` where it is unset.
pub open spec fn with_init_cwd(env: Seq<(Seq<char>, String)>, cwd: Option<String>) -> Seq<
    (Seq<char>, String),
> {
    match cwd {
        Some(dir) => if has_key(env, init_cwd_var()) {
            env
        } else {
            inserted(env, init_cwd_var(), dir)
        },
        None => env,
    }
}

/// Builds the environment for a script from the variables in `base` and the
/// current directory `cwd` (where it could be read).
pub fn collect_env_vars(base: &Vec<(String, String)>, cwd: Option<String>) -> (r: StrMap<String>)
    ensures
        r.wf(),
        r@ == with_init_cwd(env_from(base@), cwd),
{
    let mut env_vars: StrMap<String> = StrMap::new();
    let mut i: usize = 0;
    while i < base.len()
        invariant
            i <= base@.len(),
            env_vars.wf(),
            env_vars@ == env_from(base@.take(i as int)),
        decreases base@.len() - i,
    {
        assert(base@.take(i as int + 1).drop_last() =~= base@.take(i as int));
        env_vars.insert(base[i].0.clone(), base[i].1.clone());
        i = i + 1;
    }
    assert(base@.take(base@.len() as int) =~= base@);
    proof {
        reveal_strlit("INIT_CWD");
    }
    let key = "INIT_CWD".to_owned();
    assert(key@ =~= init_cwd_var());
    match cwd {
        Some(dir) => {
            if !env_vars.contains_key(&key) {
                env_vars.insert(key, dir);
            }
        },
        None => {},
    }
    env_vars
}

/// Names the directory of binaries inside a package directory.
pub uninterp spec fn bin_dir_of(dir: Seq<char>) -> Seq<char>;

/// Relies on std::path::Path::join: the `.bin` directory under `dir`, as text.
#[verifier::external_body]
fn join_bin_dir(dir: &str) -> (r: String)
    ensures
        r@ == bin_dir_of(dir@),
{
    std::path::Path::new(dir).join(".bin").to_string_lossy().to_string()
}

/// The environment for a script when packages are installed under
/// `node_modules_dir`: their binaries are searched first.
pub fn collect_env_vars_with_node_modules_dir(
    base: &Vec<(String, String)>,
    cwd: Option<String>,
    node_modules_dir: &str,
) -> (r: StrMap<String>)
    ensures
        r.wf(),
        texts(r@) == inserted(
            texts(with_init_cwd(env_from(base@), cwd)),
            path_var(),
            prepended_path(
                lookup(texts(with_init_cwd(env_from(base@), cwd)), path_var()),
                bin_dir_of(node_modules_dir@),
            ),
        ),
{
    let mut env_vars = collect_env_vars(base, cwd);
    prepend_to_path(&mut env_vars, join_bin_dir(node_modules_dir));
    env_vars
}

} // verus!
