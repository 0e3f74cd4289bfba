use vstd::prelude::*;
use crate::map::{has_key, lookup};
use indexmap::IndexMap;
use crate::script::{get_script_with_args, script_with_args};

verus! {

#[verifier::external_type_specification]
#[verifier::external_body]
#[verifier::reject_recursive_types(K)]
#[verifier::reject_recursive_types(V)]
#[verifier::reject_recursive_types(S)]
pub struct ExIndexMap<K, V, S>(IndexMap<K, V, S>);

/// The entries of a task or script map, in insertion order, as text.
pub uninterp spec fn task_entries(m: IndexMap<String, String>) -> Seq<(Seq<char>, Seq<char>)>;

/// Relies on IndexMap::len: the number of entries.
#[verifier::external_body]
fn entry_count(m: &IndexMap<String, String>) -> (r: usize)
    ensures
        r == task_entries(*m).len(),
{
    m.len()
}

/// Relies on IndexMap::get_index: the entry at position `i`, in insertion
/// order, present for every position below the length.
#[verifier::external_body]
fn entry_at(m: &IndexMap<String, String>, i: usize) -> (r: Option<(&String, &String)>)
    ensures
        (i < task_entries(*m).len()) == (r is Some),
        r matches Some(e) ==> (e.0@, e.1@) == task_entries(*m)[i as int],
{
    m.get_index(i)
}

/// Relies on IndexMap::get: the value stored under `k`, if any; keys are
/// unique, so it is the value of the one entry with that key.
#[verifier::external_body]
fn entry_get<'a>(m: &'a IndexMap<String, String>, k: &String) -> (r: Option<&'a String>)
    ensures
        (r is Some) == has_key(task_entries(*m), k@),
        r matches Some(v) ==> lookup(task_entries(*m), k@) == Some(v@),
{
    m.get(k)
}

/// Which source owns a task name.
#[derive(PartialEq, Eq, Structural, Clone, Copy, Debug)]
pub enum TaskSource {
    /// The project configuration's task map.
    Config,
    /// The package manifest's script map.
    Manifest,
    /// Neither source has the name.
    NotFound,
}

/// The configuration's tasks take precedence over the manifest's scripts.
pub open spec fn source_of(
    name: Seq<char>,
    tasks: Seq<(Seq<char>, Seq<char>)>,
    scripts: Seq<(Seq<char>, Seq<char>)>,
) -> TaskSource {
    if has_key(tasks, name) {
        TaskSource::Config
    } else if has_key(scripts, name) {
        TaskSource::Manifest
    } else {
        TaskSource::NotFound
    }
}

/// Decides which source owns `name`.
pub fn select_task_source(name: &String, tasks: &IndexMap<String, String>, scripts: &IndexMap<String, String>) -> (r:
    TaskSource)
    ensures
        r == source_of(name@, task_entries(*tasks), task_entries(*scripts)),
{
    if entry_get(tasks, name).is_some() {
        TaskSource::Config
    } else if entry_get(scripts, name).is_some() {
        TaskSource::Manifest
    } else {
        TaskSource::NotFound
    }
}

/// A name in the configuration's tasks resolves to the configuration,
/// whatever the manifest holds.
pub proof fn lemma_config_takes_precedence(
    name: Seq<char>,
    tasks: Seq<(Seq<char>, Seq<char>)>,
    scripts: Seq<(Seq<char>, Seq<char>)>,
)
    requires
        has_key(tasks, name),
    ensures
        source_of(name, tasks, scripts) == TaskSource::Config,
{
}

/// The text `pre` followed by `name`.
pub open spec fn pre_name(name: Seq<char>) -> Seq<char> {
    seq!['p', 'r', 'e'] + name
}

/// The text `post` followed by `name`.
pub open spec fn post_name(name: Seq<char>) -> Seq<char> {
    seq!['p', 'o', 's', 't'] + name
}

/// The names of the hook steps of a manifest task, in the order they run.
pub fn hook_step_names(name: &str) -> (r: Vec<String>)
    ensures
        r@.len() == 3,
        r@[0]@ == pre_name(name@),
        r@[1]@ == name@,
        r@[2]@ == post_name(name@),
{
    proof {
        reveal_strlit("pre");
        reveal_strlit("post");
    }
    let mut pre = "pre".to_owned();
    pre.append(name);
    let mut post = "post".to_owned();
    post.append(name);
    let mut r: Vec<String> = Vec::new();
    r.push(pre);
    r.push(name.to_owned());
    r.push(post);
    r
}

/// One script to hand to the shell engine: the step's name and its
/// finalized text.
pub struct TaskStep {
    pub name: String,
    pub script: String,
}

/// A step as its name and finalized text.
pub open spec fn step_view(s: TaskStep) -> (Seq<char>, Seq<char>) {
    (s.name@, s.script@)
}

/// The step named `n` where the map has it, with the arguments appended.
pub open spec fn step_if_present(
    n: Seq<char>,
    scripts: Seq<(Seq<char>, Seq<char>)>,
    args: Seq<String>,
) -> Seq<(Seq<char>, Seq<char>)> {
    match lookup(scripts, n) {
        Some(s) => seq![(n, script_with_args(s, args))],
        None => Seq::empty(),
    }
}

/// The steps that run for `name`, in order: for a configuration task the task
/// alone; for a manifest script `pre<name>`, `<name>` and `post<name>`, each
/// where the manifest has it; none where neither source has the name.
pub open spec fn planned_steps(
    name: Seq<char>,
    tasks: Seq<(Seq<char>, Seq<char>)>,
    scripts: Seq<(Seq<char>, Seq<char>)>,
    args: Seq<String>,
) -> Seq<(Seq<char>, Seq<char>)> {
    match source_of(name, tasks, scripts) {
        TaskSource::Config => step_if_present(name, tasks, args),
        TaskSource::Manifest => step_if_present(pre_name(name), scripts, args) + step_if_present(
            name,
            scripts,
            args,
        ) + step_if_present(post_name(name), scripts, args),
        TaskSource::NotFound => Seq::empty(),
    }
}

/// Appends to `steps` the step named `n` where `map` has it.
fn push_step_if_present(
    steps: &mut Vec<TaskStep>,
    n: String,
    map: &IndexMap<String, String>,
    args: &Vec<String>,
)
    ensures
        final(steps)@.map_values(|s: TaskStep| step_view(s)) == old(steps)@.map_values(
            |s: TaskStep| step_view(s),
        ) + step_if_present(n@, task_entries(*map), args@),
{
    match entry_get(map, &n) {
        Some(s) => {
            let script = get_script_with_args(s.as_str(), args);
            steps.push(TaskStep { name: n, script });
            assert(final(steps)@.map_values(|s: TaskStep| step_view(s)) =~= old(steps)@.map_values(
                |s: TaskStep| step_view(s),
            ) + step_if_present(n@, task_entries(*map), args@));
        },
        None => {
            assert(final(steps)@.map_values(|s: TaskStep| step_view(s)) =~= old(steps)@.map_values(
                |s: TaskStep| step_view(s),
            ) + step_if_present(n@, task_entries(*map), args@));
        },
    }
}

/// Resolves `name` against both sources and lists the steps to run, each with
/// the pass-through arguments appended.
pub fn plan_task(
    name: &String,
    tasks: &IndexMap<String, String>,
    scripts: &IndexMap<String, String>,
    args: &Vec<String>,
) -> (r: (TaskSource, Vec<TaskStep>))
    ensures
        r.0 == source_of(name@, task_entries(*tasks), task_entries(*scripts)),
        r.1@.map_values(|s: TaskStep| step_view(s)) == planned_steps(
            name@,
            task_entries(*tasks),
            task_entries(*scripts),
            args@,
        ),
{
    let source = select_task_source(name, tasks, scripts);
    let mut steps: Vec<TaskStep> = Vec::new();
    assert(steps@.map_values(|s: TaskStep| step_view(s)) =~= Seq::empty());
    match source {
        TaskSource::Config => {
            push_step_if_present(&mut steps, name.clone(), tasks, args);
            assert(steps@.map_values(|s: TaskStep| step_view(s)) =~= planned_steps(
                name@,
                task_entries(*tasks),
                task_entries(*scripts),
                args@,
            ));
        },
        TaskSource::Manifest => {
            let names = hook_step_names(name.as_str());
            push_step_if_present(&mut steps, names[0].clone(), scripts, args);
            push_step_if_present(&mut steps, names[1].clone(), scripts, args);
            push_step_if_present(&mut steps, names[2].clone(), scripts, args);
            assert(steps@.map_values(|s: TaskStep| step_view(s)) =~= planned_steps(
                name@,
                task_entries(*tasks),
                task_entries(*scripts),
                args@,
            ));
        },
        TaskSource::NotFound => {
            assert(steps@.map_values(|s: TaskStep| step_view(s)) =~= planned_steps(
                name@,
                task_entries(*tasks),
                task_entries(*scripts),
                args@,
            ));
        },
    }
    (source, steps)
}

/// What the driver does next.
#[derive(PartialEq, Eq, Structural, Clone, Copy, Debug)]
pub enum DriverAction {
    /// Run the step at this position.
    RunStep(usize),
    /// Stop with this exit code.
    Finish(i32),
}

/// The driver's decision once `completed` of `n_steps` steps have run, the
/// last of them (if any) with exit code `last_exit`: the first failing step
/// ends the run with its code, otherwise the steps run in order and the run
/// ends with 0.
pub open spec fn next_action_spec(n_steps: nat, completed: nat, last_exit: i32) -> DriverAction {
    if completed > 0 && last_exit != 0 {
        DriverAction::Finish(last_exit)
    } else if completed < n_steps {
        DriverAction::RunStep(completed as usize)
    } else {
        DriverAction::Finish(0)
    }
}

/// Decides what to do after `completed` of `n_steps` steps have run.
pub fn next_action(n_steps: usize, completed: usize, last_exit: i32) -> (r: DriverAction)
    requires
        completed <= n_steps,
    ensures
        r == next_action_spec(n_steps as nat, completed as nat, last_exit),
{
    if completed > 0 && last_exit != 0 {
        DriverAction::Finish(last_exit)
    } else if completed < n_steps {
        DriverAction::RunStep(completed)
    } else {
        DriverAction::Finish(0)
    }
}

/// A step whose script was accepted by the shell engine's parser.
pub struct ParsedStep {
    pub name: String,
    pub list: deno_task_shell::parser::SequentialList,
}

#[verifier::external_type_specification]
#[verifier::external_body]
pub struct ExSequentialList(deno_task_shell::parser::SequentialList);

/// Whether the shell engine's parser accepts the script text.
pub uninterp spec fn script_parses(s: Seq<char>) -> bool;

/// Relies on deno_task_shell::parser::parse: accepts or rejects the text,
/// depending on the text alone.
#[verifier::external_body]
fn parse_script(s: &str) -> (r: Option<deno_task_shell::parser::SequentialList>)
    ensures
        r is Some == script_parses(s@),
{
    deno_task_shell::parser::parse(s).ok()
}

/// Why a task run cannot proceed.
#[derive(PartialEq, Eq, Debug)]
pub enum TaskError {
    /// The script of the named step does not parse.
    Parse { task_name: String },
    /// A package's folder or binaries could not be found.
    Resolution { message: String },
}

/// Parses the step's script; a rejected script names the step.
pub fn parse_step(step: TaskStep) -> (r: Result<ParsedStep, TaskError>)
    ensures
        script_parses(step.script@) <==> r is Ok,
        match r {
            Ok(p) => p.name@ == step.name@,
            Err(e) => (match e {
                TaskError::Parse { task_name } => task_name@ == step.name@,
                _ => false,
            }),
        },
{
    match parse_script(step.script.as_str()) {
        Some(list) => Ok(ParsedStep { name: step.name, list }),
        None => Err(TaskError::Parse { task_name: step.name }),
    }
}

/// One line of the task listing.
pub struct TaskListing {
    pub name: String,
    pub script: String,
    /// Whether the task comes from the package manifest.
    pub from_manifest: bool,
}

pub open spec fn listing_view(l: TaskListing) -> (Seq<char>, Seq<char>, bool) {
    (l.name@, l.script@, l.from_manifest)
}

/// The configuration's tasks in order, then the manifest's scripts whose
/// names the configuration does not have.
pub open spec fn listing_of(
    tasks: Seq<(Seq<char>, Seq<char>)>,
    scripts: Seq<(Seq<char>, Seq<char>)>,
) -> Seq<(Seq<char>, Seq<char>, bool)> {
    tasks.map_values(|e: (Seq<char>, Seq<char>)| (e.0, e.1, false)) + manifest_only(tasks, scripts)
}

/// The manifest's scripts whose names the configuration does not have.
pub open spec fn manifest_only(
    tasks: Seq<(Seq<char>, Seq<char>)>,
    scripts: Seq<(Seq<char>, Seq<char>)>,
) -> Seq<(Seq<char>, Seq<char>, bool)>
    decreases scripts.len(),
{
    if scripts.len() == 0 {
        Seq::empty()
    } else {
        manifest_only(tasks, scripts.drop_last()) + if has_key(tasks, scripts.last().0) {
            Seq::empty()
        } else {
            seq![(scripts.last().0, scripts.last().1, true)]
        }
    }
}

/// Lists the available tasks of both sources for display.
pub fn available_tasks(tasks: &IndexMap<String, String>, scripts: &IndexMap<String, String>) -> (r: Vec<TaskListing>)
    ensures
        r@.map_values(|l: TaskListing| listing_view(l)) == listing_of(task_entries(*tasks), task_entries(*scripts)),
{
    let mut r: Vec<TaskListing> = Vec::new();
    let mut i: usize = 0;
    let n_tasks = entry_count(tasks);
    while i < n_tasks
        invariant
            i <= task_entries(*tasks).len(),
            n_tasks == task_entries(*tasks).len(),
            r@.map_values(|l: TaskListing| listing_view(l)) == task_entries(*tasks).take(i as int).map_values(
                |e: (Seq<char>, Seq<char>)| (e.0, e.1, false),
            ),
        decreases task_entries(*tasks).len() - i,
    {
        let ghost prev = r@.map_values(|l: TaskListing| listing_view(l));
        let (name, script) = match entry_at(tasks, i) {
            Some((k, v)) => (k.clone(), v.clone()),
            None => (String::new(), String::new()),
        };
        assert((name@, script@, false) == (task_entries(*tasks)[i as int].0, task_entries(*tasks)[i as int].1, false));
        r.push(TaskListing { name, script, from_manifest: false });
        assert(r@.map_values(|l: TaskListing| listing_view(l)) =~= prev + seq![
            (task_entries(*tasks)[i as int].0, task_entries(*tasks)[i as int].1, false),
        ]);
        assert(r@.map_values(|l: TaskListing| listing_view(l)) =~= task_entries(*tasks).take(
            i as int + 1,
        ).map_values(|e: (Seq<char>, Seq<char>)| (e.0, e.1, false)));
        i = i + 1;
    }
    assert(task_entries(*tasks).take(task_entries(*tasks).len() as int) =~= task_entries(*tasks));
    let ghost head = r@.map_values(|l: TaskListing| listing_view(l));
    let mut j: usize = 0;
    let n_scripts = entry_count(scripts);
    while j < n_scripts
        invariant
            j <= task_entries(*scripts).len(),
            n_scripts == task_entries(*scripts).len(),
            head == task_entries(*tasks).map_values(|e: (Seq<char>, Seq<char>)| (e.0, e.1, false)),
            r@.map_values(|l: TaskListing| listing_view(l)) == head + manifest_only(
                task_entries(*tasks),
                task_entries(*scripts).take(j as int),
            ),
        decreases task_entries(*scripts).len() - j,
    {
        let ghost prev = r@.map_values(|l: TaskListing| listing_view(l));
        assert(task_entries(*scripts).take(j as int + 1).drop_last() =~= task_entries(*scripts).take(j as int));
        assert(task_entries(*scripts).take(j as int + 1).last() == task_entries(*scripts)[j as int]);
        let (key, script) = match entry_at(scripts, j) {
            Some((k, v)) => (k.clone(), v.clone()),
            None => (String::new(), String::new()),
        };
        if entry_get(tasks, &key).is_none() {
            r.push(TaskListing { name: key, script, from_manifest: true });
            assert(r@.map_values(|l: TaskListing| listing_view(l)) =~= prev + seq![
                (task_entries(*scripts)[j as int].0, task_entries(*scripts)[j as int].1, true),
            ]);
        } else {
            assert(r@.map_values(|l: TaskListing| listing_view(l)) =~= prev + Seq::empty());
        }
        j = j + 1;
    }
    assert(task_entries(*scripts).take(task_entries(*scripts).len() as int) =~= task_entries(*scripts));
    r
}

} // verus!
