use task_runner::commands::{
    npx_action, npx_failure, package_bin_args, resolve_npm_commands, Command, NpxAction,
    PackageNv, TopLevelPackage,
};
use task_runner::env::{
    collect_env_vars, collect_env_vars_with_node_modules_dir, path_list_separator,
    prepend_to_path,
};
use indexmap::IndexMap;
use task_runner::map::StrMap;
use task_runner::script::{get_script_with_args, quote_arg};
use task_runner::task::{
    available_tasks, hook_step_names, next_action, parse_step, plan_task, select_task_source,
    DriverAction, TaskError, TaskSource, TaskStep,
};

fn s(v: &str) -> String {
    v.to_string()
}

fn map_of(entries: &[(&str, &str)]) -> StrMap<String> {
    let mut m = StrMap::new();
    for (k, v) in entries {
        m.insert(s(k), s(v));
    }
    m
}

fn tasks_of(entries: &[(&str, &str)]) -> IndexMap<String, String> {
    let mut m = IndexMap::new();
    for (k, v) in entries {
        m.insert(s(k), s(v));
    }
    m
}

fn path_of(env: &StrMap<String>) -> Option<String> {
    env.get(&s("PATH")).cloned()
}

fn nv(name: &str, version: &str) -> PackageNv {
    PackageNv { name: s(name), version: s(version) }
}

#[test]
fn test_prepend_to_path() {
    let mut env_vars: StrMap<String> = StrMap::new();

    prepend_to_path(&mut env_vars, "/example".to_string());
    assert_eq!(env_vars.len(), 1);
    assert_eq!(path_of(&env_vars), Some(s("/example")));

    prepend_to_path(&mut env_vars, "/example2".to_string());
    let separator = path_list_separator();
    assert_eq!(env_vars.len(), 1);
    assert_eq!(path_of(&env_vars), Some(format!("/example2{}/example", separator)));

    env_vars.insert(s("PATH"), String::new());
    prepend_to_path(&mut env_vars, "/example".to_string());
    assert_eq!(env_vars.len(), 1);
    assert_eq!(path_of(&env_vars), Some(s("/example")));
}

#[test]
fn separator_matches_platform() {
    let expected = if std::path::is_separator('\\') { ";" } else { ":" };
    assert_eq!(path_list_separator(), expected);
}

#[test]
fn repeated_prepends_keep_newest_first() {
    let sep = path_list_separator();
    let mut env = StrMap::new();
    for v in ["/a", "/b", "/c"] {
        prepend_to_path(&mut env, s(v));
    }
    assert_eq!(path_of(&env), Some(format!("/c{sep}/b{sep}/a")));
}

#[test]
fn prepend_keeps_existing_path_and_other_vars() {
    let sep = path_list_separator();
    let mut env = map_of(&[("HOME", "/home/u"), ("PATH", "/usr/bin")]);
    prepend_to_path(&mut env, s("/x"));
    assert_eq!(path_of(&env), Some(format!("/x{sep}/usr/bin")));
    assert_eq!(env.get(&s("HOME")), Some(&s("/home/u")));
    assert_eq!(env.len(), 2);
}

#[test]
fn init_cwd_set_only_when_missing() {
    let env = collect_env_vars(&vec![(s("A"), s("1"))], Some(s("/work")));
    assert_eq!(env.get(&s("INIT_CWD")), Some(&s("/work")));
    assert_eq!(env.get(&s("A")), Some(&s("1")));

    let env = collect_env_vars(&vec![(s("INIT_CWD"), s("/first"))], Some(s("/work")));
    assert_eq!(env.get(&s("INIT_CWD")), Some(&s("/first")));
    assert_eq!(env.len(), 1);

    let env = collect_env_vars(&vec![(s("A"), s("1")), (s("A"), s("2"))], None);
    assert_eq!(env.get(&s("A")), Some(&s("2")));
    assert_eq!(env.get(&s("INIT_CWD")), None);
}

#[test]
fn node_modules_bin_dir_goes_first() {
    let sep = path_list_separator();
    let base = vec![(s("PATH"), s("/usr/bin"))];
    let env = collect_env_vars_with_node_modules_dir(&base, Some(s("/w")), "/w/node_modules");
    let bin = std::path::Path::new("/w/node_modules").join(".bin");
    let expected = format!("{}{sep}/usr/bin", bin.to_string_lossy());
    assert_eq!(path_of(&env), Some(expected));
    assert_eq!(env.get(&s("INIT_CWD")), Some(&s("/w")));
}

#[test]
fn script_without_args_is_trimmed() {
    assert_eq!(get_script_with_args("  echo hi  ", &vec![]), "echo hi");
    assert_eq!(get_script_with_args("", &vec![]), "");
}

#[test]
fn script_args_are_quoted_and_escaped() {
    let r = get_script_with_args("echo", &vec![s("a\"b"), s("c$d")]);
    assert_eq!(r, "echo \"a\\\"b\" \"c\\$d\"");
    assert_eq!(quote_arg("plain"), "\"plain\"");
    assert_eq!(quote_arg("$(rm)"), "\"\\$(rm)\"");
}

#[test]
fn config_takes_precedence() {
    let tasks = tasks_of(&[("build", "deno run build.ts")]);
    let scripts = tasks_of(&[("build", "echo build"), ("prebuild", "echo pre")]);
    assert_eq!(select_task_source(&s("build"), &tasks, &scripts), TaskSource::Config);
    let (source, steps) = plan_task(&s("build"), &tasks, &scripts, &vec![]);
    assert_eq!(source, TaskSource::Config);
    assert_eq!(steps.len(), 1);
    assert_eq!(steps[0].name, "build");
    assert_eq!(steps[0].script, "deno run build.ts");
}

#[test]
fn manifest_task_without_hooks_runs_once() {
    let tasks = tasks_of(&[]);
    let scripts = tasks_of(&[("build", "echo build")]);
    let (source, steps) = plan_task(&s("build"), &tasks, &scripts, &vec![]);
    assert_eq!(source, TaskSource::Manifest);
    assert_eq!(steps.len(), 1);
    assert_eq!(steps[0].name, "build");
    assert_eq!(steps[0].script, "echo build");
}

#[test]
fn failing_step_stops_the_hooks() {
    let tasks = tasks_of(&[]);
    let scripts =
        tasks_of(&[("postbuild", "echo post"), ("build", "exit 1"), ("prebuild", "echo pre")]);
    let (source, steps) = plan_task(&s("build"), &tasks, &scripts, &vec![s("x")]);
    assert_eq!(source, TaskSource::Manifest);
    let names: Vec<&str> = steps.iter().map(|st| st.name.as_str()).collect();
    assert_eq!(names, vec!["prebuild", "build", "postbuild"]);
    assert_eq!(steps[1].script, "exit 1 \"x\"");

    let exit_codes = [0, 1, 0];
    let mut ran: Vec<&str> = Vec::new();
    let mut completed = 0;
    let mut last = 0;
    let code = loop {
        match next_action(steps.len(), completed, last) {
            DriverAction::RunStep(i) => {
                ran.push(steps[i].name.as_str());
                last = exit_codes[i];
                completed += 1;
            }
            DriverAction::Finish(c) => break c,
        }
    };
    assert_eq!(ran, vec!["prebuild", "build"]);
    assert_eq!(code, 1);
}

#[test]
fn all_steps_succeed_with_zero() {
    assert_eq!(next_action(2, 0, 0), DriverAction::RunStep(0));
    assert_eq!(next_action(2, 1, 0), DriverAction::RunStep(1));
    assert_eq!(next_action(2, 2, 0), DriverAction::Finish(0));
    assert_eq!(next_action(3, 1, -2), DriverAction::Finish(-2));
}

#[test]
fn unknown_task_is_not_found() {
    let tasks = tasks_of(&[("a", "echo a")]);
    let scripts = tasks_of(&[("b", "echo b")]);
    let (source, steps) = plan_task(&s("c"), &tasks, &scripts, &vec![]);
    assert_eq!(source, TaskSource::NotFound);
    assert!(steps.is_empty());
}

#[test]
fn hook_names_are_prefixed() {
    assert_eq!(hook_step_names("test"), vec![s("pretest"), s("test"), s("posttest")]);
}

#[test]
fn listing_puts_config_first_and_skips_shadowed_scripts() {
    let tasks = tasks_of(&[("b", "echo b"), ("a", "echo a")]);
    let scripts = tasks_of(&[("a", "npm a"), ("c", "npm c")]);
    let list = available_tasks(&tasks, &scripts);
    let got: Vec<(&str, &str, bool)> = list
        .iter()
        .map(|l| (l.name.as_str(), l.script.as_str(), l.from_manifest))
        .collect();
    assert_eq!(got, vec![("b", "echo b", false), ("a", "echo a", false), ("c", "npm c", true)]);
    assert!(available_tasks(&tasks_of(&[]), &tasks_of(&[])).is_empty());
}

#[test]
fn parse_failure_names_the_step() {
    let ok = parse_step(TaskStep { name: s("build"), script: s("echo hi") });
    assert_eq!(ok.map(|p| p.name).ok(), Some(s("build")));
    let bad = parse_step(TaskStep { name: s("build"), script: s("echo 'open") });
    assert_eq!(bad.err(), Some(TaskError::Parse { task_name: s("build") }));
    let empty = parse_step(TaskStep { name: s("e"), script: s("") });
    assert_eq!(empty.err(), Some(TaskError::Parse { task_name: s("e") }));
}

#[test]
fn later_package_binary_wins() {
    let pkgs = vec![
        TopLevelPackage { nv: nv("a", "1.0.0"), bin_names: Ok(vec![s("tool"), s("a")]) },
        TopLevelPackage { nv: nv("b", "2.0.0"), bin_names: Ok(vec![s("tool")]) },
    ];
    let table = resolve_npm_commands(&pkgs).unwrap();
    match table.get(&s("tool")) {
        Some(Command::PackageBin { name, package }) => {
            assert_eq!(name, "tool");
            assert_eq!(package.name, "b");
            let args = package_bin_args(name, package, &vec![s("--flag")]);
            assert_eq!(args, vec![s("run"), s("-A"), s("npm:b@2.0.0/tool"), s("--flag")]);
        }
        other => panic!("unexpected entry {:?}", other),
    }
    match table.get(&s("a")) {
        Some(Command::PackageBin { package, .. }) => {
            let args = package_bin_args("a", package, &vec![]);
            assert_eq!(args, vec![s("run"), s("-A"), s("npm:a@1.0.0")]);
        }
        other => panic!("unexpected entry {:?}", other),
    }
    assert!(matches!(table.get(&s("npx")), Some(Command::Npx)));
    assert_eq!(table.len(), 3);
}

#[test]
fn package_may_claim_npx() {
    let pkgs = vec![TopLevelPackage { nv: nv("npx", "9.0.0"), bin_names: Ok(vec![s("npx")]) }];
    let table = resolve_npm_commands(&pkgs).unwrap();
    assert!(matches!(table.get(&s("npx")), Some(Command::PackageBin { .. })));
    assert_eq!(table.len(), 1);
}

#[test]
fn resolution_error_is_propagated() {
    let pkgs = vec![
        TopLevelPackage { nv: nv("a", "1.0.0"), bin_names: Ok(vec![s("a")]) },
        TopLevelPackage { nv: nv("b", "1.0.0"), bin_names: Err(s("no folder for b")) },
        TopLevelPackage { nv: nv("c", "1.0.0"), bin_names: Err(s("no folder for c")) },
    ];
    match resolve_npm_commands(&pkgs) {
        Err(e) => assert_eq!(e, TaskError::Resolution { message: s("no folder for b") }),
        Ok(_) => panic!("expected an error"),
    }
}

#[test]
fn npx_without_arguments_is_missing() {
    let table = resolve_npm_commands(&vec![]).unwrap();
    let action = npx_action(&vec![], &table);
    assert!(matches!(action, NpxAction::Missing));
    assert_eq!(npx_failure(&action), Some((s("npx: missing command"), 1)));
}

#[test]
fn npx_unresolvable_command() {
    let table = resolve_npm_commands(&vec![]).unwrap();
    let action = npx_action(&vec![s("nope")], &table);
    assert!(matches!(action, NpxAction::Unresolved { ref name } if name == "nope"));
    assert_eq!(
        npx_failure(&action),
        Some((s("npx: could not resolve command 'nope'"), 1))
    );
}

#[test]
fn npx_delegates_to_table_entry() {
    let pkgs =
        vec![TopLevelPackage { nv: nv("cowsay", "1.5.0"), bin_names: Ok(vec![s("cowsay")]) }];
    let table = resolve_npm_commands(&pkgs).unwrap();
    let action = npx_action(&vec![s("cowsay"), s("hi"), s("there")], &table);
    match &action {
        NpxAction::Delegate { name, args } => {
            assert_eq!(name, "cowsay");
            assert_eq!(args, &vec![s("hi"), s("there")]);
        }
        other => panic!("unexpected action {:?}", other),
    }
    assert_eq!(npx_failure(&action), None);
}
