use vstd::prelude::*;
use crate::map::{StrMap, lemma_lookup_inserted, lookup, unique_keys};
use crate::task::TaskError;

verus! {

/// A package's identity: its name and its version as text.
#[derive(Debug)]
pub struct PackageNv {
    pub name: String,
    pub version: String,
}

impl PackageNv {
    /// A second value with the same name and version.
    pub fn copied(&self) -> (r: PackageNv)
        ensures
            r.name@ == self.name@,
            r.version@ == self.version@,
    {
        PackageNv { name: self.name.clone(), version: self.version.clone() }
    }
}

/// What a command name inside a running script resolves to.
#[derive(Debug)]
pub enum Command {
    /// A binary exposed by an installed package, run through that package.
    PackageBin { name: String, package: PackageNv },
    /// The catch-all command that runs any resolvable command by name.
    Npx,
}

/// An installed top-level package and the names of the binaries it exposes,
/// or why they could not be found.
pub struct TopLevelPackage {
    pub nv: PackageNv,
    pub bin_names: Result<Vec<String>, String>,
}

/// The name under which the catch-all command is registered.
pub open spec fn npx_name() -> Seq<char> {
    seq!['n', 'p', 'x']
}

/// Whether `p` exposes a binary named `k`.
pub open spec fn exposes(p: TopLevelPackage, k: Seq<char>) -> bool {
    match p.bin_names {
        Ok(b) => exists|j: int| 0 <= j < b@.len() && #[trigger] b@[j]@ == k,
        Err(_) => false,
    }
}

/// The position of the last package that exposes `k`.
pub open spec fn owner(pkgs: Seq<TopLevelPackage>, k: Seq<char>) -> Option<int>
    decreases pkgs.len(),
{
    if pkgs.len() == 0 {
        None
    } else if exposes(pkgs.last(), k) {
        Some(pkgs.len() - 1)
    } else {
        owner(pkgs.drop_last(), k)
    }
}

/// The first failure to find a package's binaries, in package order.
pub open spec fn first_error(pkgs: Seq<TopLevelPackage>) -> Option<String>
    decreases pkgs.len(),
{
    if pkgs.len() == 0 {
        None
    } else {
        match pkgs[0].bin_names {
            Err(e) => Some(e),
            Ok(_) => first_error(pkgs.drop_first()),
        }
    }
}

/// Whether `c` runs binary `k` of the package `nv`.
pub open spec fn runs_bin_of(c: Command, k: Seq<char>, nv: PackageNv) -> bool {
    match c {
        Command::PackageBin { name, package } => name@ == k && package.name@ == nv.name@
            && package.version@ == nv.version@,
        Command::Npx => false,
    }
}

/// What the command table holds under `k` when built from all packages of
/// `pkgs`: the binary of the last package exposing `k`; else the catch-all
/// under its own name; else nothing.
pub open spec fn table_entry_ok(t: Seq<(Seq<char>, Command)>, pkgs: Seq<TopLevelPackage>, k: Seq<
    char,
>) -> bool {
    match owner(pkgs, k) {
        Some(i) => lookup(t, k) is Some && runs_bin_of(lookup(t, k)->0, k, pkgs[i].nv),
        None => if k == npx_name() {
            lookup(t, k) == Some(Command::Npx)
        } else {
            lookup(t, k) is None
        },
    }
}

/// The table while the packages before position `i` are registered.
pub open spec fn partial_entry_ok(t: Seq<(Seq<char>, Command)>, pkgs: Seq<TopLevelPackage>, k: Seq<
    char,
>) -> bool {
    match owner(pkgs, k) {
        Some(i) => lookup(t, k) is Some && runs_bin_of(lookup(t, k)->0, k, pkgs[i].nv),
        None => lookup(t, k) is None,
    }
}

proof fn lemma_owner_bounds(pkgs: Seq<TopLevelPackage>, k: Seq<char>)
    ensures
        owner(pkgs, k) matches Some(o) ==> 0 <= o < pkgs.len() && exposes(pkgs[o], k),
    decreases pkgs.len(),
{
    if pkgs.len() > 0 && !exposes(pkgs.last(), k) {
        lemma_owner_bounds(pkgs.drop_last(), k);
    }
}

proof fn lemma_first_error_prefix(pkgs: Seq<TopLevelPackage>, i: int)
    requires
        0 <= i < pkgs.len(),
        first_error(pkgs.take(i)) is None,
    ensures
        first_error(pkgs) == first_error(pkgs.subrange(i, pkgs.len() as int)),
    decreases i,
{
    if i > 0 {
        assert(pkgs.take(i).drop_first() =~= pkgs.drop_first().take(i - 1));
        lemma_first_error_prefix(pkgs.drop_first(), i - 1);
        assert(pkgs.drop_first().subrange(i - 1, pkgs.len() - 1) =~= pkgs.subrange(
            i,
            pkgs.len() as int,
        ));
    } else {
        assert(pkgs.subrange(0, pkgs.len() as int) =~= pkgs);
    }
}

proof fn lemma_first_error_extend(pkgs: Seq<TopLevelPackage>, i: int)
    requires
        0 <= i < pkgs.len(),
        first_error(pkgs.take(i)) is None,
        pkgs[i].bin_names is Ok,
    ensures
        first_error(pkgs.take(i + 1)) is None,
    decreases i,
{
    assert(pkgs.take(i + 1)[0] == pkgs[0]);
    if i > 0 {
        assert(pkgs.take(i)[0] == pkgs[0]);
        assert(pkgs[0].bin_names is Ok);
        assert(first_error(pkgs.take(i)) == first_error(pkgs.take(i).drop_first()));
        assert(pkgs.drop_first()[i - 1] == pkgs[i]);
        assert(pkgs.take(i).drop_first() =~= pkgs.drop_first().take(i - 1));
        assert(pkgs.take(i + 1).drop_first() =~= pkgs.drop_first().take(i));
        lemma_first_error_extend(pkgs.drop_first(), i - 1);
        assert(first_error(pkgs.take(i + 1)) == first_error(pkgs.take(i + 1).drop_first()));
    } else {
        assert(pkgs.take(1).drop_first() =~= Seq::<TopLevelPackage>::empty());
        assert(first_error(pkgs.take(1).drop_first()) is None);
        assert(first_error(pkgs.take(1)) == first_error(pkgs.take(1).drop_first()));
    }
}

/// Builds the command table from the installed top-level packages: each
/// exposed binary runs through its package, a later package replacing an
/// earlier one's binary of the same name, and the catch-all is added under
/// its name unless a package claims it. The first package whose binaries
/// could not be found fails the whole table.
pub fn resolve_npm_commands(pkgs: &Vec<TopLevelPackage>) -> (r: Result<StrMap<Command>, TaskError>)
    ensures
        match first_error(pkgs@) {
            Some(e) => r matches Err(TaskError::Resolution { message }) && message@ == e@,
            None => r is Ok,
        },
        match r {
            Ok(t) => t.wf() && forall|k: Seq<char>| #[trigger] table_entry_ok(t@, pkgs@, k),
            Err(_) => true,
        },
{
    let mut table: StrMap<Command> = StrMap::new();
    let mut i: usize = 0;
    while i < pkgs.len()
        invariant
            i <= pkgs@.len(),
            table.wf(),
            first_error(pkgs@.take(i as int)) is None,
            forall|k: Seq<char>| #[trigger]
                partial_entry_ok(table@, pkgs@.take(i as int), k),
        decreases pkgs@.len() - i,
    {
        let pkg = &pkgs[i];
        match &pkg.bin_names {
            Err(e) => {
                proof {
                    lemma_first_error_prefix(pkgs@, i as int);
                    assert(pkgs@.subrange(i as int, pkgs@.len() as int)[0] == pkgs@[i as int]);
                }
                return Err(TaskError::Resolution { message: e.clone() });
            },
            Ok(bins) => {
                let ghost before = table@;
                let mut j: usize = 0;
                while j < bins.len()
                    invariant
                        j <= bins@.len(),
                        table.wf(),
                        forall|k: Seq<char>|
                            (exists|m: int| 0 <= m < j && #[trigger] bins@[m]@ == k) ==> (
                            #[trigger] lookup(table@, k) is Some && runs_bin_of(
                                lookup(table@, k)->0,
                                k,
                                pkg.nv,
                            )),
                        forall|k: Seq<char>|
                            !(exists|m: int| 0 <= m < j && #[trigger] bins@[m]@ == k) ==> #[trigger]
                            lookup(table@, k) == lookup(before, k),
                    decreases bins@.len() - j,
                {
                    let key = bins[j].clone();
                    let cmd = Command::PackageBin { name: bins[j].clone(), package: pkg.nv.copied() };
                    let ghost prev = table@;
                    let ghost v = cmd;
                    assert(runs_bin_of(v, key@, pkg.nv));
                    table.insert(key, cmd);
                    proof {
                        assert forall|k: Seq<char>|
                            (exists|m: int| 0 <= m < j + 1 && #[trigger] bins@[m]@ == k) implies (
                            #[trigger] lookup(table@, k) is Some && runs_bin_of(
                                lookup(table@, k)->0,
                                k,
                                pkg.nv,
                            )) by {
                            lemma_lookup_inserted(prev, key@, v, k);
                            if k != key@ {
                                let m = choose|m: int| 0 <= m < j + 1 && #[trigger] bins@[m]@ == k;
                                assert(m < j);
                            }
                        }
                        assert forall|k: Seq<char>|
                            !(exists|m: int| 0 <= m < j + 1 && #[trigger] bins@[m]@ == k) implies #[trigger]
                            lookup(table@, k) == lookup(before, k) by {
                            lemma_lookup_inserted(prev, key@, v, k);
                            assert(bins@[j as int]@ == key@);
                        }
                    }
                    j = j + 1;
                }
                proof {
                    let done = pkgs@.take(i as int + 1);
                    assert(done.drop_last() =~= pkgs@.take(i as int));
                    assert(done.last() == pkgs@[i as int]);
                    lemma_first_error_extend(pkgs@, i as int);
                    assert forall|k: Seq<char>| #[trigger] partial_entry_ok(table@, done, k) by {
                        assert(partial_entry_ok(before, pkgs@.take(i as int), k));
                        assert(pkgs@[i as int].bin_names == Ok::<Vec<String>, String>(*bins));
                        let l = lookup(table@, k);
                        if exposes(pkgs@[i as int], k) {
                            let m = choose|m: int| 0 <= m < bins@.len() && #[trigger] bins@[m]@ == k;
                            assert(owner(done, k) == Some(i as int));
                            assert(done[i as int] == pkgs@[i as int]);
                        } else {
                            assert(!(exists|m: int| 0 <= m < bins@.len() && #[trigger] bins@[m]@ == k));
                            assert(owner(done, k) == owner(pkgs@.take(i as int), k));
                            assert(l == lookup(before, k));
                            lemma_owner_bounds(pkgs@.take(i as int), k);
                            if owner(done, k) is Some {
                                let o = owner(done, k)->0;
                                assert(done[o] == pkgs@.take(i as int)[o]);
                            }
                        }
                    }
                }
            },
        }
        i = i + 1;
    }
    assert(pkgs@.take(pkgs@.len() as int) =~= pkgs@);
    proof {
        reveal_strlit("npx");
    }
    let key = "npx".to_owned();
    assert(key@ =~= npx_name());
    if !table.contains_key(&key) {
        let ghost prev = table@;
        table.insert(key, Command::Npx);
        proof {
            assert forall|k: Seq<char>| #[trigger] table_entry_ok(table@, pkgs@, k) by {
                lemma_lookup_inserted(prev, npx_name(), Command::Npx, k);
                assert(partial_entry_ok(prev, pkgs@, k));
                if k == npx_name() {
                    assert(lookup(prev, k) is None);
                }
            }
        }
    } else {
        proof {
            assert forall|k: Seq<char>| #[trigger] table_entry_ok(table@, pkgs@, k) by {
                assert(partial_entry_ok(table@, pkgs@, k));
            }
        }
    }
    Ok(table)
}

/// Where the last package exposes a binary, the table built from all the
/// packages runs that binary through the last package, whatever the earlier
/// packages expose under the same name.
pub proof fn lemma_later_package_wins(
    t: Seq<(Seq<char>, Command)>,
    pkgs: Seq<TopLevelPackage>,
    k: Seq<char>,
)
    requires
        pkgs.len() > 0,
        exposes(pkgs.last(), k),
        forall|k2: Seq<char>| #[trigger] table_entry_ok(t, pkgs, k2),
    ensures
        lookup(t, k) is Some,
        runs_bin_of(lookup(t, k)->0, k, pkgs.last().nv),
{
    assert(table_entry_ok(t, pkgs, k));
}

/// The package specifier that runs binary `cmd` of `nv`: `npm:<name>@<version>`,
/// followed by `/<cmd>` where the binary is not named after the package.
pub open spec fn bin_specifier(cmd: Seq<char>, nv: PackageNv) -> Seq<char> {
    let base = seq!['n', 'p', 'm', ':'] + nv.name@ + seq!['@'] + nv.version@;
    if nv.name@ == cmd {
        base
    } else {
        base + seq!['/'] + cmd
    }
}

/// The arguments with which the host tool runs binary `command_name` of
/// `nv` with full permissions, passing `args` on unchanged.
pub fn package_bin_args(command_name: &str, nv: &PackageNv, args: &Vec<String>) -> (r: Vec<String>)
    ensures
        r@.len() == args@.len() + 3,
        r@[0]@ == seq!['r', 'u', 'n'],
        r@[1]@ == seq!['-', 'A'],
        r@[2]@ == bin_specifier(command_name@, *nv),
        forall|i: int| 0 <= i < args@.len() ==> #[trigger] r@[i + 3] == args@[i],
{
    proof {
        reveal_strlit("run");
        reveal_strlit("-A");
        reveal_strlit("npm:");
        reveal_strlit("@");
        reveal_strlit("/");
    }
    let cmd = command_name.to_owned();
    let mut spec_text = "npm:".to_owned();
    spec_text.append(nv.name.as_str());
    spec_text.append("@");
    spec_text.append(nv.version.as_str());
    if !nv.name.eq(&cmd) {
        spec_text.append("/");
        spec_text.append(command_name);
    }
    assert(spec_text@ =~= bin_specifier(command_name@, *nv));
    let mut r: Vec<String> = Vec::new();
    r.push("run".to_owned());
    r.push("-A".to_owned());
    r.push(spec_text);
    let mut i: usize = 0;
    while i < args.len()
        invariant
            i <= args@.len(),
            r@.len() == i + 3,
            r@[0]@ == seq!['r', 'u', 'n'],
            r@[1]@ == seq!['-', 'A'],
            r@[2]@ == bin_specifier(command_name@, *nv),
            forall|j: int| 0 <= j < i ==> #[trigger] r@[j + 3] == args@[j],
        decreases args@.len() - i,
    {
        r.push(args[i].clone());
        i = i + 1;
    }
    r
}

/// What the catch-all command does with its arguments.
#[derive(Debug)]
pub enum NpxAction {
    /// No command name was given.
    Missing,
    /// The named command is not in the table.
    Unresolved { name: String },
    /// Run the named command of the table with the remaining arguments.
    Delegate { name: String, args: Vec<String> },
}

/// Decides what the catch-all command does: the first argument names a
/// command of the table, which receives the rest of the arguments.
pub fn npx_action(args: &Vec<String>, table: &StrMap<Command>) -> (r: NpxAction)
    requires
        table.wf(),
    ensures
        args@.len() == 0 <==> r is Missing,
        args@.len() > 0 ==> match r {
            NpxAction::Missing => false,
            NpxAction::Unresolved { name } => name@ == args@[0]@ && lookup(table@, args@[0]@) is None,
            NpxAction::Delegate { name, args: rest } => name@ == args@[0]@ && lookup(
                table@,
                args@[0]@,
            ) is Some && rest@ == args@.drop_first(),
        },
{
    if args.len() == 0 {
        return NpxAction::Missing;
    }
    let first = args[0].clone();
    match table.get(&first) {
        None => NpxAction::Unresolved { name: first },
        Some(_) => {
            let mut rest: Vec<String> = Vec::new();
            let mut i: usize = 1;
            while i < args.len()
                invariant
                    1 <= i <= args@.len(),
                    rest@ == args@.subrange(1, i as int),
                decreases args@.len() - i,
            {
                rest.push(args[i].clone());
                assert(rest@ =~= args@.subrange(1, i as int + 1));
                i = i + 1;
            }
            assert(rest@ =~= args@.drop_first());
            NpxAction::Delegate { name: first, args: rest }
        },
    }
}

/// The diagnostic line and exit code of a catch-all command that cannot run
/// anything; `None` where it delegates.
pub fn npx_failure(action: &NpxAction) -> (r: Option<(String, i32)>)
    ensures
        match action {
            NpxAction::Missing => r matches Some((m, c)) && c == 1 && m@ == seq![
                'n', 'p', 'x', ':', ' ', 'm', 'i', 's', 's', 'i', 'n', 'g', ' ',
                'c', 'o', 'm', 'm', 'a', 'n', 'd',
            ],
            NpxAction::Unresolved { name } => r matches Some((m, c)) && c == 1 && m@
                == unresolved_message(name@),
            NpxAction::Delegate { .. } => r is None,
        },
{
    proof {
        reveal_strlit("npx: missing command");
        reveal_strlit("npx: could not resolve command '");
        reveal_strlit("'");
    }
    match action {
        NpxAction::Missing => Some(("npx: missing command".to_owned(), 1)),
        NpxAction::Unresolved { name } => {
            let mut m = "npx: could not resolve command '".to_owned();
            m.append(name.as_str());
            m.append("'");
            assert(m@ =~= unresolved_message(name@));
            Some((m, 1))
        },
        NpxAction::Delegate { .. } => None,
    }
}

/// `npx: could not resolve command '<name>'`.
pub open spec fn unresolved_message(name: Seq<char>) -> Seq<char> {
    seq![
        'n', 'p', 'x', ':', ' ', 'c', 'o', 'u', 'l', 'd', ' ', 'n', 'o', 't', ' ', 'r', 'e', 's',
        'o', 'l', 'v', 'e', ' ', 'c', 'o', 'm', 'm', 'a', 'n', 'd', ' ', '\'',
    ] + name + seq!['\'']
}

} // verus!
