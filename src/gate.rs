use vstd::prelude::*;
use vstd::string::{StrSliceExecFns, StringExecFns};

use crate::args::{
    any_arg_flag, flag_value_from, flag_values, get_arg_flag_value, leading_flags, scanned,
    str_ends_with, str_eq, views,
};
use crate::plan::{env_views, user_args, EnvVar, Invocation};
use crate::target::{is_lib_name, TargetKind};

verus! {

/// The role this program plays in one run, chosen by its command line.
#[derive(Clone, Copy, Debug, PartialEq, Eq, Structural)]
pub enum Persona {
    /// Print the usage message and exit with success.
    Help,
    /// Schedule the workspace and run one delegated build per target.
    Orchestrator,
    /// Stand in for the compiler on one compiled unit.
    Compiler,
    /// Neither persona was named: a usage error.
    Misuse,
}

/// What to run for one compiled unit.
#[derive(Clone, Copy, Debug, PartialEq, Eq, Structural)]
pub struct Dispatch {
    pub run_analyzer: bool,
    pub run_compiler: bool,
}

/// How one delegated build ended.
#[derive(Clone, Copy, Debug, PartialEq, Eq, Structural)]
pub enum WaitOutcome {
    /// The child exited, with its code if it had one.
    Exited(Option<i32>),
    /// The time budget ran out; the child was killed and reaped.
    TimedOut,
}

/// Why an orchestrator run stops.
#[derive(Clone, Copy, Debug, PartialEq, Eq, Structural)]
pub enum RunError {
    NonZeroExit,
    TimedOut,
}

/// The exit status of a child that ended without a code.
pub const FALLBACK_EXIT_CODE: i32 = 42;

/// The exit status of a run that stops on a fatal condition.
pub const FATAL_EXIT_CODE: i32 = 1;

pub open spec fn ends_with(s: Seq<char>, p: Seq<char>) -> bool {
    p.len() <= s.len() && s.subrange(s.len() - p.len(), s.len() as int) == p
}

/// The persona that a command line selects: help wherever `--help` or `-h` stands,
/// else by what the first argument ends with.
pub open spec fn persona_of(argv: Seq<Seq<char>>) -> Persona {
    if argv.contains("--help"@) || argv.contains("-h"@) {
        Persona::Help
    } else if argv.len() > 1 && ends_with(argv[1], "rudra"@) {
        Persona::Orchestrator
    } else if argv.len() > 1 && ends_with(argv[1], "rustc"@) {
        Persona::Compiler
    } else {
        Persona::Misuse
    }
}

/// Chooses the persona of this run from its full command line.
pub fn select_persona(argv: &Vec<String>) -> (r: Persona)
    ensures
        r == persona_of(views(argv@)),
{
    let ghost a = views(argv@);
    let mut i: usize = 0;
    while i < argv.len()
        invariant
            a == views(argv@),
            i <= argv@.len(),
            forall|j: int| 0 <= j < i ==> a[j] != "--help"@ && a[j] != "-h"@,
        decreases argv@.len() - i,
    {
        if str_eq(argv[i].as_str(), "--help") || str_eq(argv[i].as_str(), "-h") {
            assert(a[i as int] == argv@[i as int]@);
            return Persona::Help;
        }
        i = i + 1;
    }
    if argv.len() > 1 && str_ends_with(argv[1].as_str(), "rudra") {
        Persona::Orchestrator
    } else if argv.len() > 1 && str_ends_with(argv[1].as_str(), "rustc") {
        Persona::Compiler
    } else {
        Persona::Misuse
    }
}

/// The first argument before `--` that ends with `.rs`, from position `i` on.
pub open spec fn first_rs_from(a: Seq<Seq<char>>, i: int) -> Option<Seq<char>>
    decreases a.len() - i,
{
    if i >= a.len() || i < 0 {
        None
    } else if ends_with(a[i], ".rs"@) {
        Some(a[i])
    } else {
        first_rs_from(a, i + 1)
    }
}

/// The entry file of the unit: the first argument before `--` ending with `.rs`.
pub fn get_first_arg_with_rs_suffix(argv: &Vec<String>) -> (r: Option<String>)
    ensures
        crate::args::opt_view(r) == first_rs_from(leading_flags(views(argv@)), 0),
{
    let k = crate::args::scan_len(argv, true);
    let ghost a = leading_flags(views(argv@));
    let mut i: usize = 0;
    while i < k
        invariant
            k <= argv@.len(),
            a == views(argv@).subrange(0, k as int),
            a == leading_flags(views(argv@)),
            i <= k,
            first_rs_from(a, 0) == first_rs_from(a, i as int),
        decreases k - i,
    {
        assert(a[i as int] == argv@[i as int]@);
        if str_ends_with(argv[i].as_str(), ".rs") {
            let v = argv[i].clone();
            return Some(v);
        }
        i = i + 1;
    }
    None
}

/// A path that is relative under every platform's rules: non-empty, not starting
/// with a separator, and holding no drive or prefix colon.
pub open spec fn plainly_relative(p: Seq<char>) -> bool {
    p.len() > 0 && p[0] != '/' && p[0] != '\\' && !p.contains(':')
}

/// The unit's entry file is given by a path that is relative on every platform.
pub open spec fn entry_plainly_relative(argv: Seq<String>) -> bool {
    match first_rs_from(leading_flags(views(argv)), 0) {
        Some(p) => plainly_relative(p),
        None => false,
    }
}

/// Relies on std::path::Path::is_relative. Its answer depends on the platform's path
/// rules; on every platform a path without a leading separator and without a colon
/// has no root and no prefix, so it is relative.
#[verifier::external_body]
fn path_is_relative(p: &str) -> (r: bool)
    ensures
        plainly_relative(p@) ==> r,
{
    std::path::Path::new(p).is_relative()
}

/// Whether the unit's entry file is given by a relative path, which the build system
/// does for the packages it builds directly. A unit without an entry file is not.
pub fn is_target_crate(argv: &Vec<String>) -> (r: bool)
    ensures
        first_rs_from(leading_flags(views(argv@)), 0) is None ==> !r,
        entry_plainly_relative(argv@) ==> r,
{
    match get_first_arg_with_rs_suffix(argv) {
        Some(p) => path_is_relative(p.as_str()),
        None => false,
    }
}

/// Whether the unit is compiled with an explicit target platform.
pub fn contains_target_flag(argv: &Vec<String>) -> (r: bool)
    ensures
        r == flag_value_from(views(argv@), "--target"@, 0) is Some,
{
    let v = get_arg_flag_value(argv, "--target", false);
    proof {
        assert(scanned(views(argv@), false) == views(argv@));
    }
    v.is_some()
}

/// Whether the unit's declared crate type is a library.
pub fn is_crate_type_lib(argv: &Vec<String>) -> (r: bool)
    ensures
        r == exists|k: int|
            0 <= k < flag_values(argv@, "--crate-type"@).len() && is_lib_name(
                #[trigger] flag_values(argv@, "--crate-type"@)[k],
            ),
{
    let r = any_arg_flag(argv, "--crate-type", TargetKind::is_lib_str);
    proof {
        let vals = flag_values(argv@, "--crate-type"@);
        if r {
            let (k, s) = choose|k: int, s: &str|
                0 <= k < vals.len() && s@ == vals[k] && is_lib_name(s@) == true;
            assert(is_lib_name(vals[k]));
        } else {
            assert forall|k: int| 0 <= k < vals.len() implies !is_lib_name(#[trigger] vals[k]) by {
                let s = choose|s: &str| s@ == vals[k] && is_lib_name(s@) == false;
            }
        }
    }
    r
}

/// A unit is a direct target when it has a target-platform selector and a relative
/// entry path.
pub open spec fn direct_target(has_target_flag: bool, entry_is_relative: bool) -> bool {
    has_target_flag && entry_is_relative
}

/// The programs run for a unit of the given role.
pub open spec fn dispatch_of(is_direct: bool, is_additional: bool, crate_type_lib: bool) -> Dispatch {
    Dispatch { run_analyzer: is_direct || is_additional, run_compiler: !is_direct || crate_type_lib }
}

/// A unit compiled without a target-platform selector, or from an absolute entry
/// path, is never a direct target: unless it is allow-listed it goes to the real
/// compiler only, and the real compiler runs for it in any case.
pub proof fn lemma_host_units_go_to_compiler(
    has_target_flag: bool,
    entry_is_relative: bool,
    is_additional: bool,
    crate_type_lib: bool,
)
    requires
        !has_target_flag || !entry_is_relative,
    ensures
        !direct_target(has_target_flag, entry_is_relative),
        dispatch_of(direct_target(has_target_flag, entry_is_relative), is_additional, crate_type_lib).run_compiler,
        !is_additional ==> !dispatch_of(
            direct_target(has_target_flag, entry_is_relative),
            is_additional,
            crate_type_lib,
        ).run_analyzer,
{
}

/// A unit with a target-platform selector and a relative entry path is a direct
/// target, and the analyzer runs for it.
pub proof fn lemma_direct_units_are_analyzed(is_additional: bool, crate_type_lib: bool)
    ensures
        direct_target(true, true),
        dispatch_of(direct_target(true, true), is_additional, crate_type_lib).run_analyzer,
{
}

/// Dual build: a direct target that is a library goes to both the analyzer and the
/// real compiler; a direct target of any other type goes to the analyzer only.
pub proof fn lemma_dual_build(is_additional: bool, crate_type_lib: bool)
    ensures
        dispatch_of(true, is_additional, crate_type_lib).run_analyzer,
        dispatch_of(true, is_additional, crate_type_lib).run_compiler == crate_type_lib,
{
}

/// A unit is a direct target when it is compiled for an explicit target platform
/// from a relative entry path; build scripts and procedural macros are not.
pub fn is_direct_target(has_target_flag: bool, entry_is_relative: bool) -> (r: bool)
    ensures
        r == direct_target(has_target_flag, entry_is_relative),
{
    has_target_flag && entry_is_relative
}

/// What runs for a unit: the analyzer for a direct or an additional target; the
/// compiler for everything that is not a direct target, and also for a direct
/// target that is a library, whose artifact later units of its package need.
pub fn dispatch(is_direct: bool, is_additional: bool, crate_type_lib: bool) -> (r: Dispatch)
    ensures
        r == dispatch_of(is_direct, is_additional, crate_type_lib),
{
    Dispatch { run_analyzer: is_direct || is_additional, run_compiler: !is_direct || crate_type_lib }
}

/// Lower-case form of a string, as std folds it.
pub uninterp spec fn lower_of(s: Seq<char>) -> Seq<char>;

/// Relies on str::to_lowercase: the result depends on the characters alone.
#[verifier::external_body]
fn lowercase(s: &str) -> (r: String)
    ensures
        r@ == lower_of(s@),
{
    s.to_lowercase()
}

/// `p` is one of the comma-separated entries of `list`.
pub open spec fn is_entry(list: Seq<char>, p: Seq<char>) -> bool {
    exists|a: int, b: int|
        #![trigger list.subrange(a, b)]
        0 <= a <= b <= list.len() && (a == 0 || list[a - 1] == ',') && (b == list.len() || list[b]
            == ',') && (forall|k: int| a <= k < b ==> list[k] != ',') && p == list.subrange(a, b)
}

/// Whether package `name` is on the comma-separated allow-list, ignoring case.
pub fn also_analyzed(name: &str, list: &str) -> (r: bool)
    ensures
        r == exists|p: Seq<char>| is_entry(list@, p) && lower_of(p) == lower_of(name@),
{
    let target = lowercase(name);
    let n = list.unicode_len();
    let mut start: usize = 0;
    let mut i: usize = 0;
    while i <= n
        invariant
            n == list@.len(),
            start <= i <= n + 1,
            start <= n,
            i <= n ==> start <= i,
            start == 0 || list@[start - 1] == ',',
            forall|k: int| start <= k < i && k < n ==> list@[k] != ',',
            target@ == lower_of(name@),
            forall|a: int, b: int|
                #![trigger list@.subrange(a, b)]
                0 <= a <= b <= n && b < i && (a == 0 || list@[a - 1] == ',') && (b == n || list@[b]
                    == ',') && (forall|k: int| a <= k < b ==> list@[k] != ',') ==> lower_of(
                    list@.subrange(a, b),
                ) != lower_of(name@),
        decreases n + 1 - i,
    {
        if i == n || list.get_char(i) == ',' {
            let piece = lowercase(list.substring_char(start, i));
            if str_eq(piece.as_str(), target.as_str()) {
                assert(is_entry(list@, list@.subrange(start as int, i as int)));
                return true;
            }
            proof {
                assert forall|a: int, b: int|
                    #![trigger list@.subrange(a, b)]
                    0 <= a <= b <= n && b < i + 1 && (a == 0 || list@[a - 1] == ',') && (b == n
                        || list@[b] == ',') && (forall|k: int| a <= k < b ==> list@[k] != ',')
                        implies lower_of(list@.subrange(a, b)) != lower_of(name@) by {
                    if b == i {
                        if a < start {
                            assert(list@[start - 1] != ',');
                        } else if a > start {
                            assert(list@[a - 1] != ',');
                        }
                    }
                }
            }
            if i == n {
                proof {
                    assert forall|p: Seq<char>| is_entry(list@, p) implies lower_of(p) != lower_of(
                        name@,
                    ) by {
                        let (a, b) = choose|a: int, b: int|
                            0 <= a <= b <= list@.len() && (a == 0 || list@[a - 1] == ',') && (b
                                == list@.len() || list@[b] == ',') && (forall|k: int|
                                a <= k < b ==> list@[k] != ',') && p == list@.subrange(a, b);
                        assert(list@.subrange(a, b) == p);
                    }
                }
                return false;
            }
            start = i + 1;
        }
        i = i + 1;
    }
    false
}

/// The analyzer's invocation for a unit: the unit's compiler arguments followed by
/// the decoded payload, with the report path suffixed by the package name.
pub fn analyzer_invocation(
    analyzer: &String,
    argv: &Vec<String>,
    payload: &Vec<String>,
    report_path: &Option<String>,
    pkg_name: &Option<String>,
) -> (r: Invocation)
    ensures
        r.program@ == analyzer@,
        views(r.args@) == user_args(views(argv@)) + views(payload@),
        env_views(r.env@) == match report_path {
            Some(p) => seq![("RUDRA_REPORT_PATH"@, p@ + "-"@ + package_or_unknown(*pkg_name))],
            None => Seq::empty(),
        },
{
    let mut args: Vec<String> = Vec::new();
    if argv.len() >= 2 {
        crate::plan::extend_range(&mut args, argv, 2, argv.len());
    }
    proof {
        assert(views(args@) =~= user_args(views(argv@)));
    }
    crate::plan::extend_range(&mut args, payload, 0, payload.len());
    proof {
        assert(views(payload@).subrange(0, payload@.len() as int) =~= views(payload@));
    }
    let mut env: Vec<EnvVar> = Vec::new();
    match report_path {
        Some(base) => {
            let mut p = base.clone();
            p.append("-");
            match pkg_name {
                Some(n) => p.append(n.as_str()),
                None => p.append("unknown"),
            }
            env.push(EnvVar { key: String::from_str("RUDRA_REPORT_PATH"), value: p });
            proof {
                assert(env_views(env@) =~= seq![
                    ("RUDRA_REPORT_PATH"@, base@ + "-"@ + package_or_unknown(*pkg_name)),
                ]);
            }
        },
        None => {
            proof {
                assert(env_views(env@) =~= Seq::<(Seq<char>, Seq<char>)>::empty());
            }
        },
    }
    Invocation { program: analyzer.clone(), args, env }
}

pub open spec fn package_or_unknown(pkg_name: Option<String>) -> Seq<char> {
    match pkg_name {
        Some(n) => n@,
        None => "unknown"@,
    }
}

/// The compiler's invocation for a unit: through the compilation cache when one is
/// found (which takes the compiler's name first), else the compiler itself.
pub fn compiler_invocation(argv: &Vec<String>, cache: &Option<String>) -> (r: Invocation)
    requires
        argv@.len() >= 2,
    ensures
        r.program@ == match cache {
            Some(c) => c@,
            None => "rustc"@,
        },
        views(r.args@) == match cache {
            Some(_) => views(argv@).subrange(1, argv@.len() as int),
            None => views(argv@).subrange(2, argv@.len() as int),
        },
        r.env@.len() == 0,
{
    let mut args: Vec<String> = Vec::new();
    match cache {
        Some(c) => {
            crate::plan::extend_range(&mut args, argv, 1, argv.len());
            Invocation { program: c.clone(), args, env: Vec::new() }
        },
        None => {
            crate::plan::extend_range(&mut args, argv, 2, argv.len());
            Invocation { program: String::from_str("rustc"), args, env: Vec::new() }
        },
    }
}

/// The exit status that a finished child hands on: its own code, or the fallback
/// when it ended without one.
pub fn child_exit_code(code: Option<i32>) -> (r: i32)
    ensures
        r == match code {
            Some(c) => c,
            None => FALLBACK_EXIT_CODE,
        },
{
    match code {
        Some(c) => c,
        None => FALLBACK_EXIT_CODE,
    }
}

/// Whether the run may go on after a delegated build: only after an exit with code 0.
/// A non-zero or missing code, and a timeout, stop the run.
pub fn check_outcome(o: WaitOutcome) -> (r: Result<(), RunError>)
    ensures
        o == WaitOutcome::Exited(Some(0)) ==> r is Ok,
        o == WaitOutcome::TimedOut ==> r == Err::<(), RunError>(RunError::TimedOut),
        (o matches WaitOutcome::Exited(c) && c != Some(0i32)) ==> r == Err::<(), RunError>(
            RunError::NonZeroExit,
        ),
{
    match o {
        WaitOutcome::Exited(Some(0)) => Ok(()),
        WaitOutcome::Exited(_) => Err(RunError::NonZeroExit),
        WaitOutcome::TimedOut => Err(RunError::TimedOut),
    }
}

/// The exit status of a run that stopped on `e`: fatal conditions exit with 1.
pub fn fatal_exit_code(e: RunError) -> (r: i32)
    ensures
        r == FATAL_EXIT_CODE,
        r != 0,
{
    FATAL_EXIT_CODE
}

/// The allow-list decision for a unit: its package name is on the list, when both
/// are known.
pub open spec fn allow_listed(pkg_name: Option<String>, also: Option<String>) -> bool {
    match (pkg_name, also) {
        (Some(n), Some(l)) => exists|p: Seq<char>| is_entry(l@, p) && lower_of(p) == lower_of(n@),
        _ => false,
    }
}

/// The unit's declared crate type is a library.
pub open spec fn lib_unit(argv: Seq<String>) -> bool {
    exists|k: int|
        0 <= k < flag_values(argv, "--crate-type"@).len() && is_lib_name(
            #[trigger] flag_values(argv, "--crate-type"@)[k],
        )
}

/// Decides what runs for one compiled unit, from its compiler command line, its
/// package name and the allow-list of extra packages to analyze.
pub fn classify_unit(argv: &Vec<String>, pkg_name: &Option<String>, also: &Option<String>) -> (r:
    Dispatch)
    ensures
        r == dispatch_of(false, allow_listed(*pkg_name, *also), lib_unit(argv@)) || r == dispatch_of(
            true,
            allow_listed(*pkg_name, *also),
            lib_unit(argv@),
        ),
        (flag_value_from(views(argv@), "--target"@, 0) is None || first_rs_from(
            leading_flags(views(argv@)),
            0,
        ) is None) ==> r == dispatch_of(false, allow_listed(*pkg_name, *also), lib_unit(argv@)),
        (flag_value_from(views(argv@), "--target"@, 0) is Some && entry_plainly_relative(argv@))
            ==> r == dispatch_of(
            true,
            allow_listed(*pkg_name, *also),
            lib_unit(argv@),
        ),
{
    let has_target = contains_target_flag(argv);
    let rel = is_target_crate(argv);
    let direct = is_direct_target(has_target, rel);
    let additional = match (pkg_name, also) {
        (Some(n), Some(l)) => also_analyzed(n.as_str(), l.as_str()),
        _ => false,
    };
    let lib = is_crate_type_lib(argv);
    dispatch(direct, additional, lib)
}

} // verus!
