use vstd::prelude::*;
use vstd::string::StringExecFns;

use crate::args::{
    flag_value_from, flags_end, get_arg_flag_value, has_arg_flag, is_flags_end, leading_flags,
    scanned, views,
};
use crate::channel::{encode_args, json_text};
use crate::target::{
    is_build_order, kind_name, kind_of, rank, target_order, target_rank, Package, Target, TargetKind,
};

verus! {

/// One environment variable handed to a child process.
#[derive(Clone, Debug)]
pub struct EnvVar {
    pub key: String,
    pub value: String,
}

/// A command to run: program, arguments and the environment variables to set.
#[derive(Clone, Debug)]
pub struct Invocation {
    pub program: String,
    pub args: Vec<String>,
    pub env: Vec<EnvVar>,
}

/// What the planner needs to know of the orchestrator's own run.
#[derive(Clone, Debug)]
pub struct PlanSettings {
    /// The orchestrator's full command line, its own path and persona included.
    pub argv: Vec<String>,
    /// The host platform, used as the target platform when none is given.
    pub host: String,
    /// The base report path, if one is configured.
    pub report_path: Option<String>,
    /// Whether this build of the orchestrator keeps debug assertions.
    pub debug_build: bool,
    /// Whether an alternate build driver replaces the standard one.
    pub use_xargo: bool,
    /// The orchestrator's own executable, installed as the compiler wrapper.
    pub self_exe: String,
}

/// A planned delegated build of one target of a package.
#[derive(Clone, Debug)]
pub struct PlannedTarget {
    /// The target's position in the package's target list.
    pub target: usize,
    pub kind: TargetKind,
    pub invocation: Invocation,
}

/// The arguments that follow the program and its persona.
pub open spec fn user_args(argv: Seq<Seq<char>>) -> Seq<Seq<char>> {
    if argv.len() >= 2 {
        argv.subrange(2, argv.len() as int)
    } else {
        Seq::empty()
    }
}

/// The arguments after the first `--`; empty when there is none.
pub open spec fn after_separator(a: Seq<Seq<char>>) -> Seq<Seq<char>> {
    let k = choose|k: int| is_flags_end(a, k);
    if k < a.len() {
        a.subrange(k + 1, a.len() as int)
    } else {
        Seq::empty()
    }
}

/// The run is verbose when `-v` stands among the orchestrator's flags.
pub open spec fn is_verbose(argv: Seq<Seq<char>>) -> bool {
    leading_flags(argv).contains("-v"@)
}

/// The program of a delegated build.
pub open spec fn planned_program(s: PlanSettings) -> Seq<char> {
    if s.use_xargo {
        "xargo-check"@
    } else {
        "cargo"@
    }
}

/// The arguments of the delegated build of target `t` (of kind `kind`) of `pkg`.
pub open spec fn planned_args(s: PlanSettings, pkg: Package, t: Target, kind: TargetKind) -> Seq<
    Seq<char>,
> {
    let argv = views(s.argv@);
    (if s.use_xargo {
        seq!["-p"@, pkg.name@ + "@"@ + pkg.version@]
    } else {
        seq!["check"@, "-p"@, pkg.name@ + "@"@ + pkg.version@]
    }) + (if kind == TargetKind::Bin {
        seq!["--bin"@, t.name@]
    } else {
        seq!["--lib"@]
    }) + (if !s.debug_build && !is_verbose(argv) {
        seq!["-q"@]
    } else {
        Seq::empty()
    }) + leading_flags(user_args(argv)) + (if flag_value_from(
        leading_flags(user_args(argv)),
        "--target"@,
        0,
    ) is None {
        seq!["--target"@, s.host@]
    } else {
        Seq::empty()
    })
}

/// The view of an environment variable.
pub open spec fn env_view(e: EnvVar) -> (Seq<char>, Seq<char>) {
    (e.key@, e.value@)
}

pub open spec fn env_views(v: Seq<EnvVar>) -> Seq<(Seq<char>, Seq<char>)> {
    v.map_values(|e: EnvVar| env_view(e))
}

/// The report path of one target: the base path suffixed with `-<kind>-<name>`.
pub open spec fn target_report_path(base: Seq<char>, kind: TargetKind, name: Seq<char>) -> Seq<char> {
    base + "-"@ + kind_name(kind) + "-"@ + name
}

/// The environment of the delegated build of target `t`.
pub open spec fn planned_env(s: PlanSettings, t: Target, kind: TargetKind) -> Seq<
    (Seq<char>, Seq<char>),
> {
    let argv = views(s.argv@);
    (match s.report_path {
        Some(p) => seq![("RUDRA_REPORT_PATH"@, target_report_path(p@, kind, t.name@))],
        None => Seq::empty(),
    }) + seq![
        ("RUDRA_ARGS"@, json_text(after_separator(user_args(argv)))),
        ("RUSTC_WRAPPER"@, s.self_exe@),
    ] + (if is_verbose(argv) {
        seq![("RUDRA_VERBOSE"@, ""@)]
    } else {
        Seq::empty()
    })
}

/// `inv` is the delegated build of target `t` of `pkg`.
#[verifier::opaque]
pub open spec fn is_planned(s: PlanSettings, pkg: Package, t: Target, inv: Invocation) -> bool {
    let kind = kind_of(t.kind@);
    &&& inv.program@ == planned_program(s)
    &&& views(inv.args@) == planned_args(s, pkg, t, kind)
    &&& env_views(inv.env@) == planned_env(s, t, kind)
}

fn push_str(v: &mut Vec<String>, s: &str)
    ensures
        views(final(v)@) == views(old(v)@).push(s@),
{
    v.push(String::from_str(s));
    proof {
        assert(views(final(v)@) =~= views(old(v)@).push(s@));
    }
}

fn push_string(v: &mut Vec<String>, s: String)
    ensures
        views(final(v)@) == views(old(v)@).push(s@),
{
    v.push(s);
    proof {
        assert(views(final(v)@) =~= views(old(v)@).push(s@));
    }
}

fn push_env(v: &mut Vec<EnvVar>, key: &str, value: String)
    ensures
        env_views(final(v)@) == env_views(old(v)@).push((key@, value@)),
{
    v.push(EnvVar { key: String::from_str(key), value });
    proof {
        assert(env_views(final(v)@) =~= env_views(old(v)@).push((key@, value@)));
    }
}

/// Copies `a[from..to]` onto the end of `v`.
pub(crate) fn extend_range(v: &mut Vec<String>, a: &Vec<String>, from: usize, to: usize)
    requires
        from <= to <= a@.len(),
    ensures
        views(final(v)@) == views(old(v)@) + views(a@).subrange(from as int, to as int),
{
    let mut i: usize = from;
    while i < to
        invariant
            from <= i <= to,
            to <= a@.len(),
            views(v@) == views(old(v)@) + views(a@).subrange(from as int, i as int),
        decreases to - i,
    {
        let ghost before = v@;
        v.push(a[i].clone());
        proof {
            assert(views(v@) =~= views(before).push(a@[i as int]@));
            assert(views(a@).subrange(from as int, i + 1) =~= views(a@).subrange(from as int, i as int).push(
                a@[i as int]@,
            ));
        }
        i = i + 1;
    }
}

/// Splits the user's arguments at the first `--`: the flags for the build system,
/// and what follows, for the analyzer.
pub fn split_user_args(argv: &Vec<String>) -> (r: (Vec<String>, Vec<String>))
    ensures
        views(r.0@) == leading_flags(user_args(views(argv@))),
        views(r.1@) == after_separator(user_args(views(argv@))),
{
    let mut rest: Vec<String> = Vec::new();
    if argv.len() >= 2 {
        extend_range(&mut rest, argv, 2, argv.len());
    }
    proof {
        assert(views(rest@) =~= user_args(views(argv@)));
    }
    let k = flags_end(&rest);
    let mut flags: Vec<String> = Vec::new();
    extend_range(&mut flags, &rest, 0, k);
    let mut tail: Vec<String> = Vec::new();
    if k < rest.len() {
        extend_range(&mut tail, &rest, k + 1, rest.len());
    }
    proof {
        let a = views(rest@);
        let c = choose|c: int| is_flags_end(a, c);
        if c < k {
            assert(a[c] != crate::args::separator());
        } else if k < c {
            assert(a[k as int] != crate::args::separator());
        }
        assert(views(flags@) =~= leading_flags(a));
        assert(views(tail@) =~= after_separator(a));
    }
    (flags, tail)
}

/// Plans the delegated build of one target of a package: `None` for a target of a
/// kind that is not routed (it is skipped with a warning).
pub fn plan_target(s: &PlanSettings, pkg: &Package, t: &Target) -> (r: Option<Invocation>)
    ensures
        kind_of(t.kind@) == TargetKind::Unknown ==> r is None,
        kind_of(t.kind@) != TargetKind::Unknown ==> (r matches Some(inv) && is_planned(*s, *pkg, *t, inv)),
{
    let kind = TargetKind::from(t);
    if kind == TargetKind::Unknown {
        return None;
    }
    let ghost argv = views(s.argv@);
    let verbose = has_arg_flag(&s.argv, "-v");
    let program = if s.use_xargo {
        String::from_str("xargo-check")
    } else {
        String::from_str("cargo")
    };
    let mut args: Vec<String> = Vec::new();
    if !s.use_xargo {
        push_str(&mut args, "check");
    }
    let ghost a_sub = views(args@);
    push_str(&mut args, "-p");
    let mut spec_id = pkg.name.clone();
    spec_id.append("@");
    spec_id.append(pkg.version.as_str());
    push_string(&mut args, spec_id);
    proof {
        if s.use_xargo {
            assert(views(args@) =~= seq!["-p"@, pkg.name@ + "@"@ + pkg.version@]);
        } else {
            assert(views(args@) =~= seq!["check"@, "-p"@, pkg.name@ + "@"@ + pkg.version@]);
        }
    }
    let ghost a0 = views(args@);
    if kind == TargetKind::Bin {
        push_str(&mut args, "--bin");
        push_string(&mut args, t.name.clone());
        proof {
            assert(views(args@) =~= a0 + seq!["--bin"@, t.name@]);
        }
    } else {
        push_str(&mut args, "--lib");
        proof {
            assert(views(args@) =~= a0 + seq!["--lib"@]);
        }
    }
    let ghost a1 = views(args@);
    if !s.debug_build && !verbose {
        push_str(&mut args, "-q");
        proof {
            assert(views(args@) =~= a1 + seq!["-q"@]);
        }
    } else {
        proof {
            assert(views(args@) =~= a1 + Seq::<Seq<char>>::empty());
        }
    }
    let ghost a2 = views(args@);
    let (flags, tail) = split_user_args(&s.argv);
    extend_range(&mut args, &flags, 0, flags.len());
    proof {
        assert(views(flags@).subrange(0, flags@.len() as int) =~= views(flags@));
    }
    let ghost a3 = views(args@);
    let explicit_target = get_arg_flag_value(&flags, "--target", false);
    proof {
        assert(scanned(views(flags@), false) == views(flags@));
    }
    if explicit_target.is_none() {
        push_str(&mut args, "--target");
        push_string(&mut args, s.host.clone());
        proof {
            assert(views(args@) =~= a3 + seq!["--target"@, s.host@]);
        }
    } else {
        proof {
            assert(views(args@) =~= a3 + Seq::<Seq<char>>::empty());
        }
    }
    let mut env: Vec<EnvVar> = Vec::new();
    match &s.report_path {
        Some(base) => {
            let mut p = base.clone();
            p.append("-");
            let kn = kind.as_string();
            p.append(kn.as_str());
            p.append("-");
            p.append(t.name.as_str());
            push_env(&mut env, "RUDRA_REPORT_PATH", p);
        },
        None => {},
    }
    let ghost e0 = env_views(env@);
    let payload = encode_args(&tail);
    push_env(&mut env, "RUDRA_ARGS", payload);
    push_env(&mut env, "RUSTC_WRAPPER", s.self_exe.clone());
    let ghost e1 = env_views(env@);
    if verbose {
        push_env(&mut env, "RUDRA_VERBOSE", String::from_str(""));
    }
    proof {
        assert(e1 =~= e0 + seq![
            ("RUDRA_ARGS"@, json_text(after_separator(user_args(argv)))),
            ("RUSTC_WRAPPER"@, s.self_exe@),
        ]);
        if verbose {
            assert(env_views(env@) =~= e1 + seq![("RUDRA_VERBOSE"@, ""@)]);
        } else {
            assert(env_views(env@) =~= e1 + Seq::<(Seq<char>, Seq<char>)>::empty());
        }
        assert(env_views(env@) =~= planned_env(*s, *t, kind));
        assert(views(args@) =~= planned_args(*s, *pkg, *t, kind));
        reveal(is_planned);
    }
    Some(Invocation { program, args, env })
}

/// The target positions of a list of planned builds.
pub open spec fn planned_targets(ps: Seq<PlannedTarget>) -> Seq<usize> {
    ps.map_values(|p: PlannedTarget| p.target)
}

/// Plans the delegated builds of all targets of a package, in build order: the
/// library before the binaries. Targets of other kinds are left out.
pub fn plan_package(s: &PlanSettings, pkg: &Package) -> (r: Vec<PlannedTarget>)
    ensures
        ({
            let ps = r;
            &&& forall|i: int|
                0 <= i < ps@.len() ==> {
                    let p = #[trigger] ps@[i];
                    &&& p.target < pkg.targets@.len()
                    &&& p.kind == kind_of(pkg.targets@[p.target as int].kind@)
                    &&& p.kind != TargetKind::Unknown
                    &&& is_planned(*s, *pkg, pkg.targets@[p.target as int], p.invocation)
                }
            &&& forall|i: int, j: int|
                0 <= i < j < ps@.len() ==> rank((#[trigger] ps@[i]).kind) < rank(
                    (#[trigger] ps@[j]).kind,
                ) || (ps@[i].kind == ps@[j].kind && ps@[i].target < ps@[j].target)
            &&& forall|i: int, j: int|
                0 <= i < ps@.len() && 0 <= j < ps@.len() && (#[trigger] ps@[i]).kind
                    == TargetKind::Library && (#[trigger] ps@[j]).kind == TargetKind::Bin ==> i < j
            &&& forall|t: usize|
                t < pkg.targets@.len() && kind_of(pkg.targets@[t as int].kind@) != TargetKind::Unknown
                    ==> #[trigger] planned_targets(ps@).contains(t)
        }),
{
    let order = target_order(&pkg.targets);
    let n = pkg.targets.len();
    let mut ps: Vec<PlannedTarget> = Vec::new();
    let mut i: usize = 0;
    while i < order.len()
        invariant
            n == pkg.targets@.len(),
            is_build_order(pkg.targets@, order@),
            i <= order@.len(),
            forall|a: int|
                0 <= a < ps@.len() ==> {
                    let p = #[trigger] ps@[a];
                    &&& p.target < n
                    &&& p.kind == kind_of(pkg.targets@[p.target as int].kind@)
                    &&& p.kind != TargetKind::Unknown
                    &&& is_planned(*s, *pkg, pkg.targets@[p.target as int], p.invocation)
                },
            forall|a: int, b: int|
                0 <= a < b < ps@.len() ==> rank((#[trigger] ps@[a]).kind) < rank(
                    (#[trigger] ps@[b]).kind,
                ) || (ps@[a].kind == ps@[b].kind && ps@[a].target < ps@[b].target),
            forall|a: int, k: int|
                0 <= a < ps@.len() && i <= k < order@.len() ==> rank((#[trigger] ps@[a]).kind)
                    < target_rank(pkg.targets@[#[trigger] order@[k] as int]) || (rank(ps@[a].kind)
                    == target_rank(pkg.targets@[order@[k] as int]) && ps@[a].target < order@[k]),
            forall|k: int|
                0 <= k < i && kind_of(pkg.targets@[order@[k] as int].kind@) != TargetKind::Unknown
                    ==> #[trigger] planned_targets(ps@).contains(order@[k]),
        decreases order@.len() - i,
    {
        let t = order[i];
        let target = &pkg.targets[t];
        match plan_target(s, pkg, target) {
            None => {
                proof {
                    assert forall|k: int|
                        0 <= k < i + 1 && kind_of(pkg.targets@[order@[k] as int].kind@)
                            != TargetKind::Unknown implies #[trigger] planned_targets(ps@).contains(
                        order@[k],
                    ) by {
                        if k < i {
                            assert(planned_targets(ps@).contains(order@[k]));
                        }
                    }
                }
            },
            Some(inv) => {
                let kind = TargetKind::from(target);
                let ghost old_ps = ps@;
                ps.push(PlannedTarget { target: t, kind, invocation: inv });
                proof {
                    assert forall|a: int| 0 <= a < old_ps.len() implies ps@[a] == old_ps[a] by {}
                    assert(planned_targets(ps@) =~= planned_targets(old_ps).push(t));
                    assert forall|k: int|
                        0 <= k < i + 1 && kind_of(pkg.targets@[order@[k] as int].kind@)
                            != TargetKind::Unknown implies #[trigger] planned_targets(ps@).contains(
                        order@[k],
                    ) by {
                        if k < i {
                            assert(planned_targets(old_ps).contains(order@[k]));
                            let a = choose|a: int|
                                0 <= a < planned_targets(old_ps).len() && planned_targets(old_ps)[a]
                                    == order@[k];
                            assert(planned_targets(ps@)[a] == order@[k]);
                        } else {
                            assert(planned_targets(ps@)[old_ps.len() as int] == t);
                        }
                    }
                    assert(ps@[old_ps.len() as int].kind == kind);
                    assert forall|k: int| i + 1 <= k < order@.len() implies rank(kind) < target_rank(
                        pkg.targets@[#[trigger] order@[k] as int],
                    ) || (rank(kind) == target_rank(pkg.targets@[order@[k] as int]) && t < order@[k]) by {
                        assert(target_rank(pkg.targets@[order@[i as int] as int]) < target_rank(
                            pkg.targets@[order@[k] as int],
                        ) || (target_rank(pkg.targets@[order@[i as int] as int]) == target_rank(
                            pkg.targets@[order@[k] as int],
                        ) && order@[i as int] < order@[k]));
                    }
                    assert forall|a: int, b: int| 0 <= a < b < ps@.len() implies rank(
                        (#[trigger] ps@[a]).kind,
                    ) < rank((#[trigger] ps@[b]).kind) || (ps@[a].kind == ps@[b].kind && ps@[a].target
                        < ps@[b].target) by {
                        if b == old_ps.len() {
                            assert(old_ps[a] == ps@[a]);
                            assert(rank(old_ps[a].kind) < target_rank(pkg.targets@[order@[i as int] as int])
                                || (rank(old_ps[a].kind) == target_rank(pkg.targets@[order@[i as int] as int])
                                && old_ps[a].target < order@[i as int]));
                        } else {
                            assert(old_ps[a] == ps@[a] && old_ps[b] == ps@[b]);
                        }
                    }
                }
            },
        }
        i = i + 1;
    }
    proof {
        assert forall|t: usize|
            t < n && kind_of(pkg.targets@[t as int].kind@) != TargetKind::Unknown implies #[trigger] planned_targets(
            ps@,
        ).contains(t) by {
            assert(order@.contains(t));
            let k = choose|k: int| 0 <= k < order@.len() && order@[k] == t;
            assert(planned_targets(ps@).contains(order@[k]));
        }
        assert forall|a: int, b: int|
            0 <= a < ps@.len() && 0 <= b < ps@.len() && (#[trigger] ps@[a]).kind == TargetKind::Library
                && (#[trigger] ps@[b]).kind == TargetKind::Bin implies a < b by {
            if b < a {
                assert(rank(ps@[b].kind) < rank(ps@[a].kind) || ps@[b].kind == ps@[a].kind);
            }
        }
    }
    ps
}

} // verus!
