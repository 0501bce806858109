use vstd::prelude::*;

use crate::args::str_eq;

verus! {

/// How the planner routes a target: libraries first, then binaries; other kinds are skipped.
#[derive(Clone, Copy, Debug, PartialEq, Eq, Structural)]
pub enum TargetKind {
    Library,
    Bin,
    Unknown,
}

/// One compilable artifact of a package, with the kind names the metadata gives it.
#[derive(Clone, Debug)]
pub struct Target {
    pub name: String,
    pub kind: Vec<String>,
}

/// A workspace package as the planner sees it.
#[derive(Clone, Debug)]
pub struct Package {
    pub name: String,
    pub version: String,
    pub targets: Vec<Target>,
}

/// A crate-type name that denotes a library.
pub open spec fn is_lib_name(s: Seq<char>) -> bool {
    s == "lib"@ || s == "rlib"@ || s == "staticlib"@
}

/// The kind a target is routed as: a library if any of its kind names is one, a
/// binary if its first kind name is `bin`, otherwise unknown.
pub open spec fn kind_of(kinds: Seq<String>) -> TargetKind {
    if exists|k: int| 0 <= k < kinds.len() && is_lib_name(#[trigger] kinds[k]@) {
        TargetKind::Library
    } else if kinds.len() > 0 && kinds[0]@ == "bin"@ {
        TargetKind::Bin
    } else {
        TargetKind::Unknown
    }
}

/// The position of a kind in the build order.
pub open spec fn rank(k: TargetKind) -> nat {
    match k {
        TargetKind::Library => 0,
        TargetKind::Bin => 1,
        TargetKind::Unknown => 2,
    }
}

pub open spec fn target_rank(t: Target) -> nat {
    rank(kind_of(t.kind@))
}

/// `r` lists the positions of `ts` in build order: each once, by kind rank, and in
/// their original order within one kind.
pub open spec fn is_build_order(ts: Seq<Target>, r: Seq<usize>) -> bool {
    &&& r.len() == ts.len()
    &&& r.no_duplicates()
    &&& forall|i: int| 0 <= i < r.len() ==> (#[trigger] r[i]) < ts.len()
    &&& forall|t: usize| t < ts.len() ==> #[trigger] r.contains(t)
    &&& forall|i: int, j: int|
        0 <= i < j < r.len() ==> target_rank(ts[#[trigger] r[i] as int]) < target_rank(
            ts[#[trigger] r[j] as int],
        ) || (target_rank(ts[r[i] as int]) == target_rank(ts[r[j] as int]) && r[i] < r[j])
}

impl TargetKind {
    /// Whether a crate-type name denotes a library.
    pub fn is_lib_str(s: &str) -> (r: bool)
        ensures
            r == is_lib_name(s@),
    {
        str_eq(s, "lib") || str_eq(s, "rlib") || str_eq(s, "staticlib")
    }

    /// The kind of a target, from its kind names.
    pub fn from(target: &Target) -> (r: TargetKind)
        ensures
            r == kind_of(target.kind@),
    {
        let mut k: usize = 0;
        while k < target.kind.len()
            invariant
                k <= target.kind@.len(),
                forall|j: int| 0 <= j < k ==> !is_lib_name(#[trigger] target.kind@[j]@),
            decreases target.kind@.len() - k,
        {
            if TargetKind::is_lib_str(target.kind[k].as_str()) {
                assert(is_lib_name(target.kind@[k as int]@));
                return TargetKind::Library;
            }
            k = k + 1;
        }
        if target.kind.len() > 0 && str_eq(target.kind[0].as_str(), "bin") {
            TargetKind::Bin
        } else {
            TargetKind::Unknown
        }
    }

    /// The name of the kind as it appears in report paths and messages.
    pub fn as_string(&self) -> (r: String)
        ensures
            r@ == kind_name(*self),
    {
        match self {
            TargetKind::Library => String::from_str("lib"),
            TargetKind::Bin => String::from_str("bin"),
            TargetKind::Unknown => String::from_str("unknown"),
        }
    }
}

pub open spec fn kind_name(k: TargetKind) -> Seq<char> {
    match k {
        TargetKind::Library => "lib"@,
        TargetKind::Bin => "bin"@,
        TargetKind::Unknown => "unknown"@,
    }
}

fn rank_of(k: TargetKind) -> (r: u8)
    ensures
        r as nat == rank(k),
{
    match k {
        TargetKind::Library => 0,
        TargetKind::Bin => 1,
        TargetKind::Unknown => 2,
    }
}

/// The positions of the targets in build order: libraries, then binaries, then the
/// rest, keeping the original order within each kind.
pub fn target_order(targets: &Vec<Target>) -> (r: Vec<usize>)
    ensures
        is_build_order(targets@, r@),
{
    let n = targets.len();
    let mut ranks: Vec<u8> = Vec::new();
    let mut i: usize = 0;
    while i < n
        invariant
            n == targets@.len(),
            i <= n,
            ranks@.len() == i,
            forall|j: int| 0 <= j < i ==> ranks@[j] as nat == #[trigger] target_rank(targets@[j]),
        decreases n - i,
    {
        let k = TargetKind::from(&targets[i]);
        ranks.push(rank_of(k));
        i = i + 1;
    }
    let mut r: Vec<usize> = Vec::new();
    let mut pass: u8 = 0;
    while pass < 3
        invariant
            n == targets@.len(),
            ranks@.len() == n,
            forall|j: int| 0 <= j < n ==> ranks@[j] as nat == #[trigger] target_rank(targets@[j]),
            pass <= 3,
            r@.no_duplicates(),
            forall|a: int| 0 <= a < r@.len() ==> (#[trigger] r@[a]) < n && ranks@[r@[a] as int] < pass,
            forall|v: usize| v < n && ranks@[v as int] < pass ==> #[trigger] r@.contains(v),
            forall|a: int, b: int|
                0 <= a < b < r@.len() ==> ranks@[#[trigger] r@[a] as int] < ranks@[#[trigger] r@[b] as int]
                    || (ranks@[r@[a] as int] == ranks@[r@[b] as int] && r@[a] < r@[b]),
        decreases 3 - pass,
    {
        let ghost base = r@;
        let mut v: usize = 0;
        while v < n
            invariant
                n == targets@.len(),
                ranks@.len() == n,
                pass < 3,
                v <= n,
                base.no_duplicates(),
                r@.len() >= base.len(),
                r@.subrange(0, base.len() as int) == base,
                forall|a: int| 0 <= a < base.len() ==> (#[trigger] base[a]) < n && ranks@[base[a] as int] < pass,
                forall|a: int|
                    base.len() <= a < r@.len() ==> (#[trigger] r@[a]) < v && ranks@[r@[a] as int] == pass,
                forall|a: int, b: int|
                    base.len() <= a < b < r@.len() ==> (#[trigger] r@[a]) < (#[trigger] r@[b]),
                forall|w: usize| w < v && ranks@[w as int] == pass ==> #[trigger] r@.contains(w),
                forall|w: usize| w < n && ranks@[w as int] < pass ==> #[trigger] base.contains(w),
                forall|a: int, b: int|
                    0 <= a < b < base.len() ==> ranks@[#[trigger] base[a] as int] < ranks@[#[trigger] base[b] as int]
                        || (ranks@[base[a] as int] == ranks@[base[b] as int] && base[a] < base[b]),
            decreases n - v,
        {
            if ranks[v] == pass {
                let ghost old_r = r@;
                r.push(v);
                proof {
                    assert(r@ == old_r.push(v));
                    assert(r@.subrange(0, base.len() as int) =~= old_r.subrange(0, base.len() as int));
                    assert forall|w: usize| w < v + 1 && ranks@[w as int] == pass implies #[trigger] r@.contains(
                        w,
                    ) by {
                        if w < v {
                            assert(old_r.contains(w));
                            let k = choose|k: int| 0 <= k < old_r.len() && old_r[k] == w;
                            assert(r@[k] == w);
                        } else {
                            assert(r@[old_r.len() as int] == w);
                        }
                    }
                }
            }
            v = v + 1;
        }
        proof {
            assert forall|a: int| 0 <= a < base.len() implies r@[a] == base[a] by {
                assert(r@.subrange(0, base.len() as int)[a] == base[a]);
            }
            assert forall|w: usize| w < n && ranks@[w as int] < pass + 1 implies #[trigger] r@.contains(w) by {
                if ranks@[w as int] < pass {
                    assert(base.contains(w));
                    let k = choose|k: int| 0 <= k < base.len() && base[k] == w;
                    assert(r@[k] == w);
                }
            }
            assert forall|a: int| 0 <= a < r@.len() implies (#[trigger] r@[a]) < n && ranks@[r@[a] as int]
                < pass + 1 by {
                if a < base.len() {
                    assert(r@[a] == base[a]);
                }
            }
            assert forall|a: int, b: int| 0 <= a < r@.len() && 0 <= b < r@.len() && a != b implies r@[a]
                != r@[b] by {
                if a < base.len() && b < base.len() {
                    assert(r@[a] == base[a] && r@[b] == base[b]);
                } else if a < base.len() {
                    assert(r@[a] == base[a]);
                    assert(ranks@[r@[a] as int] < pass);
                    assert(ranks@[r@[b] as int] == pass);
                } else if b < base.len() {
                    assert(r@[b] == base[b]);
                    assert(ranks@[r@[b] as int] < pass);
                    assert(ranks@[r@[a] as int] == pass);
                } else if a < b {
                    assert(r@[a] < r@[b]);
                } else {
                    assert(r@[b] < r@[a]);
                }
            }
            assert forall|a: int, b: int| 0 <= a < b < r@.len() implies ranks@[#[trigger] r@[a] as int]
                < ranks@[#[trigger] r@[b] as int] || (ranks@[r@[a] as int] == ranks@[r@[b] as int] && r@[a]
                < r@[b]) by {
                if b < base.len() {
                    assert(r@[a] == base[a] && r@[b] == base[b]);
                } else if a < base.len() {
                    assert(r@[a] == base[a]);
                    assert(ranks@[r@[a] as int] < pass);
                    assert(ranks@[r@[b] as int] == pass);
                } else {
                    assert(r@[a] < r@[b]);
                }
            }
        }
        pass = pass + 1;
    }
    proof {
        assert forall|v: usize| v < n implies #[trigger] r@.contains(v) by {
            assert(ranks@[v as int] < 3) by {
                assert(ranks@[v as int] as nat == target_rank(targets@[v as int]));
            }
        }
        assert forall|v: usize| r@.contains(v) implies v < n by {
            let k = choose|k: int| 0 <= k < r@.len() && r@[k] == v;
        }
        r@.unique_seq_to_set();
        let full = Set::<usize>::range(0, n);
        vstd::set_lib::range_set_properties::<usize>(0, n);
        assert(r@.to_set() =~= full);
    }
    r
}

} // verus!
