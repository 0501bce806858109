use vstd::prelude::*;
use vstd::string::{StrSliceExecFns, StringExecFns};

verus! {

/// The token that ends the build-system flags; what follows belongs to the analyzer.
pub open spec fn separator() -> Seq<char> {
    seq!['-', '-']
}

/// The views of a list of strings.
pub open spec fn views(v: Seq<String>) -> Seq<Seq<char>> {
    v.map_values(|s: String| s@)
}

/// The view of an optional string.
pub open spec fn opt_view(o: Option<String>) -> Option<Seq<char>> {
    match o {
        Some(s) => Some(s@),
        None => None,
    }
}

/// `k` is where the flags end: the first `--`, or the end of the list.
pub open spec fn is_flags_end(a: Seq<Seq<char>>, k: int) -> bool {
    &&& 0 <= k <= a.len()
    &&& k < a.len() ==> a[k] == separator()
    &&& forall|j: int| 0 <= j < k ==> a[j] != separator()
}

/// The arguments before the first `--`.
pub open spec fn leading_flags(a: Seq<Seq<char>>) -> Seq<Seq<char>> {
    let k = choose|k: int| is_flags_end(a, k);
    a.subrange(0, k)
}

/// The arguments a flag scan looks at: those before the first `--` when `stop`, else all.
pub open spec fn scanned(a: Seq<Seq<char>>, stop: bool) -> Seq<Seq<char>> {
    if stop {
        leading_flags(a)
    } else {
        a
    }
}

/// The value of the first well-formed occurrence of flag `name` at position `i` or
/// later: `name value` (two arguments) or `name=value` (one). An argument that starts
/// with `name` and continues otherwise is passed over.
pub open spec fn flag_value_from(a: Seq<Seq<char>>, name: Seq<char>, i: int) -> Option<Seq<char>>
    decreases a.len() - i,
{
    if i >= a.len() {
        None
    } else if name.is_prefix_of(a[i]) && a[i].len() == name.len() {
        if i + 1 < a.len() {
            Some(a[i + 1])
        } else {
            None
        }
    } else if name.is_prefix_of(a[i]) && a[i][name.len() as int] == '=' {
        Some(a[i].subrange(name.len() + 1 as int, a[i].len() as int))
    } else {
        flag_value_from(a, name, i + 1)
    }
}

/// The values that successive occurrences of flag `name` carry, from position `i`
/// on. The scan ends at a `name` without a following value, or at an argument that
/// starts with `name` and continues with something other than `=`.
pub open spec fn flag_values_from(a: Seq<Seq<char>>, name: Seq<char>, i: int) -> Seq<Seq<char>>
    decreases a.len() - i,
{
    if i >= a.len() {
        Seq::empty()
    } else if name.is_prefix_of(a[i]) && a[i].len() == name.len() {
        if i + 1 < a.len() {
            seq![a[i + 1]] + flag_values_from(a, name, i + 2)
        } else {
            Seq::empty()
        }
    } else if name.is_prefix_of(a[i]) && a[i][name.len() as int] == '=' {
        seq![a[i].subrange(name.len() + 1 as int, a[i].len() as int)] + flag_values_from(a, name, i + 1)
    } else if name.is_prefix_of(a[i]) {
        Seq::empty()
    } else {
        flag_values_from(a, name, i + 1)
    }
}

/// The values of flag `name` before the first `--` of `args`.
pub open spec fn flag_values(args: Seq<String>, name: Seq<char>) -> Seq<Seq<char>> {
    flag_values_from(leading_flags(views(args)), name, 0)
}

/// Whether `p` is a prefix of `s`.
pub fn str_starts_with(s: &str, p: &str) -> (r: bool)
    ensures
        r == p@.is_prefix_of(s@),
{
    let n = s.unicode_len();
    let m = p.unicode_len();
    if m > n {
        return false;
    }
    let mut i: usize = 0;
    while i < m
        invariant
            m <= n,
            n == s@.len(),
            m == p@.len(),
            i <= m,
            forall|j: int| 0 <= j < i ==> s@[j] == p@[j],
        decreases m - i,
    {
        if s.get_char(i) != p.get_char(i) {
            return false;
        }
        i = i + 1;
    }
    true
}

/// Whether `p` is a suffix of `s`.
pub fn str_ends_with(s: &str, p: &str) -> (r: bool)
    ensures
        r == (p@.len() <= s@.len() && s@.subrange(s@.len() - p@.len(), s@.len() as int) == p@),
{
    let n = s.unicode_len();
    let m = p.unicode_len();
    if m > n {
        return false;
    }
    let off = n - m;
    let mut i: usize = 0;
    while i < m
        invariant
            m <= n,
            n == s@.len(),
            m == p@.len(),
            off == n - m,
            i <= m,
            forall|j: int| 0 <= j < i ==> s@[off + j] == p@[j],
        decreases m - i,
    {
        if s.get_char(off + i) != p.get_char(i) {
            return false;
        }
        i = i + 1;
    }
    assert(s@.subrange(s@.len() - p@.len(), s@.len() as int) =~= p@);
    true
}

/// Whether two strings hold the same characters.
pub fn str_eq(a: &str, b: &str) -> (r: bool)
    ensures
        r == (a@ == b@),
{
    let r = a.unicode_len() == b.unicode_len() && str_starts_with(a, b);
    proof {
        if a@.len() == b@.len() && b@.is_prefix_of(a@) {
            assert(a@ =~= b@);
        }
    }
    r
}

/// Whether `s` is the separator `--`.
pub fn is_separator(s: &str) -> (r: bool)
    ensures
        r == (s@ == separator()),
{
    s.unicode_len() == 2 && s.get_char(0) == '-' && s.get_char(1) == '-' && {
        proof {
            assert(s@ =~= separator());
        }
        true
    }
}

/// Where the flags end: the position of the first `--`, or the length of `args`.
pub fn flags_end(args: &Vec<String>) -> (k: usize)
    ensures
        is_flags_end(views(args@), k as int),
{
    let mut k: usize = 0;
    while k < args.len()
        invariant
            k <= args@.len(),
            forall|j: int| 0 <= j < k ==> args@[j]@ != separator(),
        decreases args@.len() - k,
    {
        if is_separator(args[k].as_str()) {
            return k;
        }
        k = k + 1;
    }
    k
}

proof fn lemma_flags_end_unique(a: Seq<Seq<char>>, k: int)
    requires
        is_flags_end(a, k),
    ensures
        leading_flags(a) == a.subrange(0, k),
{
    let c = choose|c: int| is_flags_end(a, c);
    if c < k {
        assert(a[c] != separator());
    } else if k < c {
        assert(a[k] != separator());
    }
}

/// How many leading arguments a flag scan reads.
pub(crate) fn scan_len(args: &Vec<String>, stop: bool) -> (k: usize)
    ensures
        k <= args@.len(),
        scanned(views(args@), stop) == views(args@).subrange(0, k as int),
{
    if stop {
        let k = flags_end(args);
        proof {
            lemma_flags_end_unique(views(args@), k as int);
        }
        k
    } else {
        proof {
            assert(views(args@) =~= views(args@).subrange(0, args@.len() as int));
        }
        args.len()
    }
}

/// Whether flag `name` is among the arguments before the first `--`.
pub fn has_arg_flag(args: &Vec<String>, name: &str) -> (r: bool)
    ensures
        r == leading_flags(views(args@)).contains(name@),
{
    let k = scan_len(args, true);
    let ghost a = leading_flags(views(args@));
    proof {
        assert forall|j: int| 0 <= j < k implies #[trigger] a[j] == args@[j]@ by {
            assert(a[j] == views(args@)[j]);
        }
    }
    let mut i: usize = 0;
    while i < k
        invariant
            k <= args@.len(),
            a == views(args@).subrange(0, k as int),
            a == leading_flags(views(args@)),
            a.len() == k,
            forall|j: int| 0 <= j < k ==> #[trigger] a[j] == args@[j]@,
            i <= k,
            forall|j: int| 0 <= j < i ==> a[j] != name@,
        decreases k - i,
    {
        if str_eq(args[i].as_str(), name) {
            assert(a[i as int] == name@);
            return true;
        }
        i = i + 1;
    }
    false
}

/// The value of flag `name` (`name value` or `name=value`), looking before the first
/// `--` only when `stop` is set.
pub fn get_arg_flag_value(args: &Vec<String>, name: &str, stop: bool) -> (r: Option<String>)
    ensures
        opt_view(r) == flag_value_from(scanned(views(args@), stop), name@, 0),
{
    let k = scan_len(args, stop);
    let ghost a = scanned(views(args@), stop);
    proof {
        assert forall|j: int| 0 <= j < k implies #[trigger] a[j] == args@[j]@ by {
            assert(a[j] == views(args@)[j]);
        }
    }
    let m = name.unicode_len();
    let mut i: usize = 0;
    while i < k
        invariant
            k <= args@.len(),
            a == views(args@).subrange(0, k as int),
            a == scanned(views(args@), stop),
            a.len() == k,
            forall|j: int| 0 <= j < k ==> #[trigger] a[j] == args@[j]@,
            m == name@.len(),
            i <= k,
            flag_value_from(a, name@, 0) == flag_value_from(a, name@, i as int),
        decreases k - i,
    {
        let arg = args[i].as_str();
        assert(a[i as int] == arg@);
        if str_starts_with(arg, name) {
            let n = arg.unicode_len();
            if n == m {
                if i + 1 < k {
                    let v = args[i + 1].clone();
                    assert(flag_value_from(a, name@, i as int) == Some(a[i + 1]));
                    assert(v@ == a[i + 1]);
                    return Some(v);
                }
                return None;
            }
            if arg.get_char(m) == '=' {
                let v = String::from_str(arg.substring_char(m + 1, n));
                assert(v@ == a[i as int].subrange(m + 1, n as int));
                return Some(v);
            }
        }
        i = i + 1;
    }
    None
}

/// The values of flag `name` before the first `--`, in order, up to the first
/// occurrence without a value or with something other than `=` after the name.
pub fn arg_flag_values(args: &Vec<String>, name: &str) -> (r: Vec<String>)
    ensures
        views(r@) == flag_values(args@, name@),
{
    let k = scan_len(args, true);
    let ghost a = leading_flags(views(args@));
    proof {
        assert forall|j: int| 0 <= j < k implies #[trigger] a[j] == args@[j]@ by {
            assert(a[j] == views(args@)[j]);
        }
    }
    let m = name.unicode_len();
    let mut vals: Vec<String> = Vec::new();
    let mut i: usize = 0;
    while i < k
        invariant
            k <= args@.len(),
            a == views(args@).subrange(0, k as int),
            a == leading_flags(views(args@)),
            a.len() == k,
            forall|j: int| 0 <= j < k ==> #[trigger] a[j] == args@[j]@,
            m == name@.len(),
            i <= k + 1,
            flag_values_from(a, name@, 0) == views(vals@) + flag_values_from(a, name@, i as int),
        decreases k + 1 - i,
    {
        let arg = args[i].as_str();
        assert(a[i as int] == arg@);
        let ghost old_vals = vals@;
        if str_starts_with(arg, name) {
            let n = arg.unicode_len();
            if n == m {
                if i + 1 < k {
                    let v = args[i + 1].clone();
                    assert(v@ == a[i + 1]);
                    vals.push(v);
                    proof {
                        assert(views(vals@) =~= views(old_vals).push(a[i + 1]));
                        assert(flag_values_from(a, name@, i as int) == seq![a[i + 1]]
                            + flag_values_from(a, name@, i + 2));
                        assert(views(old_vals) + flag_values_from(a, name@, i as int) =~= views(vals@)
                            + flag_values_from(a, name@, i + 2));
                    }
                    i = i + 2;
                } else {
                    proof {
                        assert(views(vals@) + Seq::<Seq<char>>::empty() =~= views(vals@));
                    }
                    return vals;
                }
            } else if arg.get_char(m) == '=' {
                let v = String::from_str(arg.substring_char(m + 1, n));
                vals.push(v);
                proof {
                    let x = a[i as int].subrange(m + 1, n as int);
                    assert(v@ == x);
                    assert(views(vals@) =~= views(old_vals).push(x));
                    assert(flag_values_from(a, name@, i as int) == seq![x] + flag_values_from(
                        a,
                        name@,
                        i + 1,
                    ));
                    assert(views(old_vals) + flag_values_from(a, name@, i as int) =~= views(vals@)
                        + flag_values_from(a, name@, i + 1));
                }
                i = i + 1;
            } else {
                proof {
                    assert(views(vals@) + Seq::<Seq<char>>::empty() =~= views(vals@));
                }
                return vals;
            }
        } else {
            i = i + 1;
        }
    }
    proof {
        assert(views(vals@) + Seq::<Seq<char>>::empty() =~= views(vals@));
    }
    vals
}

/// The manifest path given with `--manifest-path`, before the first `--`.
pub fn get_manifest_path(args: &Vec<String>) -> (r: Option<String>)
    ensures
        opt_view(r) == flag_value_from(leading_flags(views(args@)), "--manifest-path"@, 0),
{
    get_arg_flag_value(args, "--manifest-path", true)
}

/// Whether some value of flag `name` before the first `--` passes `check`.
pub fn any_arg_flag<F: Fn(&str) -> bool>(args: &Vec<String>, name: &str, check: F) -> (r: bool)
    requires
        forall|s: &str| #[trigger] check.requires((s,)),
    ensures
        r ==> exists|k: int, s: &str|
            #![trigger flag_values(args@, name@)[k], check.ensures((s,), true)]
            0 <= k < flag_values(args@, name@).len() && s@
                == flag_values(args@, name@)[k] && check.ensures(
                (s,),
                true,
            ),
        !r ==> forall|k: int|
            0 <= k < flag_values(args@, name@).len() ==> exists|s: &str|
                s@ == #[trigger] flag_values(args@, name@)[k] && check.ensures((s,), false),
{
    let vals = arg_flag_values(args, name);
    let mut i: usize = 0;
    while i < vals.len()
        invariant
            forall|s: &str| #[trigger] check.requires((s,)),
            i <= vals@.len(),
            views(vals@) == flag_values(args@, name@),
            forall|k: int|
                0 <= k < i ==> exists|s: &str|
                    s@ == #[trigger] views(vals@)[k] && check.ensures((s,), false),
        decreases vals@.len() - i,
    {
        let v = vals[i].as_str();
        if check(v) {
            assert(v@ == views(vals@)[i as int]);
            return true;
        }
        assert(v@ == views(vals@)[i as int]);
        i = i + 1;
    }
    false
}

} // verus!
