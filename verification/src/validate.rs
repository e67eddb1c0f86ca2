//! Validation of a service set before the engine starts: names are unique
//! and non-empty, every dependency refers to a known service, termination
//! signals are known, and the `start_after` relation is acyclic.
use crate::error::ValidationError;
use crate::formats::Service;
use crate::signal_handling;
use vstd::prelude::*;
use vstd::set_lib::set_int_range;
use vstd::string::StrSliceExecFns;
use vstd::string::StringExecFns;

verus! {

broadcast use vstd::set::group_set_axioms, vstd::set_lib::group_set_lib_default;

/// Service `i` depends on service `j`: some `start_after` entry of `i`
/// is `j`'s name.
pub open spec fn dep_on(ss: Seq<Service>, i: int, j: int) -> bool {
    exists|k: int|
        0 <= k < ss[i].start_after@.len() && ss[i].start_after@[k]@ == ss[j].name@
}

/// The set of indices `rem` can be emptied by repeatedly removing a
/// service that depends on nothing still in the set. A dependency graph
/// is acyclic exactly when its whole index set is reducible.
pub open spec fn reducible(ss: Seq<Service>, rem: Set<int>) -> bool
    decreases rem.len(),
        when rem.finite()
{
    rem.len() == 0 || exists|i: int|
        #[trigger] rem.contains(i) && (forall|j: int| rem.contains(j) ==> !dep_on(ss, i, j))
            && reducible(ss, rem.remove(i))
}

/// The `start_after` relation of the whole set has no cycle.
pub open spec fn acyclic(ss: Seq<Service>) -> bool {
    reducible(ss, set_int_range(0, ss.len() as int))
}

/// Everything the loader owes the engine: unique non-empty names, known
/// termination signals, dependencies that exist, and no dependency cycle.
pub open spec fn valid_config(ss: Seq<Service>) -> bool {
    &&& forall|i: int| 0 <= i < ss.len() ==> (#[trigger] ss[i].name@).len() > 0
    &&& forall|i: int, j: int|
        0 <= i < ss.len() && 0 <= j < ss.len() && i != j ==> ss[i].name@ != ss[j].name@
    &&& forall|i: int, k: int|
        0 <= i < ss.len() && 0 <= k < ss[i].start_after@.len() ==> exists|j: int|
            0 <= j < ss.len() && (#[trigger] ss[i].start_after@[k])@ == ss[j].name@
    &&& forall|i: int|
        0 <= i < ss.len() ==> signal_handling::signal_number_spec(
            (#[trigger] ss[i]).termination.signal@,
        ) is Some
    &&& acyclic(ss)
}

/// A single service whose `start_after` is empty and whose termination
/// signal is the default is always a valid configuration.
pub proof fn lemma_single_service_valid(ss: Seq<Service>)
    requires
        ss.len() == 1,
        ss[0].name@.len() > 0,
        ss[0].start_after@.len() == 0,
        signal_handling::signal_number_spec(ss[0].termination.signal@) is Some,
    ensures
        valid_config(ss),
{
    let full = set_int_range(0, 1);
    assert(full.contains(0));
    assert(forall|j: int| full.contains(j) ==> !dep_on(ss, 0, j));
    assert(full.remove(0) =~= Set::<int>::empty());
    assert(full.remove(0).len() == 0);
    assert(reducible(ss, full.remove(0)));
    assert(reducible(ss, full));
}

/// The indices not yet removed by the peeling pass.
pub open spec fn rem_set(removed: Seq<bool>) -> Set<int> {
    Set::new(|i: int| 0 <= i < removed.len() && !removed[i])
}

/// The unremoved indices form a finite set, no larger than the range.
proof fn lemma_rem_set_finite(removed: Seq<bool>)
    ensures
        rem_set(removed).finite(),
        rem_set(removed).len() <= removed.len(),
{
    let full = set_int_range(0, removed.len() as int);
    vstd::set_lib::lemma_int_range(0, removed.len() as int);
    assert(rem_set(removed).subset_of(full));
    vstd::set_lib::lemma_len_subset(rem_set(removed), full);
}

/// A nonempty set of services, each depending on another of the set,
/// can never be peeled away: no superset of it is reducible.
proof fn lemma_stuck_not_reducible(ss: Seq<Service>, s: Set<int>, r: Set<int>)
    requires
        s.finite(),
        r.subset_of(s),
        r.finite(),
        r.len() > 0,
        forall|i: int|
            r.contains(i) ==> exists|j: int| #[trigger] r.contains(j) && dep_on(ss, i, j),
    ensures
        !reducible(ss, s),
    decreases s.len(),
{
    if reducible(ss, s) {
        let x = r.choose();
        assert(r.contains(x));
        assert(s.contains(x));
        assert(s.len() > 0);
        let i = choose|i: int|
            #[trigger] s.contains(i) && (forall|j: int| s.contains(j) ==> !dep_on(ss, i, j))
                && reducible(ss, s.remove(i));
        if r.contains(i) {
            let j = choose|j: int| #[trigger] r.contains(j) && dep_on(ss, i, j);
            assert(s.contains(j));
            assert(false);
        }
        assert(r.subset_of(s.remove(i)));
        lemma_stuck_not_reducible(ss, s.remove(i), r);
        assert(false);
    }
}

/// With dependencies resolved to indices under unique names, the
/// name-based dependency relation coincides with the index table.
proof fn lemma_dep_bridge(ss: Seq<Service>, dt: Seq<Seq<usize>>, i: int, j: int)
    requires
        dt.len() == ss.len(),
        forall|a: int| 0 <= a < ss.len() ==> (#[trigger] dt[a]).len() == ss[a].start_after@.len(),
        forall|a: int, k: int|
            0 <= a < ss.len() && 0 <= k < dt[a].len() ==> (#[trigger] dt[a][k]) < ss.len()
                && ss[dt[a][k] as int].name@ == ss[a].start_after@[k]@,
        forall|a: int, b: int|
            0 <= a < ss.len() && 0 <= b < ss.len() && a != b ==> ss[a].name@ != ss[b].name@,
        0 <= i < ss.len(),
        0 <= j < ss.len(),
    ensures
        dep_on(ss, i, j) <==> exists|k: int| 0 <= k < dt[i].len() && dt[i][k] == j,
{
    if dep_on(ss, i, j) {
        let k = choose|k: int|
            0 <= k < ss[i].start_after@.len() && (#[trigger] ss[i].start_after@[k])@
                == ss[j].name@;
        assert(ss[dt[i][k] as int].name@ == ss[j].name@);
        assert(dt[i][k] == j);
        assert(0 <= k < dt[i].len() && dt[i][k] == j);
    }
    if exists|k: int| 0 <= k < dt[i].len() && dt[i][k] == j {
        let k = choose|k: int| 0 <= k < dt[i].len() && (#[trigger] dt[i][k]) == j;
        assert(ss[i].start_after@[k]@ == ss[j].name@);
        assert(dep_on(ss, i, j));
    }
}

/// The descriptor whose name is empty, if any.
fn find_empty_name(services: &Vec<Service>) -> (r: Option<usize>)
    ensures
        r matches Some(i) ==> i < services@.len() && services@[i as int].name@.len() == 0,
        r is None ==> forall|i: int|
            0 <= i < services@.len() ==> (#[trigger] services@[i].name@).len() > 0,
{
    let n = services.len();
    let mut i: usize = 0;
    while i < n
        invariant
            n == services@.len(),
            i <= n,
            forall|t: int| 0 <= t < i ==> (#[trigger] services@[t].name@).len() > 0,
        decreases n - i,
    {
        if services[i].name.as_str().unicode_len() == 0 {
            return Some(i);
        }
        i = i + 1;
    }
    None
}

/// Two descriptors sharing one name, if any.
fn find_duplicate(services: &Vec<Service>) -> (r: Option<(usize, usize)>)
    ensures
        r matches Some(p) ==> p.0 < p.1 < services@.len() && services@[p.0 as int].name@
            == services@[p.1 as int].name@,
        r is None ==> forall|a: int, b: int|
            0 <= a < services@.len() && 0 <= b < services@.len() && a != b ==> services@[a].name@
                != services@[b].name@,
    {
    let n = services.len();
    let mut i: usize = 0;
    while i < n
        invariant
            n == services@.len(),
            i <= n,
            forall|a: int, b: int| 0 <= a < i && a < b < n ==> services@[a].name@ != services@[b].name@,
        decreases n - i,
    {
        let mut j: usize = i + 1;
        while j < n
            invariant
                n == services@.len(),
                i < n,
                i < j <= n,
                forall|b: int| i < b < j ==> services@[i as int].name@ != services@[b].name@,
            decreases n - j,
        {
            if services[i].name == services[j].name {
                return Some((i, j));
            }
            j = j + 1;
        }
        i = i + 1;
    }
    None
}

/// The descriptor with an unknown termination signal, if any.
fn find_bad_signal(services: &Vec<Service>) -> (r: Option<usize>)
    ensures
        r matches Some(i) ==> i < services@.len() && signal_handling::signal_number_spec(
            services@[i as int].termination.signal@,
        ) is None,
        r is None ==> forall|i: int|
            0 <= i < services@.len() ==> signal_handling::signal_number_spec(
                (#[trigger] services@[i]).termination.signal@,
            ) is Some,
{
    let n = services.len();
    let mut i: usize = 0;
    while i < n
        invariant
            n == services@.len(),
            i <= n,
            forall|t: int|
                0 <= t < i ==> signal_handling::signal_number_spec(
                    (#[trigger] services@[t]).termination.signal@,
                ) is Some,
        decreases n - i,
    {
        let known = signal_handling::signal_number(&services[i].termination.signal);
        if known.is_none() {
            return Some(i);
        }
        i = i + 1;
    }
    None
}

/// A `start_after` entry naming no known service, if any: the service's
/// index and the position of the offending entry.
fn find_missing_dep(services: &Vec<Service>) -> (r: Option<(usize, usize)>)
    ensures
        r matches Some(p) ==> p.0 < services@.len() && p.1
            < services@[p.0 as int].start_after@.len() && forall|j: int|
            0 <= j < services@.len() ==> (#[trigger] services@[j]).name@
                != services@[p.0 as int].start_after@[p.1 as int]@,
        r is None ==> forall|i: int, k: int|
            0 <= i < services@.len() && 0 <= k < services@[i].start_after@.len() ==> exists|j: int|
                0 <= j < services@.len() && (#[trigger] services@[i].start_after@[k])@
                    == services@[j].name@,
{
    let n = services.len();
    let mut i: usize = 0;
    while i < n
        invariant
            n == services@.len(),
            i <= n,
            forall|a: int, k: int|
                0 <= a < i && 0 <= k < services@[a].start_after@.len() ==> exists|j: int|
                    0 <= j < n && (#[trigger] services@[a].start_after@[k])@
                        == services@[j].name@,
        decreases n - i,
    {
        let deps = &services[i].start_after;
        let m = deps.len();
        let mut k: usize = 0;
        while k < m
            invariant
                n == services@.len(),
                i < n,
                m == deps@.len(),
                deps@ == services@[i as int].start_after@,
                k <= m,
                forall|t: int|
                    0 <= t < k ==> exists|j: int|
                        0 <= j < n && (#[trigger] services@[i as int].start_after@[t])@
                            == services@[j].name@,
            decreases m - k,
        {
            let mut j: usize = 0;
            let mut found = false;
            while j < n
                invariant
                    n == services@.len(),
                    i < n,
                    k < m,
                    m == deps@.len(),
                    deps@ == services@[i as int].start_after@,
                    j <= n,
                    found ==> exists|t: int|
                        0 <= t < n && (#[trigger] services@[i as int].start_after@[k as int])@
                            == services@[t].name@,
                    !found ==> forall|t: int|
                        0 <= t < j ==> (#[trigger] services@[t]).name@ != deps@[k as int]@,
                decreases n - j,
            {
                if services[j].name == deps[k] {
                    found = true;
                    proof {
                        assert(services@[i as int].start_after@[k as int]@
                            == services@[j as int].name@);
                    }
                }
                j = j + 1;
            }
            if !found {
                return Some((i, k));
            }
            k = k + 1;
        }
        i = i + 1;
    }
    None
}

/// Resolves each `start_after` name to the index of the service bearing
/// it, for the cycle check. Requires every dependency to exist.
fn resolve_indices(services: &Vec<Service>) -> (r: Vec<Vec<usize>>)
    requires
        forall|i: int, k: int|
            0 <= i < services@.len() && 0 <= k < services@[i].start_after@.len() ==> exists|j: int|
                0 <= j < services@.len() && (#[trigger] services@[i].start_after@[k])@
                    == services@[j].name@,
    ensures
        r@.len() == services@.len(),
        forall|i: int|
            0 <= i < services@.len() ==> (#[trigger] r@[i])@.len()
                == services@[i].start_after@.len(),
        forall|i: int, k: int|
            0 <= i < services@.len() && 0 <= k < r@[i]@.len() ==> (#[trigger] r@[i]@[k])
                < services@.len() && services@[r@[i]@[k] as int].name@
                == services@[i].start_after@[k]@,
{
    let n = services.len();
    let mut r: Vec<Vec<usize>> = Vec::new();
    let mut i: usize = 0;
    while i < n
        invariant
            n == services@.len(),
            i <= n,
            forall|a: int, k: int|
                0 <= a < n && 0 <= k < services@[a].start_after@.len() ==> exists|j: int|
                    0 <= j < n && (#[trigger] services@[a].start_after@[k])@
                        == services@[j].name@,
            r@.len() == i,
            forall|a: int|
                0 <= a < i ==> (#[trigger] r@[a])@.len() == services@[a].start_after@.len(),
            forall|a: int, k: int|
                0 <= a < i && 0 <= k < r@[a]@.len() ==> (#[trigger] r@[a]@[k]) < n
                    && services@[r@[a]@[k] as int].name@ == services@[a].start_after@[k]@,
        decreases n - i,
    {
        let names = &services[i].start_after;
        let m = names.len();
        let mut deps: Vec<usize> = Vec::new();
        let mut k: usize = 0;
        while k < m
            invariant
                n == services@.len(),
                i < n,
                m == names@.len(),
                names@ == services@[i as int].start_after@,
                forall|a: int, t: int|
                    0 <= a < n && 0 <= t < services@[a].start_after@.len() ==> exists|j: int|
                        0 <= j < n && (#[trigger] services@[a].start_after@[t])@
                            == services@[j].name@,
                k <= m,
                deps@.len() == k,
                forall|t: int|
                    0 <= t < k ==> (#[trigger] deps@[t]) < n && services@[deps@[t] as int].name@
                        == services@[i as int].start_after@[t]@,
            decreases m - k,
        {
            let mut j: usize = 0;
            let mut d: usize = 0;
            let mut found = false;
            proof {
                assert(exists|j2: int|
                    0 <= j2 < n && (#[trigger] services@[i as int].start_after@[k as int])@
                        == services@[j2].name@);
            }
            while j < n
                invariant
                    n == services@.len(),
                    i < n,
                    k < m,
                    m == names@.len(),
                    names@ == services@[i as int].start_after@,
                    j <= n,
                    found ==> d < n && services@[d as int].name@ == names@[k as int]@,
                    !found ==> forall|t: int|
                        0 <= t < j ==> (#[trigger] services@[t]).name@ != names@[k as int]@,
                    exists|j2: int|
                        0 <= j2 < n && (#[trigger] services@[i as int].start_after@[k as int])@
                            == services@[j2].name@,
                decreases n - j,
            {
                if !found && services[j].name == names[k] {
                    found = true;
                    d = j;
                }
                j = j + 1;
            }
            proof {
                if !found {
                    let j2 = choose|j2: int|
                        0 <= j2 < n && (#[trigger] services@[i as int].start_after@[k as int])@
                            == services@[j2].name@;
                    assert(services@[j2].name@ == names@[k as int]@);
                    assert(false);
                }
            }
            deps.push(d);
            k = k + 1;
        }
        r.push(deps);
        i = i + 1;
    }
    r
}

/// Whether every index is removed.
fn all_removed(removed: &Vec<bool>) -> (r: bool)
    ensures
        r == (forall|i: int| 0 <= i < removed@.len() ==> #[trigger] removed@[i]),
{
    let n = removed.len();
    let mut i: usize = 0;
    while i < n
        invariant
            n == removed@.len(),
            i <= n,
            forall|t: int| 0 <= t < i ==> #[trigger] removed@[t],
        decreases n - i,
    {
        if !removed[i] {
            return false;
        }
        i = i + 1;
    }
    true
}

/// Whether every dependency of service `i` is already removed.
fn deps_removed(deps: &Vec<Vec<usize>>, removed: &Vec<bool>, i: usize) -> (r: bool)
    requires
        i < deps@.len(),
        forall|k: int|
            0 <= k < deps@[i as int]@.len() ==> (#[trigger] deps@[i as int]@[k])
                < removed@.len(),
    ensures
        r == (forall|k: int|
            0 <= k < deps@[i as int]@.len() ==> removed@[(#[trigger] deps@[i as int]@[k]) as int]),
{
    let row = &deps[i];
    let m = row.len();
    let mut k: usize = 0;
    while k < m
        invariant
            m == row@.len(),
            row@ == deps@[i as int]@,
            i < deps@.len(),
            forall|t: int| 0 <= t < m ==> (#[trigger] row@[t]) < removed@.len(),
            k <= m,
            forall|t: int| 0 <= t < k ==> removed@[(#[trigger] row@[t]) as int],
        decreases m - k,
    {
        if !removed[row[k]] {
            return false;
        }
        k = k + 1;
    }
    true
}

/// Decides acyclicity of the resolved dependency graph by repeatedly
/// peeling services whose dependencies are all peeled: the set empties
/// exactly when the `start_after` relation has no cycle.
#[verifier::rlimit(60)]
#[verifier::loop_isolation(false)]
fn check_acyclic(services: &Vec<Service>, deps: &Vec<Vec<usize>>) -> (r: bool)
    requires
        deps@.len() == services@.len(),
        forall|i: int|
            0 <= i < services@.len() ==> (#[trigger] deps@[i])@.len()
                == services@[i].start_after@.len(),
        forall|i: int, k: int|
            0 <= i < services@.len() && 0 <= k < deps@[i]@.len() ==> (#[trigger] deps@[i]@[k])
                < services@.len() && services@[deps@[i]@[k] as int].name@
                == services@[i].start_after@[k]@,
        forall|a: int, b: int|
            0 <= a < services@.len() && 0 <= b < services@.len() && a != b ==> services@[a].name@
                != services@[b].name@,
    ensures
        r == acyclic(services@),
{
    let ghost ss = services@;
    let ghost dt = deps@.map_values(|v: Vec<usize>| v@);
    let n = services.len();
    let ghost full = set_int_range(0, n as int);
    proof {
        vstd::set_lib::lemma_int_range(0, n as int);
    }
    let mut removed: Vec<bool> = Vec::new();
    let mut z: usize = 0;
    while z < n
        invariant
            z <= n,
            removed@.len() == z,
            forall|t: int| 0 <= t < z ==> !(#[trigger] removed@[t]),
        decreases n - z,
    {
        removed.push(false);
        z = z + 1;
    }
    proof {
        assert(rem_set(removed@) =~= full);
    }
    let mut progress = true;
    while progress
        invariant
            n == services@.len(),
            ss == services@,
            dt == deps@.map_values(|v: Vec<usize>| v@),
            dt.len() == n,
            removed@.len() == n,
            reducible(ss, rem_set(removed@)) ==> reducible(ss, full),
            forall|t: int, k: int|
                0 <= t < n && removed@[t] && 0 <= k < dt[t].len()
                    ==> removed@[(#[trigger] dt[t][k]) as int],
            !progress ==> forall|t: int|
                0 <= t < n && !removed@[t] ==> exists|k: int|
                    0 <= k < dt[t].len() && !removed@[(#[trigger] dt[t][k]) as int],
        decreases rem_set(removed@).len() + (if progress {
            1int
        } else {
            0int
        }),
    {
        progress = false;
        let ghost removed_pass = removed@;
        let mut i: usize = 0;
        while i < n
            invariant
                n == services@.len(),
                ss == services@,
                dt == deps@.map_values(|v: Vec<usize>| v@),
                dt.len() == n,
                removed@.len() == n,
                i <= n,
                reducible(ss, rem_set(removed@)) ==> reducible(ss, full),
                forall|t: int, k: int|
                    0 <= t < n && removed@[t] && 0 <= k < dt[t].len()
                        ==> removed@[(#[trigger] dt[t][k]) as int],
                !progress ==> removed@ == removed_pass,
                !progress ==> forall|t: int|
                    0 <= t < i && !removed@[t] ==> exists|k: int|
                        0 <= k < dt[t].len() && !removed@[(#[trigger] dt[t][k]) as int],
                progress ==> rem_set(removed@).len() < rem_set(removed_pass).len(),
            decreases n - i,
        {
            if !removed[i] {
                proof {
                    assert forall|k: int|
                        0 <= k < deps@[i as int]@.len() implies (#[trigger] deps@[i as int]@[k])
                        < removed@.len() by {}
                }
                if deps_removed(deps, &removed, i) {
                    let ghost rm0 = removed@;
                    removed[i] = true;
                    progress = true;
                    proof {
                        let iw = i as int;
                        assert forall|a: int| 0 <= a < ss.len() implies (#[trigger] dt[a]).len()
                            == ss[a].start_after@.len() by {
                            assert(dt[a] == deps@[a]@);
                        }
                        assert forall|a: int, k2: int|
                            0 <= a < ss.len() && 0 <= k2 < dt[a].len() implies (
                        #[trigger] dt[a][k2]) < ss.len() && ss[dt[a][k2] as int].name@
                            == ss[a].start_after@[k2]@ by {
                            assert(dt[a] == deps@[a]@);
                        }
                        lemma_rem_set_finite(rm0);
                        lemma_rem_set_finite(removed@);
                        assert(rem_set(removed@) =~= rem_set(rm0).remove(iw));
                        assert(rem_set(rm0).contains(iw));
                        assert(rem_set(rm0).remove(iw).len() == rem_set(rm0).len() - 1);
                        if rem_set(rm0).len() >= rem_set(removed_pass).len() {
                            lemma_rem_set_finite(removed_pass);
                            assert(rem_set(removed@).len() < rem_set(removed_pass).len());
                        }
                        assert forall|j: int|
                            rem_set(rm0).contains(j) implies !dep_on(ss, iw, j) by {
                            lemma_dep_bridge(ss, dt, iw, j);
                            if dep_on(ss, iw, j) {
                                let k = choose|k: int|
                                    0 <= k < dt[iw].len() && (#[trigger] dt[iw][k]) == j;
                                assert(rm0[dt[iw][k] as int]);
                                assert(false);
                            }
                        }
                        if reducible(ss, rem_set(removed@)) {
                            assert(reducible(ss, rem_set(rm0).remove(iw)));
                            assert(rem_set(rm0).contains(iw) && (forall|j: int|
                                rem_set(rm0).contains(j) ==> !dep_on(ss, iw, j)) && reducible(
                                ss,
                                rem_set(rm0).remove(iw),
                            ));
                            assert(reducible(ss, rem_set(rm0)));
                        }
                    }
                }
            }
            i = i + 1;
        }
    }
    if all_removed(&removed) {
        proof {
            assert(rem_set(removed@) =~= Set::<int>::empty());
            assert(rem_set(removed@).len() == 0);
            assert(reducible(ss, rem_set(removed@)));
            assert(acyclic(ss));
        }
        true
    } else {
        proof {
            let r0 = rem_set(removed@);
            lemma_rem_set_finite(removed@);
            assert forall|a: int| 0 <= a < ss.len() implies (#[trigger] dt[a]).len()
                == ss[a].start_after@.len() by {
                assert(dt[a] == deps@[a]@);
            }
            assert forall|a: int, k2: int|
                0 <= a < ss.len() && 0 <= k2 < dt[a].len() implies (#[trigger] dt[a][k2])
                < ss.len() && ss[dt[a][k2] as int].name@ == ss[a].start_after@[k2]@ by {
                assert(dt[a] == deps@[a]@);
            }

            let w = choose|t: int| 0 <= t < n && !(#[trigger] removed@[t]);
            assert(r0.contains(w));
            assert(r0.len() > 0) by {
                if r0.len() == 0 {
                    assert(r0.contains(w));
                    vstd::set_lib::lemma_len_subset(set_int_range(0, 0).insert(w), r0);
                }
            }
            assert forall|a: int| r0.contains(a) implies exists|b: int|
                #[trigger] r0.contains(b) && dep_on(ss, a, b) by {
                let k = choose|k: int|
                    0 <= k < dt[a].len() && !removed@[(#[trigger] dt[a][k]) as int];
                let b0 = dt[a][k] as int;
                assert(r0.contains(b0));
                lemma_dep_bridge(ss, dt, a, b0);
                assert(dep_on(ss, a, b0));
            }
            vstd::set_lib::lemma_int_range(0, n as int);
            assert(r0.subset_of(full));
            lemma_stuck_not_reducible(ss, full, r0);
        }
        false
    }
}

/// Validates a service set for the engine: names unique and non-empty,
/// termination signals known, every `start_after` entry present, and no
/// dependency cycle. Returns the set unchanged exactly when it is
/// valid, else the first finding, and rejects exactly the invalid sets.
pub fn validate(services: Vec<Service>) -> (r: Result<Vec<Service>, ValidationError>)
    ensures
        r matches Ok(v) ==> v == services && valid_config(services@),
        r is Err ==> !valid_config(services@),
        r matches Err(e) ==> (e is EmptyName ==> exists|i: int|
            0 <= i < services@.len() && (#[trigger] services@[i].name@).len() == 0),
        r matches Err(e) ==> (e matches ValidationError::DuplicateName(nm) ==> exists|a: int, b: int|
            0 <= a < services@.len() && 0 <= b < services@.len() && a != b
                && (#[trigger] services@[a]).name@ == (#[trigger] services@[b]).name@
                && services@[a].name@ == nm@),
        r matches Err(e) ==> (e matches ValidationError::UnknownSignal(nm) ==> exists|i: int|
            0 <= i < services@.len() && signal_handling::signal_number_spec(
                (#[trigger] services@[i]).termination.signal@,
            ) is None && services@[i].termination.signal@ == nm@),
        r matches Err(e) ==> (e is Cycle ==> !acyclic(services@)),
{
    if let Some(i) = find_empty_name(&services) {
        proof {
            assert(!valid_config(services@));
        }
        return Err(ValidationError::EmptyName);
    }
    if let Some((a, b)) = find_duplicate(&services) {
        let nm = services[a].name.clone();
        proof {
            assert(services@[a as int].name@ == services@[b as int].name@);
            assert(!valid_config(services@));
            assert(exists|x: int, y: int|
                0 <= x < services@.len() && 0 <= y < services@.len() && x != y
                    && (#[trigger] services@[x]).name@ == (#[trigger] services@[y]).name@
                    && services@[x].name@ == nm@) by {
                assert((a as int) < services@.len() && (b as int) < services@.len()
                    && a as int != b as int && services@[a as int].name@
                    == services@[b as int].name@ && services@[a as int].name@ == nm@);
            }
        }
        return Err(ValidationError::DuplicateName(nm));
    }
    if let Some(i) = find_bad_signal(&services) {
        let nm = services[i].termination.signal.clone();
        proof {
            assert(!valid_config(services@));
            assert(exists|x: int|
                0 <= x < services@.len() && signal_handling::signal_number_spec(
                    (#[trigger] services@[x]).termination.signal@,
                ) is None && services@[x].termination.signal@ == nm@) by {
                assert((i as int) < services@.len() && signal_handling::signal_number_spec(
                    services@[i as int].termination.signal@,
                ) is None && services@[i as int].termination.signal@ == nm@);
            }
        }
        return Err(ValidationError::UnknownSignal(nm));
    }
    if let Some((i, k)) = find_missing_dep(&services) {
        proof {
            assert(forall|j: int|
                0 <= j < services@.len() ==> (#[trigger] services@[j]).name@
                    != services@[i as int].start_after@[k as int]@);
            assert(!valid_config(services@));
        }
        return Err(ValidationError::UnknownDependency(services[i].start_after[k].clone()));
    }
    let deps = resolve_indices(&services);
    if !check_acyclic(&services, &deps) {
        proof {
            assert(!valid_config(services@));
        }
        return Err(ValidationError::Cycle);
    }
    proof {
        assert(valid_config(services@));
    }
    Ok(services)
}

} // verus!
