//! What every successful resolution of modules satisfies: each module once,
//! every requested module present, dependencies before dependents, and
//! nothing listed that is neither requested nor needed.
use vstd::prelude::*;

use crate::model::modules::{
    depends, find_name, first_unknown, include_all, include_deps_spec, include_spec, lemma_find_name,
    lemma_path_bound, path_ok, resolve_spec, targets_of, visit_all, visit_deps_spec, visit_spec,
};

verus! {

/// Every dependency of module `y` names a module, and that module is in `s`.
pub open spec fn deps_in(names: Seq<Seq<char>>, deps: Seq<Seq<Seq<char>>>, y: int, s: Set<int>) -> bool {
    forall|j: int|
        0 <= j < deps[y].len() ==> (#[trigger] find_name(names, deps[y][j]) matches Some(i)
            && s.contains(i))
}

/// A set of module indices, each in range and with its dependencies in the set.
pub open spec fn good_set(names: Seq<Seq<char>>, deps: Seq<Seq<Seq<char>>>, s: Set<int>) -> bool {
    forall|y: int| #[trigger]
        s.contains(y) ==> 0 <= y < names.len() && deps_in(names, deps, y, s)
}

/// Every dependency of module `y` names a module that occurs in `prefix`.
pub open spec fn deps_before(
    names: Seq<Seq<char>>,
    deps: Seq<Seq<Seq<char>>>,
    y: int,
    prefix: Seq<int>,
) -> bool {
    forall|j: int|
        0 <= j < deps[y].len() ==> (#[trigger] find_name(names, deps[y][j]) matches Some(i)
            && prefix.contains(i))
}

/// An order of selected modules: no repeats, and each module after its
/// dependencies.
pub open spec fn ordered_ok(
    names: Seq<Seq<char>>,
    deps: Seq<Seq<Seq<char>>>,
    ord: Seq<int>,
    sel: Set<int>,
) -> bool {
    &&& ord.no_duplicates()
    &&& forall|p: int|
        0 <= p < ord.len() ==> sel.contains(#[trigger] ord[p]) && 0 <= ord[p] < names.len()
            && deps_before(names, deps, ord[p], ord.take(p))
}

proof fn lemma_deps_in_mono(
    names: Seq<Seq<char>>,
    deps: Seq<Seq<Seq<char>>>,
    y: int,
    s: Set<int>,
    t: Set<int>,
)
    requires
        deps_in(names, deps, y, s),
        s.subset_of(t),
    ensures
        deps_in(names, deps, y, t),
{
    assert forall|j: int| 0 <= j < deps[y].len() implies (#[trigger] find_name(
        names,
        deps[y][j],
    ) matches Some(i) && t.contains(i)) by {
        if let Some(i) = find_name(names, deps[y][j]) {
            assert(s.contains(i));
        }
    }
}

proof fn lemma_include(
    names: Seq<Seq<char>>,
    deps: Seq<Seq<Seq<char>>>,
    x: int,
    stack: Seq<int>,
    sel: Set<int>,
)
    requires
        names.len() == deps.len(),
        0 <= x < names.len(),
        path_ok(stack, names.len() as int),
        good_set(names, deps, sel),
        include_spec(names, deps, x, stack, sel) is Ok,
    ensures
        good_set(names, deps, include_spec(names, deps, x, stack, sel)->Ok_0),
        sel.subset_of(include_spec(names, deps, x, stack, sel)->Ok_0),
        include_spec(names, deps, x, stack, sel)->Ok_0.contains(x),
    decreases names.len() - stack.len(), 0int,
{
    if stack.contains(x) {
    } else if sel.contains(x) {
    } else {
        lemma_path_bound(stack, x, names.len() as int);
        let st = stack.push(x);
        assert(path_ok(st, names.len() as int)) by {
            assert forall|i: int| 0 <= i < st.len() implies 0 <= #[trigger] st[i] < names.len() by {
                if i < stack.len() {
                    assert(st[i] == stack[i]);
                }
            }
            assert forall|a: int, b: int| 0 <= a < st.len() && 0 <= b < st.len() && a != b implies st[a]
                != st[b] by {
                if a == stack.len() {
                    assert(st[b] == stack[b]);
                    if stack[b] == x {
                        assert(stack.contains(x));
                    }
                } else if b == stack.len() {
                    assert(st[a] == stack[a]);
                    if stack[a] == x {
                        assert(stack.contains(x));
                    }
                } else {
                    assert(st[a] == stack[a] && st[b] == stack[b]);
                }
            }
        }
        lemma_include_deps(names, deps, x, 0, st, sel);
        let s1 = include_deps_spec(names, deps, x, 0, st, sel)->Ok_0;
        let s = s1.insert(x);
        assert(good_set(names, deps, s)) by {
            assert forall|y: int| #[trigger] s.contains(y) implies 0 <= y < names.len() && deps_in(
                names,
                deps,
                y,
                s,
            ) by {
                if y == x {
                    lemma_deps_in_mono(names, deps, x, s1, s);
                } else {
                    assert(s1.contains(y));
                    lemma_deps_in_mono(names, deps, y, s1, s);
                }
            }
        }
    }
}

proof fn lemma_include_deps(
    names: Seq<Seq<char>>,
    deps: Seq<Seq<Seq<char>>>,
    x: int,
    k: int,
    stack: Seq<int>,
    sel: Set<int>,
)
    requires
        names.len() == deps.len(),
        0 <= x < names.len(),
        0 <= k,
        path_ok(stack, names.len() as int),
        good_set(names, deps, sel),
        include_deps_spec(names, deps, x, k, stack, sel) is Ok,
    ensures
        good_set(names, deps, include_deps_spec(names, deps, x, k, stack, sel)->Ok_0),
        sel.subset_of(include_deps_spec(names, deps, x, k, stack, sel)->Ok_0),
        forall|j: int|
            k <= j < deps[x].len() ==> (#[trigger] find_name(names, deps[x][j]) matches Some(i)
                && include_deps_spec(names, deps, x, k, stack, sel)->Ok_0.contains(i)),
    decreases names.len() - stack.len(), deps[x].len() - k + 1,
{
    if k >= deps[x].len() {
    } else {
        let d = deps[x][k];
        lemma_find_name(names, d);
        if let Some(i) = find_name(names, d) {
            lemma_include(names, deps, i, stack, sel);
            let si = include_spec(names, deps, i, stack, sel)->Ok_0;
            lemma_include_deps(names, deps, x, k + 1, stack, si);
            let s = include_deps_spec(names, deps, x, k + 1, stack, si)->Ok_0;
            assert(include_deps_spec(names, deps, x, k, stack, sel)->Ok_0 == s);
            assert forall|j: int| k <= j < deps[x].len() implies (#[trigger] find_name(
                names,
                deps[x][j],
            ) matches Some(i2) && s.contains(i2)) by {
                if j == k {
                    assert(si.contains(i));
                }
            }
        }
    }
}

proof fn lemma_include_all(
    names: Seq<Seq<char>>,
    deps: Seq<Seq<Seq<char>>>,
    targets: Seq<Seq<char>>,
    k: int,
    sel: Set<int>,
)
    requires
        names.len() == deps.len(),
        0 <= k,
        good_set(names, deps, sel),
        include_all(names, deps, targets, k, sel) is Ok,
    ensures
        good_set(names, deps, include_all(names, deps, targets, k, sel)->Ok_0),
        sel.subset_of(include_all(names, deps, targets, k, sel)->Ok_0),
        forall|j: int|
            k <= j < targets.len() ==> (#[trigger] find_name(names, targets[j]) matches Some(i)
                && include_all(names, deps, targets, k, sel)->Ok_0.contains(i)),
    decreases targets.len() - k,
{
    if k >= targets.len() {
    } else {
        lemma_find_name(names, targets[k]);
        if let Some(i) = find_name(names, targets[k]) {
            assert(path_ok(Seq::<int>::empty(), names.len() as int));
            lemma_include(names, deps, i, Seq::<int>::empty(), sel);
            let si = include_spec(names, deps, i, Seq::<int>::empty(), sel)->Ok_0;
            lemma_include_all(names, deps, targets, k + 1, si);
            let s = include_all(names, deps, targets, k + 1, si)->Ok_0;
            assert forall|j: int| k <= j < targets.len() implies (#[trigger] find_name(
                names,
                targets[j],
            ) matches Some(i2) && s.contains(i2)) by {
                if j == k {
                    assert(si.contains(i));
                }
            }
        }
    }
}

proof fn lemma_path_push(path: Seq<int>, x: int, n: int)
    requires
        path_ok(path, n),
        0 <= x < n,
        !path.contains(x),
    ensures
        path_ok(path.push(x), n),
{
    let st = path.push(x);
    assert forall|i: int| 0 <= i < st.len() implies 0 <= #[trigger] st[i] < n by {
        if i < path.len() {
            assert(st[i] == path[i]);
        }
    }
    assert forall|a: int, b: int| 0 <= a < st.len() && 0 <= b < st.len() && a != b implies st[a]
        != st[b] by {
        if a == path.len() {
            assert(st[b] == path[b]);
            if path[b] == x {
                assert(path.contains(x));
            }
        } else if b == path.len() {
            assert(st[a] == path[a]);
            if path[a] == x {
                assert(path.contains(x));
            }
        } else {
            assert(st[a] == path[a] && st[b] == path[b]);
        }
    }
}

/// Appending a module whose dependencies all occur before it keeps an order
/// well formed.
proof fn lemma_ordered_push(
    names: Seq<Seq<char>>,
    deps: Seq<Seq<Seq<char>>>,
    ord: Seq<int>,
    sel: Set<int>,
    x: int,
)
    requires
        ordered_ok(names, deps, ord, sel),
        !ord.contains(x),
        sel.contains(x),
        0 <= x < names.len(),
        deps_before(names, deps, x, ord),
    ensures
        ordered_ok(names, deps, ord.push(x), sel),
        ord.push(x).to_set() == ord.to_set().insert(x),
{
    let o = ord.push(x);
    assert forall|a: int, b: int| 0 <= a < o.len() && 0 <= b < o.len() && a != b implies o[a]
        != o[b] by {
        if a == ord.len() {
            assert(o[b] == ord[b]);
            if ord[b] == x {
                assert(ord.contains(x));
            }
        } else if b == ord.len() {
            assert(o[a] == ord[a]);
            if ord[a] == x {
                assert(ord.contains(x));
            }
        } else {
            assert(o[a] == ord[a] && o[b] == ord[b]);
        }
    }
    assert forall|p: int| 0 <= p < o.len() implies sel.contains(#[trigger] o[p]) && 0 <= o[p]
        < names.len() && deps_before(names, deps, o[p], o.take(p)) by {
        if p < ord.len() {
            assert(o[p] == ord[p]);
            assert(o.take(p) =~= ord.take(p));
        } else {
            assert(o.take(p) =~= ord);
        }
    }
    ord.lemma_push_to_set_commute(x);
}

/// What a successful visit produces from a well-formed order.
proof fn lemma_visit(
    names: Seq<Seq<char>>,
    deps: Seq<Seq<Seq<char>>>,
    x: int,
    sel: Set<int>,
    temp: Seq<int>,
    perm: Set<int>,
    ord: Seq<int>,
)
    requires
        names.len() == deps.len(),
        good_set(names, deps, sel),
        sel.contains(x),
        path_ok(temp, names.len() as int),
        perm == ord.to_set(),
        ordered_ok(names, deps, ord, sel),
        visit_spec(names, deps, x, sel, temp, perm, ord) is Ok,
    ensures
        ({
            let (p, o) = visit_spec(names, deps, x, sel, temp, perm, ord)->Ok_0;
            &&& p == o.to_set()
            &&& ordered_ok(names, deps, o, sel)
            &&& p.contains(x)
            &&& o.len() >= ord.len()
            &&& o.take(ord.len() as int) == ord
            &&& forall|y: int| #[trigger] p.contains(y) && !perm.contains(y) ==> !temp.contains(y)
        }),
    decreases names.len() - temp.len(), 0int,
{
    if perm.contains(x) {
        assert(ord.take(ord.len() as int) =~= ord);
    } else if temp.contains(x) {
    } else {
        lemma_path_bound(temp, x, names.len() as int);
        lemma_path_push(temp, x, names.len() as int);
        let t2 = temp.push(x);
        lemma_visit_deps(names, deps, x, 0, sel, t2, perm, ord);
        let (p1, o1) = visit_deps_spec(names, deps, x, 0, sel, t2, perm, ord)->Ok_0;
        assert(deps_in(names, deps, x, sel));
        assert(!p1.contains(x)) by {
            if p1.contains(x) {
                assert(t2.contains(x)) by {
                    assert(t2[temp.len() as int] == x);
                }
            }
        }
        assert(!o1.contains(x));
        assert(deps_before(names, deps, x, o1)) by {
            assert forall|j: int| 0 <= j < deps[x].len() implies (#[trigger] find_name(
                names,
                deps[x][j],
            ) matches Some(i) && o1.contains(i)) by {
                if let Some(i) = find_name(names, deps[x][j]) {
                    assert(depends(names, deps, x, i));
                    assert(good_set(names, deps, sel));
                    assert(sel.contains(i));
                    assert(0 <= i < names.len());
                    assert(p1.contains(i));
                }
            }
        }
        lemma_ordered_push(names, deps, o1, sel, x);
        let o = o1.push(x);
        assert(o.take(ord.len() as int) =~= o1.take(ord.len() as int));
        assert forall|y: int| #[trigger] p1.insert(x).contains(y) && !perm.contains(y) implies !temp.contains(
            y,
        ) by {
            if y != x {
                assert(p1.contains(y));
                if temp.contains(y) {
                    let i = choose|i: int| 0 <= i < temp.len() && temp[i] == y;
                    assert(t2[i] == y);
                    assert(t2.contains(y));
                }
            }
        }
    }
}

proof fn lemma_visit_deps(
    names: Seq<Seq<char>>,
    deps: Seq<Seq<Seq<char>>>,
    x: int,
    k: int,
    sel: Set<int>,
    temp: Seq<int>,
    perm: Set<int>,
    ord: Seq<int>,
)
    requires
        names.len() == deps.len(),
        good_set(names, deps, sel),
        sel.contains(x),
        0 <= k,
        path_ok(temp, names.len() as int),
        perm == ord.to_set(),
        ordered_ok(names, deps, ord, sel),
        visit_deps_spec(names, deps, x, k, sel, temp, perm, ord) is Ok,
    ensures
        ({
            let (p, o) = visit_deps_spec(names, deps, x, k, sel, temp, perm, ord)->Ok_0;
            &&& p == o.to_set()
            &&& ordered_ok(names, deps, o, sel)
            &&& o.len() >= ord.len()
            &&& o.take(ord.len() as int) == ord
            &&& forall|y: int| #[trigger] p.contains(y) && !perm.contains(y) ==> !temp.contains(y)
            &&& forall|i: int|
                k <= i < names.len() && sel.contains(i) && #[trigger] depends(names, deps, x, i)
                    ==> p.contains(i)
        }),
    decreases names.len() - temp.len(), names.len() - k + 1,
{
    if k >= names.len() {
        assert(ord.take(ord.len() as int) =~= ord);
    } else if sel.contains(k) && depends(names, deps, x, k) {
        lemma_visit(names, deps, k, sel, temp, perm, ord);
        let (p1, o1) = visit_spec(names, deps, k, sel, temp, perm, ord)->Ok_0;
        lemma_visit_deps(names, deps, x, k + 1, sel, temp, p1, o1);
        let (p, o) = visit_deps_spec(names, deps, x, k + 1, sel, temp, p1, o1)->Ok_0;
        assert(o.take(ord.len() as int) =~= o.take(o1.len() as int).take(ord.len() as int));
        assert(p1.subset_of(p)) by {
            assert forall|y: int| p1.contains(y) implies p.contains(y) by {
                let q = choose|q: int| 0 <= q < o1.len() && o1[q] == y;
                assert(o.take(o1.len() as int)[q] == y);
                assert(o[q] == y);
            }
        }
        assert forall|y: int| #[trigger] p.contains(y) && !perm.contains(y) implies !temp.contains(y) by {
            if p1.contains(y) {
            } else {
            }
        }
        assert forall|i: int|
            k <= i < names.len() && sel.contains(i) && #[trigger] depends(names, deps, x, i)
                implies p.contains(i) by {
            if i == k {
                assert(p1.contains(k));
            }
        }
    } else {
        lemma_visit_deps(names, deps, x, k + 1, sel, temp, perm, ord);
    }
}

proof fn lemma_visit_all(
    names: Seq<Seq<char>>,
    deps: Seq<Seq<Seq<char>>>,
    sel: Set<int>,
    k: int,
    perm: Set<int>,
    ord: Seq<int>,
)
    requires
        names.len() == deps.len(),
        good_set(names, deps, sel),
        0 <= k,
        perm == ord.to_set(),
        ordered_ok(names, deps, ord, sel),
        visit_all(names, deps, sel, k, perm, ord) is Ok,
    ensures
        ({
            let (p, o) = visit_all(names, deps, sel, k, perm, ord)->Ok_0;
            &&& p == o.to_set()
            &&& ordered_ok(names, deps, o, sel)
            &&& perm.subset_of(p)
            &&& forall|y: int| #[trigger] sel.contains(y) && k <= y ==> p.contains(y)
        }),
    decreases names.len() - k,
{
    if k >= names.len() {
        assert forall|y: int| #[trigger] sel.contains(y) && k <= y implies perm.contains(y) by {
            assert(0 <= y < names.len());
        }
    } else if sel.contains(k) {
        assert(path_ok(Seq::<int>::empty(), names.len() as int));
        lemma_visit(names, deps, k, sel, Seq::<int>::empty(), perm, ord);
        let (p1, o1) = visit_spec(names, deps, k, sel, Seq::<int>::empty(), perm, ord)->Ok_0;
        assert(perm.subset_of(p1)) by {
            assert forall|y: int| perm.contains(y) implies p1.contains(y) by {
                let q = choose|q: int| 0 <= q < ord.len() && ord[q] == y;
                assert(o1.take(ord.len() as int)[q] == y);
                assert(o1[q] == y);
            }
        }
        lemma_visit_all(names, deps, sel, k + 1, p1, o1);
    } else {
        lemma_visit_all(names, deps, sel, k + 1, perm, ord);
    }
}

/// Each module of the order comes after every module it depends on, and each
/// of its dependencies names a module.
pub open spec fn dependencies_listed_before(
    names: Seq<Seq<char>>,
    deps: Seq<Seq<Seq<char>>>,
    ord: Seq<int>,
) -> bool {
    forall|p: int, j: int|
        0 <= p < ord.len() && 0 <= j < deps[ord[p]].len() ==> #[trigger] listed_before(
            names,
            deps,
            ord,
            p,
            j,
        )
}

/// The `j`-th dependency of the module at position `p` is the module at some
/// earlier position.
pub open spec fn listed_before(
    names: Seq<Seq<char>>,
    deps: Seq<Seq<Seq<char>>>,
    ord: Seq<int>,
    p: int,
    j: int,
) -> bool {
    exists|q: int| 0 <= q < p && names[ord[q]] == deps[ord[p]][j]
}

/// The order of a successful resolution.
pub open spec fn resolved(names: Seq<Seq<char>>, deps: Seq<Seq<Seq<char>>>, requested: Seq<Seq<char>>) -> Seq<int> {
    resolve_spec(names, deps, requested)->Ok_0
}

/// Law: a successful resolution lists each module once; it lists every
/// requested module (every module when none is requested); and it lists each
/// module after all the modules it depends on, each of which is a known
/// module. In particular no module it lists depends on itself, directly or
/// through others.
pub proof fn lemma_resolve_order(
    names: Seq<Seq<char>>,
    deps: Seq<Seq<Seq<char>>>,
    requested: Seq<Seq<char>>,
)
    requires
        names.len() == deps.len(),
        resolve_spec(names, deps, requested) is Ok,
    ensures
        resolved(names, deps, requested).no_duplicates(),
        forall|p: int|
            0 <= p < resolved(names, deps, requested).len() ==> 0 <= #[trigger] resolved(
                names,
                deps,
                requested,
            )[p] < names.len(),
        forall|t: int|
            0 <= t < targets_of(names, requested).len() ==> exists|p: int|
                0 <= p < resolved(names, deps, requested).len() && names[#[trigger] resolved(
                    names,
                    deps,
                    requested,
                )[p]] == #[trigger] targets_of(names, requested)[t],
        dependencies_listed_before(names, deps, resolved(names, deps, requested)),
{
    let targets = targets_of(names, requested);
    let empty = Set::<int>::empty();
    assert(good_set(names, deps, empty));
    lemma_include_all(names, deps, targets, 0, empty);
    let sel = include_all(names, deps, targets, 0, empty)->Ok_0;
    let e0 = Seq::<int>::empty();
    assert(e0.to_set() =~= empty);
    assert(ordered_ok(names, deps, e0, sel));
    lemma_visit_all(names, deps, sel, 0, empty, e0);
    let (p, ord) = visit_all(names, deps, sel, 0, empty, e0)->Ok_0;
    assert(ord == resolved(names, deps, requested));
    assert forall|t: int| 0 <= t < targets.len() implies exists|q: int|
        0 <= q < ord.len() && names[#[trigger] ord[q]] == #[trigger] targets[t] by {
        lemma_find_name(names, targets[t]);
        let i = find_name(names, targets[t])->0;
        assert(sel.contains(i));
        assert(p.contains(i));
        let q = choose|q: int| 0 <= q < ord.len() && ord[q] == i;
        assert(names[ord[q]] == targets[t]);
    }
    let r = resolved(names, deps, requested);
    assert forall|a: int, j: int| 0 <= a < r.len() && 0 <= j < deps[r[a]].len() implies #[trigger] listed_before(
        names,
        deps,
        r,
        a,
        j,
    ) by {
        assert(deps_before(names, deps, r[a], r.take(a)));
        let d = deps[r[a]][j];
        assert(find_name(names, d) is Some);
        let i = find_name(names, d)->0;
        lemma_find_name(names, d);
        assert(r.take(a).contains(i));
        let q = choose|q: int| 0 <= q < r.take(a).len() && r.take(a)[q] == i;
        assert(r[q] == i);
        assert(names[r[q]] == deps[r[a]][j]);
    }
    assert(dependencies_listed_before(names, deps, r));
    assert(ord.no_duplicates());
    assert forall|a: int| 0 <= a < ord.len() implies 0 <= #[trigger] ord[a] < names.len() by {}
}

/// Some module of `s` depends on module `y`.
pub open spec fn needed_by(names: Seq<Seq<char>>, deps: Seq<Seq<Seq<char>>>, s: Set<int>, y: int) -> bool {
    exists|z: int| #![trigger depends(names, deps, z, y)] s.contains(z) && depends(names, deps, z, y)
}

proof fn lemma_needed_by_mono(
    names: Seq<Seq<char>>,
    deps: Seq<Seq<Seq<char>>>,
    s: Set<int>,
    t: Set<int>,
    y: int,
)
    requires
        needed_by(names, deps, s, y),
        s.subset_of(t),
    ensures
        needed_by(names, deps, t, y),
{
    let z = choose|z: int| #![trigger depends(names, deps, z, y)] s.contains(z) && depends(names, deps, z, y);
    assert(t.contains(z));
}

proof fn lemma_include_justified(
    names: Seq<Seq<char>>,
    deps: Seq<Seq<Seq<char>>>,
    x: int,
    stack: Seq<int>,
    sel: Set<int>,
)
    requires
        names.len() == deps.len(),
        0 <= x < names.len(),
        include_spec(names, deps, x, stack, sel) is Ok,
    ensures
        ({
            let r = include_spec(names, deps, x, stack, sel)->Ok_0;
            &&& sel.subset_of(r)
            &&& forall|y: int| #[trigger] r.contains(y) && !sel.contains(y) ==> y == x
                || needed_by(names, deps, r, y)
        }),
    decreases names.len() - stack.len(), 0int,
{
    if stack.contains(x) {
    } else if sel.contains(x) {
    } else if stack.len() >= names.len() {
    } else {
        lemma_include_deps_justified(names, deps, x, 0, stack.push(x), sel);
        let r0 = include_deps_spec(names, deps, x, 0, stack.push(x), sel)->Ok_0;
        let r = r0.insert(x);
        assert forall|y: int| #[trigger] r.contains(y) && !sel.contains(y) implies y == x
            || needed_by(names, deps, r, y) by {
            if y != x {
                assert(r0.contains(y));
                assert(needed_by(names, deps, r0.insert(x), y));
            }
        }
    }
}

proof fn lemma_include_deps_justified(
    names: Seq<Seq<char>>,
    deps: Seq<Seq<Seq<char>>>,
    x: int,
    k: int,
    stack: Seq<int>,
    sel: Set<int>,
)
    requires
        names.len() == deps.len(),
        0 <= x < names.len(),
        include_deps_spec(names, deps, x, k, stack, sel) is Ok,
    ensures
        ({
            let r = include_deps_spec(names, deps, x, k, stack, sel)->Ok_0;
            &&& sel.subset_of(r)
            &&& forall|y: int| #[trigger] r.contains(y) && !sel.contains(y) ==> needed_by(
                names,
                deps,
                r.insert(x),
                y,
            )
        }),
    decreases names.len() - stack.len(), deps[x].len() - k + 1,
{
    if k < 0 || k >= deps[x].len() {
    } else {
        let d = deps[x][k];
        lemma_find_name(names, d);
        let i = find_name(names, d)->0;
        lemma_include_justified(names, deps, i, stack, sel);
        let s1 = include_spec(names, deps, i, stack, sel)->Ok_0;
        lemma_include_deps_justified(names, deps, x, k + 1, stack, s1);
        let r = include_deps_spec(names, deps, x, k + 1, stack, s1)->Ok_0;
        assert(depends(names, deps, x, i));
        assert forall|y: int| #[trigger] r.contains(y) && !sel.contains(y) implies needed_by(
            names,
            deps,
            r.insert(x),
            y,
        ) by {
            if !s1.contains(y) {
            } else if y == i {
                assert(r.insert(x).contains(x));
            } else {
                lemma_needed_by_mono(names, deps, s1, r.insert(x), y);
            }
        }
    }
}

proof fn lemma_include_all_justified(
    names: Seq<Seq<char>>,
    deps: Seq<Seq<Seq<char>>>,
    targets: Seq<Seq<char>>,
    k: int,
    sel: Set<int>,
)
    requires
        names.len() == deps.len(),
        include_all(names, deps, targets, k, sel) is Ok,
    ensures
        ({
            let r = include_all(names, deps, targets, k, sel)->Ok_0;
            &&& sel.subset_of(r)
            &&& forall|y: int| #[trigger] r.contains(y) && !sel.contains(y) ==> targets.contains(
                names[y],
            ) || needed_by(names, deps, r, y)
        }),
    decreases targets.len() - k,
{
    if k < 0 || k >= targets.len() {
    } else {
        lemma_find_name(names, targets[k]);
        let i = find_name(names, targets[k])->0;
        lemma_include_justified(names, deps, i, Seq::<int>::empty(), sel);
        let s1 = include_spec(names, deps, i, Seq::<int>::empty(), sel)->Ok_0;
        lemma_include_all_justified(names, deps, targets, k + 1, s1);
        let r = include_all(names, deps, targets, k + 1, s1)->Ok_0;
        assert forall|y: int| #[trigger] r.contains(y) && !sel.contains(y) implies targets.contains(
            names[y],
        ) || needed_by(names, deps, r, y) by {
            if !s1.contains(y) {
            } else if y == i {
                assert(targets[k] == names[y]);
            } else {
                lemma_needed_by_mono(names, deps, s1, r, y);
            }
        }
    }
}

/// Law: a successful resolution lists nothing more than it needs: each
/// module it lists is requested (or, when none is requested, any module), or
/// is a dependency of a module it lists.
pub proof fn lemma_resolve_needed_only(
    names: Seq<Seq<char>>,
    deps: Seq<Seq<Seq<char>>>,
    requested: Seq<Seq<char>>,
)
    requires
        names.len() == deps.len(),
        resolve_spec(names, deps, requested) is Ok,
    ensures
        forall|p: int|
            0 <= p < resolved(names, deps, requested).len() ==> targets_of(names, requested).contains(
                names[#[trigger] resolved(names, deps, requested)[p]],
            ) || exists|q: int|
                0 <= q < resolved(names, deps, requested).len() && depends(
                    names,
                    deps,
                    resolved(names, deps, requested)[q],
                    resolved(names, deps, requested)[p],
                ),
{
    let targets = targets_of(names, requested);
    let empty = Set::<int>::empty();
    assert(good_set(names, deps, empty));
    lemma_include_all(names, deps, targets, 0, empty);
    lemma_include_all_justified(names, deps, targets, 0, empty);
    let sel = include_all(names, deps, targets, 0, empty)->Ok_0;
    let e0 = Seq::<int>::empty();
    assert(e0.to_set() =~= empty);
    assert(ordered_ok(names, deps, e0, sel));
    lemma_visit_all(names, deps, sel, 0, empty, e0);
    let (pm, ord) = visit_all(names, deps, sel, 0, empty, e0)->Ok_0;
    assert(ord == resolved(names, deps, requested));
    assert forall|p: int| 0 <= p < ord.len() implies targets.contains(names[#[trigger] ord[p]])
        || exists|q: int| 0 <= q < ord.len() && depends(names, deps, ord[q], ord[p]) by {
        let y = ord[p];
        assert(sel.contains(y));
        if !targets.contains(names[y]) {
            let z = choose|z: int| #![trigger depends(names, deps, z, y)] sel.contains(z) && depends(
                names,
                deps,
                z,
                y,
            );
            assert(good_set(names, deps, sel));
            assert(0 <= z < names.len());
            assert(pm.contains(z));
            assert(ord.to_set().contains(z));
            let q = choose|q: int| 0 <= q < ord.len() && ord[q] == z;
            assert(depends(names, deps, ord[q], ord[p]));
        }
    }
}

/// No target is unknown exactly when every target names a module.
proof fn lemma_first_unknown_none(names: Seq<Seq<char>>, targets: Seq<Seq<char>>)
    ensures
        first_unknown(names, targets) is None <==> forall|j: int|
            0 <= j < targets.len() ==> #[trigger] find_name(names, targets[j]) is Some,
    decreases targets.len(),
{
    if targets.len() > 0 {
        let front = targets.drop_last();
        lemma_first_unknown_none(names, front);
        assert forall|j: int| 0 <= j < front.len() implies front[j] == targets[j] by {}
        if first_unknown(names, targets) is None {
            assert forall|j: int| 0 <= j < targets.len() implies #[trigger] find_name(
                names,
                targets[j],
            ) is Some by {
                if j < front.len() {
                    assert(find_name(names, front[j]) is Some);
                }
            }
        } else if forall|j: int|
            0 <= j < targets.len() ==> #[trigger] find_name(names, targets[j]) is Some {
            assert forall|j: int| 0 <= j < front.len() implies #[trigger] find_name(
                names,
                front[j],
            ) is Some by {
                assert(find_name(names, targets[j]) is Some);
            }
            assert(find_name(names, targets[targets.len() - 1]) is Some);
        }
    }
}

/// Selecting from `sel` inside a set closed under dependencies that holds
/// `x` stays inside that set.
proof fn lemma_include_within(
    names: Seq<Seq<char>>,
    deps: Seq<Seq<Seq<char>>>,
    x: int,
    stack: Seq<int>,
    sel: Set<int>,
    t: Set<int>,
)
    requires
        names.len() == deps.len(),
        0 <= x < names.len(),
        good_set(names, deps, t),
        t.contains(x),
        sel.subset_of(t),
        include_spec(names, deps, x, stack, sel) is Ok,
    ensures
        include_spec(names, deps, x, stack, sel)->Ok_0.subset_of(t),
    decreases names.len() - stack.len(), 0int,
{
    if stack.contains(x) {
    } else if sel.contains(x) {
    } else if stack.len() >= names.len() {
    } else {
        lemma_include_deps_within(names, deps, x, 0, stack.push(x), sel, t);
    }
}

proof fn lemma_include_deps_within(
    names: Seq<Seq<char>>,
    deps: Seq<Seq<Seq<char>>>,
    x: int,
    k: int,
    stack: Seq<int>,
    sel: Set<int>,
    t: Set<int>,
)
    requires
        names.len() == deps.len(),
        0 <= x < names.len(),
        good_set(names, deps, t),
        t.contains(x),
        sel.subset_of(t),
        include_deps_spec(names, deps, x, k, stack, sel) is Ok,
    ensures
        include_deps_spec(names, deps, x, k, stack, sel)->Ok_0.subset_of(t),
    decreases names.len() - stack.len(), deps[x].len() - k + 1,
{
    if k < 0 || k >= deps[x].len() {
    } else {
        let d = deps[x][k];
        lemma_find_name(names, d);
        let i = find_name(names, d)->0;
        assert(deps_in(names, deps, x, t));
        assert(find_name(names, deps[x][k]) matches Some(i2) && t.contains(i2));
        lemma_include_within(names, deps, i, stack, sel, t);
        let s1 = include_spec(names, deps, i, stack, sel)->Ok_0;
        lemma_include_deps_within(names, deps, x, k + 1, stack, s1, t);
    }
}

proof fn lemma_include_all_within(
    names: Seq<Seq<char>>,
    deps: Seq<Seq<Seq<char>>>,
    targets: Seq<Seq<char>>,
    k: int,
    sel: Set<int>,
    t: Set<int>,
)
    requires
        names.len() == deps.len(),
        good_set(names, deps, t),
        sel.subset_of(t),
        forall|j: int|
            k <= j < targets.len() ==> (#[trigger] find_name(names, targets[j]) matches Some(i)
                ==> t.contains(i)),
        include_all(names, deps, targets, k, sel) is Ok,
    ensures
        include_all(names, deps, targets, k, sel)->Ok_0.subset_of(t),
    decreases targets.len() - k,
{
    if k < 0 || k >= targets.len() {
    } else {
        lemma_find_name(names, targets[k]);
        let i = find_name(names, targets[k])->0;
        lemma_include_within(names, deps, i, Seq::<int>::empty(), sel, t);
        let s1 = include_spec(names, deps, i, Seq::<int>::empty(), sel)->Ok_0;
        lemma_include_all_within(names, deps, targets, k + 1, s1, t);
    }
}

/// Selecting module `ord[p]` of an order in which every module comes after
/// its dependencies succeeds when no module being added comes at or before
/// it: no cycle is met and every dependency is known.
proof fn lemma_include_ok(
    names: Seq<Seq<char>>,
    deps: Seq<Seq<Seq<char>>>,
    ord: Seq<int>,
    all: Set<int>,
    p: int,
    stack: Seq<int>,
    sel: Set<int>,
)
    requires
        names.len() == deps.len(),
        ordered_ok(names, deps, ord, all),
        0 <= p < ord.len(),
        forall|s: int| #[trigger] stack.contains(s) ==> !ord.take(p + 1).contains(s),
    ensures
        include_spec(names, deps, ord[p], stack, sel) is Ok,
    decreases names.len() - stack.len(), 0int,
{
    let x = ord[p];
    assert(ord.take(p + 1)[p] == x);
    assert(!stack.contains(x));
    if sel.contains(x) {
    } else if stack.len() >= names.len() {
    } else {
        let st = stack.push(x);
        assert forall|s: int| #[trigger] st.contains(s) implies !ord.take(p).contains(s) by {
            if s == x {
                if ord.take(p).contains(x) {
                    let q = choose|q: int| 0 <= q < p && ord.take(p)[q] == x;
                    assert(ord[q] == ord[p]);
                }
            } else {
                let a = choose|a: int| 0 <= a < st.len() && st[a] == s;
                assert(stack[a] == s);
                assert(stack.contains(s));
                if ord.take(p).contains(s) {
                    let q = choose|q: int| 0 <= q < p && ord.take(p)[q] == s;
                    assert(ord.take(p + 1)[q] == s);
                }
            }
        }
        lemma_include_deps_ok(names, deps, ord, all, p, 0, st, sel);
    }
}

proof fn lemma_include_deps_ok(
    names: Seq<Seq<char>>,
    deps: Seq<Seq<Seq<char>>>,
    ord: Seq<int>,
    all: Set<int>,
    p: int,
    k: int,
    stack: Seq<int>,
    sel: Set<int>,
)
    requires
        names.len() == deps.len(),
        ordered_ok(names, deps, ord, all),
        0 <= p < ord.len(),
        forall|s: int| #[trigger] stack.contains(s) ==> !ord.take(p).contains(s),
    ensures
        include_deps_spec(names, deps, ord[p], k, stack, sel) is Ok,
    decreases names.len() - stack.len(), deps[ord[p]].len() - k + 1,
{
    let x = ord[p];
    if k < 0 || k >= deps[x].len() {
    } else {
        assert(deps_before(names, deps, x, ord.take(p)));
        assert(find_name(names, deps[x][k]) matches Some(i) && ord.take(p).contains(i));
        let i = find_name(names, deps[x][k])->0;
        let q = choose|q: int| 0 <= q < p && ord.take(p)[q] == i;
        assert(ord[q] == i);
        assert forall|s: int| #[trigger] stack.contains(s) implies !ord.take(q + 1).contains(s) by {
            if ord.take(q + 1).contains(s) {
                let a = choose|a: int| 0 <= a < q + 1 && #[trigger] ord.take(q + 1)[a] == s;
                assert(ord.take(p)[a] == s);
            }
        }
        lemma_include_ok(names, deps, ord, all, q, stack, sel);
        let s1 = include_spec(names, deps, i, stack, sel)->Ok_0;
        lemma_include_deps_ok(names, deps, ord, all, p, k + 1, stack, s1);
    }
}

/// Selecting the targets from the `k`-th on succeeds when each names a
/// module of an order in which every module comes after its dependencies.
proof fn lemma_include_all_ok(
    names: Seq<Seq<char>>,
    deps: Seq<Seq<Seq<char>>>,
    ord: Seq<int>,
    all: Set<int>,
    targets: Seq<Seq<char>>,
    k: int,
    sel: Set<int>,
)
    requires
        names.len() == deps.len(),
        ordered_ok(names, deps, ord, all),
        forall|j: int|
            k <= j < targets.len() ==> (#[trigger] find_name(names, targets[j]) matches Some(i)
                && ord.contains(i)),
    ensures
        include_all(names, deps, targets, k, sel) is Ok,
    decreases targets.len() - k,
{
    if k < 0 || k >= targets.len() {
    } else {
        assert(find_name(names, targets[k]) matches Some(i) && ord.contains(i));
        let i = find_name(names, targets[k])->0;
        let p = choose|p: int| 0 <= p < ord.len() && ord[p] == i;
        lemma_include_ok(names, deps, ord, all, p, Seq::<int>::empty(), sel);
        let s1 = include_spec(names, deps, i, Seq::<int>::empty(), sel)->Ok_0;
        lemma_include_all_ok(names, deps, ord, all, targets, k + 1, s1);
    }
}

/// When the first request resolves, a request of the same names resolves
/// to the same order.
proof fn lemma_resolve_same_targets_from(
    names: Seq<Seq<char>>,
    deps: Seq<Seq<Seq<char>>>,
    r1: Seq<Seq<char>>,
    r2: Seq<Seq<char>>,
)
    requires
        names.len() == deps.len(),
        targets_of(names, r1).to_set() == targets_of(names, r2).to_set(),
        resolve_spec(names, deps, r1) is Ok,
    ensures
        resolve_spec(names, deps, r2) == resolve_spec(names, deps, r1),
{
    let t1 = targets_of(names, r1);
    let t2 = targets_of(names, r2);
    let empty = Set::<int>::empty();
    lemma_first_unknown_none(names, t1);
    lemma_first_unknown_none(names, t2);
    assert forall|j: int| 0 <= j < t2.len() implies exists|j1: int|
        0 <= j1 < t1.len() && t1[j1] == #[trigger] t2[j] by {
        assert(t2.to_set().contains(t2[j]));
        assert(t1.to_set().contains(t2[j]));
    }
    assert forall|j: int| 0 <= j < t1.len() implies exists|j2: int|
        0 <= j2 < t2.len() && t2[j2] == #[trigger] t1[j] by {
        assert(t1.to_set().contains(t1[j]));
        assert(t2.to_set().contains(t1[j]));
    }
    assert forall|j: int| 0 <= j < t2.len() implies #[trigger] find_name(names, t2[j]) is Some by {
        let j1 = choose|j1: int| 0 <= j1 < t1.len() && t1[j1] == t2[j];
        assert(find_name(names, t1[j1]) is Some);
    }
    assert(first_unknown(names, t2) is None);
    assert(good_set(names, deps, empty));
    lemma_include_all(names, deps, t1, 0, empty);
    let s1 = include_all(names, deps, t1, 0, empty)->Ok_0;
    let e0 = Seq::<int>::empty();
    assert(e0.to_set() =~= empty);
    assert(ordered_ok(names, deps, e0, s1));
    lemma_visit_all(names, deps, s1, 0, empty, e0);
    let (pm, ord) = visit_all(names, deps, s1, 0, empty, e0)->Ok_0;
    assert forall|j: int| 0 <= j < t2.len() implies (#[trigger] find_name(names, t2[j]) matches Some(
        i,
    ) && ord.contains(i) && s1.contains(i)) by {
        let j1 = choose|j1: int| 0 <= j1 < t1.len() && t1[j1] == t2[j];
        assert(find_name(names, t1[j1]) matches Some(i) && s1.contains(i));
        let i = find_name(names, t1[j1])->0;
        assert(pm.contains(i));
    }
    lemma_include_all_ok(names, deps, ord, s1, t2, 0, empty);
    lemma_include_all(names, deps, t2, 0, empty);
    let s2 = include_all(names, deps, t2, 0, empty)->Ok_0;
    lemma_include_all_within(names, deps, t2, 0, empty, s1);
    assert forall|j: int| 0 <= j < t1.len() implies (#[trigger] find_name(names, t1[j]) matches Some(
        i,
    ) ==> s2.contains(i)) by {
        let j2 = choose|j2: int| 0 <= j2 < t2.len() && t2[j2] == t1[j];
        assert(find_name(names, t2[j2]) matches Some(i) && s2.contains(i));
    }
    lemma_include_all_within(names, deps, t1, 0, empty, s2);
    assert(s1 =~= s2);
}

/// Law: the order in which modules are requested, and repeated requests, do
/// not change a resolution: two requests that name the same modules either
/// both fail or both give the same order. Requesting every module by name
/// gives what requesting none gives.
pub proof fn lemma_resolve_same_targets(
    names: Seq<Seq<char>>,
    deps: Seq<Seq<Seq<char>>>,
    r1: Seq<Seq<char>>,
    r2: Seq<Seq<char>>,
)
    requires
        names.len() == deps.len(),
        targets_of(names, r1).to_set() == targets_of(names, r2).to_set(),
    ensures
        resolve_spec(names, deps, r1) is Ok <==> resolve_spec(names, deps, r2) is Ok,
        resolve_spec(names, deps, r1) is Ok ==> resolve_spec(names, deps, r1) == resolve_spec(
            names,
            deps,
            r2,
        ),
{
    if resolve_spec(names, deps, r1) is Ok {
        lemma_resolve_same_targets_from(names, deps, r1, r2);
    } else if resolve_spec(names, deps, r2) is Ok {
        lemma_resolve_same_targets_from(names, deps, r2, r1);
    }
}

} // verus!
