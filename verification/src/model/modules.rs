//! The modules of an environment, and which of them a run processes in which
//! order.
use vstd::prelude::*;

use crate::error::{MoiError, MoiErrorView};
use crate::model::module::Module;
use crate::text::{strings_view, text_lt};

verus! {

/// The modules of an environment, kept in the order of their names, at most
/// one per name.
#[derive(Debug)]
pub struct ModuleSet {
    modules: Vec<Module>,
}

/// The names of a sequence of modules.
pub open spec fn module_names(ms: Seq<Module>) -> Seq<Seq<char>> {
    ms.map_values(|m: Module| m@.name)
}

/// The dependency lists of a sequence of modules.
pub open spec fn module_deps(ms: Seq<Module>) -> Seq<Seq<Seq<char>>> {
    ms.map_values(|m: Module| m@.depends_on)
}

/// The names are strictly increasing.
pub open spec fn strictly_sorted(names: Seq<Seq<char>>) -> bool {
    forall|i: int, j: int| 0 <= i < j < names.len() ==> text_lt(names[i], names[j])
}

/// The index of the first name equal to `name`, if any.
pub open spec fn find_name(names: Seq<Seq<char>>, name: Seq<char>) -> Option<int>
    decreases names.len(),
{
    if names.len() == 0 {
        None
    } else {
        match find_name(names.drop_last(), name) {
            Some(k) => Some(k),
            None => if names.last() == name {
                Some(names.len() - 1)
            } else {
                None
            },
        }
    }
}

/// A found name is at its index, and a name is found when present.
pub proof fn lemma_find_name(names: Seq<Seq<char>>, name: Seq<char>)
    ensures
        find_name(names, name) matches Some(k) ==> 0 <= k < names.len() && names[k] == name && (
        forall|j: int| 0 <= j < k ==> names[j] != name),
        find_name(names, name) is None ==> forall|j: int| 0 <= j < names.len() ==> names[j] != name,
    decreases names.len(),
{
    if names.len() > 0 {
        lemma_find_name(names.drop_last(), name);
        assert forall|j: int| 0 <= j < names.len() - 1 implies names.drop_last()[j] == names[j] by {}
    }
}

impl ModuleSet {
    #[verifier::type_invariant]
    spec fn sorted(self) -> bool {
        strictly_sorted(module_names(self.modules@))
    }

    /// The modules, in the order of their names.
    pub closed spec fn spec_modules(self) -> Seq<Module> {
        self.modules@
    }

    /// The module of a name, if there is one.
    pub open spec fn lookup(self, name: Seq<char>) -> Option<Module> {
        lookup_in(self.spec_modules(), name)
    }

    /// No modules.
    pub fn new() -> (s: ModuleSet)
        ensures
            s.spec_modules().len() == 0,
    {
        ModuleSet { modules: Vec::new() }
    }

    /// The number of modules.
    pub fn len(&self) -> (n: usize)
        ensures
            n == self.spec_modules().len(),
    {
        self.modules.len()
    }

    /// The modules, in the order of their names.
    pub fn modules(&self) -> (v: &Vec<Module>)
        ensures
            v@ == self.spec_modules(),
            strictly_sorted(module_names(v@)),
    {
        proof {
            use_type_invariant(self);
        }
        &self.modules
    }

    /// The index of the module with this name, if any.
    pub fn find(&self, name: &str) -> (r: Option<usize>)
        ensures
            r matches Some(k) ==> k < self.spec_modules().len() && find_name(
                module_names(self.spec_modules()),
                name@,
            ) == Some(k as int),
            r is None ==> find_name(module_names(self.spec_modules()), name@) is None,
    {
        find_index(&self.modules, name)
    }

    /// The module with this name, if any.
    pub fn get(&self, name: &str) -> (r: Option<&Module>)
        ensures
            match self.lookup(name@) {
                Some(m) => r == Some(&m),
                None => r is None,
            },
    {
        match self.find(name) {
            Some(k) => {
                proof {
                    lemma_find_name(module_names(self.spec_modules()), name@);
                    assert(find_name(module_names(self.spec_modules()), name@) == Some(k as int));
                    assert(self.lookup(name@) == Some(self.modules@[k as int]));
                }
                let m = &self.modules[k];
                assert(*m == self.modules@[k as int]);
                Some(m)
            },
            None => None,
        }
    }

    /// Whether a module has this name.
    pub fn contains_key(&self, name: &str) -> (r: bool)
        ensures
            r == self.lookup(name@) is Some,
    {
        self.find(name).is_some()
    }

    /// Adds a module, replacing one of the same name; the names stay in order.
    pub fn insert(&mut self, module: Module)
        ensures
            forall|name: Seq<char>| #[trigger]
                final(self).lookup(name) == if name == module@.name {
                    Some(module)
                } else {
                    old(self).lookup(name)
                },
    {
        proof {
            use_type_invariant(&*self);
        }
        let ghost names0 = module_names(self.modules@);
        let ghost m0 = self.modules@;
        let n = self.modules.len();
        let mut i: usize = 0;
        while i < n && crate::text::str_lt(self.modules[i].name().as_str(), module.name().as_str())
            invariant
                n == self.modules.len(),
                self.modules@ == m0,
                names0 == module_names(m0),
                strictly_sorted(names0),
                i <= n,
                forall|j: int| 0 <= j < i ==> text_lt(#[trigger] names0[j], module@.name),
            decreases n - i,
        {
            i += 1;
        }
        let replace = i < n && crate::text::str_eq(
            self.modules[i].name().as_str(),
            module.name().as_str(),
        );
        let ghost mname = module@.name;
        if replace {
            proof {
                lemma_replace_lookup(m0, i as int, module);
            }
            let mut modules: Vec<Module> = Vec::new();
            std::mem::swap(&mut modules, &mut self.modules);
            modules.set(i, module);
            self.modules = modules;
        } else {
            proof {
                assert forall|j: int| i <= j < names0.len() implies text_lt(
                    mname,
                    #[trigger] names0[j],
                ) by {
                    crate::text::lemma_text_lt_total(names0[i as int], mname);
                    if j > i {
                        crate::text::lemma_text_lt_transitive(mname, names0[i as int], names0[j]);
                    }
                }
                lemma_insert_lookup(m0, i as int, module);
            }
            let mut modules: Vec<Module> = Vec::new();
            std::mem::swap(&mut modules, &mut self.modules);
            modules.insert(i, module);
            self.modules = modules;
        }
    }
}

/// The module of a name in a sequence of modules, if there is one.
pub open spec fn lookup_in(ms: Seq<Module>, name: Seq<char>) -> Option<Module> {
    match find_name(module_names(ms), name) {
        Some(k) => Some(ms[k]),
        None => None,
    }
}

/// In sorted names, a name is found exactly at the index that holds it.
proof fn lemma_find_sorted(names: Seq<Seq<char>>, name: Seq<char>, k: int)
    requires
        strictly_sorted(names),
        0 <= k < names.len(),
        names[k] == name,
    ensures
        find_name(names, name) == Some(k),
{
    lemma_find_name(names, name);
    if let Some(j) = find_name(names, name) {
        if j < k {
            crate::text::lemma_text_lt_irreflexive(name);
        }
    }
}

proof fn lemma_replace_lookup(m0: Seq<Module>, i: int, module: Module)
    requires
        strictly_sorted(module_names(m0)),
        0 <= i < m0.len(),
        m0[i]@.name == module@.name,
    ensures
        strictly_sorted(module_names(m0.update(i, module))),
        forall|name: Seq<char>| #[trigger]
            lookup_in(m0.update(i, module), name) == if name == module@.name {
                Some(module)
            } else {
                lookup_in(m0, name)
            },
{
    let m1 = m0.update(i, module);
    assert(module_names(m1) =~= module_names(m0));
    assert forall|name: Seq<char>| #[trigger]
        lookup_in(m1, name) == if name == module@.name {
            Some(module)
        } else {
            lookup_in(m0, name)
        } by {
        lemma_find_name(module_names(m0), name);
        if name == module@.name {
            lemma_find_sorted(module_names(m0), name, i);
        }
    }
}

proof fn lemma_insert_lookup(m0: Seq<Module>, i: int, module: Module)
    requires
        strictly_sorted(module_names(m0)),
        0 <= i <= m0.len(),
        forall|j: int| 0 <= j < i ==> text_lt(#[trigger] module_names(m0)[j], module@.name),
        forall|j: int| i <= j < m0.len() ==> text_lt(module@.name, #[trigger] module_names(m0)[j]),
    ensures
        strictly_sorted(module_names(m0.insert(i, module))),
        forall|name: Seq<char>| #[trigger]
            lookup_in(m0.insert(i, module), name) == if name == module@.name {
                Some(module)
            } else {
                lookup_in(m0, name)
            },
{
    let names0 = module_names(m0);
    let m1 = m0.insert(i, module);
    let names1 = module_names(m1);
    let mname = module@.name;
    assert(names1 =~= names0.insert(i, mname));
    assert forall|a: int, b: int| 0 <= a < b < names1.len() implies text_lt(names1[a], names1[b]) by {
        if b < i {
        } else if a < i && b == i {
        } else if a < i && b > i {
            assert(names1[b] == names0[b - 1]);
            crate::text::lemma_text_lt_transitive(names0[a], mname, names0[b - 1]);
        } else if a == i {
            assert(names1[b] == names0[b - 1]);
        } else {
            assert(names1[a] == names0[a - 1]);
            assert(names1[b] == names0[b - 1]);
        }
    }
    assert forall|name: Seq<char>| #[trigger]
        lookup_in(m1, name) == if name == mname {
            Some(module)
        } else {
            lookup_in(m0, name)
        } by {
        lemma_find_name(names0, name);
        lemma_find_name(names1, name);
        if name == mname {
            lemma_find_sorted(names1, name, i);
        } else {
            match find_name(names0, name) {
                Some(k) => {
                    if k < i {
                        assert(names1[k] == names0[k]);
                        lemma_find_sorted(names1, name, k);
                    } else {
                        assert(names1[k + 1] == names0[k]);
                        lemma_find_sorted(names1, name, k + 1);
                        assert(m1[k + 1] == m0[k]);
                    }
                },
                None => {
                    if let Some(k) = find_name(names1, name) {
                        if k < i {
                            assert(names1[k] == names0[k]);
                        } else if k > i {
                            assert(names1[k] == names0[k - 1]);
                        }
                    }
                },
            }
        }
    }
}

/// The index of the module with this name, if any.
fn find_index(modules: &Vec<Module>, name: &str) -> (r: Option<usize>)
    ensures
        r matches Some(k) ==> k < modules.len() && find_name(module_names(modules@), name@) == Some(
            k as int,
        ),
        r is None ==> find_name(module_names(modules@), name@) is None,
{
    let ghost names = module_names(modules@);
    let mut i: usize = 0;
    while i < modules.len()
        invariant
            names == module_names(modules@),
            i <= modules.len(),
            find_name(names.take(i as int), name@) is None,
        decreases modules.len() - i,
    {
        proof {
            assert(names.take(i + 1).drop_last() == names.take(i as int));
            assert(names.take(i + 1).last() == modules@[i as int]@.name);
        }
        if crate::text::str_eq(modules[i].name().as_str(), name) {
            proof {
                lemma_find_name_prefix(names, name@, (i + 1) as int);
            }
            return Some(i);
        }
        i += 1;
    }
    assert(names.take(modules.len() as int) == names);
    None
}

proof fn lemma_find_name_prefix(names: Seq<Seq<char>>, name: Seq<char>, k: int)
    requires
        0 <= k <= names.len(),
        find_name(names.take(k), name) is Some,
    ensures
        find_name(names, name) == find_name(names.take(k), name),
    decreases names.len() - k,
{
    if k < names.len() {
        assert(names.take(k + 1).drop_last() == names.take(k));
        lemma_find_name_prefix(names, name, k + 1);
    } else {
        assert(names.take(k) == names);
    }
}

/// The indices of a vector, as integers.
pub open spec fn ints(v: Seq<usize>) -> Seq<int> {
    v.map_values(|i: usize| i as int)
}

/// The indices marked in a vector of flags.
pub open spec fn bool_set(v: Seq<bool>) -> Set<int> {
    Set::new(|i: int| 0 <= i < v.len() && v[i])
}

/// A path of module indices: distinct, and each names a module.
pub open spec fn path_ok(path: Seq<int>, n: int) -> bool {
    path.no_duplicates() && forall|i: int| 0 <= i < path.len() ==> 0 <= #[trigger] path[i] < n
}

/// The parts joined with ` -> `.
pub open spec fn join_arrow(parts: Seq<Seq<char>>) -> Seq<char>
    decreases parts.len(),
{
    if parts.len() == 0 {
        Seq::<char>::empty()
    } else if parts.len() == 1 {
        parts[0]
    } else {
        join_arrow(parts.drop_last()) + " -> "@ + parts.last()
    }
}

/// The error naming the modules of a dependency cycle, in the order they
/// were entered.
pub open spec fn cycle_message(names: Seq<Seq<char>>, path: Seq<int>) -> Seq<char> {
    "dependency cycle: "@ + join_arrow(path.map_values(|i: int| names[i]))
}

/// Adds module `x` and, first, everything it depends on, to the selected
/// modules. `stack` holds the modules being added, outermost first; meeting
/// one of them again is a cycle.
pub open spec fn include_spec(
    names: Seq<Seq<char>>,
    deps: Seq<Seq<Seq<char>>>,
    x: int,
    stack: Seq<int>,
    selected: Set<int>,
) -> Result<Set<int>, MoiErrorView>
    decreases names.len() - stack.len(), 0int,
{
    if stack.contains(x) {
        Err(MoiErrorView::Config(cycle_message(names, stack.push(x))))
    } else if selected.contains(x) {
        Ok(selected)
    } else if stack.len() >= names.len() {
        Ok(selected)
    } else {
        match include_deps_spec(names, deps, x, 0, stack.push(x), selected) {
            Err(e) => Err(e),
            Ok(s) => Ok(s.insert(x)),
        }
    }
}

/// Adds the dependencies of `x` from the `k`-th on, in order.
pub open spec fn include_deps_spec(
    names: Seq<Seq<char>>,
    deps: Seq<Seq<Seq<char>>>,
    x: int,
    k: int,
    stack: Seq<int>,
    selected: Set<int>,
) -> Result<Set<int>, MoiErrorView>
    decreases names.len() - stack.len(), deps[x].len() - k + 1,
{
    if k < 0 || k >= deps[x].len() {
        Ok(selected)
    } else {
        let d = deps[x][k];
        match find_name(names, d) {
            None => Err(MoiErrorView::Config(names[x] + ": unknown dependency: "@ + d)),
            Some(i) => match include_spec(names, deps, i, stack, selected) {
                Err(e) => Err(e),
                Ok(s) => include_deps_spec(names, deps, x, k + 1, stack, s),
            },
        }
    }
}

/// Appends module `x` to the order after the selected modules it depends on
/// that are not ordered yet; `temp` holds the modules being visited.
pub open spec fn visit_spec(
    names: Seq<Seq<char>>,
    deps: Seq<Seq<Seq<char>>>,
    x: int,
    selected: Set<int>,
    temp: Seq<int>,
    perm: Set<int>,
    ordered: Seq<int>,
) -> Result<(Set<int>, Seq<int>), MoiErrorView>
    decreases names.len() - temp.len(), 0int,
{
    if perm.contains(x) {
        Ok((perm, ordered))
    } else if temp.contains(x) {
        Err(MoiErrorView::Config("dependency cycle at "@ + names[x]))
    } else if temp.len() >= names.len() {
        Ok((perm, ordered))
    } else {
        match visit_deps_spec(names, deps, x, 0, selected, temp.push(x), perm, ordered) {
            Err(e) => Err(e),
            Ok((p, o)) => Ok((p.insert(x), o.push(x))),
        }
    }
}

/// Module `z` depends on module `y`: one of its dependencies names `y`.
pub open spec fn depends(names: Seq<Seq<char>>, deps: Seq<Seq<Seq<char>>>, z: int, y: int) -> bool {
    exists|j: int| 0 <= j < deps[z].len() && #[trigger] find_name(names, deps[z][j]) == Some(y)
}

/// Visits the selected modules that `x` depends on, from module index `k`
/// on, in index (name) order.
pub open spec fn visit_deps_spec(
    names: Seq<Seq<char>>,
    deps: Seq<Seq<Seq<char>>>,
    x: int,
    k: int,
    selected: Set<int>,
    temp: Seq<int>,
    perm: Set<int>,
    ordered: Seq<int>,
) -> Result<(Set<int>, Seq<int>), MoiErrorView>
    decreases names.len() - temp.len(), names.len() - k + 1,
{
    if k < 0 || k >= names.len() {
        Ok((perm, ordered))
    } else if selected.contains(k) && depends(names, deps, x, k) {
        match visit_spec(names, deps, k, selected, temp, perm, ordered) {
            Err(e) => Err(e),
            Ok((p, o)) => visit_deps_spec(names, deps, x, k + 1, selected, temp, p, o),
        }
    } else {
        visit_deps_spec(names, deps, x, k + 1, selected, temp, perm, ordered)
    }
}

/// The modules a run starts from: those requested, or all when none is.
pub open spec fn targets_of(names: Seq<Seq<char>>, requested: Seq<Seq<char>>) -> Seq<Seq<char>> {
    if requested.len() == 0 {
        names
    } else {
        requested
    }
}

/// The index of the first target that names no module, if any.
pub open spec fn first_unknown(names: Seq<Seq<char>>, targets: Seq<Seq<char>>) -> Option<int>
    decreases targets.len(),
{
    if targets.len() == 0 {
        None
    } else {
        match first_unknown(names, targets.drop_last()) {
            Some(k) => Some(k),
            None => if find_name(names, targets.last()) is None {
                Some(targets.len() - 1)
            } else {
                None
            },
        }
    }
}

/// Selects the targets from the `k`-th on, with their dependencies.
pub open spec fn include_all(
    names: Seq<Seq<char>>,
    deps: Seq<Seq<Seq<char>>>,
    targets: Seq<Seq<char>>,
    k: int,
    selected: Set<int>,
) -> Result<Set<int>, MoiErrorView>
    decreases targets.len() - k,
{
    if k < 0 || k >= targets.len() {
        Ok(selected)
    } else {
        match find_name(names, targets[k]) {
            None => Err(MoiErrorView::Config("unknown module: "@ + targets[k])),
            Some(i) => match include_spec(names, deps, i, Seq::<int>::empty(), selected) {
                Err(e) => Err(e),
                Ok(s) => include_all(names, deps, targets, k + 1, s),
            },
        }
    }
}

/// Orders the selected modules from index `k` on, in index (name) order,
/// each after its dependencies.
pub open spec fn visit_all(
    names: Seq<Seq<char>>,
    deps: Seq<Seq<Seq<char>>>,
    selected: Set<int>,
    k: int,
    perm: Set<int>,
    ordered: Seq<int>,
) -> Result<(Set<int>, Seq<int>), MoiErrorView>
    decreases names.len() - k,
{
    if k < 0 || k >= names.len() {
        Ok((perm, ordered))
    } else if selected.contains(k) {
        match visit_spec(names, deps, k, selected, Seq::<int>::empty(), perm, ordered) {
            Err(e) => Err(e),
            Ok((p, o)) => visit_all(names, deps, selected, k + 1, p, o),
        }
    } else {
        visit_all(names, deps, selected, k + 1, perm, ordered)
    }
}

/// What `resolve` returns: the indices of the modules to process, in order,
/// or the error that stops the run.
pub open spec fn resolve_spec(
    names: Seq<Seq<char>>,
    deps: Seq<Seq<Seq<char>>>,
    requested: Seq<Seq<char>>,
) -> Result<Seq<int>, MoiErrorView> {
    let targets = targets_of(names, requested);
    match first_unknown(names, targets) {
        Some(j) => Err(MoiErrorView::Config("unknown module: "@ + targets[j])),
        None => match include_all(names, deps, targets, 0, Set::<int>::empty()) {
            Err(e) => Err(e),
            Ok(selected) => match visit_all(
                names,
                deps,
                selected,
                0,
                Set::<int>::empty(),
                Seq::<int>::empty(),
            ) {
                Err(e) => Err(e),
                Ok((_, ordered)) => Ok(ordered),
            },
        },
    }
}

/// A path of distinct module indices that leaves out `x` is shorter than the
/// number of modules.
pub(crate) proof fn lemma_path_bound(path: Seq<int>, x: int, n: int)
    requires
        path_ok(path, n),
        0 <= x < n,
        !path.contains(x),
    ensures
        path.len() < n,
{
    let s = path.to_set();
    path.unique_seq_to_set();
    let r = vstd::set_lib::set_int_range(0, n).remove(x);
    vstd::set_lib::lemma_int_range(0, n);
    assert(s.subset_of(r)) by {
        assert forall|v: int| s.contains(v) implies r.contains(v) by {
            let i = choose|i: int| 0 <= i < path.len() && path[i] == v;
        }
    }
    vstd::set_lib::lemma_len_subset(s, r);
}

/// A path of distinct module indices is no longer than the number of modules.
proof fn lemma_path_len(path: Seq<int>, n: int)
    requires
        path_ok(path, n),
        n >= 0,
    ensures
        path.len() <= n,
{
    let s = path.to_set();
    path.unique_seq_to_set();
    let r = vstd::set_lib::set_int_range(0, n);
    vstd::set_lib::lemma_int_range(0, n);
    assert(s.subset_of(r)) by {
        assert forall|v: int| s.contains(v) implies r.contains(v) by {
            let i = choose|i: int| 0 <= i < path.len() && path[i] == v;
        }
    }
    vstd::set_lib::lemma_len_subset(s, r);
}

/// Whether a vector of indices holds `x`.
fn contains_index(v: &Vec<usize>, x: usize) -> (r: bool)
    ensures
        r == ints(v@).contains(x as int),
{
    let mut i: usize = 0;
    while i < v.len()
        invariant
            i <= v.len(),
            forall|j: int| 0 <= j < i ==> v@[j] != x,
        decreases v.len() - i,
    {
        if v[i] == x {
            assert(ints(v@)[i as int] == x as int);
            return true;
        }
        i += 1;
    }
    assert forall|j: int| 0 <= j < ints(v@).len() implies ints(v@)[j] != x as int by {
        assert(ints(v@)[j] == v@[j] as int);
    }
    false
}

/// The error naming the modules of a cycle.
fn cycle_error(modules: &Vec<Module>, stack: &Vec<usize>, x: usize) -> (e: MoiError)
    requires
        x < modules.len(),
        forall|i: int| 0 <= i < stack.len() ==> #[trigger] stack@[i] < modules.len(),
    ensures
        e@ == MoiErrorView::Config(cycle_message(module_names(modules@), ints(stack@).push(x as int))),
{
    let ghost names = module_names(modules@);
    let ghost path = ints(stack@);
    let ghost parts = path.map_values(|i: int| names[i]);
    let mut joined = String::new();
    let mut k: usize = 0;
    while k < stack.len()
        invariant
            path == ints(stack@),
            parts == path.map_values(|i: int| names[i]),
            names == module_names(modules@),
            forall|i: int| 0 <= i < stack.len() ==> #[trigger] stack@[i] < modules.len(),
            k <= stack.len(),
            joined@ == join_arrow(parts.take(k as int)),
        decreases stack.len() - k,
    {
        let idx = stack[k];
        let name = modules[idx].name().as_str();
        assert(parts[k as int] == name@);
        proof {
            assert(parts.take(k + 1).drop_last() =~= parts.take(k as int));
            assert(parts.take(k + 1).last() == parts[k as int]);
            if k == 0 {
                assert(parts.take(1) =~= seq![parts[0]]);
            }
        }
        if k > 0 {
            joined.push_str(" -> ");
        }
        joined.push_str(name);
        k += 1;
    }
    assert(parts.take(stack.len() as int) =~= parts);
    let last = modules[x].name().as_str();
    let ghost all = ints(stack@).push(x as int).map_values(|i: int| names[i]);
    proof {
        assert(all =~= parts.push(last@));
        assert(all.drop_last() =~= parts);
        if stack.len() == 0 {
            assert(all =~= seq![last@]);
        }
    }
    if stack.len() > 0 {
        joined.push_str(" -> ");
    }
    joined.push_str(last);
    MoiError::config(crate::text::concat("dependency cycle: ", joined.as_str()))
}

/// Adds module `x` and its dependencies to the selected modules.
fn add_with_dependencies(modules: &Vec<Module>, x: usize, stack: &mut Vec<usize>, selected: &mut Vec<bool>) -> (r:
    Result<(), MoiError>)
    requires
        x < modules.len(),
        old(selected).len() == modules.len(),
        path_ok(ints(old(stack)@), modules.len() as int),
    ensures
        final(selected).len() == modules.len(),
        match include_spec(
            module_names(modules@),
            module_deps(modules@),
            x as int,
            ints(old(stack)@),
            bool_set(old(selected)@),
        ) {
            Ok(s) => r is Ok && bool_set(final(selected)@) == s && final(stack)@ == old(stack)@,
            Err(e) => r matches Err(e2) && e2@ == e,
        },
    decreases modules.len() - old(stack).len(),
{
    let ghost names = module_names(modules@);
    let ghost deps = module_deps(modules@);
    let ghost stack0 = ints(stack@);
    let ghost sel0 = bool_set(selected@);
    proof {
        assert forall|i: int| 0 <= i < stack.len() implies #[trigger] stack@[i] < modules.len() by {
            assert(stack0[i] == stack@[i] as int);
        }
        vstd::seq_lib::seq_to_set_is_finite(stack0);
        stack0.unique_seq_to_set();
        stack0.lemma_cardinality_of_set();
        lemma_path_len(stack0, modules.len() as int);
    }
    if contains_index(stack, x) {
        return Err(cycle_error(modules, stack, x));
    }
    if selected[x] {
        assert(sel0.contains(x as int));
        return Ok(());
    }
    proof {
        lemma_path_bound(stack0, x as int, modules.len() as int);
    }
    stack.push(x);
    proof {
        assert(ints(stack@) =~= stack0.push(x as int));
    }
    let dep_names = modules[x].depends_on();
    assert(crate::model::module::names_view(dep_names@) == deps[x as int]);
    assert(names[x as int] == modules@[x as int]@.name);
    assert(include_spec(names, deps, x as int, stack0, sel0) == match include_deps_spec(
        names,
        deps,
        x as int,
        0,
        stack0.push(x as int),
        sel0,
    ) {
        Err(e) => Err(e),
        Ok(s) => Ok(s.insert(x as int)),
    });
    let mut k: usize = 0;
    while k < dep_names.len()
        invariant
            names == module_names(modules@),
            deps == module_deps(modules@),
            crate::model::module::names_view(dep_names@) == deps[x as int],
            x < modules.len(),
            k <= dep_names.len(),
            selected.len() == modules.len(),
            ints(stack@) == stack0.push(x as int),
            stack@.len() == stack0.len() + 1,
            stack0.len() == old(stack)@.len(),
            stack0 == ints(old(stack)@),
            sel0 == bool_set(old(selected)@),
            names[x as int] == modules@[x as int]@.name,
            include_spec(names, deps, x as int, stack0, sel0) == match include_deps_spec(
                names,
                deps,
                x as int,
                0,
                stack0.push(x as int),
                sel0,
            ) {
                Err(e) => Err(e),
                Ok(s) => Ok(s.insert(x as int)),
            },
            path_ok(stack0.push(x as int), modules.len() as int),
            stack0.len() < modules.len(),
            include_deps_spec(names, deps, x as int, 0, stack0.push(x as int), sel0)
                == include_deps_spec(
                names,
                deps,
                x as int,
                k as int,
                stack0.push(x as int),
                bool_set(selected@),
            ),
        decreases dep_names.len() - k,
    {
        let d = dep_names[k].as_str();
        assert(d@ == deps[x as int][k as int]);
        match find_index(modules, d) {
            None => {
                let mut message = crate::text::concat(
                    modules[x].name().as_str(),
                    ": unknown dependency: ",
                );
                message.push_str(d);
                return Err(MoiError::config(message));
            },
            Some(i) => {
                let r = add_with_dependencies(modules, i, stack, selected);
                if r.is_err() {
                    return r;
                }
            },
        }
        k += 1;
    }
    let ghost before = stack@;
    let popped = stack.pop();
    assert forall|i: int| 0 <= i < stack.len() implies ints(stack@)[i] == stack0[i] by {
        assert(stack@[i] == before[i]);
        assert(ints(before)[i] == before[i] as int);
    }
    assert(ints(stack@) =~= stack0);
    assert forall|i: int| 0 <= i < stack.len() implies stack@[i] == old(stack)@[i] by {
        assert(ints(stack@)[i] == ints(old(stack)@)[i]);
    }
    assert(stack@ =~= old(stack)@);
    let ghost cur = bool_set(selected@);
    selected.set(x, true);
    assert(bool_set(selected@) =~= cur.insert(x as int));
    Ok(())
}

/// For each module, whether module `x` depends on it.
fn dependency_flags(modules: &Vec<Module>, x: usize) -> (flags: Vec<bool>)
    requires
        x < modules.len(),
    ensures
        flags@.len() == modules.len(),
        forall|i: int|
            0 <= i < modules.len() ==> #[trigger] flags@[i] == depends(
                module_names(modules@),
                module_deps(modules@),
                x as int,
                i,
            ),
{
    let ghost names = module_names(modules@);
    let ghost deps = module_deps(modules@);
    let n = modules.len();
    let mut flags: Vec<bool> = Vec::new();
    let mut j: usize = 0;
    while j < n
        invariant
            j <= n,
            flags@.len() == j,
            forall|i: int| 0 <= i < j ==> !#[trigger] flags@[i],
        decreases n - j,
    {
        flags.push(false);
        j += 1;
    }
    let dep_names = modules[x].depends_on();
    assert(crate::model::module::names_view(dep_names@) == deps[x as int]);
    let mut k: usize = 0;
    while k < dep_names.len()
        invariant
            n == modules.len(),
            names == module_names(modules@),
            deps == module_deps(modules@),
            x < n,
            crate::model::module::names_view(dep_names@) == deps[x as int],
            k <= dep_names.len(),
            flags@.len() == n,
            forall|i: int|
                0 <= i < n ==> #[trigger] flags@[i] == exists|j: int|
                    0 <= j < k && #[trigger] find_name(names, deps[x as int][j]) == Some(i),
        decreases dep_names.len() - k,
    {
        let d = dep_names[k].as_str();
        assert(d@ == deps[x as int][k as int]);
        let ghost before = flags@;
        match find_index(modules, d) {
            Some(i) => {
                flags.set(i, true);
            },
            None => {},
        }
        proof {
            assert forall|i: int| 0 <= i < n implies #[trigger] flags@[i] == exists|j: int|
                0 <= j < k + 1 && #[trigger] find_name(names, deps[x as int][j]) == Some(i) by {
                if flags@[i] && !before[i] {
                    assert(find_name(names, deps[x as int][k as int]) == Some(i));
                }
                if exists|j: int| 0 <= j < k + 1 && #[trigger] find_name(names, deps[x as int][j]) == Some(i) {
                    let j = choose|j: int| 0 <= j < k + 1 && #[trigger] find_name(names, deps[x as int][j]) == Some(i);
                    if j == k {
                        assert(flags@[i]);
                    }
                }
            }
        }
        k += 1;
    }
    flags
}

/// Appends module `x` to the order, after the selected modules it depends on.
fn visit(
    modules: &Vec<Module>,
    x: usize,
    selected: &Vec<bool>,
    temp: &mut Vec<usize>,
    perm: &mut Vec<bool>,
    ordered: &mut Vec<usize>,
) -> (r: Result<(), MoiError>)
    requires
        x < modules.len(),
        selected.len() == modules.len(),
        old(perm).len() == modules.len(),
        path_ok(ints(old(temp)@), modules.len() as int),
        forall|i: int| 0 <= i < old(ordered).len() ==> #[trigger] old(ordered)@[i] < modules.len(),
    ensures
        final(perm).len() == modules.len(),
        forall|i: int| 0 <= i < final(ordered).len() ==> #[trigger] final(ordered)@[i] < modules.len(),
        match visit_spec(
            module_names(modules@),
            module_deps(modules@),
            x as int,
            bool_set(selected@),
            ints(old(temp)@),
            bool_set(old(perm)@),
            ints(old(ordered)@),
        ) {
            Ok((p, o)) => r is Ok && bool_set(final(perm)@) == p && ints(final(ordered)@) == o
                && final(temp)@ == old(temp)@,
            Err(e) => r matches Err(e2) && e2@ == e,
        },
    decreases modules.len() - old(temp).len(),
{
    let ghost names = module_names(modules@);
    let ghost deps = module_deps(modules@);
    let ghost sel = bool_set(selected@);
    let ghost temp0 = ints(temp@);
    let ghost perm0 = bool_set(perm@);
    let ghost ord0 = ints(ordered@);
    if perm[x] {
        assert(perm0.contains(x as int));
        return Ok(());
    }
    if contains_index(temp, x) {
        let name = modules[x].name().as_str();
        assert(names[x as int] == modules@[x as int]@.name);
        return Err(MoiError::config(crate::text::concat("dependency cycle at ", name)));
    }
    proof {
        lemma_path_bound(temp0, x as int, modules.len() as int);
    }
    temp.push(x);
    proof {
        assert(ints(temp@) =~= temp0.push(x as int));
    }
    let flags = dependency_flags(modules, x);
    assert(visit_spec(names, deps, x as int, sel, temp0, perm0, ord0) == match visit_deps_spec(
        names,
        deps,
        x as int,
        0,
        sel,
        temp0.push(x as int),
        perm0,
        ord0,
    ) {
        Err(e) => Err(e),
        Ok((p, o)) => Ok((p.insert(x as int), o.push(x as int))),
    });
    let n = modules.len();
    let mut k: usize = 0;
    while k < n
        invariant
            n == modules.len(),
            names == module_names(modules@),
            deps == module_deps(modules@),
            sel == bool_set(selected@),
            flags@.len() == n,
            forall|i: int| 0 <= i < n ==> #[trigger] flags@[i] == depends(names, deps, x as int, i),
            x < modules.len(),
            k <= n,
            selected.len() == modules.len(),
            perm.len() == modules.len(),
            forall|i: int| 0 <= i < ordered.len() ==> #[trigger] ordered@[i] < modules.len(),
            ints(temp@) == temp0.push(x as int),
            temp@.len() == temp0.len() + 1,
            temp0 == ints(old(temp)@),
            temp0.len() == old(temp)@.len(),
            perm0 == bool_set(old(perm)@),
            ord0 == ints(old(ordered)@),
            visit_spec(names, deps, x as int, sel, temp0, perm0, ord0) == match visit_deps_spec(
                names,
                deps,
                x as int,
                0,
                sel,
                temp0.push(x as int),
                perm0,
                ord0,
            ) {
                Err(e) => Err(e),
                Ok((p, o)) => Ok((p.insert(x as int), o.push(x as int))),
            },
            path_ok(temp0.push(x as int), modules.len() as int),
            temp0.len() < modules.len(),
            visit_deps_spec(names, deps, x as int, 0, sel, temp0.push(x as int), perm0, ord0)
                == visit_deps_spec(
                names,
                deps,
                x as int,
                k as int,
                sel,
                temp0.push(x as int),
                bool_set(perm@),
                ints(ordered@),
            ),
        decreases n - k,
    {
        if selected[k] && flags[k] {
            let r = visit(modules, k, selected, temp, perm, ordered);
            if r.is_err() {
                return r;
            }
        }
        k += 1;
    }
    let ghost before = temp@;
    let popped = temp.pop();
    assert forall|i: int| 0 <= i < temp.len() implies temp@[i] == old(temp)@[i] by {
        assert(temp@[i] == before[i]);
        assert(ints(before)[i] == before[i] as int);
        assert(ints(old(temp)@)[i] == old(temp)@[i] as int);
    }
    assert(temp@ =~= old(temp)@);
    let ghost cur_perm = bool_set(perm@);
    let ghost cur_ord = ints(ordered@);
    perm.set(x, true);
    ordered.push(x);
    assert(bool_set(perm@) =~= cur_perm.insert(x as int));
    assert(ints(ordered@) =~= cur_ord.push(x as int));
    Ok(())
}

/// The modules to process, in order: the requested ones (all when none is
/// requested) together with everything they depend on, each after its
/// dependencies. Modules are taken in name order, and so are the
/// dependencies of each module.
pub fn resolve<'a>(modules: &'a ModuleSet, requested: &Vec<String>) -> (r: Result<
    Vec<&'a Module>,
    MoiError,
>)
    ensures
        match resolve_spec(
            module_names(modules.spec_modules()),
            module_deps(modules.spec_modules()),
            strings_view(requested@),
        ) {
            Ok(ord) => r matches Ok(v) && v@.len() == ord.len() && forall|i: int|
                0 <= i < ord.len() ==> 0 <= #[trigger] ord[i] < modules.spec_modules().len()
                    && *v@[i] == modules.spec_modules()[ord[i]],
            Err(e) => r matches Err(e2) && e2@ == e,
        },
{
    let ms = modules.modules();
    let n = ms.len();
    let ghost names = module_names(ms@);
    let ghost deps = module_deps(ms@);
    let mut targets: Vec<String> = Vec::new();
    if requested.len() == 0 {
        let mut k: usize = 0;
        while k < n
            invariant
                n == ms.len(),
                names == module_names(ms@),
                k <= n,
                strings_view(targets@) == names.take(k as int),
            decreases n - k,
        {
            let t = crate::text::owned(ms[k].name().as_str());
            let ghost old_t = targets@;
            assert(names[k as int] == ms@[k as int]@.name);
            targets.push(t);
            assert(strings_view(targets@) =~= strings_view(old_t).push(t@));
            assert(strings_view(targets@) =~= names.take(k + 1));
            k += 1;
        }
        assert(names.take(n as int) =~= names);
    } else {
        let mut k: usize = 0;
        while k < requested.len()
            invariant
                k <= requested.len(),
                strings_view(targets@) == strings_view(requested@).take(k as int),
            decreases requested.len() - k,
        {
            let t = crate::text::owned(requested[k].as_str());
            let ghost old_t = targets@;
            assert(strings_view(requested@)[k as int] == requested@[k as int]@);
            targets.push(t);
            assert(strings_view(targets@) =~= strings_view(old_t).push(t@));
            assert(strings_view(targets@) =~= strings_view(requested@).take(k + 1));
            k += 1;
        }
        assert(strings_view(requested@).take(requested.len() as int) =~= strings_view(requested@));
    }
    let ghost tv = strings_view(targets@);
    assert(tv == targets_of(names, strings_view(requested@)));
    let mut k: usize = 0;
    while k < targets.len()
        invariant
            names == module_names(ms@),
            ms@ == modules.spec_modules(),
            deps == module_deps(ms@),
            tv == strings_view(targets@),
            tv == targets_of(names, strings_view(requested@)),
            k <= targets.len(),
            first_unknown(names, tv.take(k as int)) is None,
        decreases targets.len() - k,
    {
        proof {
            assert(tv.take(k + 1).drop_last() =~= tv.take(k as int));
            assert(tv.take(k + 1).last() == targets@[k as int]@);
        }
        if find_index(ms, targets[k].as_str()).is_none() {
            proof {
                lemma_first_unknown_prefix(names, tv, (k + 1) as int);
                assert(tv[k as int] == targets@[k as int]@);
            }
            return Err(
                MoiError::config(crate::text::concat("unknown module: ", targets[k].as_str())),
            );
        }
        k += 1;
    }
    assert(tv.take(targets.len() as int) =~= tv);
    let mut selected: Vec<bool> = Vec::new();
    let mut j: usize = 0;
    while j < n
        invariant
            j <= n,
            selected.len() == j,
            forall|i: int| 0 <= i < j ==> !#[trigger] selected@[i],
        decreases n - j,
    {
        selected.push(false);
        j += 1;
    }
    assert(bool_set(selected@) =~= Set::<int>::empty());
    let mut stack: Vec<usize> = Vec::new();
    let mut k: usize = 0;
    while k < targets.len()
        invariant
            n == ms.len(),
            names == module_names(ms@),
            deps == module_deps(ms@),
            ms@ == modules.spec_modules(),
            tv == strings_view(targets@),
            tv == targets_of(names, strings_view(requested@)),
            first_unknown(names, tv) is None,
            k <= targets.len(),
            selected.len() == n,
            stack@.len() == 0,
            include_all(names, deps, tv, 0, Set::<int>::empty()) == include_all(
                names,
                deps,
                tv,
                k as int,
                bool_set(selected@),
            ),
        decreases targets.len() - k,
    {
        assert(ints(stack@) =~= Seq::<int>::empty());
        assert(tv[k as int] == targets@[k as int]@);
        match find_index(ms, targets[k].as_str()) {
            None => {
                return Err(
                    MoiError::config(crate::text::concat("unknown module: ", targets[k].as_str())),
                );
            },
            Some(i) => {
                let r = add_with_dependencies(ms, i, &mut stack, &mut selected);
                if r.is_err() {
                    return match r {
                        Err(e) => Err(e),
                        Ok(()) => Ok(Vec::new()),
                    };
                }
            },
        }
        k += 1;
    }
    let ghost sel = bool_set(selected@);
    let mut temp: Vec<usize> = Vec::new();
    let mut perm: Vec<bool> = Vec::new();
    let mut j: usize = 0;
    while j < n
        invariant
            j <= n,
            perm.len() == j,
            forall|i: int| 0 <= i < j ==> !#[trigger] perm@[i],
        decreases n - j,
    {
        perm.push(false);
        j += 1;
    }
    assert(bool_set(perm@) =~= Set::<int>::empty());
    let mut ordered: Vec<usize> = Vec::new();
    assert(ints(ordered@) =~= Seq::<int>::empty());
    let mut k: usize = 0;
    while k < n
        invariant
            n == ms.len(),
            names == module_names(ms@),
            deps == module_deps(ms@),
            ms@ == modules.spec_modules(),
            tv == targets_of(names, strings_view(requested@)),
            first_unknown(names, tv) is None,
            include_all(names, deps, tv, 0, Set::<int>::empty()) == Ok::<Set<int>, MoiErrorView>(sel),
            sel == bool_set(selected@),
            selected.len() == n,
            perm.len() == n,
            temp@.len() == 0,
            k <= n,
            forall|i: int| 0 <= i < ordered.len() ==> #[trigger] ordered@[i] < n,
            visit_all(names, deps, sel, 0, Set::<int>::empty(), Seq::<int>::empty()) == visit_all(
                names,
                deps,
                sel,
                k as int,
                bool_set(perm@),
                ints(ordered@),
            ),
        decreases n - k,
    {
        assert(ints(temp@) =~= Seq::<int>::empty());
        if selected[k] {
            let r = visit(ms, k, &selected, &mut temp, &mut perm, &mut ordered);
            if r.is_err() {
                return match r {
                    Err(e) => Err(e),
                    Ok(()) => Ok(Vec::new()),
                };
            }
        }
        k += 1;
    }
    let mut result: Vec<&'a Module> = Vec::new();
    let mut j: usize = 0;
    while j < ordered.len()
        invariant
            n == ms.len(),
            ms@ == modules.spec_modules(),
            forall|i: int| 0 <= i < ordered.len() ==> #[trigger] ordered@[i] < n,
            j <= ordered.len(),
            result@.len() == j,
            forall|i: int| 0 <= i < j ==> *#[trigger] result@[i] == ms@[ordered@[i] as int],
        decreases ordered.len() - j,
    {
        result.push(&ms[ordered[j]]);
        j += 1;
    }
    assert forall|i: int| 0 <= i < ordered.len() implies ints(ordered@)[i] == ordered@[i] as int by {}
    Ok(result)
}

/// An unknown target found in a prefix is the first of all targets.
proof fn lemma_first_unknown_prefix(names: Seq<Seq<char>>, targets: Seq<Seq<char>>, k: int)
    requires
        0 <= k <= targets.len(),
        first_unknown(names, targets.take(k)) is Some,
    ensures
        first_unknown(names, targets) == first_unknown(names, targets.take(k)),
    decreases targets.len() - k,
{
    if k < targets.len() {
        assert(targets.take(k + 1).drop_last() == targets.take(k));
        lemma_first_unknown_prefix(names, targets, k + 1);
    } else {
        assert(targets.take(k) == targets);
    }
}

} // verus!
