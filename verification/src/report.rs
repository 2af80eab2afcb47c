//! What a run shows around the operations: the modules, platform and
//! packages before them, the follow-ups after them, and the package list that
//! is installed.
use vstd::prelude::*;

use crate::model::module::{Module, ModuleView};
use crate::model::package::packages_for;
use crate::platform::{platform_name, platform_package_key, Platform};
use crate::text::{opt_str_view, strings_view};

verus! {

/// The views of a list of modules.
pub open spec fn module_views(ms: Seq<&Module>) -> Seq<ModuleView> {
    ms.map_values(|m: &Module| m@)
}

/// The packages of the modules for the platform, module after module.
pub open spec fn all_packages(ms: Seq<ModuleView>, platform: Platform) -> Seq<Seq<char>>
    decreases ms.len(),
{
    if ms.len() == 0 {
        Seq::empty()
    } else {
        all_packages(ms.drop_last(), platform) + packages_for(ms.last().packages, platform)
    }
}

/// The sequence with each element after its first occurrence left out.
pub open spec fn dedup(s: Seq<Seq<char>>) -> Seq<Seq<char>>
    decreases s.len(),
{
    if s.len() == 0 {
        s
    } else {
        let d = dedup(s.drop_last());
        if d.contains(s.last()) {
            d
        } else {
            d.push(s.last())
        }
    }
}

/// The follow-ups of the modules, module after module.
pub open spec fn all_followups(ms: Seq<ModuleView>) -> Seq<Seq<char>>
    decreases ms.len(),
{
    if ms.len() == 0 {
        Seq::empty()
    } else {
        all_followups(ms.drop_last()) + ms.last().followups
    }
}

/// An item of a list as shown: `  - ` and the item.
pub open spec fn item_line(item: Seq<char>) -> Seq<char> {
    "  - "@ + item
}

/// Each item as shown in a list.
pub open spec fn item_lines(items: Seq<Seq<char>>) -> Seq<Seq<char>> {
    items.map_values(|x: Seq<char>| item_line(x))
}

/// The names of the modules.
pub open spec fn names_of(ms: Seq<ModuleView>) -> Seq<Seq<char>> {
    ms.map_values(|m: ModuleView| m.name)
}

/// What a plan shows before the operations: the modules, the platform, the
/// packages to install, and the heading of the operations.
pub open spec fn plan_header_spec(ms: Seq<ModuleView>, platform: Platform) -> Seq<Seq<char>> {
    let packages = dedup(all_packages(ms, platform));
    seq!["Modules:"@] + item_lines(names_of(ms)) + seq![
        Seq::empty(),
        "Platform: "@ + platform_name(platform),
        Seq::empty(),
        platform_package_key(platform) + " packages:"@,
    ] + if packages.len() == 0 {
        seq!["  (none)"@]
    } else {
        item_lines(packages)
    } + seq![Seq::empty(), "Operations:"@]
}

/// What a run shows after the operations when follow-ups are shown: nothing
/// without follow-ups, else an empty line, a heading and one line each.
pub open spec fn followup_lines_spec(ms: Seq<ModuleView>) -> Seq<Seq<char>> {
    let fs = all_followups(ms);
    if fs.len() == 0 {
        Seq::empty()
    } else {
        seq![Seq::empty(), "Follow-ups:"@] + item_lines(fs)
    }
}

/// Whether follow-ups are shown: as `--show-followups` or `--no-followups`
/// say, else only on a first installation (`MOI_FIRST_INSTALL=1`).
pub open spec fn show_followups_spec(choice: Option<bool>, first_install: Option<Seq<char>>) -> bool {
    match choice {
        Some(b) => b,
        None => first_install == Some("1"@),
    }
}

fn contains_string(v: &Vec<String>, x: &str) -> (r: bool)
    ensures
        r == strings_view(v@).contains(x@),
{
    let mut i: usize = 0;
    while i < v.len()
        invariant
            i <= v.len(),
            forall|j: int| 0 <= j < i ==> strings_view(v@)[j] != x@,
        decreases v.len() - i,
    {
        if crate::text::str_eq(v[i].as_str(), x) {
            assert(strings_view(v@)[i as int] == x@);
            return true;
        }
        i += 1;
    }
    false
}

/// The packages of the modules for the platform, in order, each name once.
pub fn collect_packages(modules: &Vec<&Module>, platform: Platform) -> (v: Vec<String>)
    ensures
        strings_view(v@) == dedup(all_packages(module_views(modules@), platform)),
{
    let ghost ms = module_views(modules@);
    let mut out: Vec<String> = Vec::new();
    let mut i: usize = 0;
    while i < modules.len()
        invariant
            i <= modules.len(),
            ms == module_views(modules@),
            ms.len() == modules@.len(),
            strings_view(out@) == dedup(all_packages(ms.take(i as int), platform)),
        decreases modules.len() - i,
    {
        let packages = modules[i].packages().for_platform(platform);
        let ghost pk = packages_for(ms[i as int].packages, platform);
        let ghost base = all_packages(ms.take(i as int), platform);
        assert(strings_view(packages@) == pk);
        let mut j: usize = 0;
        while j < packages.len()
            invariant
                j <= packages.len(),
                strings_view(packages@) == pk,
                strings_view(out@) == dedup(base + pk.take(j as int)),
            decreases packages.len() - j,
        {
            let ghost s = base + pk.take(j + 1);
            proof {
                assert(s.drop_last() =~= base + pk.take(j as int));
                assert(s.last() == pk[j as int]);
                assert(pk[j as int] == packages@[j as int]@);
            }
            let ghost before = out@;
            if !contains_string(&out, packages[j].as_str()) {
                out.push(packages[j].clone());
                assert(strings_view(out@) =~= strings_view(before).push(pk[j as int]));
            }
            j += 1;
        }
        proof {
            assert(pk.take(packages@.len() as int) =~= pk);
            assert(ms.take(i + 1).drop_last() =~= ms.take(i as int));
            assert(ms.take(i + 1).last() == ms[i as int]);
        }
        i += 1;
    }
    assert(ms.take(modules.len() as int) =~= ms);
    out
}

fn push_line(lines: &mut Vec<String>, line: String)
    ensures
        strings_view(final(lines)@) == strings_view(old(lines)@).push(line@),
{
    proof {
        crate::text::lemma_strings_view_push(lines@, line);
    }
    lines.push(line);
}

fn push_items(lines: &mut Vec<String>, items: &Vec<String>)
    ensures
        strings_view(final(lines)@) == strings_view(old(lines)@) + item_lines(strings_view(items@)),
{
    let ghost start = strings_view(lines@);
    let mut i: usize = 0;
    while i < items.len()
        invariant
            i <= items.len(),
            strings_view(lines@) == start + item_lines(strings_view(items@)).take(i as int),
        decreases items.len() - i,
    {
        let ghost before = lines@;
        let line = crate::text::concat("  - ", items[i].as_str());
        proof {
            crate::text::lemma_strings_view_push(before, line);
        }
        lines.push(line);
        proof {
            let il = item_lines(strings_view(items@));
            assert(il[i as int] == item_line(items@[i as int]@));
            assert(il.take(i + 1) =~= il.take(i as int).push(il[i as int]));
            assert(strings_view(lines@) =~= start + il.take(i + 1));
        }
        i += 1;
    }
    assert(item_lines(strings_view(items@)).take(items.len() as int) =~= item_lines(
        strings_view(items@),
    ));
}

/// What a plan shows before the operations: the modules, the platform, the
/// packages to install (`(none)` when there are none), and the heading of
/// the operations.
pub fn plan_header(modules: &Vec<&Module>, platform: Platform) -> (v: Vec<String>)
    ensures
        strings_view(v@) == plan_header_spec(module_views(modules@), platform),
{
    let ghost ms = module_views(modules@);
    let packages = collect_packages(modules, platform);
    let mut names: Vec<String> = Vec::new();
    let mut i: usize = 0;
    while i < modules.len()
        invariant
            i <= modules.len(),
            ms == module_views(modules@),
            ms.len() == modules@.len(),
            strings_view(names@) == names_of(ms).take(i as int),
        decreases modules.len() - i,
    {
        let name = crate::text::owned(modules[i].name().as_str());
        proof {
            crate::text::lemma_strings_view_push(names@, name);
            assert(ms[i as int] == modules@[i as int]@);
            assert(names_of(ms).take(i + 1) =~= names_of(ms).take(i as int).push(name@));
        }
        names.push(name);
        i += 1;
    }
    assert(names_of(ms).take(modules.len() as int) =~= names_of(ms));
    let mut v: Vec<String> = Vec::new();
    assert(strings_view(v@) =~= Seq::<Seq<char>>::empty());
    push_line(&mut v, crate::text::owned("Modules:"));
    push_items(&mut v, &names);
    push_line(&mut v, String::new());
    push_line(&mut v, crate::text::concat("Platform: ", platform.name()));
    push_line(&mut v, String::new());
    push_line(&mut v, crate::text::concat(platform.package_key(), " packages:"));
    let ghost mid = strings_view(v@);
    if packages.len() == 0 {
        push_line(&mut v, crate::text::owned("  (none)"));
        assert(strings_view(v@) == mid + seq!["  (none)"@]);
    } else {
        push_items(&mut v, &packages);
    }
    let ghost listed = strings_view(v@);
    push_line(&mut v, String::new());
    push_line(&mut v, crate::text::owned("Operations:"));
    assert(strings_view(v@) == listed + seq![Seq::<char>::empty(), "Operations:"@]);
    assert(strings_view(v@) =~= plan_header_spec(ms, platform));
    v
}

/// What a run shows after the operations when follow-ups are shown.
pub fn followup_lines(modules: &Vec<&Module>) -> (v: Vec<String>)
    ensures
        strings_view(v@) == followup_lines_spec(module_views(modules@)),
{
    let ghost ms = module_views(modules@);
    let mut fs: Vec<String> = Vec::new();
    let mut i: usize = 0;
    while i < modules.len()
        invariant
            i <= modules.len(),
            ms == module_views(modules@),
            ms.len() == modules@.len(),
            strings_view(fs@) == all_followups(ms.take(i as int)),
        decreases modules.len() - i,
    {
        let own = modules[i].followups();
        let ghost base = strings_view(fs@);
        assert(ms[i as int] == modules@[i as int]@);
        let mut j: usize = 0;
        while j < own.len()
            invariant
                j <= own.len(),
                i < ms.len(),
                strings_view(own@) == ms[i as int].followups,
                strings_view(fs@) == base + ms[i as int].followups.take(j as int),
            decreases own.len() - j,
        {
            let f = own[j].clone();
            proof {
                crate::text::lemma_strings_view_push(fs@, f);
                assert(ms[i as int].followups[j as int] == own@[j as int]@);
                assert(ms[i as int].followups.take(j + 1) =~= ms[i as int].followups.take(
                    j as int,
                ).push(f@));
            }
            fs.push(f);
            j += 1;
        }
        proof {
            assert(ms[i as int].followups.take(own@.len() as int) =~= ms[i as int].followups);
            assert(ms.take(i + 1).drop_last() =~= ms.take(i as int));
            assert(ms.take(i + 1).last() == ms[i as int]);
        }
        i += 1;
    }
    assert(ms.take(modules.len() as int) =~= ms);
    let mut v: Vec<String> = Vec::new();
    if fs.len() == 0 {
        assert(strings_view(v@) =~= followup_lines_spec(ms));
        return v;
    }
    v.push(String::new());
    v.push(crate::text::owned("Follow-ups:"));
    push_items(&mut v, &fs);
    assert(strings_view(v@) =~= followup_lines_spec(ms));
    v
}

/// Whether follow-ups are shown: `choice` is what `--show-followups` or
/// `--no-followups` asked; without either they are shown when
/// `MOI_FIRST_INSTALL` is `1`.
pub fn should_show_followups(choice: Option<bool>, first_install: Option<&str>) -> (r: bool)
    ensures
        r == show_followups_spec(choice, opt_str_view(first_install)),
{
    match choice {
        Some(b) => b,
        None => match first_install {
            Some(v) => crate::text::str_eq(v, "1"),
            None => false,
        },
    }
}

/// The line that opens a module in a plan.
pub fn plan_module_line(module: &Module) -> (s: String)
    ensures
        s@ == "["@ + module@.name + "]"@,
{
    crate::text::concat3("[", module.name().as_str(), "]")
}

/// The line that opens a module when it is applied.
pub fn apply_module_line(module: &Module) -> (s: String)
    ensures
        s@ == "==> "@ + module@.name,
{
    crate::text::concat("==> ", module.name().as_str())
}

/// No package is installed twice.
pub proof fn lemma_dedup_distinct(s: Seq<Seq<char>>)
    ensures
        forall|i: int, j: int|
            0 <= i < j < dedup(s).len() ==> dedup(s)[i] != dedup(s)[j],
    decreases s.len(),
{
    if s.len() > 0 {
        lemma_dedup_distinct(s.drop_last());
        let d = dedup(s.drop_last());
        if !d.contains(s.last()) {
            assert forall|i: int, j: int|
                0 <= i < j < dedup(s).len() implies dedup(s)[i] != dedup(s)[j] by {
                if j == d.len() {
                    assert(dedup(s)[i] == d[i]);
                }
            }
        }
    }
}

/// Every package of the modules is installed, and nothing else.
pub proof fn lemma_dedup_same_elements(s: Seq<Seq<char>>)
    ensures
        forall|x: Seq<char>| dedup(s).contains(x) <==> s.contains(x),
    decreases s.len(),
{
    if s.len() > 0 {
        lemma_dedup_same_elements(s.drop_last());
        let t = s.drop_last();
        let d = dedup(t);
        assert forall|x: Seq<char>| dedup(s).contains(x) <==> s.contains(x) by {
            if s.contains(x) {
                let k = choose|k: int| 0 <= k < s.len() && s[k] == x;
                if k < s.len() - 1 {
                    assert(t[k] == x);
                    assert(t.contains(x));
                }
            }
            if t.contains(x) {
                let k = choose|k: int| 0 <= k < t.len() && t[k] == x;
                assert(s[k] == x);
            }
            if !d.contains(s.last()) && dedup(s).contains(x) {
                let k = choose|k: int| 0 <= k < dedup(s).len() && dedup(s)[k] == x;
                if k < d.len() {
                    assert(d[k] == x);
                }
            }
            if !d.contains(s.last()) && d.contains(x) {
                let k = choose|k: int| 0 <= k < d.len() && d[k] == x;
                assert(dedup(s)[k] == x);
            }
            if !d.contains(s.last()) {
                assert(dedup(s)[d.len() as int] == s.last());
            }
            assert(s[s.len() - 1] == s.last());
        }
    }
}

/// The installed packages keep the order in which the modules first name
/// them: a package comes before another when its first occurrence does.
pub proof fn lemma_dedup_first_occurrence_order(s: Seq<Seq<char>>, i: int, j: int)
    requires
        0 <= i < j < dedup(s).len(),
    ensures
        first_position(s, dedup(s)[i]) < first_position(s, dedup(s)[j]),
    decreases s.len(),
{
    let t = s.drop_last();
    let d = dedup(t);
    lemma_dedup_same_elements(t);
    if d.contains(s.last()) {
        lemma_dedup_first_occurrence_order(t, i, j);
        lemma_first_position_extend(t, s.last(), d[i]);
        lemma_first_position_extend(t, s.last(), d[j]);
        assert(t.contains(d[i]));
        assert(t.contains(d[j]));
    } else {
        assert(dedup(s)[i] == d[i]);
        assert(d.contains(d[i]));
        assert(t.contains(d[i]));
        lemma_first_position_extend(t, s.last(), d[i]);
        lemma_first_position_bound(t, d[i]);
        if j < d.len() {
            lemma_dedup_first_occurrence_order(t, i, j);
            assert(d.contains(d[j]));
            assert(t.contains(d[j]));
            lemma_first_position_extend(t, s.last(), d[j]);
        } else {
            assert(dedup(s)[j] == s.last());
            assert(!t.contains(s.last()));
            lemma_first_position_new(t, s.last());
        }
    }
}

/// The position of the first occurrence of `x` in `s`, or the length of `s`.
pub open spec fn first_position(s: Seq<Seq<char>>, x: Seq<char>) -> int
    decreases s.len(),
{
    if s.len() == 0 {
        0
    } else if s.drop_last().contains(x) {
        first_position(s.drop_last(), x)
    } else if s.last() == x {
        s.len() - 1
    } else {
        s.len() as int
    }
}

proof fn lemma_first_position_extend(t: Seq<Seq<char>>, last: Seq<char>, x: Seq<char>)
    requires
        t.contains(x),
    ensures
        first_position(t.push(last), x) == first_position(t, x),
{
    assert(t.push(last).drop_last() =~= t);
}

proof fn lemma_first_position_bound(t: Seq<Seq<char>>, x: Seq<char>)
    requires
        t.contains(x),
    ensures
        first_position(t, x) < t.len(),
    decreases t.len(),
{
    if t.drop_last().contains(x) {
        lemma_first_position_bound(t.drop_last(), x);
    } else {
        let k = choose|k: int| 0 <= k < t.len() && t[k] == x;
        if k < t.len() - 1 {
            assert(t.drop_last()[k] == x);
        }
    }
}

proof fn lemma_first_position_new(t: Seq<Seq<char>>, x: Seq<char>)
    requires
        !t.contains(x),
    ensures
        first_position(t.push(x), x) == t.len(),
{
    assert(t.push(x).drop_last() =~= t);
}

} // verus!
