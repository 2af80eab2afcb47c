//! What `plan` shows: the heading with modules, platform and packages; then
//! for each module its line, its `PATH` additions (checked, not shown) and the
//! description of each operation; then the follow-ups when they are shown.
//! The first error stops the plan; the lines before it are still shown.
use vstd::prelude::*;

use crate::error::{MoiError, MoiErrorView};
use crate::exec::environment::{prepended_path, ExecutionEnv};
use crate::model::module::{Module, ModuleView};
use crate::platform::Platform;
use crate::report::{followup_lines_spec, module_views, plan_header_spec};
use crate::steps::{module_steps_spec, step_plan_spec, ModuleStep};
use crate::text::{opt_str_view, strings_view};

verus! {

/// Whether the source of the `i`-th operation is a regular file, as the
/// caller found; an operation without an answer counts as having one.
pub open spec fn present_at(present: Seq<bool>, i: int) -> bool {
    if 0 <= i < present.len() {
        present[i]
    } else {
        true
    }
}

/// The answers for each module.
pub open spec fn answers_view(present: Seq<Vec<bool>>) -> Seq<Seq<bool>> {
    present.map_values(|v: Vec<bool>| v@)
}

/// The answers for the `i`-th module.
pub open spec fn present_of(present: Seq<Seq<bool>>, i: int) -> Seq<bool> {
    if 0 <= i < present.len() {
        present[i]
    } else {
        Seq::empty()
    }
}

/// The lines that describe the operations, up to the first error.
pub open spec fn steps_plan(
    m: ModuleView,
    steps: Seq<ModuleStep>,
    home: Option<Seq<char>>,
    present: Seq<bool>,
) -> (Seq<Seq<char>>, Result<(), MoiErrorView>)
    decreases steps.len(),
{
    if steps.len() == 0 {
        (Seq::empty(), Ok(()))
    } else {
        let (lines, r) = steps_plan(m, steps.drop_last(), home, present);
        match r {
            Err(e) => (lines, Err(e)),
            Ok(()) => match step_plan_spec(
                m,
                steps.last(),
                home,
                present_at(present, steps.len() - 1),
            ) {
                Err(e) => (lines, Err(e)),
                Ok(l) => (lines + l, Ok(())),
            },
        }
    }
}

/// The lines of one module and the `PATH` after it, or the error that stops
/// the plan.
pub open spec fn module_plan(
    m: ModuleView,
    platform: Platform,
    path: Seq<char>,
    home: Option<Seq<char>>,
    present: Seq<bool>,
) -> (Seq<Seq<char>>, Result<Seq<char>, MoiErrorView>) {
    let head = seq!["["@ + m.name + "]"@];
    match prepended_path(path, m.env, home) {
        Err(e) => (head, Err(e)),
        Ok(p) => {
            let (lines, r) = steps_plan(m, module_steps_spec(m, platform), home, present);
            (
                head + lines,
                match r {
                    Ok(()) => Ok(p),
                    Err(e) => Err(e),
                },
            )
        },
    }
}

/// The lines of the modules in order, `PATH` passed from one to the next.
pub open spec fn modules_plan(
    ms: Seq<ModuleView>,
    platform: Platform,
    path: Seq<char>,
    home: Option<Seq<char>>,
    present: Seq<Seq<bool>>,
) -> (Seq<Seq<char>>, Result<Seq<char>, MoiErrorView>)
    decreases ms.len(),
{
    if ms.len() == 0 {
        (Seq::empty(), Ok(path))
    } else {
        let (lines, r) = modules_plan(ms.drop_last(), platform, path, home, present);
        match r {
            Err(e) => (lines, Err(e)),
            Ok(p) => {
                let (more, r2) = module_plan(
                    ms.last(),
                    platform,
                    p,
                    home,
                    present_of(present, ms.len() - 1),
                );
                (lines + more, r2)
            },
        }
    }
}

/// Everything a plan shows, and how it ends.
pub open spec fn plan_spec(
    ms: Seq<ModuleView>,
    platform: Platform,
    show_followups: bool,
    path: Seq<char>,
    home: Option<Seq<char>>,
    present: Seq<Seq<bool>>,
) -> (Seq<Seq<char>>, Result<(), MoiErrorView>) {
    let (lines, r) = modules_plan(ms, platform, path, home, present);
    let body = plan_header_spec(ms, platform) + lines;
    match r {
        Err(e) => (body, Err(e)),
        Ok(_) => (
            body + if show_followups {
                followup_lines_spec(ms)
            } else {
                Seq::empty()
            },
            Ok(()),
        ),
    }
}

fn append_lines(lines: &mut Vec<String>, more: Vec<String>)
    ensures
        strings_view(final(lines)@) == strings_view(old(lines)@) + strings_view(more@),
{
    let ghost start = strings_view(lines@);
    let mut more = more;
    let mut i: usize = 0;
    let n = more.len();
    let ghost mv = strings_view(more@);
    while i < n
        invariant
            i <= n,
            n == more@.len(),
            mv == strings_view(more@),
            strings_view(lines@) == start + mv.take(i as int),
        decreases n - i,
    {
        let line = more[i].clone();
        proof {
            crate::text::lemma_strings_view_push(lines@, line);
            assert(mv[i as int] == more@[i as int]@);
            assert(mv.take(i + 1) =~= mv.take(i as int).push(line@));
        }
        lines.push(line);
        i += 1;
    }
    assert(mv.take(n as int) =~= mv);
}

/// The lines that describe the module's operations, up to the first error.
fn plan_steps(
    module: &Module,
    steps: &Vec<ModuleStep>,
    home: Option<&str>,
    present: &Vec<bool>,
) -> (r: (Vec<String>, Result<(), MoiError>))
    ensures
        strings_view(r.0@) == steps_plan(module@, steps@, opt_str_view(home), present@).0,
        match steps_plan(module@, steps@, opt_str_view(home), present@).1 {
            Ok(()) => r.1 is Ok,
            Err(e) => r.1 matches Err(x) && x@ == e,
        },
{
    let mut lines: Vec<String> = Vec::new();
    let mut i: usize = 0;
    assert(steps@.take(0) =~= Seq::<ModuleStep>::empty());
    assert(strings_view(lines@) =~= Seq::<Seq<char>>::empty());
    while i < steps.len()
        invariant
            i <= steps.len(),
            strings_view(lines@) == steps_plan(
                module@,
                steps@.take(i as int),
                opt_str_view(home),
                present@,
            ).0,
            steps_plan(module@, steps@.take(i as int), opt_str_view(home), present@).1 is Ok,
        decreases steps.len() - i,
    {
        let source_is_file = if i < present.len() {
            present[i]
        } else {
            true
        };
        let ghost t = steps@.take(i + 1);
        proof {
            assert(t.drop_last() =~= steps@.take(i as int));
            assert(t.last() == steps@[i as int]);
        }
        match steps[i].plan_lines(module, home, source_is_file) {
            Err(e) => {
                proof {
                    lemma_steps_plan_stops(module@, steps@, opt_str_view(home), present@, i + 1);
                }
                return (lines, Err(e));
            },
            Ok(more) => {
                append_lines(&mut lines, more);
            },
        }
        i += 1;
    }
    assert(steps@.take(steps.len() as int) =~= steps@);
    (lines, Ok(()))
}

proof fn lemma_steps_plan_stops(
    m: ModuleView,
    steps: Seq<ModuleStep>,
    home: Option<Seq<char>>,
    present: Seq<bool>,
    k: int,
)
    requires
        0 <= k <= steps.len(),
        steps_plan(m, steps.take(k), home, present).1 is Err,
    ensures
        steps_plan(m, steps, home, present) == steps_plan(m, steps.take(k), home, present),
    decreases steps.len() - k,
{
    if k < steps.len() {
        assert(steps.take(k + 1).drop_last() =~= steps.take(k));
        lemma_steps_plan_stops(m, steps, home, present, k + 1);
    } else {
        assert(steps.take(k) =~= steps);
    }
}

proof fn lemma_modules_plan_stops(
    ms: Seq<ModuleView>,
    platform: Platform,
    path: Seq<char>,
    home: Option<Seq<char>>,
    present: Seq<Seq<bool>>,
    k: int,
)
    requires
        0 <= k <= ms.len(),
        modules_plan(ms.take(k), platform, path, home, present).1 is Err,
    ensures
        modules_plan(ms, platform, path, home, present) == modules_plan(
            ms.take(k),
            platform,
            path,
            home,
            present,
        ),
    decreases ms.len() - k,
{
    if k < ms.len() {
        assert(ms.take(k + 1).drop_last() =~= ms.take(k));
        lemma_modules_plan_stops(ms, platform, path, home, present, k + 1);
    } else {
        assert(ms.take(k) =~= ms);
    }
}

/// The lines of one module, with `env` taking the module's `PATH`
/// additions.
fn plan_module(
    module: &Module,
    platform: Platform,
    env: &mut ExecutionEnv,
    home: Option<&str>,
    present: &Vec<bool>,
) -> (r: (Vec<String>, Result<(), MoiError>))
    ensures
        strings_view(r.0@) == module_plan(
            module@,
            platform,
            old(env)@,
            opt_str_view(home),
            present@,
        ).0,
        match module_plan(module@, platform, old(env)@, opt_str_view(home), present@).1 {
            Ok(p) => r.1 is Ok && final(env)@ == p,
            Err(e) => r.1 matches Err(x) && x@ == e,
        },
{
    let mut lines: Vec<String> = Vec::new();
    let head = crate::report::plan_module_line(module);
    proof {
        crate::text::lemma_strings_view_push(lines@, head);
    }
    lines.push(head);
    assert(strings_view(lines@) =~= seq!["["@ + module@.name + "]"@]);
    match env.apply_module_env(module, home) {
        Err(e) => {
            return (lines, Err(e));
        },
        Ok(()) => {},
    }
    let steps = crate::steps::module_steps(module, platform);
    let (more, result) = plan_steps(module, &steps, home, present);
    append_lines(&mut lines, more);
    (lines, result)
}

/// Everything `plan` shows for the modules in order, and how it ends: the
/// heading; each module's line and the descriptions of its operations on the
/// platform, its `PATH` additions (with `~` expanded by `home`) checked on
/// `start`; then the follow-ups when shown. `present[i][j]` tells whether the
/// source of the `j`-th operation of the `i`-th module is a regular file. The
/// first error ends the lines.
pub fn plan_output(
    modules: &Vec<&Module>,
    platform: Platform,
    show_followups: bool,
    start: ExecutionEnv,
    home: Option<&str>,
    present: &Vec<Vec<bool>>,
) -> (r: (Vec<String>, Result<(), MoiError>))
    ensures
        strings_view(r.0@) == plan_spec(
            module_views(modules@),
            platform,
            show_followups,
            start@,
            opt_str_view(home),
            answers_view(present@),
        ).0,
        match plan_spec(
            module_views(modules@),
            platform,
            show_followups,
            start@,
            opt_str_view(home),
            answers_view(present@),
        ).1 {
            Ok(()) => r.1 is Ok,
            Err(e) => r.1 matches Err(x) && x@ == e,
        },
{
    let ghost ms = module_views(modules@);
    let ghost pv = answers_view(present@);
    let ghost path0 = start@;
    let mut env = start;
    let mut lines = crate::report::plan_header(modules, platform);
    let ghost header = strings_view(lines@);
    let mut i: usize = 0;
    assert(ms.take(0) =~= Seq::<ModuleView>::empty());
    assert(header + Seq::<Seq<char>>::empty() =~= header);
    while i < modules.len()
        invariant
            i <= modules.len(),
            ms == module_views(modules@),
            ms.len() == modules@.len(),
            pv == answers_view(present@),
            path0 == start@,
            header == plan_header_spec(ms, platform),
            strings_view(lines@) == header + modules_plan(
                ms.take(i as int),
                platform,
                path0,
                opt_str_view(home),
                pv,
            ).0,
            modules_plan(ms.take(i as int), platform, path0, opt_str_view(home), pv).1 == Ok::<
                Seq<char>,
                MoiErrorView,
            >(env@),
        decreases modules.len() - i,
    {
        let empty: Vec<bool> = Vec::new();
        let answers = if i < present.len() {
            &present[i]
        } else {
            &empty
        };
        proof {
            assert(ms[i as int] == modules@[i as int]@);
            assert(ms.take(i + 1).drop_last() =~= ms.take(i as int));
            assert(ms.take(i + 1).last() == ms[i as int]);
            if i < present@.len() {
                assert(pv[i as int] == present@[i as int]@);
            }
            assert(answers@ == present_of(pv, i as int));
        }
        let ghost before = strings_view(lines@);
        let ghost path_before = env@;
        let (more, result) = plan_module(modules[i], platform, &mut env, home, answers);
        append_lines(&mut lines, more);
        proof {
            assert(strings_view(lines@) =~= header + modules_plan(
                ms.take(i + 1),
                platform,
                path0,
                opt_str_view(home),
                pv,
            ).0);
        }
        match result {
            Err(e) => {
                proof {
                    let mp = module_plan(
                        ms[i as int],
                        platform,
                        path_before,
                        opt_str_view(home),
                        present_of(pv, i as int),
                    );
                    assert(mp.1 == Err::<Seq<char>, MoiErrorView>(e@));
                    assert(modules_plan(ms.take(i + 1), platform, path0, opt_str_view(home), pv).1
                        == Err::<Seq<char>, MoiErrorView>(e@));
                    lemma_modules_plan_stops(ms, platform, path0, opt_str_view(home), pv, i + 1);
                    let whole = plan_spec(ms, platform, show_followups, path0, opt_str_view(home), pv);
                    assert(whole.1 == Err::<(), MoiErrorView>(e@));
                    assert(strings_view(lines@) == whole.0);
                }
                return (lines, Err(e));
            },
            Ok(()) => {},
        }
        i += 1;
    }
    assert(ms.take(modules.len() as int) =~= ms);
    if show_followups {
        let more = crate::report::followup_lines(modules);
        append_lines(&mut lines, more);
    } else {
        assert(strings_view(lines@) =~= strings_view(lines@) + Seq::<Seq<char>>::empty());
    }
    (lines, Ok(()))
}

} // verus!
