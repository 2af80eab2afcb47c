//! Installing the packages of the selected modules with the platform's
//! package manager: which commands run, in which order.
use vstd::prelude::*;

use crate::exec::shell::shell_quoted;
use crate::platform::Platform;
use crate::split::join_with;
use crate::text::strings_view;

verus! {

/// A command of the installation and the line that announces it.
#[derive(Debug)]
pub struct InstallStep {
    pub description: String,
    pub command: String,
}

/// The announced line and the command of each step.
pub open spec fn steps_view(v: Seq<InstallStep>) -> Seq<(Seq<char>, Seq<char>)> {
    v.map_values(|s: InstallStep| (s.description@, s.command@))
}

/// The package names as single-quoted words separated by spaces.
pub open spec fn quoted_packages(packages: Seq<Seq<char>>) -> Seq<char> {
    join_with(packages.map_values(|p: Seq<char>| shell_quoted(p)), ' ')
}

/// The `pacman` operation: `-Syu` when the system is upgraded, `-S` otherwise.
pub open spec fn pacman_operation(upgrade: bool) -> Seq<char> {
    if upgrade {
        "-Syu"@
    } else {
        "-S"@
    }
}

/// The commands that install the packages: nothing when there are none; on
/// Debian `apt update`, then `apt upgrade -y` when upgrading, then
/// `apt install -y`; on Arch one `pacman` call that upgrades the system too
/// when asked.
pub open spec fn install_steps_spec(packages: Seq<Seq<char>>, platform: Platform, upgrade: bool) -> Seq<
    (Seq<char>, Seq<char>),
> {
    let q = quoted_packages(packages);
    if packages.len() == 0 {
        Seq::empty()
    } else {
        match platform {
            Platform::Debian => seq![("apt update"@, "sudo apt update"@)] + if upgrade {
                seq![("apt upgrade"@, "sudo apt upgrade -y"@)]
            } else {
                Seq::empty()
            } + seq![("apt install "@ + q, "sudo apt install -y "@ + q)],
            Platform::Arch => {
                let line = "pacman "@ + pacman_operation(upgrade) + " --needed --noconfirm "@ + q;
                seq![(line, "sudo "@ + line)]
            },
        }
    }
}

/// The package names quoted and separated by spaces.
fn quote_packages(packages: &Vec<String>) -> (r: String)
    requires
        packages@.len() > 0,
    ensures
        r@ == quoted_packages(strings_view(packages@)),
{
    let ghost qs = strings_view(packages@).map_values(|p: Seq<char>| shell_quoted(p));
    let mut out = String::new();
    let mut i: usize = 0;
    while i < packages.len()
        invariant
            i <= packages@.len(),
            packages@.len() > 0,
            qs == strings_view(packages@).map_values(|p: Seq<char>| shell_quoted(p)),
            i > 0 ==> out@ == join_with(qs.take(i as int), ' '),
            i == 0 ==> out@ == Seq::<char>::empty(),
        decreases packages.len() - i,
    {
        if i > 0 {
            out.push(' ');
        }
        let q = crate::exec::shell::shell_quote(packages[i].as_str());
        out.push_str(q.as_str());
        proof {
            let t = qs.take(i + 1);
            assert(qs[i as int] == shell_quoted(packages@[i as int]@));
            if i == 0 {
                assert(t =~= seq![qs[0]]);
            } else {
                assert(t.drop_last() =~= qs.take(i as int));
                assert(t.last() == qs[i as int]);
                assert(join_with(t, ' ') == join_with(t.drop_last(), ' ').push(' ') + t.last());
            }
            assert(out@ =~= join_with(t, ' '));
        }
        i += 1;
    }
    assert(qs.take(packages.len() as int) =~= qs);
    out
}

fn step(description: String, command: String) -> (s: InstallStep)
    ensures
        s.description@ == description@,
        s.command@ == command@,
{
    InstallStep { description, command }
}

/// The commands that install `packages` on the platform, each with the line
/// that announces it; `upgrade` also upgrades the installed system.
pub fn install_steps(packages: &Vec<String>, platform: Platform, upgrade: bool) -> (v: Vec<
    InstallStep,
>)
    ensures
        steps_view(v@) == install_steps_spec(strings_view(packages@), platform, upgrade),
{
    let mut v: Vec<InstallStep> = Vec::new();
    if packages.len() == 0 {
        assert(steps_view(v@) =~= Seq::<(Seq<char>, Seq<char>)>::empty());
        return v;
    }
    let q = quote_packages(packages);
    match platform {
        Platform::Debian => {
            v.push(step(crate::text::owned("apt update"), crate::text::owned("sudo apt update")));
            if upgrade {
                v.push(
                    step(
                        crate::text::owned("apt upgrade"),
                        crate::text::owned("sudo apt upgrade -y"),
                    ),
                );
            }
            v.push(
                step(
                    crate::text::concat("apt install ", q.as_str()),
                    crate::text::concat("sudo apt install -y ", q.as_str()),
                ),
            );
        },
        Platform::Arch => {
            let op = if upgrade {
                "-Syu"
            } else {
                "-S"
            };
            let mut line = crate::text::concat("pacman ", op);
            line.push_str(" --needed --noconfirm ");
            line.push_str(q.as_str());
            let command = crate::text::concat("sudo ", line.as_str());
            v.push(step(line, command));
        },
    }
    assert(steps_view(v@) =~= install_steps_spec(strings_view(packages@), platform, upgrade));
    v
}

} // verus!
