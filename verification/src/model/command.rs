//! Commands a module runs, with the executables they need and the guard that
//! lets them be skipped.
use vstd::prelude::*;

use crate::model::platform_filter::PlatformFilter;
use crate::text::{opt_string_view, strings_view};

verus! {

/// A `[[commands]]` entry of a module.
#[derive(Debug)]
pub struct Command {
    platform: PlatformFilter,
    run: String,
    unless: Option<String>,
    required: Vec<String>,
}

/// The abstract value of a [`Command`].
pub struct CommandView {
    pub platform: PlatformFilter,
    pub run: Seq<char>,
    pub unless: Option<Seq<char>>,
    pub required: Seq<Seq<char>>,
}

/// A character allowed in an executable name.
pub open spec fn executable_char(c: char) -> bool {
    ||| ('a' as u32 <= c as u32 && c as u32 <= 'z' as u32)
    ||| ('A' as u32 <= c as u32 && c as u32 <= 'Z' as u32)
    ||| ('0' as u32 <= c as u32 && c as u32 <= '9' as u32)
    ||| c == '.'
    ||| c == '_'
    ||| c == '+'
    ||| c == '-'
}

/// A bare executable name: non-empty, ASCII letters, digits, `.`, `_`, `+`
/// and `-` only.
pub open spec fn valid_executable(value: Seq<char>) -> bool {
    value.len() > 0 && forall|i: int| 0 <= i < value.len() ==> executable_char(#[trigger] value[i])
}

/// The index of the first name that is not a valid executable, if any.
pub open spec fn first_invalid_executable(v: Seq<Seq<char>>) -> Option<int>
    decreases v.len(),
{
    if v.len() == 0 {
        None
    } else {
        match first_invalid_executable(v.drop_last()) {
            Some(k) => Some(k),
            None => if !valid_executable(v.last()) {
                Some(v.len() - 1)
            } else {
                None
            },
        }
    }
}

/// What `Command::new` decides about its arguments.
pub open spec fn command_check(run: Seq<char>, unless: Option<Seq<char>>, required: Seq<Seq<char>>) -> Result<
    (),
    Seq<char>,
> {
    if run.len() == 0 {
        Err("command run must be a non-empty string"@)
    } else if unless == Some(Seq::<char>::empty()) {
        Err("command unless must be a non-empty string"@)
    } else {
        match first_invalid_executable(required) {
            Some(k) => Err("invalid executable name \""@ + required[k] + "\""@),
            None => Ok(()),
        }
    }
}

impl View for Command {
    type V = CommandView;

    closed spec fn view(&self) -> CommandView {
        CommandView {
            platform: self.platform,
            run: self.run@,
            unless: opt_string_view(self.unless),
            required: strings_view(self.required@),
        }
    }
}

/// Whether the value is a bare executable name.
pub fn is_valid_executable(value: &str) -> (r: bool)
    ensures
        r == valid_executable(value@),
{
    let v = crate::text::chars_of(value);
    if v.len() == 0 {
        return false;
    }
    let mut i: usize = 0;
    while i < v.len()
        invariant
            v@ == value@,
            i <= v.len(),
            forall|j: int| 0 <= j < i ==> executable_char(#[trigger] v@[j]),
        decreases v.len() - i,
    {
        let c = v[i];
        let u = c as u32;
        let ok = ('a' as u32 <= u && u <= 'z' as u32) || ('A' as u32 <= u && u <= 'Z' as u32) || (
        '0' as u32 <= u && u <= '9' as u32) || c == '.' || c == '_' || c == '+' || c == '-';
        if !ok {
            assert(!executable_char(value@[i as int]));
            return false;
        }
        i += 1;
    }
    true
}

fn find_invalid_executable(v: &Vec<String>) -> (r: Option<usize>)
    ensures
        match first_invalid_executable(strings_view(v@)) {
            Some(k) => r == Some(k as usize),
            None => r is None,
        },
        r matches Some(k) ==> k < v.len() && first_invalid_executable(strings_view(v@)) == Some(
            k as int,
        ),
{
    proof {
        lemma_first_invalid_bound(strings_view(v@));
    }
    let ghost sv = strings_view(v@);
    let mut i: usize = 0;
    while i < v.len()
        invariant
            sv == strings_view(v@),
            i <= v.len(),
            first_invalid_executable(sv.take(i as int)) is None,
        decreases v.len() - i,
    {
        proof {
            assert(sv.take(i + 1).drop_last() == sv.take(i as int));
            assert(sv.take(i + 1).last() == v@[i as int]@);
        }
        if !is_valid_executable(v[i].as_str()) {
            proof {
                lemma_first_invalid_prefix(sv, (i + 1) as int);
            }
            return Some(i);
        }
        i += 1;
    }
    assert(sv.take(v.len() as int) == sv);
    None
}

proof fn lemma_first_invalid_bound(v: Seq<Seq<char>>)
    ensures
        first_invalid_executable(v) matches Some(k) ==> 0 <= k < v.len() && !valid_executable(v[k]),
    decreases v.len(),
{
    if v.len() > 0 {
        lemma_first_invalid_bound(v.drop_last());
    }
}

proof fn lemma_first_invalid_prefix(v: Seq<Seq<char>>, k: int)
    requires
        0 <= k <= v.len(),
        first_invalid_executable(v.take(k)) is Some,
    ensures
        first_invalid_executable(v) == first_invalid_executable(v.take(k)),
    decreases v.len() - k,
{
    if k < v.len() {
        assert(v.take(k + 1).drop_last() == v.take(k));
        lemma_first_invalid_prefix(v, k + 1);
    } else {
        assert(v.take(k) == v);
    }
}

proof fn lemma_first_invalid_none(v: Seq<Seq<char>>)
    ensures
        first_invalid_executable(v) is None <==> forall|k: int|
            0 <= k < v.len() ==> valid_executable(#[trigger] v[k]),
    decreases v.len(),
{
    if v.len() > 0 {
        let front = v.drop_last();
        lemma_first_invalid_none(front);
        assert forall|k: int| 0 <= k < front.len() implies front[k] == v[k] by {}
        if forall|k: int| 0 <= k < v.len() ==> valid_executable(#[trigger] v[k]) {
            assert forall|k: int| 0 <= k < front.len() implies valid_executable(
                #[trigger] front[k],
            ) by {
                assert(valid_executable(v[k]));
            }
            assert(valid_executable(v[v.len() - 1]));
        } else if first_invalid_executable(v) is None {
            assert forall|k: int| 0 <= k < v.len() implies valid_executable(#[trigger] v[k]) by {
                if k < front.len() {
                    assert(valid_executable(front[k]));
                }
            }
        }
    }
}

/// Law: once `run` is non-empty and `unless` is absent or non-empty, a
/// command is accepted exactly when every required executable is a bare
/// name: not empty, and made only of ASCII letters and digits and the
/// characters `.`, `_`, `+` and `-` (so `docker-compose`, `ssh-keygen` and
/// `g++` are accepted, while a path such as `bin/tool` or a name with a
/// space is not).
pub proof fn lemma_required_executable_names(
    run: Seq<char>,
    unless: Option<Seq<char>>,
    required: Seq<Seq<char>>,
)
    requires
        run.len() > 0,
        unless != Some(Seq::<char>::empty()),
    ensures
        command_check(run, unless, required) is Ok <==> forall|k: int|
            0 <= k < required.len() ==> (#[trigger] required[k]).len() > 0 && forall|i: int|
                0 <= i < required[k].len() ==> {
                    let c = #[trigger] required[k][i];
                    ||| ('a' as u32 <= c as u32 && c as u32 <= 'z' as u32)
                    ||| ('A' as u32 <= c as u32 && c as u32 <= 'Z' as u32)
                    ||| ('0' as u32 <= c as u32 && c as u32 <= '9' as u32)
                    ||| c == '.'
                    ||| c == '_'
                    ||| c == '+'
                    ||| c == '-'
                },
{
    lemma_first_invalid_none(required);
    lemma_first_invalid_bound(required);
}

impl Command {
    /// A command entry, after its checks: `run` non-empty, `unless` absent or
    /// non-empty, and every required executable a bare name.
    pub fn new(platform: PlatformFilter, run: String, unless: Option<String>, required: Vec<String>) -> (r:
        Result<Command, String>)
        ensures
            match r {
                Ok(c) => command_check(run@, opt_string_view(unless), strings_view(required@))
                    == Ok::<(), Seq<char>>(()) && c@ == (CommandView {
                    platform,
                    run: run@,
                    unless: opt_string_view(unless),
                    required: strings_view(required@),
                }),
                Err(e) => command_check(run@, opt_string_view(unless), strings_view(required@))
                    == Err::<(), Seq<char>>(e@),
            },
    {
        if run.as_str().is_empty() {
            return Err(crate::text::owned("command run must be a non-empty string"));
        }
        let unless_empty = match &unless {
            Some(u) => u.as_str().is_empty(),
            None => false,
        };
        if unless_empty {
            assert(opt_string_view(unless) == Some(Seq::<char>::empty()));
            return Err(crate::text::owned("command unless must be a non-empty string"));
        }
        proof {
            if let Some(u) = &unless {
                assert(u@.len() != 0);
                assert(u@ != Seq::<char>::empty());
            }
        }
        match find_invalid_executable(&required) {
            Some(k) => {
                let mut message = crate::text::concat("invalid executable name \"", required[k].as_str());
                message.push_str("\"");
                assert(strings_view(required@)[k as int] == required@[k as int]@);
                assert(run@.len() != 0);
                assert(opt_string_view(unless) != Some(Seq::<char>::empty()));
                assert(first_invalid_executable(strings_view(required@)) == Some(k as int));
                assert(message@ == "invalid executable name \""@ + required@[k as int]@ + "\""@);
                return Err(message);
            },
            None => {},
        }
        Ok(Command { platform, run, unless, required })
    }

    /// The platforms the entry applies to.
    pub fn platform(&self) -> (f: PlatformFilter)
        ensures
            f == self@.platform,
    {
        self.platform
    }

    /// The shell command to run.
    pub fn run(&self) -> (s: &str)
        ensures
            s@ == self@.run,
    {
        self.run.as_str()
    }

    /// The guard: when it succeeds, the command is skipped.
    pub fn unless(&self) -> (s: Option<&str>)
        ensures
            crate::text::opt_str_view(s) == self@.unless,
    {
        match &self.unless {
            Some(u) => Some(u.as_str()),
            None => None,
        }
    }

    /// The executables that must be found before the command runs.
    pub fn required(&self) -> (v: &Vec<String>)
        ensures
            strings_view(v@) == self@.required,
    {
        &self.required
    }
}

} // verus!
