//! The shell command that installs the program and runs it: the install
//! script fetched from its source and piped to `bash` with the settings in
//! the environment.
use vstd::prelude::*;

use crate::exec::shell::shell_word_spec;
use crate::os_release::{trim_end_char, trim_start_char};
use crate::path::join;
use crate::split::join_with;
use crate::text::{starts_with, strings_view};

verus! {

/// The settings of the install command.
#[derive(Debug)]
pub struct InstallCommandSettings {
    pub environment: String,
    pub folder_name: String,
    pub source: String,
    pub install_source: String,
    pub install_script: String,
}

/// The command that prints the install script: `curl` of the script's URL for
/// an `https://` source, else `cat` of the script in the local checkout
/// (`file://` removed).
pub open spec fn install_script_command_spec(install_source: Seq<char>, install_script: Seq<char>) -> Seq<
    char,
> {
    let script = trim_start_char(install_script, '/');
    if starts_with(install_source, "https://"@) {
        "curl -fsSL "@ + shell_word_spec(trim_end_char(install_source, '/') + "/"@ + script)
    } else {
        let local = if starts_with(install_source, "file://"@) {
            install_source.skip(7)
        } else {
            install_source
        };
        "cat "@ + shell_word_spec(join(local, script))
    }
}

/// The whole command: the script piped to `bash` with the settings in
/// `MOI_ENVIRONMENT`, `MOI_FOLDER_NAME` and `MOI_SOURCE`, the operation and
/// its arguments passed on as shell words.
pub open spec fn install_command_spec(
    environment: Seq<char>,
    folder_name: Seq<char>,
    source: Seq<char>,
    install_source: Seq<char>,
    install_script: Seq<char>,
    words: Seq<Seq<char>>,
) -> Seq<char> {
    install_script_command_spec(install_source, install_script) + " \\\n  | MOI_ENVIRONMENT="@
        + shell_word_spec(environment) + " MOI_FOLDER_NAME="@ + shell_word_spec(folder_name)
        + " MOI_SOURCE="@ + shell_word_spec(source) + " bash -s -- "@ + join_with(
        words.map_values(|w: Seq<char>| shell_word_spec(w)),
        ' ',
    )
}

fn chars_range(v: &Vec<char>, lo: usize, hi: usize) -> (r: String)
    requires
        lo <= hi <= v.len(),
    ensures
        r@ == v@.subrange(lo as int, hi as int),
{
    let mut out: Vec<char> = Vec::new();
    let mut i = lo;
    while i < hi
        invariant
            lo <= i <= hi <= v.len(),
            out@ == v@.subrange(lo as int, i as int),
        decreases hi - i,
    {
        out.push(v[i]);
        i += 1;
        assert(out@ =~= v@.subrange(lo as int, i as int));
    }
    crate::text::string_of(&out)
}

/// The command that prints the install script.
pub fn install_script_command(settings: &InstallCommandSettings) -> (s: String)
    ensures
        s@ == install_script_command_spec(settings.install_source@, settings.install_script@),
{
    let sv = crate::text::chars_of(settings.install_script.as_str());
    let mut start: usize = 0;
    assert(sv@.skip(0) =~= sv@);
    while start < sv.len() && sv[start] == '/'
        invariant
            start <= sv.len(),
            sv@ == settings.install_script@,
            trim_start_char(sv@, '/') == trim_start_char(sv@.skip(start as int), '/'),
        decreases sv.len() - start,
    {
        assert(sv@.skip(start as int).drop_first() =~= sv@.skip(start + 1));
        start += 1;
    }
    assert(trim_start_char(sv@.skip(start as int), '/') == sv@.skip(start as int));
    let script = chars_range(&sv, start, sv.len());
    assert(script@ =~= sv@.skip(start as int));
    let src = settings.install_source.as_str();
    let v = crate::text::chars_of(src);
    proof {
        reveal_strlit("https://");
        reveal_strlit("file://");
    }
    if crate::text::has_prefix(src, "https://") {
        let mut end: usize = v.len();
        assert(v@.subrange(0, v.len() as int) =~= v@);
        while end > 0 && v[end - 1] == '/'
            invariant
                end <= v.len(),
                v@ == src@,
                trim_end_char(src@, '/') == trim_end_char(v@.subrange(0, end as int), '/'),
            decreases end,
        {
            assert(v@.subrange(0, end as int).drop_last() =~= v@.subrange(0, end - 1));
            end -= 1;
        }
        let base = chars_range(&v, 0, end);
        let url = crate::text::concat3(base.as_str(), "/", script.as_str());
        return crate::text::concat("curl -fsSL ", crate::exec::shell::shell_word(url.as_str()).as_str());
    }
    let local = if crate::text::has_prefix(src, "file://") {
        let l = chars_range(&v, 7, v.len());
        assert(l@ =~= src@.skip(7));
        l
    } else {
        crate::text::owned(src)
    };
    let path = crate::path::join_path(local.as_str(), script.as_str());
    crate::text::concat("cat ", crate::exec::shell::shell_word(path.as_str()).as_str())
}

/// The command that installs the program and runs the operation with its
/// arguments.
pub fn build_install_command(
    settings: &InstallCommandSettings,
    operation: &str,
    args: &Vec<String>,
) -> (s: String)
    ensures
        s@ == install_command_spec(
            settings.environment@,
            settings.folder_name@,
            settings.source@,
            settings.install_source@,
            settings.install_script@,
            seq![operation@] + strings_view(args@),
        ),
{
    let ghost words = seq![operation@] + strings_view(args@);
    let ghost quoted = words.map_values(|w: Seq<char>| shell_word_spec(w));
    let mut forwarded = crate::exec::shell::shell_word(operation);
    assert(forwarded@ == join_with(quoted.take(1), ' ')) by {
        assert(quoted.take(1) =~= seq![quoted[0]]);
    }
    let mut i: usize = 0;
    while i < args.len()
        invariant
            i <= args.len(),
            words == seq![operation@] + strings_view(args@),
            quoted == words.map_values(|w: Seq<char>| shell_word_spec(w)),
            forwarded@ == join_with(quoted.take(i + 1), ' '),
        decreases args.len() - i,
    {
        forwarded.push(' ');
        let w = crate::exec::shell::shell_word(args[i].as_str());
        forwarded.push_str(w.as_str());
        proof {
            let t = quoted.take(i + 2);
            assert(t.drop_last() =~= quoted.take(i + 1));
            assert(words[i + 1] == args@[i as int]@);
            assert(t.last() == w@);
            assert(join_with(t, ' ') == join_with(t.drop_last(), ' ').push(' ') + t.last());
        }
        i += 1;
    }
    assert(quoted.take(args.len() + 1) =~= quoted);
    let mut s = install_script_command(settings);
    s.push_str(" \\\n  | MOI_ENVIRONMENT=");
    s.push_str(crate::exec::shell::shell_word(settings.environment.as_str()).as_str());
    s.push_str(" MOI_FOLDER_NAME=");
    s.push_str(crate::exec::shell::shell_word(settings.folder_name.as_str()).as_str());
    s.push_str(" MOI_SOURCE=");
    s.push_str(crate::exec::shell::shell_word(settings.source.as_str()).as_str());
    s.push_str(" bash -s -- ");
    s.push_str(forwarded.as_str());
    s
}

} // verus!
