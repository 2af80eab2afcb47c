//! The environment commands run in: the `PATH` that modules extend.
use vstd::prelude::*;

use crate::error::{MoiError, MoiErrorView};
use crate::model::module::Module;
use crate::path::{expand_home_spec, join};
use crate::split::{join_with, split_on};
use crate::text::opt_str_view;

verus! {

/// The error `PATH` gives when a directory holds its separator.
pub open spec fn separator_message() -> Seq<char> {
    "path segment contains separator `:`"@
}

/// Each path with `~` expanded, or the first expansion error.
pub open spec fn expand_all(paths: Seq<Seq<char>>, home: Option<Seq<char>>) -> Result<
    Seq<Seq<char>>,
    MoiErrorView,
>
    decreases paths.len(),
{
    if paths.len() == 0 {
        Ok(Seq::<Seq<char>>::empty())
    } else {
        match expand_all(paths.drop_last(), home) {
            Err(e) => Err(e),
            Ok(v) => match expand_home_spec(paths.last(), home) {
                Err(e) => Err(e),
                Ok(p) => Ok(v.push(p)),
            },
        }
    }
}

/// Some directory holds the separator of `PATH`.
pub open spec fn holds_separator(dirs: Seq<Seq<char>>) -> bool {
    exists|i: int| 0 <= i < dirs.len() && (#[trigger] dirs[i]).contains(':')
}

/// The `PATH` after a module's `path_prepend` is put in front of `old`: the
/// expanded directories, then the directories of `old`, joined by `:`.
pub open spec fn prepended_path(
    old: Seq<char>,
    prepend: Seq<Seq<char>>,
    home: Option<Seq<char>>,
) -> Result<Seq<char>, MoiErrorView> {
    if prepend.len() == 0 {
        Ok(old)
    } else {
        match expand_all(prepend, home) {
            Err(e) => Err(e),
            Ok(dirs) => if holds_separator(dirs) {
                Err(MoiErrorView::Config(separator_message()))
            } else {
                Ok(join_with(dirs + split_on(old, ':'), ':'))
            },
        }
    }
}

/// The bytes of `PATH`.
pub open spec fn path_key() -> Seq<u8> {
    seq![80u8, 65u8, 84u8, 72u8]
}

/// The position of the first `x` in `s`.
pub open spec fn first_index_of<T>(s: Seq<T>, x: T) -> Option<int>
    decreases s.len(),
{
    if s.len() == 0 {
        None
    } else {
        match first_index_of(s.drop_last(), x) {
            Some(i) => Some(i),
            None => if s.last() == x {
                Some(s.len() - 1)
            } else {
                None
            },
        }
    }
}

/// The value of an `env` entry that assigns `PATH`: what follows its first `=`
/// when what precedes it is `PATH`.
pub open spec fn path_assignment(entry: Seq<u8>) -> Option<Seq<u8>> {
    match first_index_of(entry, 61u8) {
        Some(i) => if entry.take(i) == path_key() {
            Some(entry.skip(i + 1))
        } else {
            None
        },
        None => None,
    }
}

/// The value of the last entry that assigns `PATH`.
pub open spec fn last_path_assignment(entries: Seq<Seq<u8>>) -> Option<Seq<u8>>
    decreases entries.len(),
{
    if entries.len() == 0 {
        None
    } else {
        match path_assignment(entries.last()) {
            Some(v) => Some(v),
            None => last_path_assignment(entries.drop_last()),
        }
    }
}

/// The text that bytes decode to, invalid sequences replaced by U+FFFD.
pub uninterp spec fn utf8_lossy(bytes: Seq<u8>) -> Seq<char>;

/// `String::from_utf8_lossy`: the bytes decoded as UTF-8 with each invalid
/// sequence replaced by U+FFFD. The decoding itself is not stated here; the
/// contract names it `utf8_lossy` of the bytes.
#[verifier::external_body]
fn decode_lossy(bytes: &Vec<u8>) -> (s: String)
    ensures
        s@ == utf8_lossy(bytes@),
{
    String::from_utf8_lossy(bytes.as_slice()).into_owned()
}

/// The environment that commands of a run are given.
#[derive(Debug)]
pub struct ExecutionEnv {
    path: String,
}

impl View for ExecutionEnv {
    type V = Seq<char>;

    /// The `PATH` commands are given.
    closed spec fn view(&self) -> Seq<char> {
        self.path@
    }
}

/// Joining the pieces of a split gives the text back.
pub proof fn lemma_join_split(s: Seq<char>)
    ensures
        join_with(split_on(s, ':'), ':') == s,
    decreases s.len(),
{
    if s.len() == 0 {
        assert(split_on(s, ':') == seq![Seq::<char>::empty()]);
        assert(s =~= Seq::<char>::empty());
    } else {
        let t = s.drop_last();
        lemma_join_split(t);
        crate::split::lemma_split_nonempty(t, ':');
        let p = split_on(t, ':');
        if s.last() == ':' {
            let q = p.push(Seq::<char>::empty());
            assert(q.drop_last() =~= p);
            assert(join_with(q, ':') == join_with(p, ':').push(':') + q.last());
            assert(join_with(q, ':') =~= s);
        } else {
            let q = p.update(p.len() - 1, p.last().push(s.last()));
            if p.len() == 1 {
                assert(join_with(q, ':') == q[0]);
                assert(join_with(p, ':') == p[0]);
                assert(q[0] =~= s);
            } else {
                assert(q.drop_last() =~= p.drop_last());
                assert(q.last() == p.last().push(s.last()));
                let x = join_with(p.drop_last(), ':').push(':');
                assert(join_with(q, ':') == x + q.last());
                assert(join_with(p, ':') == x + p.last());
                assert(x + p.last().push(s.last()) =~= (x + p.last()).push(s.last()));
                assert(t.push(s.last()) =~= s);
            }
        }
    }
}

proof fn lemma_expand_all_prefix(paths: Seq<Seq<char>>, home: Option<Seq<char>>, k: int)
    requires
        0 <= k <= paths.len(),
        expand_all(paths.take(k), home) is Err,
    ensures
        expand_all(paths, home) == expand_all(paths.take(k), home),
    decreases paths.len() - k,
{
    if k < paths.len() {
        assert(paths.take(k + 1).drop_last() =~= paths.take(k));
        lemma_expand_all_prefix(paths, home, k + 1);
    } else {
        assert(paths.take(k) =~= paths);
    }
}

proof fn lemma_expand_all_len(paths: Seq<Seq<char>>, home: Option<Seq<char>>)
    ensures
        expand_all(paths, home) matches Ok(v) ==> v.len() == paths.len(),
    decreases paths.len(),
{
    if paths.len() > 0 {
        lemma_expand_all_len(paths.drop_last(), home);
    }
}

/// The position of the first `=` in an entry.
fn first_equals(entry: &Vec<u8>) -> (r: Option<usize>)
    ensures
        match r {
            Some(i) => first_index_of(entry@, 61u8) == Some(i as int),
            None => first_index_of(entry@, 61u8) is None,
        },
{
    let mut i: usize = 0;
    while i < entry.len()
        invariant
            i <= entry.len(),
            first_index_of(entry@.take(i as int), 61u8) is None,
        decreases entry.len() - i,
    {
        assert(entry@.take(i + 1).drop_last() =~= entry@.take(i as int));
        if entry[i] == 61u8 {
            proof {
                lemma_first_index_prefix(entry@, 61u8, i + 1);
            }
            return Some(i);
        }
        i += 1;
    }
    assert(entry@.take(entry.len() as int) =~= entry@);
    None
}

proof fn lemma_first_index_prefix<T>(s: Seq<T>, x: T, k: int)
    requires
        0 <= k <= s.len(),
        first_index_of(s.take(k), x) is Some,
    ensures
        first_index_of(s, x) == first_index_of(s.take(k), x),
    decreases s.len() - k,
{
    if k < s.len() {
        assert(s.take(k + 1).drop_last() =~= s.take(k));
        lemma_first_index_prefix(s, x, k + 1);
    } else {
        assert(s.take(k) =~= s);
    }
}

proof fn lemma_first_index_bound<T>(s: Seq<T>, x: T)
    ensures
        first_index_of(s, x) matches Some(i) ==> 0 <= i < s.len() && s[i] == x,
    decreases s.len(),
{
    if s.len() > 0 {
        lemma_first_index_bound(s.drop_last(), x);
    }
}

/// The value an entry assigns to `PATH`, if it assigns `PATH`.
fn entry_path_value(entry: &Vec<u8>) -> (r: Option<Vec<u8>>)
    ensures
        match r {
            Some(v) => path_assignment(entry@) == Some(v@),
            None => path_assignment(entry@) is None,
        },
{
    match first_equals(entry) {
        None => None,
        Some(i) => {
            proof {
                lemma_first_index_bound(entry@, 61u8);
            }
            let is_path = i == 4 && entry[0] == 80u8 && entry[1] == 65u8 && entry[2] == 84u8
                && entry[3] == 72u8;
            proof {
                if is_path {
                    assert(entry@.take(i as int) =~= path_key());
                }
                if entry@.take(i as int) == path_key() {
                    assert(entry@.take(i as int).len() == 4);
                    assert(entry@.take(i as int)[0] == 80u8);
                    assert(entry@.take(i as int)[1] == 65u8);
                    assert(entry@.take(i as int)[2] == 84u8);
                    assert(entry@.take(i as int)[3] == 72u8);
                }
            }
            if !is_path {
                return None;
            }
            let mut value: Vec<u8> = Vec::new();
            let mut j: usize = i + 1;
            while j < entry.len()
                invariant
                    i + 1 <= j <= entry.len(),
                    value@ == entry@.subrange(i + 1, j as int),
                decreases entry.len() - j,
            {
                value.push(entry[j]);
                j += 1;
                assert(value@ =~= entry@.subrange(i + 1, j as int));
            }
            assert(value@ =~= entry@.skip(i + 1));
            Some(value)
        },
    }
}

impl ExecutionEnv {
    /// The environment of a run that starts with the given `PATH`.
    pub fn new(path: String) -> (e: ExecutionEnv)
        ensures
            e@ == path@,
    {
        ExecutionEnv { path }
    }

    /// The `PATH` commands are given.
    pub fn path(&self) -> (s: &str)
        ensures
            s@ == self@,
    {
        self.path.as_str()
    }

    /// Replaces the `PATH` commands are given.
    pub fn set_path(&mut self, path: String)
        ensures
            final(self)@ == path@,
    {
        self.path = path;
    }

    /// Puts the module's `path_prepend` directories, with `~` expanded, in
    /// front of `PATH`. On an error `PATH` is unchanged.
    pub fn apply_module_env(&mut self, module: &Module, home: Option<&str>) -> (r: Result<
        (),
        MoiError,
    >)
        ensures
            match prepended_path(old(self)@, module@.env, opt_str_view(home)) {
                Ok(p) => r is Ok && final(self)@ == p,
                Err(e) => r matches Err(x) && x@ == e && final(self)@ == old(self)@,
            },
    {
        let paths = module.env().path_prepend();
        let ghost prepend = module@.env;
        assert(prepend.len() == paths@.len());
        if paths.len() == 0 {
            return Ok(());
        }
        assert(prepend.len() > 0);
        let mut dirs: Vec<String> = Vec::new();
        let mut i: usize = 0;
        assert(prepend.take(0) =~= Seq::<Seq<char>>::empty());
        assert(crate::text::strings_view(dirs@) =~= Seq::<Seq<char>>::empty());
        while i < paths.len()
            invariant
                i <= paths.len(),
                prepend == crate::text::strings_view(paths@),
                prepend.len() == paths@.len(),
                prepend.len() > 0,
                prepend == module@.env,
                self@ == old(self)@,
                expand_all(prepend.take(i as int), opt_str_view(home)) == Ok::<
                    Seq<Seq<char>>,
                    MoiErrorView,
                >(crate::text::strings_view(dirs@)),
            decreases paths.len() - i,
        {
            proof {
                assert(prepend.take(i + 1).drop_last() =~= prepend.take(i as int));
                assert(prepend.take(i + 1).last() == paths@[i as int]@);
            }
            let ghost before = dirs@;
            let expanded = crate::path::expand_home(paths[i].as_str(), home);
            proof {
                assert(paths@[i as int]@ == prepend[i as int]);
            }
            match expanded {
                Err(e) => {
                    proof {
                        assert(expand_all(prepend.take(i + 1), opt_str_view(home)) == Err::<
                            Seq<Seq<char>>,
                            MoiErrorView,
                        >(e@));
                        lemma_expand_all_prefix(prepend, opt_str_view(home), i + 1);
                    }
                    return Err(e);
                },
                Ok(p) => {
                    dirs.push(p);
                    proof {
                        assert(dirs@.drop_last() =~= before);
                        assert(crate::text::strings_view(dirs@) =~= crate::text::strings_view(
                            before,
                        ).push(dirs@.last()@));
                    }
                },
            }
            i += 1;
        }
        assert(prepend.take(paths.len() as int) =~= prepend);
        let ghost dv = crate::text::strings_view(dirs@);
        let mut k: usize = 0;
        while k < dirs.len()
            invariant
                k <= dirs.len(),
                dv == crate::text::strings_view(dirs@),
                forall|j: int| 0 <= j < k ==> !(#[trigger] dv[j]).contains(':'),
                prepend == module@.env,
                prepend.len() > 0,
                expand_all(prepend, opt_str_view(home)) == Ok::<Seq<Seq<char>>, MoiErrorView>(dv),
                self@ == old(self)@,
            decreases dirs.len() - k,
        {
            if crate::text::has_char(dirs[k].as_str(), ':') {
                assert(dv[k as int].contains(':'));
                return Err(MoiError::config(crate::text::owned("path segment contains separator `:`")));
            }
            k += 1;
        }
        assert(!holds_separator(dv));
        let mut joined = String::new();
        let mut j: usize = 0;
        while j < dirs.len()
            invariant
                1 <= dirs.len(),
                j <= dirs.len(),
                dv == crate::text::strings_view(dirs@),
                j > 0 ==> joined@ == join_with(dv.take(j as int), ':'),
                j == 0 ==> joined@ == Seq::<char>::empty(),
            decreases dirs.len() - j,
        {
            if j > 0 {
                joined.push(':');
            }
            joined.push_str(dirs[j].as_str());
            proof {
                let t = dv.take(j + 1);
                if j == 0 {
                    assert(t =~= seq![dv[0]]);
                } else {
                    assert(t.drop_last() =~= dv.take(j as int));
                    assert(t.last() == dv[j as int]);
                }
            }
            j += 1;
        }
        assert(dv.take(dirs.len() as int) =~= dv);
        joined.push(':');
        joined.push_str(self.path.as_str());
        proof {
            let old_parts = split_on(old(self)@, ':');
            crate::split::lemma_split_nonempty(old(self)@, ':');
            lemma_join_split(old(self)@);
            crate::split::lemma_join_append(dv, old_parts, ':');
            lemma_expand_all_len(prepend, opt_str_view(home));
        }
        self.path = joined;
        Ok(())
    }

    /// The places a command is looked for: the command's name joined to each
    /// directory of `PATH`, in order.
    pub fn candidates(&self, command: &str) -> (v: Vec<String>)
        ensures
            v@.len() == split_on(self@, ':').len(),
            forall|i: int| 0 <= i < v@.len() ==> #[trigger] v@[i]@ == join(
                split_on(self@, ':')[i],
                command@,
            ),
    {
        let chars = crate::text::chars_of(self.path.as_str());
        let dirs = crate::split::split_chars(&chars, ':');
        let mut v: Vec<String> = Vec::new();
        let mut i: usize = 0;
        while i < dirs.len()
            invariant
                chars@ == self@,
                i <= dirs.len(),
                dirs@.len() == split_on(self@, ':').len(),
                forall|j: int| 0 <= j < dirs@.len() ==> #[trigger] dirs@[j]@ == split_on(self@, ':')[j],
                v@.len() == i,
                forall|j: int| 0 <= j < i ==> #[trigger] v@[j]@ == join(
                    split_on(self@, ':')[j],
                    command@,
                ),
            decreases dirs.len() - i,
        {
            let dir = crate::text::string_of(&dirs[i]);
            v.push(crate::path::join_path(dir.as_str(), command));
            i += 1;
        }
        v
    }

    /// Takes `PATH` from the output of `env -0`: the last entry that assigns
    /// `PATH` gives the new value, decoded as UTF-8; without such an entry
    /// `PATH` is unchanged.
    pub fn apply_env_dump(&mut self, dump: &Vec<u8>)
        ensures
            match last_path_assignment(split_on(dump@, 0u8)) {
                Some(v) => final(self)@ == utf8_lossy(v),
                None => final(self)@ == old(self)@,
            },
    {
        let entries = crate::split::split_bytes(dump, 0u8);
        let ghost es = split_on(dump@, 0u8);
        assert(es.take(entries.len() as int) =~= es);
        let mut i: usize = entries.len();
        while i > 0
            invariant
                i <= entries.len(),
                entries@.len() == es.len(),
                es == split_on(dump@, 0u8),
                forall|j: int| 0 <= j < entries@.len() ==> #[trigger] entries@[j]@ == es[j],
                last_path_assignment(es) == last_path_assignment(es.take(i as int)),
                self@ == old(self)@,
            decreases i,
        {
            let ghost t = es.take(i as int);
            assert(t.last() == es[i - 1]);
            assert(t.drop_last() =~= es.take(i - 1));
            assert(entries@[i - 1]@ == es[i - 1]);
            match entry_path_value(&entries[i - 1]) {
                Some(value) => {
                    assert(last_path_assignment(t) == Some(value@));
                    assert(last_path_assignment(split_on(dump@, 0u8)) == Some(value@));
                    let decoded = decode_lossy(&value);
                    self.path = decoded;
                    assert(self@ == utf8_lossy(value@));
                    return;
                },
                None => {},
            }
            i -= 1;
        }
    }
}

/// A module's `path_prepend` keeps the directories already on `PATH`: the
/// directories of the new `PATH` are the expanded ones followed by the old
/// ones.
pub proof fn lemma_prepend_keeps_existing(
    old_path: Seq<char>,
    prepend: Seq<Seq<char>>,
    home: Option<Seq<char>>,
)
    requires
        prepend.len() > 0,
        prepended_path(old_path, prepend, home) is Ok,
    ensures
        expand_all(prepend, home) matches Ok(dirs) && split_on(
            prepended_path(old_path, prepend, home)->Ok_0,
            ':',
        ) == dirs + split_on(old_path, ':'),
{
    lemma_expand_all_len(prepend, home);
    let dirs = expand_all(prepend, home)->Ok_0;
    let old_parts = split_on(old_path, ':');
    crate::split::lemma_split_nonempty(old_path, ':');
    crate::split::lemma_join_append(dirs, old_parts, ':');
    lemma_join_split(old_path);
    crate::split::lemma_split_concat(join_with(dirs, ':'), old_path, ':');
    assert forall|i: int| 0 <= i < dirs.len() implies !(#[trigger] dirs[i]).contains(':') by {
        if dirs[i].contains(':') {
            assert(holds_separator(dirs));
        }
    }
    crate::split::lemma_split_join(dirs, ':');
}

} // verus!
