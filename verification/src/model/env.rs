//! The `[env]` table: directories put in front of `PATH`.
use vstd::prelude::*;

use crate::model::validations::path_string_spec;
use crate::text::{element_label, strings_view};

verus! {

/// The `[env]` table of a module.
#[derive(Debug)]
pub struct Env {
    path_prepend: Vec<String>,
}

/// A path that `path_string` rejects: empty, or holding `$`.
pub open spec fn bad_path(p: Seq<char>) -> bool {
    p.len() == 0 || p.contains('$')
}

/// The index of the first rejected path, if any.
pub open spec fn first_bad_path(v: Seq<Seq<char>>) -> Option<int>
    decreases v.len(),
{
    if v.len() == 0 {
        None
    } else {
        match first_bad_path(v.drop_last()) {
            Some(k) => Some(k),
            None => if bad_path(v.last()) {
                Some(v.len() - 1)
            } else {
                None
            },
        }
    }
}

/// What `Env::new` decides about its paths.
pub open spec fn env_check(v: Seq<Seq<char>>) -> Result<(), Seq<char>> {
    match first_bad_path(v) {
        Some(k) => path_string_spec(v[k], element_label("env.path_prepend"@, k as nat)),
        None => Ok(()),
    }
}

impl View for Env {
    type V = Seq<Seq<char>>;

    closed spec fn view(&self) -> Seq<Seq<char>> {
        strings_view(self.path_prepend@)
    }
}

proof fn lemma_first_bad_path(v: Seq<Seq<char>>, k: int)
    requires
        0 <= k <= v.len(),
    ensures
        first_bad_path(v) matches Some(j) ==> 0 <= j < v.len() && bad_path(v[j]),
        first_bad_path(v.take(k)) is Some ==> first_bad_path(v) == first_bad_path(v.take(k)),
    decreases v.len() - k,
{
    if k < v.len() {
        assert(v.take(k + 1).drop_last() == v.take(k));
        lemma_first_bad_path(v, k + 1);
    } else {
        assert(v.take(k) == v);
        lemma_first_bad_path_bound(v);
    }
}

proof fn lemma_first_bad_path_bound(v: Seq<Seq<char>>)
    ensures
        first_bad_path(v) matches Some(j) ==> 0 <= j < v.len() && bad_path(v[j]),
    decreases v.len(),
{
    if v.len() > 0 {
        lemma_first_bad_path_bound(v.drop_last());
    }
}

impl Env {
    /// No directories to prepend.
    pub fn empty() -> (e: Env)
        ensures
            e@.len() == 0,
    {
        let e = Env { path_prepend: Vec::new() };
        assert(e@ =~= Seq::<Seq<char>>::empty());
        e
    }

    /// Directories to put in front of `PATH`, each non-empty and free of `$`.
    pub fn new(path_prepend: Vec<String>) -> (r: Result<Env, String>)
        ensures
            match r {
                Ok(e) => env_check(strings_view(path_prepend@)) == Ok::<(), Seq<char>>(()) && e@
                    == strings_view(path_prepend@),
                Err(m) => env_check(strings_view(path_prepend@)) == Err::<(), Seq<char>>(m@),
            },
    {
        let ghost sv = strings_view(path_prepend@);
        let mut i: usize = 0;
        while i < path_prepend.len()
            invariant
                sv == strings_view(path_prepend@),
                i <= path_prepend.len(),
                first_bad_path(sv.take(i as int)) is None,
            decreases path_prepend.len() - i,
        {
            let label = crate::text::element_label_string("env.path_prepend", i);
            let checked = crate::model::validations::path_string(path_prepend[i].as_str(), label.as_str());
            proof {
                assert(sv.take(i + 1).drop_last() == sv.take(i as int));
                assert(sv.take(i + 1).last() == path_prepend@[i as int]@);
                assert(sv[i as int] == path_prepend@[i as int]@);
            }
            match checked {
                Err(e) => {
                    proof {
                        lemma_first_bad_path(sv, (i + 1) as int);
                    }
                    return Err(e);
                },
                Ok(()) => {},
            }
            i += 1;
        }
        assert(sv.take(path_prepend.len() as int) == sv);
        Ok(Env { path_prepend })
    }

    /// The directories to put in front of `PATH`, in order.
    pub fn path_prepend(&self) -> (v: &Vec<String>)
        ensures
            strings_view(v@) == self@,
    {
        &self.path_prepend
    }
}

} // verus!
