//! Lists of items separated by a separator, such as the directories of
//! `PATH` (separated by `:`) or the entries printed by `env -0` (separated by
//! a zero byte): splitting and joining, and how the two undo each other.
use vstd::prelude::*;

verus! {

/// The pieces of `s` between occurrences of `sep`, as `slice::split` gives
/// them: there is always one piece more than there are separators, so the
/// empty sequence has one empty piece.
pub open spec fn split_on<T>(s: Seq<T>, sep: T) -> Seq<Seq<T>>
    decreases s.len(),
{
    if s.len() == 0 {
        seq![Seq::<T>::empty()]
    } else {
        let p = split_on(s.drop_last(), sep);
        if s.last() == sep {
            p.push(Seq::<T>::empty())
        } else {
            p.update(p.len() - 1, p.last().push(s.last()))
        }
    }
}

/// The pieces written one after the other with `sep` between two neighbours.
pub open spec fn join_with<T>(parts: Seq<Seq<T>>, sep: T) -> Seq<T>
    decreases parts.len(),
{
    if parts.len() == 0 {
        Seq::<T>::empty()
    } else if parts.len() == 1 {
        parts[0]
    } else {
        join_with(parts.drop_last(), sep).push(sep) + parts.last()
    }
}

/// A split has at least one piece.
pub proof fn lemma_split_nonempty<T>(s: Seq<T>, sep: T)
    ensures
        split_on(s, sep).len() >= 1,
    decreases s.len(),
{
    if s.len() > 0 {
        lemma_split_nonempty(s.drop_last(), sep);
    }
}

/// Splitting `a`, the separator and `b` gives the pieces of `a` followed by
/// those of `b`.
pub proof fn lemma_split_concat<T>(a: Seq<T>, b: Seq<T>, sep: T)
    ensures
        split_on(a.push(sep) + b, sep) == split_on(a, sep) + split_on(b, sep),
    decreases b.len(),
{
    let s = a.push(sep) + b;
    lemma_split_nonempty(a, sep);
    if b.len() == 0 {
        assert(s == a.push(sep));
        assert(s.drop_last() == a);
        assert(split_on(b, sep) == seq![Seq::<T>::empty()]);
        assert(split_on(s, sep) =~= split_on(a, sep) + split_on(b, sep));
    } else {
        assert(s.drop_last() == a.push(sep) + b.drop_last());
        assert(s.last() == b.last());
        lemma_split_concat(a, b.drop_last(), sep);
        lemma_split_nonempty(b.drop_last(), sep);
        let pa = split_on(a, sep);
        let pb = split_on(b.drop_last(), sep);
        if b.last() == sep {
            assert(split_on(s, sep) =~= pa + split_on(b, sep));
        } else {
            let q = pa + pb;
            assert(q.len() - 1 == pa.len() + pb.len() - 1);
            assert(q.last() == pb.last());
            assert(split_on(s, sep) =~= pa + split_on(b, sep));
        }
    }
}

/// A sequence without the separator is a single piece.
pub proof fn lemma_split_single<T>(s: Seq<T>, sep: T)
    requires
        !s.contains(sep),
    ensures
        split_on(s, sep) == seq![s],
    decreases s.len(),
{
    if s.len() == 0 {
        assert(s =~= Seq::<T>::empty());
        assert(split_on(s, sep) == seq![Seq::<T>::empty()]);
    } else {
        assert(!s.drop_last().contains(sep)) by {
            if s.drop_last().contains(sep) {
                let k = choose|k: int| 0 <= k < s.drop_last().len() && s.drop_last()[k] == sep;
                assert(s[k] == sep);
            }
        }
        lemma_split_single(s.drop_last(), sep);
        assert(s.last() != sep) by {
            assert(s[s.len() - 1] == s.last());
        }
        assert(s.drop_last().push(s.last()) =~= s);
        let p = split_on(s.drop_last(), sep);
        assert(p == seq![s.drop_last()]);
        assert(split_on(s, sep) == p.update(p.len() - 1, p.last().push(s.last())));
        assert(p.update(p.len() - 1, p.last().push(s.last())) =~= seq![s]);
    }
}

/// Joining pieces that do not hold the separator and splitting the result
/// gives the pieces back.
pub proof fn lemma_split_join<T>(parts: Seq<Seq<T>>, sep: T)
    requires
        parts.len() >= 1,
        forall|i: int| 0 <= i < parts.len() ==> !(#[trigger] parts[i]).contains(sep),
    ensures
        split_on(join_with(parts, sep), sep) == parts,
    decreases parts.len(),
{
    if parts.len() == 1 {
        lemma_split_single(parts[0], sep);
        assert(parts =~= seq![parts[0]]);
    } else {
        let init = parts.drop_last();
        assert forall|i: int| 0 <= i < init.len() implies !(#[trigger] init[i]).contains(sep) by {
            assert(init[i] == parts[i]);
        }
        lemma_split_join(init, sep);
        lemma_split_concat(join_with(init, sep), parts.last(), sep);
        assert(!parts[parts.len() - 1].contains(sep));
        lemma_split_single(parts.last(), sep);
        assert(init + seq![parts.last()] =~= parts);
    }
}

/// Joining pieces of which the first `n` are given first.
pub proof fn lemma_join_append<T>(a: Seq<Seq<T>>, b: Seq<Seq<T>>, sep: T)
    requires
        a.len() >= 1,
        b.len() >= 1,
    ensures
        join_with(a + b, sep) == join_with(a, sep).push(sep) + join_with(b, sep),
    decreases b.len(),
{
    if b.len() == 1 {
        assert((a + b).drop_last() =~= a);
        assert((a + b).last() == b[0]);
    } else {
        let b0 = b.drop_last();
        lemma_join_append(a, b0, sep);
        assert((a + b).drop_last() =~= a + b0);
        assert((a + b).last() == b.last());
        assert(join_with(a + b, sep) == join_with(a + b0, sep).push(sep) + b.last());
        assert(join_with(b, sep) == join_with(b0, sep).push(sep) + b.last());
        assert(join_with(a + b, sep) =~= join_with(a, sep).push(sep) + join_with(b, sep));
    }
}

/// The pieces of a text separated by `sep`.
pub fn split_chars(s: &Vec<char>, sep: char) -> (parts: Vec<Vec<char>>)
    ensures
        parts@.len() == split_on(s@, sep).len(),
        forall|i: int| 0 <= i < parts@.len() ==> #[trigger] parts@[i]@ == split_on(s@, sep)[i],
{
    let mut parts: Vec<Vec<char>> = Vec::new();
    let mut current: Vec<char> = Vec::new();
    let mut i: usize = 0;
    while i < s.len()
        invariant
            i <= s.len(),
            parts@.len() + 1 == split_on(s@.take(i as int), sep).len(),
            forall|j: int| 0 <= j < parts@.len() ==> #[trigger] parts@[j]@ == split_on(
                s@.take(i as int),
                sep,
            )[j],
            current@ == split_on(s@.take(i as int), sep).last(),
        decreases s.len() - i,
    {
        let ghost before = split_on(s@.take(i as int), sep);
        proof {
            lemma_split_nonempty(s@.take(i as int), sep);
            assert(s@.take(i + 1).drop_last() =~= s@.take(i as int));
            assert(s@.take(i + 1).last() == s@[i as int]);
        }
        if s[i] == sep {
            parts.push(current);
            current = Vec::new();
            assert(current@ =~= Seq::<char>::empty());
        } else {
            current.push(s[i]);
        }
        i += 1;
        proof {
            let after = split_on(s@.take(i as int), sep);
            assert forall|j: int| 0 <= j < parts@.len() implies #[trigger] parts@[j]@ == after[j] by {
                if j < before.len() - 1 {
                    assert(parts@[j]@ == before[j]);
                }
            }
        }
    }
    proof {
        assert(s@.take(s.len() as int) =~= s@);
        lemma_split_nonempty(s@, sep);
    }
    let ghost last_piece = current@;
    parts.push(current);
    proof {
        assert forall|j: int| 0 <= j < parts@.len() implies #[trigger] parts@[j]@ == split_on(
            s@,
            sep,
        )[j] by {
            if j == parts@.len() - 1 {
                assert(parts@[j]@ == last_piece);
            }
        }
    }
    parts
}

/// The pieces of a byte string separated by `sep`.
pub fn split_bytes(s: &Vec<u8>, sep: u8) -> (parts: Vec<Vec<u8>>)
    ensures
        parts@.len() == split_on(s@, sep).len(),
        forall|i: int| 0 <= i < parts@.len() ==> #[trigger] parts@[i]@ == split_on(s@, sep)[i],
{
    let mut parts: Vec<Vec<u8>> = Vec::new();
    let mut current: Vec<u8> = Vec::new();
    let mut i: usize = 0;
    while i < s.len()
        invariant
            i <= s.len(),
            parts@.len() + 1 == split_on(s@.take(i as int), sep).len(),
            forall|j: int| 0 <= j < parts@.len() ==> #[trigger] parts@[j]@ == split_on(
                s@.take(i as int),
                sep,
            )[j],
            current@ == split_on(s@.take(i as int), sep).last(),
        decreases s.len() - i,
    {
        let ghost before = split_on(s@.take(i as int), sep);
        proof {
            lemma_split_nonempty(s@.take(i as int), sep);
            assert(s@.take(i + 1).drop_last() =~= s@.take(i as int));
            assert(s@.take(i + 1).last() == s@[i as int]);
        }
        if s[i] == sep {
            parts.push(current);
            current = Vec::new();
            assert(current@ =~= Seq::<u8>::empty());
        } else {
            current.push(s[i]);
        }
        i += 1;
        proof {
            let after = split_on(s@.take(i as int), sep);
            assert forall|j: int| 0 <= j < parts@.len() implies #[trigger] parts@[j]@ == after[j] by {
                if j < before.len() - 1 {
                    assert(parts@[j]@ == before[j]);
                }
            }
        }
    }
    proof {
        assert(s@.take(s.len() as int) =~= s@);
        lemma_split_nonempty(s@, sep);
    }
    let ghost last_piece = current@;
    parts.push(current);
    proof {
        assert forall|j: int| 0 <= j < parts@.len() implies #[trigger] parts@[j]@ == split_on(
            s@,
            sep,
        )[j] by {
            if j == parts@.len() - 1 {
                assert(parts@[j]@ == last_piece);
            }
        }
    }
    parts
}

} // verus!
