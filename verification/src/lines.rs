//! Splitting text into lines that keep their terminating newline, and the
//! facts about that split that the block editing relies on.
use vstd::prelude::*;

verus! {

broadcast use vstd::seq_lib::group_seq_properties;

/// The text split after every `'\n'`: each piece keeps its newline, the last
/// piece may lack one, and an empty text has no pieces.
pub open spec fn split_lines(s: Seq<char>) -> Seq<Seq<char>>
    decreases s.len(),
{
    if s.len() == 0 {
        seq![]
    } else {
        let p = split_lines(s.drop_last());
        let c = s.last();
        if p.len() > 0 && p.last().len() > 0 && p.last().last() != '\n' {
            p.update(p.len() - 1, p.last().push(c))
        } else {
            p.push(seq![c])
        }
    }
}

/// The views of a vector of character vectors.
pub open spec fn lines_view(v: Seq<Vec<char>>) -> Seq<Seq<char>> {
    v.map_values(|l: Vec<char>| l@)
}

/// The text with every trailing `'\n'` removed.
pub open spec fn trim_newlines(l: Seq<char>) -> Seq<char>
    decreases l.len(),
{
    if l.len() > 0 && l.last() == '\n' {
        trim_newlines(l.drop_last())
    } else {
        l
    }
}

/// The line, without its trailing newlines, is `target`.
pub open spec fn line_matches(l: Seq<char>, target: Seq<char>) -> bool {
    trim_newlines(l) == target
}

/// How many lines match `target`.
pub open spec fn count_matches(lines: Seq<Seq<char>>, target: Seq<char>) -> nat
    decreases lines.len(),
{
    if lines.len() == 0 {
        0
    } else {
        count_matches(lines.drop_last(), target) + if line_matches(lines.last(), target) {
            1nat
        } else {
            0nat
        }
    }
}

/// The index of the first line that matches `target`, if any.
pub open spec fn first_match(lines: Seq<Seq<char>>, target: Seq<char>) -> Option<int>
    decreases lines.len(),
{
    if lines.len() == 0 {
        None
    } else {
        match first_match(lines.drop_last(), target) {
            Some(k) => Some(k),
            None => if line_matches(lines.last(), target) {
                Some(lines.len() - 1)
            } else {
                None
            },
        }
    }
}

/// Splits the text after every newline, keeping the newlines, as
/// `str::split_inclusive('\n')` does.
pub fn split_lines_inclusive(s: &Vec<char>) -> (lines: Vec<Vec<char>>)
    ensures
        lines_view(lines@) == split_lines(s@),
{
    let mut lines: Vec<Vec<char>> = Vec::new();
    let mut i: usize = 0;
    while i < s.len()
        invariant
            i <= s.len(),
            lines_view(lines@) == split_lines(s@.take(i as int)),
        decreases s.len() - i,
    {
        let c = s[i];
        let n = lines.len();
        let extend = n > 0 && lines[n - 1].len() > 0 && lines[n - 1][lines[n - 1].len() - 1] != '\n';
        let ghost before = lines_view(lines@);
        proof {
            assert(s@.take(i + 1).drop_last() == s@.take(i as int));
            assert(s@.take(i + 1).last() == c);
            if n > 0 {
                assert(before.last() == lines@[n - 1]@);
            }
        }
        if extend {
            let mut last = lines.pop().unwrap();
            last.push(c);
            lines.push(last);
            assert(lines_view(lines@) =~= before.update(before.len() - 1, before.last().push(c)));
        } else {
            let mut l: Vec<char> = Vec::new();
            l.push(c);
            lines.push(l);
            assert(lines_view(lines@) =~= before.push(seq![c]));
        }
        i += 1;
    }
    assert(s@.take(s.len() as int) == s@);
    lines
}

/// Whether the line, without its trailing newlines, equals `target`.
pub fn line_matches_exec(line: &Vec<char>, target: &Vec<char>) -> (r: bool)
    ensures
        r == line_matches(line@, target@),
{
    let mut end = line.len();
    while end > 0 && line[end - 1] == '\n'
        invariant
            end <= line.len(),
            trim_newlines(line@) == trim_newlines(line@.take(end as int)),
        decreases end,
    {
        assert(line@.take(end as int).drop_last() == line@.take(end - 1));
        end -= 1;
    }
    assert(trim_newlines(line@.take(end as int)) == line@.take(end as int));
    if end != target.len() {
        return false;
    }
    let mut i: usize = 0;
    while i < end
        invariant
            end == target.len(),
            end <= line.len(),
            trim_newlines(line@) == line@.take(end as int),
            i <= end,
            forall|j: int| 0 <= j < i ==> line@[j] == target@[j],
        decreases end - i,
    {
        if line[i] != target[i] {
            assert(line@.take(end as int)[i as int] != target@[i as int]);
            assert(line@.take(end as int) != target@);
            return false;
        }
        i += 1;
    }
    assert(line@.take(end as int) =~= target@);
    true
}

/// How many lines match `target`, and the first of them.
pub fn count_and_first(lines: &Vec<Vec<char>>, target: &Vec<char>) -> (r: (usize, Option<usize>))
    ensures
        r.0 as nat == count_matches(lines_view(lines@), target@),
        match first_match(lines_view(lines@), target@) {
            Some(k) => r.1 == Some(k as usize),
            None => r.1 is None,
        },
{
    let ghost lv = lines_view(lines@);
    let mut count: usize = 0;
    let mut first: Option<usize> = None;
    let mut i: usize = 0;
    while i < lines.len()
        invariant
            lv == lines_view(lines@),
            i <= lines.len(),
            count <= i,
            count as nat == count_matches(lv.take(i as int), target@),
            match first_match(lv.take(i as int), target@) {
                Some(k) => first == Some(k as usize) && 0 <= k < i,
                None => first is None,
            },
        decreases lines.len() - i,
    {
        let m = line_matches_exec(&lines[i], target);
        proof {
            assert(lv.take(i + 1).drop_last() == lv.take(i as int));
            assert(lv.take(i + 1).last() == lines@[i as int]@);
        }
        if m {
            count += 1;
            if first.is_none() {
                first = Some(i);
            }
        }
        i += 1;
    }
    assert(lv.take(lines.len() as int) == lv);
    (count, first)
}

/// The concatenation of the lines `from..to`.
pub fn concat_lines(lines: &Vec<Vec<char>>, from: usize, to: usize) -> (v: Vec<char>)
    requires
        from <= to <= lines.len(),
    ensures
        v@ == lines_view(lines@).subrange(from as int, to as int).flatten(),
{
    let ghost lv = lines_view(lines@);
    let mut v: Vec<char> = Vec::new();
    let mut k = from;
    assert(lv.subrange(from as int, from as int) =~= Seq::<Seq<char>>::empty());
    while k < to
        invariant
            lv == lines_view(lines@),
            from <= k <= to,
            to <= lines.len(),
            v@ == lv.subrange(from as int, k as int).flatten(),
        decreases to - k,
    {
        crate::text::extend_chars(&mut v, &lines[k]);
        proof {
            assert(lv.subrange(from as int, k + 1) =~= lv.subrange(from as int, k as int).push(
                lv[k as int],
            ));
            lv.subrange(from as int, k as int).lemma_flatten_push(lv[k as int]);
        }
        k += 1;
    }
    v
}

/// No newline occurs in the line except possibly as its last character.
pub open spec fn no_newline_before_end(l: Seq<char>) -> bool {
    forall|i: int| 0 <= i < l.len() - 1 ==> l[i] != '\n'
}

/// The shape `split_lines` produces: non-empty lines, newlines only at their
/// ends, and every line but the last ending with one.
pub open spec fn well_formed_lines(lines: Seq<Seq<char>>) -> bool {
    forall|i: int|
        #![trigger lines[i]]
        0 <= i < lines.len() ==> {
            &&& lines[i].len() > 0
            &&& no_newline_before_end(lines[i])
            &&& (i < lines.len() - 1 ==> lines[i].last() == '\n')
        }
}

/// The split is well formed, gives back the text when joined, and its last
/// line ends with the text's last character.
pub proof fn lemma_split_lines_shape(s: Seq<char>)
    ensures
        well_formed_lines(split_lines(s)),
        split_lines(s).flatten() == s,
        s.len() == 0 <==> split_lines(s).len() == 0,
        s.len() > 0 ==> split_lines(s).last().last() == s.last(),
    decreases s.len(),
{
    if s.len() == 0 {
        assert(split_lines(s) =~= Seq::<Seq<char>>::empty());
        assert(s =~= Seq::<char>::empty());
    } else {
        let s0 = s.drop_last();
        let c = s.last();
        lemma_split_lines_shape(s0);
        let p = split_lines(s0);
        assert(s0.push(c) =~= s);
        if p.len() > 0 && p.last().len() > 0 && p.last().last() != '\n' {
            let n = p.len();
            let x = p.last();
            let q = p.update(n - 1, x.push(c));
            assert(split_lines(s) == q);
            assert forall|i: int| 0 <= i < x.len() implies x[i] != '\n' by {
                if i < x.len() - 1 {
                    assert(p[n - 1] == x);
                } else {
                    assert(x[i] == x.last());
                }
            }
            assert forall|i: int| #![trigger q[i]] 0 <= i < q.len() implies {
                &&& q[i].len() > 0
                &&& no_newline_before_end(q[i])
                &&& (i < q.len() - 1 ==> q[i].last() == '\n')
            } by {
                if i < n - 1 {
                    assert(q[i] == p[i]);
                } else {
                    assert(q[i] == x.push(c));
                }
            }
            assert(p =~= p.drop_last().push(x));
            assert(q =~= p.drop_last().push(x.push(c)));
            p.drop_last().lemma_flatten_push(x);
            p.drop_last().lemma_flatten_push(x.push(c));
            assert(q.flatten() =~= s);
        } else {
            let q = p.push(seq![c]);
            assert(split_lines(s) == q);
            assert forall|i: int| #![trigger q[i]] 0 <= i < q.len() implies {
                &&& q[i].len() > 0
                &&& no_newline_before_end(q[i])
                &&& (i < q.len() - 1 ==> q[i].last() == '\n')
            } by {
                if i < p.len() {
                    assert(q[i] == p[i]);
                    if i == p.len() - 1 {
                        assert(p[i] == p.last());
                    }
                } else {
                    assert(q[i] == seq![c]);
                }
            }
            p.lemma_flatten_push(seq![c]);
            assert(q.flatten() =~= s);
        }
    }
}

/// Splitting text that ends with a newline, followed by more text, splits
/// the two parts separately.
pub proof fn lemma_split_lines_concat(a: Seq<char>, b: Seq<char>)
    requires
        a.len() == 0 || a.last() == '\n',
    ensures
        split_lines(a + b) == split_lines(a) + split_lines(b),
    decreases b.len(),
{
    if b.len() == 0 {
        assert(a + b =~= a);
        assert(split_lines(a) + split_lines(b) =~= split_lines(a));
    } else {
        let b0 = b.drop_last();
        let c = b.last();
        lemma_split_lines_concat(a, b0);
        assert((a + b).drop_last() =~= a + b0);
        assert((a + b).last() == c);
        let pa = split_lines(a);
        let pb = split_lines(b0);
        lemma_split_lines_shape(a);
        lemma_split_lines_shape(b0);
        let p = pa + pb;
        assert(split_lines(a + b0) == p);
        if b0.len() > 0 {
            assert(p.last() == pb.last());
            if pb.last().len() > 0 && pb.last().last() != '\n' {
                assert(p.update(p.len() - 1, p.last().push(c)) =~= pa + pb.update(
                    pb.len() - 1,
                    pb.last().push(c),
                ));
            } else {
                assert(p.push(seq![c]) =~= pa + pb.push(seq![c]));
            }
        } else {
            assert(pb =~= Seq::<Seq<char>>::empty());
            assert(p =~= pa);
            assert(split_lines(b) =~= seq![seq![c]]) by {
                assert(b.drop_last() =~= b0);
            }
            assert(pa.push(seq![c]) =~= pa + seq![seq![c]]);
        }
    }
}

/// A non-empty line without an inner newline splits into itself.
pub proof fn lemma_split_single_line(l: Seq<char>)
    requires
        l.len() > 0,
        no_newline_before_end(l),
    ensures
        split_lines(l) == seq![l],
    decreases l.len(),
{
    let l0 = l.drop_last();
    let c = l.last();
    if l0.len() == 0 {
        assert(split_lines(l0) =~= Seq::<Seq<char>>::empty());
        assert(l =~= seq![c]);
    } else {
        assert forall|i: int| 0 <= i < l0.len() - 1 implies l0[i] != '\n' by {
            assert(l0[i] == l[i]);
        }
        lemma_split_single_line(l0);
        assert(l0.last() == l[l0.len() - 1]);
        assert(l0.push(c) =~= l);
        assert(seq![l0].update(0, l0.push(c)) =~= seq![l]);
    }
}

/// Joining well-formed lines and splitting again gives the same lines.
pub proof fn lemma_split_flatten(lines: Seq<Seq<char>>)
    requires
        well_formed_lines(lines),
    ensures
        split_lines(lines.flatten()) == lines,
    decreases lines.len(),
{
    if lines.len() == 0 {
        assert(lines.flatten() =~= Seq::<char>::empty());
        assert(split_lines(lines.flatten()) =~= lines);
    } else {
        let q = lines.drop_last();
        let l = lines.last();
        assert(lines =~= q.push(l));
        assert forall|i: int| #![trigger q[i]] 0 <= i < q.len() implies {
            &&& q[i].len() > 0
            &&& no_newline_before_end(q[i])
            &&& (i < q.len() - 1 ==> q[i].last() == '\n')
        } by {
            assert(q[i] == lines[i]);
        }
        lemma_split_flatten(q);
        q.lemma_flatten_push(l);
        if q.len() > 0 {
            lemma_flatten_last(q);
            assert(q.last() == lines[q.len() - 1]);
        } else {
            assert(q.flatten() =~= Seq::<char>::empty());
        }
        assert(lines[lines.len() - 1] == l);
        lemma_split_lines_concat(q.flatten(), l);
        lemma_split_single_line(l);
        assert(q + seq![l] =~= lines);
    }
}

/// The last character of joined lines is that of the last line.
pub proof fn lemma_flatten_last(q: Seq<Seq<char>>)
    requires
        q.len() > 0,
        q.last().len() > 0,
    ensures
        q.flatten().len() > 0,
        q.flatten().last() == q.last().last(),
{
    assert(q =~= q.drop_last().push(q.last()));
    q.drop_last().lemma_flatten_push(q.last());
}

/// Counting and finding matches over two runs of lines.
pub proof fn lemma_count_first_concat(x: Seq<Seq<char>>, y: Seq<Seq<char>>, t: Seq<char>)
    ensures
        count_matches(x + y, t) == count_matches(x, t) + count_matches(y, t),
        first_match(x + y, t) == match first_match(x, t) {
            Some(k) => Some(k),
            None => match first_match(y, t) {
                Some(k) => Some(k + x.len()),
                None => None::<int>,
            },
        },
    decreases y.len(),
{
    if y.len() == 0 {
        assert(x + y =~= x);
    } else {
        lemma_count_first_concat(x, y.drop_last(), t);
        assert((x + y).drop_last() =~= x + y.drop_last());
        assert((x + y).last() == y.last());
    }
}

/// Replacing the last line by one that matches just as it did changes no
/// count and no first match.
pub proof fn lemma_update_last_same_match(p: Seq<Seq<char>>, l: Seq<char>, t: Seq<char>)
    requires
        p.len() > 0,
        line_matches(l, t) == line_matches(p.last(), t),
    ensures
        count_matches(p.update(p.len() - 1, l), t) == count_matches(p, t),
        first_match(p.update(p.len() - 1, l), t) == first_match(p, t),
{
    let q = p.update(p.len() - 1, l);
    assert(q.drop_last() =~= p.drop_last());
    assert(q.last() == l);
}

/// A trailing newline does not change how a line matches.
pub proof fn lemma_trim_push_newline(l: Seq<char>)
    ensures
        trim_newlines(l.push('\n')) == trim_newlines(l),
{
    assert(l.push('\n').drop_last() =~= l);
}

/// Text that does not end with a newline is its own trimmed form.
pub proof fn lemma_trim_no_newline(l: Seq<char>)
    requires
        l.len() == 0 || l.last() != '\n',
    ensures
        trim_newlines(l) == l,
{
}

/// Appending newlines to text adds or extends only lines that cannot match a
/// non-empty target, so counts and first matches stay.
pub proof fn lemma_newlines_keep_matches(e: Seq<char>, k: nat, t: Seq<char>)
    requires
        t.len() > 0,
    ensures
        count_matches(split_lines(e + crate::text::newlines(k)), t) == count_matches(split_lines(e), t),
        first_match(split_lines(e + crate::text::newlines(k)), t) == first_match(split_lines(e), t),
    decreases k,
{
    if k == 0 {
        assert(e + crate::text::newlines(0) =~= e);
    } else {
        let k0 = (k - 1) as nat;
        lemma_newlines_keep_matches(e, k0, t);
        let s0 = e + crate::text::newlines(k0);
        let s = e + crate::text::newlines(k);
        assert(s.drop_last() =~= s0);
        assert(s.last() == '\n');
        let p = split_lines(s0);
        if p.len() > 0 && p.last().len() > 0 && p.last().last() != '\n' {
            lemma_trim_push_newline(p.last());
            lemma_update_last_same_match(p, p.last().push('\n'), t);
        } else {
            let q = p.push(seq!['\n']);
            assert(q.drop_last() =~= p);
            assert(trim_newlines(seq!['\n']) == Seq::<char>::empty()) by {
                reveal_with_fuel(trim_newlines, 2);
                assert(seq!['\n'].drop_last() =~= Seq::<char>::empty());
                assert(seq!['\n'].last() == '\n');
            }
        }
    }
}

} // verus!
