//! Reading `/etc/os-release` and telling the platform from its `ID` and
//! `ID_LIKE` values.
use vstd::prelude::*;

use crate::error::{MoiError, MoiErrorView};
use crate::platform::Platform;
use crate::split::split_on;
use crate::text::{opt_str_view, strings_view};

verus! {

/// A character with Unicode's `White_Space` property, as `char::is_whitespace`
/// documents it.
pub open spec fn unicode_whitespace(c: char) -> bool {
    ||| ('\u{9}' <= c && c <= '\u{d}')
    ||| c == ' '
    ||| c == '\u{85}'
    ||| c == '\u{a0}'
    ||| c == '\u{1680}'
    ||| ('\u{2000}' <= c && c <= '\u{200a}')
    ||| c == '\u{2028}'
    ||| c == '\u{2029}'
    ||| c == '\u{202f}'
    ||| c == '\u{205f}'
    ||| c == '\u{3000}'
}

/// The line without a final carriage return.
pub open spec fn strip_cr(l: Seq<char>) -> Seq<char> {
    if l.len() > 0 && l.last() == '\r' {
        l.drop_last()
    } else {
        l
    }
}

/// The lines of a text as `str::lines` gives them: split at `\n`, a final
/// line ending optional, and a `\r` just before a `\n` removed.
pub open spec fn text_lines(s: Seq<char>) -> Seq<Seq<char>> {
    let pieces = split_on(s, '\n');
    let ended = pieces.drop_last().map_values(|l: Seq<char>| strip_cr(l));
    if s.len() == 0 || s.last() == '\n' {
        ended
    } else {
        ended.push(pieces.last())
    }
}

/// The text without leading whitespace.
pub open spec fn trim_start_ws(s: Seq<char>) -> Seq<char>
    decreases s.len(),
{
    if s.len() > 0 && unicode_whitespace(s[0]) {
        trim_start_ws(s.drop_first())
    } else {
        s
    }
}

/// The text without trailing whitespace.
pub open spec fn trim_end_ws(s: Seq<char>) -> Seq<char>
    decreases s.len(),
{
    if s.len() > 0 && unicode_whitespace(s.last()) {
        trim_end_ws(s.drop_last())
    } else {
        s
    }
}

/// The text without leading and trailing whitespace, as `str::trim` gives it.
pub open spec fn trim_ws(s: Seq<char>) -> Seq<char> {
    trim_end_ws(trim_start_ws(s))
}

/// The text without leading `c`.
pub open spec fn trim_start_char(s: Seq<char>, c: char) -> Seq<char>
    decreases s.len(),
{
    if s.len() > 0 && s[0] == c {
        trim_start_char(s.drop_first(), c)
    } else {
        s
    }
}

/// The text without trailing `c`.
pub open spec fn trim_end_char(s: Seq<char>, c: char) -> Seq<char>
    decreases s.len(),
{
    if s.len() > 0 && s.last() == c {
        trim_end_char(s.drop_last(), c)
    } else {
        s
    }
}

/// The words of a text as `str::split_whitespace` gives them: the non-empty
/// runs of characters between whitespace.
pub open spec fn words(s: Seq<char>) -> Seq<Seq<char>>
    decreases s.len(),
{
    if s.len() == 0 {
        Seq::empty()
    } else {
        let w = words(s.drop_last());
        let c = s.last();
        if unicode_whitespace(c) {
            w
        } else if s.len() >= 2 && !unicode_whitespace(s[s.len() - 2]) && w.len() > 0 {
            w.update(w.len() - 1, w.last().push(c))
        } else {
            w.push(seq![c])
        }
    }
}

/// The position of the first `=` of a line.
pub open spec fn first_equals_at(l: Seq<char>) -> Option<int>
    decreases l.len(),
{
    if l.len() == 0 {
        None
    } else {
        match first_equals_at(l.drop_last()) {
            Some(i) => Some(i),
            None => if l.last() == '=' {
                Some(l.len() - 1)
            } else {
                None
            },
        }
    }
}

/// The assignment a line of `/etc/os-release` makes: none for an empty line,
/// a comment, or a line without `=`; else the key before the first `=` and
/// the value after it, trimmed and without surrounding `"`.
pub open spec fn line_entry(l: Seq<char>) -> Option<(Seq<char>, Seq<char>)> {
    if l.len() == 0 || l[0] == '#' {
        None
    } else {
        match first_equals_at(l) {
            None => None,
            Some(i) => Some(
                (l.take(i), trim_end_char(trim_start_char(trim_ws(l.skip(i + 1)), '"'), '"')),
            ),
        }
    }
}

/// The assignments of the lines, in order.
pub open spec fn entries_of(lines: Seq<Seq<char>>) -> Seq<(Seq<char>, Seq<char>)>
    decreases lines.len(),
{
    if lines.len() == 0 {
        Seq::empty()
    } else {
        entries_of(lines.drop_last()) + match line_entry(lines.last()) {
            Some(e) => seq![e],
            None => Seq::empty(),
        }
    }
}

/// The value of a key: the one its last assignment gives.
pub open spec fn lookup(entries: Seq<(Seq<char>, Seq<char>)>, key: Seq<char>) -> Option<Seq<char>>
    decreases entries.len(),
{
    if entries.len() == 0 {
        None
    } else if entries.last().0 == key {
        Some(entries.last().1)
    } else {
        lookup(entries.drop_last(), key)
    }
}

/// The lowercase form of a text as `str::to_lowercase` gives it.
pub uninterp spec fn lowercase(s: Seq<char>) -> Seq<char>;

/// `str::to_lowercase`: the text with each character replaced by its Unicode
/// lowercase mapping. The mapping is not stated here; the contract names the
/// result `lowercase` of the text.
#[verifier::external_body]
pub(crate) fn to_lowercase(s: &str) -> (r: String)
    ensures
        r@ == lowercase(s@),
{
    s.to_lowercase()
}

/// The identifiers the platform is told from: the lowercase `ID`, then the
/// lowercase words of `ID_LIKE`.
pub open spec fn platform_ids(entries: Seq<(Seq<char>, Seq<char>)>) -> Seq<Seq<char>> {
    let id = match lookup(entries, "ID"@) {
        Some(v) => seq![lowercase(v)],
        None => Seq::empty(),
    };
    let like = match lookup(entries, "ID_LIKE"@) {
        Some(v) => words(v).map_values(|w: Seq<char>| lowercase(w)),
        None => Seq::empty(),
    };
    id + like
}

/// The error when no supported platform is recognised.
pub open spec fn undetected_message() -> Seq<char> {
    "could not detect supported platform from /etc/os-release"@
}

/// The platform that `/etc/os-release` names: Debian when an identifier is
/// `debian` or `ubuntu`, else Arch when one is `arch` or `archlinux`.
pub open spec fn detect_spec(content: Option<Seq<char>>) -> Result<Platform, MoiErrorView> {
    let ids = match content {
        Some(c) => platform_ids(entries_of(text_lines(c))),
        None => Seq::empty(),
    };
    if ids.contains("debian"@) || ids.contains("ubuntu"@) {
        Ok(Platform::Debian)
    } else if ids.contains("arch"@) || ids.contains("archlinux"@) {
        Ok(Platform::Arch)
    } else {
        Err(MoiErrorView::Config(undetected_message()))
    }
}

/// Whether the character is whitespace, as `char::is_whitespace` says.
pub fn is_whitespace(c: char) -> (r: bool)
    ensures
        r == unicode_whitespace(c),
{
    ('\u{9}' <= c && c <= '\u{d}') || c == ' ' || c == '\u{85}' || c == '\u{a0}' || c == '\u{1680}'
        || ('\u{2000}' <= c && c <= '\u{200a}') || c == '\u{2028}' || c == '\u{2029}' || c
        == '\u{202f}' || c == '\u{205f}' || c == '\u{3000}'
}

/// The characters from `lo` to `hi`.
fn slice_chars(v: &Vec<char>, lo: usize, hi: usize) -> (r: Vec<char>)
    requires
        lo <= hi <= v.len(),
    ensures
        r@ == v@.subrange(lo as int, hi as int),
{
    let mut r: Vec<char> = Vec::new();
    let mut i = lo;
    while i < hi
        invariant
            lo <= i <= hi <= v.len(),
            r@ == v@.subrange(lo as int, i as int),
        decreases hi - i,
    {
        r.push(v[i]);
        i += 1;
        assert(r@ =~= v@.subrange(lo as int, i as int));
    }
    r
}

/// The lines of a text, as `str::lines` gives them.
pub fn lines_of(s: &str) -> (v: Vec<Vec<char>>)
    ensures
        v@.len() == text_lines(s@).len(),
        forall|i: int| 0 <= i < v@.len() ==> #[trigger] v@[i]@ == text_lines(s@)[i],
{
    let chars = crate::text::chars_of(s);
    let pieces = crate::split::split_chars(&chars, '\n');
    let ghost ps = split_on(s@, '\n');
    let ghost ended = ps.drop_last().map_values(|l: Seq<char>| strip_cr(l));
    proof {
        crate::split::lemma_split_nonempty(s@, '\n');
    }
    let n: usize = pieces.len() - 1;
    let mut v: Vec<Vec<char>> = Vec::new();
    let mut i: usize = 0;
    while i < n
        invariant
            i <= n,
            n + 1 == pieces@.len(),
            pieces@.len() == ps.len(),
            ended == ps.drop_last().map_values(|l: Seq<char>| strip_cr(l)),
            forall|j: int| 0 <= j < pieces@.len() ==> #[trigger] pieces@[j]@ == ps[j],
            v@.len() == i,
            forall|j: int| 0 <= j < i ==> #[trigger] v@[j]@ == ended[j],
        decreases n - i,
    {
        let piece = &pieces[i];
        let line = if piece.len() > 0 && piece[piece.len() - 1] == '\r' {
            slice_chars(piece, 0, piece.len() - 1)
        } else {
            slice_chars(piece, 0, piece.len())
        };
        proof {
            assert(pieces@[i as int]@ == ps[i as int]);
            assert(ended[i as int] == strip_cr(ps[i as int]));
            assert(piece@.subrange(0, piece@.len() as int) =~= piece@);
            if piece@.len() > 0 {
                assert(piece@.subrange(0, piece@.len() - 1) =~= piece@.drop_last());
            }
        }
        v.push(line);
        i += 1;
    }
    if !(chars.len() == 0 || chars[chars.len() - 1] == '\n') {
        let last = slice_chars(&pieces[n], 0, pieces[n].len());
        proof {
            assert(pieces@[n as int]@ == ps.last());
            assert(pieces@[n as int]@.subrange(0, pieces@[n as int]@.len() as int) =~= pieces@[n as int]@);
        }
        v.push(last);
    }
    v
}

/// The text without leading and trailing whitespace.
pub(crate) fn trim_chars(v: &Vec<char>) -> (r: Vec<char>)
    ensures
        r@ == trim_ws(v@),
{
    let mut start: usize = 0;
    assert(v@.skip(0) =~= v@);
    while start < v.len() && is_whitespace(v[start])
        invariant
            start <= v.len(),
            trim_start_ws(v@) == trim_start_ws(v@.skip(start as int)),
        decreases v.len() - start,
    {
        assert(v@.skip(start as int).drop_first() =~= v@.skip(start + 1));
        start += 1;
    }
    let ghost lead = v@.skip(start as int);
    assert(trim_start_ws(lead) == lead);
    let mut end: usize = v.len();
    assert(v@.subrange(start as int, v.len() as int) =~= lead);
    while end > start && is_whitespace(v[end - 1])
        invariant
            start <= end <= v.len(),
            lead == v@.skip(start as int),
            trim_end_ws(lead) == trim_end_ws(v@.subrange(start as int, end as int)),
        decreases end,
    {
        assert(v@.subrange(start as int, end as int).drop_last() =~= v@.subrange(
            start as int,
            end - 1,
        ));
        end -= 1;
    }
    slice_chars(v, start, end)
}

/// The text without leading and trailing `c`.
fn trim_char(v: &Vec<char>, c: char) -> (r: Vec<char>)
    ensures
        r@ == trim_end_char(trim_start_char(v@, c), c),
{
    let mut start: usize = 0;
    assert(v@.skip(0) =~= v@);
    while start < v.len() && v[start] == c
        invariant
            start <= v.len(),
            trim_start_char(v@, c) == trim_start_char(v@.skip(start as int), c),
        decreases v.len() - start,
    {
        assert(v@.skip(start as int).drop_first() =~= v@.skip(start + 1));
        start += 1;
    }
    let ghost lead = v@.skip(start as int);
    assert(trim_start_char(lead, c) == lead);
    let mut end: usize = v.len();
    assert(v@.subrange(start as int, v.len() as int) =~= lead);
    while end > start && v[end - 1] == c
        invariant
            start <= end <= v.len(),
            lead == v@.skip(start as int),
            trim_end_char(lead, c) == trim_end_char(v@.subrange(start as int, end as int), c),
        decreases end,
    {
        assert(v@.subrange(start as int, end as int).drop_last() =~= v@.subrange(
            start as int,
            end - 1,
        ));
        end -= 1;
    }
    slice_chars(v, start, end)
}

/// The words of a text.
fn words_of(v: &Vec<char>) -> (r: Vec<Vec<char>>)
    ensures
        r@.len() == words(v@).len(),
        forall|i: int| 0 <= i < r@.len() ==> #[trigger] r@[i]@ == words(v@)[i],
{
    let mut r: Vec<Vec<char>> = Vec::new();
    let mut i: usize = 0;
    while i < v.len()
        invariant
            i <= v.len(),
            r@.len() == words(v@.take(i as int)).len(),
            forall|j: int| 0 <= j < r@.len() ==> #[trigger] r@[j]@ == words(v@.take(i as int))[j],
        decreases v.len() - i,
    {
        let ghost t = v@.take(i + 1);
        let ghost w = words(v@.take(i as int));
        proof {
            assert(t.drop_last() =~= v@.take(i as int));
            assert(t.last() == v@[i as int]);
            if i >= 1 {
                assert(t[t.len() - 2] == v@[i - 1]);
            }
        }
        let c = v[i];
        if is_whitespace(c) {
        } else if i >= 1 && !is_whitespace(v[i - 1]) && r.len() > 0 {
            let last = r.len() - 1;
            let mut word = r[last].clone();
            word.push(c);
            r.set(last, word);
        } else {
            let mut word: Vec<char> = Vec::new();
            word.push(c);
            r.push(word);
            assert(r@[r@.len() - 1]@ =~= seq![c]);
        }
        proof {
            let w2 = words(t);
            assert forall|j: int| 0 <= j < r@.len() implies #[trigger] r@[j]@ == w2[j] by {
                if j < w.len() && !(j == w.len() - 1 && w2.len() == w.len()) {
                    assert(r@[j]@ == w[j]);
                }
            }
        }
        i += 1;
    }
    assert(v@.take(v.len() as int) =~= v@);
    r
}

/// The value of the key in the entries: the last assignment's.
fn lookup_in(entries: &Vec<(Vec<char>, Vec<char>)>, key: &str) -> (r: Option<Vec<char>>)
    ensures
        match lookup(entries_view(entries@), key@) {
            Some(v) => r matches Some(x) && x@ == v,
            None => r is None,
        },
{
    let k = crate::text::chars_of(key);
    let ghost es = entries_view(entries@);
    let mut i: usize = entries.len();
    assert(es.take(entries.len() as int) =~= es);
    while i > 0
        invariant
            i <= entries.len(),
            k@ == key@,
            es == entries_view(entries@),
            lookup(es, key@) == lookup(es.take(i as int), key@),
        decreases i,
    {
        let ghost t = es.take(i as int);
        assert(t.drop_last() =~= es.take(i - 1));
        assert(t.last() == es[i - 1]);
        if crate::text::chars_eq(&entries[i - 1].0, &k) {
            return Some(entries[i - 1].1.clone());
        }
        i -= 1;
    }
    None
}

/// The views of the assignments.
pub open spec fn entries_view(v: Seq<(Vec<char>, Vec<char>)>) -> Seq<(Seq<char>, Seq<char>)> {
    v.map_values(|e: (Vec<char>, Vec<char>)| (e.0@, e.1@))
}

/// The assignment a line makes.
fn entry_of(l: &Vec<char>) -> (r: Option<(Vec<char>, Vec<char>)>)
    ensures
        match line_entry(l@) {
            Some(e) => r matches Some(x) && x.0@ == e.0 && x.1@ == e.1,
            None => r is None,
        },
{
    if l.len() == 0 || l[0] == '#' {
        return None;
    }
    let mut i: usize = 0;
    while i < l.len() && l[i] != '='
        invariant
            i <= l.len(),
            first_equals_at(l@.take(i as int)) is None,
        decreases l.len() - i,
    {
        assert(l@.take(i + 1).drop_last() =~= l@.take(i as int));
        i += 1;
    }
    if i == l.len() {
        assert(l@.take(i as int) =~= l@);
        return None;
    }
    proof {
        assert(l@.take(i + 1).drop_last() =~= l@.take(i as int));
        lemma_first_equals_prefix(l@, i + 1);
    }
    let key = slice_chars(l, 0, i);
    let rest = slice_chars(l, i + 1, l.len());
    assert(key@ =~= l@.take(i as int));
    assert(rest@ =~= l@.skip(i + 1));
    let trimmed = trim_chars(&rest);
    let value = trim_char(&trimmed, '"');
    Some((key, value))
}

proof fn lemma_first_equals_prefix(l: Seq<char>, k: int)
    requires
        0 <= k <= l.len(),
        first_equals_at(l.take(k)) is Some,
    ensures
        first_equals_at(l) == first_equals_at(l.take(k)),
    decreases l.len() - k,
{
    if k < l.len() {
        assert(l.take(k + 1).drop_last() =~= l.take(k));
        lemma_first_equals_prefix(l, k + 1);
    } else {
        assert(l.take(k) =~= l);
    }
}

/// The assignments of `/etc/os-release`, in order: each line that is not
/// empty, not a comment and holds `=` gives its key and its value, the value
/// trimmed and without surrounding `"`.
pub fn read_os_release(content: &str) -> (v: Vec<(Vec<char>, Vec<char>)>)
    ensures
        entries_view(v@) == entries_of(text_lines(content@)),
{
    let lines = lines_of(content);
    let ghost ls = text_lines(content@);
    let mut v: Vec<(Vec<char>, Vec<char>)> = Vec::new();
    let mut i: usize = 0;
    while i < lines.len()
        invariant
            i <= lines.len(),
            lines@.len() == ls.len(),
            forall|j: int| 0 <= j < lines@.len() ==> #[trigger] lines@[j]@ == ls[j],
            entries_view(v@) == entries_of(ls.take(i as int)),
        decreases lines.len() - i,
    {
        proof {
            assert(ls.take(i + 1).drop_last() =~= ls.take(i as int));
            assert(ls.take(i + 1).last() == ls[i as int]);
            assert(lines@[i as int]@ == ls[i as int]);
        }
        let ghost before = v@;
        match entry_of(&lines[i]) {
            Some(e) => {
                v.push(e);
                assert(entries_view(v@) =~= entries_view(before).push((e.0@, e.1@)));
            },
            None => {},
        }
        i += 1;
    }
    assert(ls.take(lines.len() as int) =~= ls);
    v
}

fn contains_text(ids: &Vec<String>, x: &str) -> (r: bool)
    ensures
        r == strings_view(ids@).contains(x@),
{
    let mut i: usize = 0;
    while i < ids.len()
        invariant
            i <= ids.len(),
            forall|j: int| 0 <= j < i ==> strings_view(ids@)[j] != x@,
        decreases ids.len() - i,
    {
        if crate::text::str_eq(ids[i].as_str(), x) {
            assert(strings_view(ids@)[i as int] == x@);
            return true;
        }
        i += 1;
    }
    false
}

/// The platform that `/etc/os-release` names, from its content (`None` when
/// it is not a regular file): Debian when `ID` or a word of `ID_LIKE` is
/// `debian` or `ubuntu` in any case, else Arch when one is `arch` or
/// `archlinux`; otherwise an error.
pub fn detect(content: Option<&str>) -> (r: Result<Platform, MoiError>)
    ensures
        match detect_spec(opt_str_view(content)) {
            Ok(p) => r matches Ok(x) && x == p,
            Err(e) => r matches Err(x) && x@ == e,
        },
{
    let mut ids: Vec<String> = Vec::new();
    match content {
        Some(c) => {
            let entries = read_os_release(c);
            let ghost es = entries_view(entries@);
            match lookup_in(&entries, "ID") {
                Some(id) => {
                    let text = crate::text::string_of(&id);
                    ids.push(to_lowercase(text.as_str()));
                },
                None => {},
            }
            let ghost first = strings_view(ids@);
            match lookup_in(&entries, "ID_LIKE") {
                Some(like) => {
                    let ws = words_of(&like);
                    let ghost wl = words(like@).map_values(|w: Seq<char>| lowercase(w));
                    let mut j: usize = 0;
                    while j < ws.len()
                        invariant
                            j <= ws.len(),
                            ws@.len() == words(like@).len(),
                            forall|k: int| 0 <= k < ws@.len() ==> #[trigger] ws@[k]@ == words(like@)[k],
                            wl == words(like@).map_values(|w: Seq<char>| lowercase(w)),
                            strings_view(ids@) == first + wl.take(j as int),
                        decreases ws.len() - j,
                    {
                        let text = crate::text::string_of(&ws[j]);
                        let lower = to_lowercase(text.as_str());
                        proof {
                            crate::text::lemma_strings_view_push(ids@, lower);
                            assert(wl.take(j + 1) =~= wl.take(j as int).push(lower@));
                        }
                        ids.push(lower);
                        j += 1;
                    }
                    assert(wl.take(ws@.len() as int) =~= wl);
                },
                None => {},
            }
            assert(strings_view(ids@) =~= platform_ids(es));
        },
        None => {
            assert(strings_view(ids@) =~= Seq::<Seq<char>>::empty());
        },
    }
    if contains_text(&ids, "debian") || contains_text(&ids, "ubuntu") {
        return Ok(Platform::Debian);
    }
    if contains_text(&ids, "arch") || contains_text(&ids, "archlinux") {
        return Ok(Platform::Arch);
    }
    Err(MoiError::config(crate::text::owned("could not detect supported platform from /etc/os-release")))
}

/// `/etc/os-release` names `t`: its `ID`, lowercased, is `t`, or one of the
/// whitespace-separated words of its `ID_LIKE`, lowercased, is `t`.
pub open spec fn os_release_names(content: Seq<char>, t: Seq<char>) -> bool {
    let es = entries_of(text_lines(content));
    ||| lookup(es, "ID"@) matches Some(id) && lowercase(id) == t
    ||| lookup(es, "ID_LIKE"@) matches Some(like) && exists|i: int|
        0 <= i < words(like).len() && lowercase(#[trigger] words(like)[i]) == t
}

proof fn lemma_platform_ids_name(content: Seq<char>, t: Seq<char>)
    ensures
        platform_ids(entries_of(text_lines(content))).contains(t) <==> os_release_names(content, t),
{
    let es = entries_of(text_lines(content));
    let id = match lookup(es, "ID"@) {
        Some(v) => seq![lowercase(v)],
        None => Seq::<Seq<char>>::empty(),
    };
    let like = match lookup(es, "ID_LIKE"@) {
        Some(v) => words(v).map_values(|w: Seq<char>| lowercase(w)),
        None => Seq::<Seq<char>>::empty(),
    };
    let ids = platform_ids(es);
    assert(ids == id + like);
    if ids.contains(t) {
        let k = choose|k: int| 0 <= k < ids.len() && ids[k] == t;
        if k < id.len() {
            assert(id[k] == t);
        } else {
            let v = lookup(es, "ID_LIKE"@)->0;
            assert(like[k - id.len()] == t);
            assert(lowercase(words(v)[k - id.len()]) == t);
        }
    }
    if os_release_names(content, t) {
        if lookup(es, "ID"@) matches Some(v) && lowercase(v) == t {
            assert(ids[0] == t);
        } else {
            let v = lookup(es, "ID_LIKE"@)->0;
            let i = choose|i: int| 0 <= i < words(v).len() && lowercase(#[trigger] words(v)[i]) == t;
            assert(like[i] == t);
            assert(ids[id.len() + i] == t);
        }
    }
}

/// Law: the platform comes from the identifiers `/etc/os-release` names.
/// Debian, or a derivative whose `ID` or `ID_LIKE` names `debian` or
/// `ubuntu` (in any case), is Debian, whatever else is named; otherwise a
/// system that names `arch` or `archlinux` is Arch; anything else, and a
/// missing file, is the error that no supported platform was found.
pub proof fn lemma_detect_platform(content: Seq<char>)
    ensures
        os_release_names(content, "debian"@) || os_release_names(content, "ubuntu"@) ==> detect_spec(
            Some(content),
        ) == Ok::<Platform, MoiErrorView>(Platform::Debian),
        !(os_release_names(content, "debian"@) || os_release_names(content, "ubuntu"@)) && (
        os_release_names(content, "arch"@) || os_release_names(content, "archlinux"@))
            ==> detect_spec(Some(content)) == Ok::<Platform, MoiErrorView>(Platform::Arch),
        !(os_release_names(content, "debian"@) || os_release_names(content, "ubuntu"@)
            || os_release_names(content, "arch"@) || os_release_names(content, "archlinux"@))
            ==> detect_spec(Some(content)) == Err::<Platform, MoiErrorView>(
            MoiErrorView::Config("could not detect supported platform from /etc/os-release"@),
        ),
        detect_spec(None) == Err::<Platform, MoiErrorView>(
            MoiErrorView::Config("could not detect supported platform from /etc/os-release"@),
        ),
{
    lemma_platform_ids_name(content, "debian"@);
    lemma_platform_ids_name(content, "ubuntu"@);
    lemma_platform_ids_name(content, "arch"@);
    lemma_platform_ids_name(content, "archlinux"@);
    assert(!Seq::<Seq<char>>::empty().contains("debian"@));
    assert(!Seq::<Seq<char>>::empty().contains("ubuntu"@));
    assert(!Seq::<Seq<char>>::empty().contains("arch"@));
    assert(!Seq::<Seq<char>>::empty().contains("archlinux"@));
}

} // verus!
