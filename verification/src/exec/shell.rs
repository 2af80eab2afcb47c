//! Quoting text for `bash`.
use vstd::prelude::*;

verus! {

/// How a single quote is written inside a single-quoted word: close the
/// quotes, a double-quoted `'`, open the quotes again.
pub open spec fn escaped_quote() -> Seq<char> {
    seq!['\'', '"', '\'', '"', '\'']
}

/// The text with each `'` replaced by [`escaped_quote`].
pub open spec fn quote_body(s: Seq<char>) -> Seq<char>
    decreases s.len(),
{
    if s.len() == 0 {
        s
    } else {
        quote_body(s.drop_last()) + if s.last() == '\'' {
            escaped_quote()
        } else {
            seq![s.last()]
        }
    }
}

/// The text as one single-quoted word.
pub open spec fn shell_quoted(s: Seq<char>) -> Seq<char> {
    seq!['\''] + quote_body(s) + seq!['\'']
}

/// A character that needs no quoting: an ASCII letter or digit, or one of
/// `_@%+=:,./-`.
pub open spec fn safe_word_char(c: char) -> bool {
    ||| ('a' <= c && c <= 'z')
    ||| ('A' <= c && c <= 'Z')
    ||| ('0' <= c && c <= '9')
    ||| c == '_'
    ||| c == '@'
    ||| c == '%'
    ||| c == '+'
    ||| c == '='
    ||| c == ':'
    ||| c == ','
    ||| c == '.'
    ||| c == '/'
    ||| c == '-'
}

/// A non-empty text of characters that need no quoting.
pub open spec fn is_safe_word(s: Seq<char>) -> bool {
    s.len() > 0 && forall|i: int| 0 <= i < s.len() ==> safe_word_char(#[trigger] s[i])
}

/// The text as a shell word: unchanged when it needs no quoting, else
/// single-quoted.
pub open spec fn shell_word_spec(s: Seq<char>) -> Seq<char> {
    if is_safe_word(s) {
        s
    } else {
        shell_quoted(s)
    }
}

/// The text as one single-quoted `bash` word.
pub fn shell_quote(value: &str) -> (r: String)
    ensures
        r@ == shell_quoted(value@),
{
    let v = crate::text::chars_of(value);
    let mut out: Vec<char> = Vec::new();
    out.push('\'');
    let mut i: usize = 0;
    while i < v.len()
        invariant
            v@ == value@,
            i <= v.len(),
            out@ == seq!['\''] + quote_body(value@.take(i as int)),
        decreases v.len() - i,
    {
        let c = v[i];
        if c == '\'' {
            out.push('\'');
            out.push('"');
            out.push('\'');
            out.push('"');
            out.push('\'');
        } else {
            out.push(c);
        }
        proof {
            assert(value@.take(i + 1).drop_last() =~= value@.take(i as int));
            assert(value@.take(i + 1).last() == c);
        }
        i += 1;
        assert(out@ =~= seq!['\''] + quote_body(value@.take(i as int)));
    }
    out.push('\'');
    assert(value@.take(v.len() as int) =~= value@);
    assert(out@ =~= shell_quoted(value@));
    crate::text::string_of(&out)
}

fn is_safe_char(c: char) -> (r: bool)
    ensures
        r == safe_word_char(c),
{
    ('a' <= c && c <= 'z') || ('A' <= c && c <= 'Z') || ('0' <= c && c <= '9') || c == '_' || c
        == '@' || c == '%' || c == '+' || c == '=' || c == ':' || c == ',' || c == '.' || c == '/'
        || c == '-'
}

/// The text as a `bash` word: as it is when it is non-empty and made only of
/// ASCII letters, digits and `_@%+=:,./-`, single-quoted otherwise.
pub fn shell_word(value: &str) -> (r: String)
    ensures
        r@ == shell_word_spec(value@),
{
    let v = crate::text::chars_of(value);
    let mut safe = v.len() > 0;
    let mut i: usize = 0;
    while i < v.len()
        invariant
            v@ == value@,
            i <= v.len(),
            safe == (v.len() > 0 && forall|j: int| 0 <= j < i ==> safe_word_char(#[trigger] v@[j])),
        decreases v.len() - i,
    {
        if !is_safe_char(v[i]) {
            safe = false;
        }
        i += 1;
    }
    if safe {
        crate::text::owned(value)
    } else {
        shell_quote(value)
    }
}

} // verus!
