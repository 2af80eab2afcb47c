//! File permission modes written as three or four octal digits.
use vstd::prelude::*;

use crate::text::digit_char;

verus! {

/// A permission mode, at most `0o7777`.
#[derive(Debug, Clone, Copy, PartialEq, Eq)]
pub struct Mode(u32);

/// `c` is one of the digits `0` to `7`.
pub open spec fn is_octal_digit(c: char) -> bool {
    '0' as u32 <= c as u32 && c as u32 <= '7' as u32
}

/// The numeric value of an octal digit.
pub open spec fn octal_digit_value(c: char) -> nat {
    (c as u32 - '0' as u32) as nat
}

/// The text is accepted as a mode: three or four octal digits.
pub open spec fn valid_mode_text(s: Seq<char>) -> bool {
    3 <= s.len() <= 4 && forall|i: int| 0 <= i < s.len() ==> is_octal_digit(#[trigger] s[i])
}

/// The value of a string of octal digits.
pub open spec fn octal_value(s: Seq<char>) -> nat
    decreases s.len(),
{
    if s.len() == 0 {
        0
    } else {
        octal_value(s.drop_last()) * 8 + octal_digit_value(s.last())
    }
}

/// The four-digit, zero-padded octal notation of `v`.
pub open spec fn mode_text(v: nat) -> Seq<char> {
    seq![
        digit_char((v / 512) % 8),
        digit_char((v / 64) % 8),
        digit_char((v / 8) % 8),
        digit_char(v % 8),
    ]
}

/// The error text for a rejected mode.
pub open spec fn invalid_mode_message(s: Seq<char>) -> Seq<char> {
    "invalid mode: "@ + s
}

impl Mode {
    #[verifier::type_invariant]
    spec fn wf(self) -> bool {
        self.0 < 4096
    }

    /// The numeric value of the mode.
    pub closed spec fn spec_value(self) -> nat {
        self.0 as nat
    }

    /// The numeric value of the mode.
    pub fn value(self) -> (v: u32)
        ensures
            v as nat == self.spec_value(),
            v < 4096,
    {
        proof {
            use_type_invariant(&self);
        }
        self.0
    }

    /// Parses a mode written as three or four octal digits.
    pub fn new(mode: &str) -> (r: Result<Mode, String>)
        ensures
            r is Ok <==> valid_mode_text(mode@),
            r matches Ok(m) ==> m.spec_value() == octal_value(mode@),
            r matches Err(e) ==> e@ == invalid_mode_message(mode@),
    {
        let v = crate::text::chars_of(mode);
        if v.len() < 3 || v.len() > 4 {
            return Err(crate::text::concat("invalid mode: ", mode));
        }
        let mut value: u32 = 0;
        let mut i: usize = 0;
        while i < v.len()
            invariant
                v@ == mode@,
                3 <= v.len() <= 4,
                i <= v.len(),
                forall|j: int| 0 <= j < i ==> is_octal_digit(#[trigger] v@[j]),
                value as nat == octal_value(v@.take(i as int)),
                i == 0 ==> value == 0,
                i <= 1 ==> value < 8,
                i <= 2 ==> value < 64,
                i <= 3 ==> value < 512,
                value < 4096,
            decreases v.len() - i,
        {
            let c = v[i];
            if (c as u32) < ('0' as u32) || (c as u32) > ('7' as u32) {
                assert(!is_octal_digit(mode@[i as int]));
                return Err(crate::text::concat("invalid mode: ", mode));
            }
            proof {
                lemma_octal_step(v@, i as int);
            }
            value = value * 8 + ((c as u32) - ('0' as u32));
            i += 1;
        }
        assert(v@.take(v.len() as int) == v@);
        Ok(Mode(value))
    }

    /// The mode in four-digit octal notation, as `{:04o}` writes it.
    pub fn to_string(&self) -> (s: String)
        ensures
            s@ == mode_text(self.spec_value()),
    {
        proof {
            use_type_invariant(self);
        }
        let v = self.0;
        let mut out: Vec<char> = Vec::new();
        out.push(octal_digit((v / 512) % 8));
        out.push(octal_digit((v / 64) % 8));
        out.push(octal_digit((v / 8) % 8));
        out.push(octal_digit(v % 8));
        assert(out@ =~= mode_text(self.spec_value()));
        crate::text::string_of(&out)
    }
}

proof fn lemma_digit_roundtrip(c: char)
    requires
        is_octal_digit(c),
    ensures
        digit_char(octal_digit_value(c)) == c,
        octal_digit_value(c) < 8,
{
}

proof fn lemma_digit_value(d: nat)
    requires
        d < 8,
    ensures
        is_octal_digit(digit_char(d)),
        octal_digit_value(digit_char(d)) == d,
{
}

/// Law: a mode written with four digits is displayed exactly as written, and
/// one written with three digits is displayed with a leading `0`.
pub proof fn lemma_display_of_parsed(s: Seq<char>)
    requires
        valid_mode_text(s),
    ensures
        s.len() == 4 ==> mode_text(octal_value(s)) == s,
        s.len() == 3 ==> mode_text(octal_value(s)) == seq!['0'] + s,
{
    reveal_with_fuel(octal_value, 5);
    let n = s.len() as int;
    let d = octal_digit_value(s[n - 1]);
    let c = octal_digit_value(s[n - 2]);
    let b = octal_digit_value(s[n - 3]);
    lemma_digit_roundtrip(s[n - 1]);
    lemma_digit_roundtrip(s[n - 2]);
    lemma_digit_roundtrip(s[n - 3]);
    assert(s.drop_last().last() == s[n - 2]);
    assert(s.drop_last().drop_last().last() == s[n - 3]);
    if n == 4 {
        let a = octal_digit_value(s[0]);
        lemma_digit_roundtrip(s[0]);
        assert(s.drop_last().drop_last().drop_last().last() == s[0]);
        assert(s.drop_last().drop_last().drop_last().drop_last().len() == 0);
        let v = octal_value(s);
        assert(v == ((a * 8 + b) * 8 + c) * 8 + d);
        assert((v / 512) % 8 == a && (v / 64) % 8 == b && (v / 8) % 8 == c && v % 8 == d)
            by (nonlinear_arith)
            requires
                v == ((a * 8 + b) * 8 + c) * 8 + d,
                a < 8,
                b < 8,
                c < 8,
                d < 8,
        ;
        assert(mode_text(v) =~= s);
    } else {
        assert(s.drop_last().drop_last().drop_last().len() == 0);
        let v = octal_value(s);
        assert(v == (b * 8 + c) * 8 + d);
        assert((v / 512) % 8 == 0 && (v / 64) % 8 == b && (v / 8) % 8 == c && v % 8 == d)
            by (nonlinear_arith)
            requires
                v == (b * 8 + c) * 8 + d,
                b < 8,
                c < 8,
                d < 8,
        ;
        assert(mode_text(v) =~= seq!['0'] + s);
    }
}

/// Law: the displayed form of any mode value (every mode is below `0o10000`)
/// is accepted again and denotes the same value.
pub proof fn lemma_parse_of_display(v: nat)
    requires
        v < 4096,
    ensures
        valid_mode_text(mode_text(v)),
        octal_value(mode_text(v)) == v,
{
    let a = (v / 512) % 8;
    let b = (v / 64) % 8;
    let c = (v / 8) % 8;
    let d = v % 8;
    lemma_digit_value(a);
    lemma_digit_value(b);
    lemma_digit_value(c);
    lemma_digit_value(d);
    let t = mode_text(v);
    reveal_with_fuel(octal_value, 5);
    assert(t.drop_last().drop_last().drop_last().drop_last().len() == 0);
    assert(t.drop_last().drop_last().drop_last().last() == t[0]);
    assert(t.drop_last().drop_last().last() == t[1]);
    assert(t.drop_last().last() == t[2]);
    assert(((a * 8 + b) * 8 + c) * 8 + d == v) by (nonlinear_arith)
        requires
            v < 4096,
            a == (v / 512) % 8,
            b == (v / 64) % 8,
            c == (v / 8) % 8,
            d == v % 8,
    ;
}

proof fn lemma_octal_step(s: Seq<char>, i: int)
    requires
        0 <= i < s.len(),
    ensures
        octal_value(s.take(i + 1)) == octal_value(s.take(i)) * 8 + octal_digit_value(s[i]),
{
    assert(s.take(i + 1).drop_last() == s.take(i));
}

fn octal_digit(d: u32) -> (c: char)
    requires
        d < 8,
    ensures
        c == digit_char(d as nat),
{
    match d {
        0 => '0',
        1 => '1',
        2 => '2',
        3 => '3',
        4 => '4',
        5 => '5',
        6 => '6',
        _ => '7',
    }
}

} // verus!
