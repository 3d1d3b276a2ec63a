use vstd::prelude::*;
use vstd::string::StrSliceExecFns;

verus! {

/// Whether `c` is one of the ASCII decimal digits.
pub open spec fn is_digit(c: char) -> bool {
    '0' <= c && c <= '9'
}

/// The value of a decimal digit.
pub open spec fn digit_value(c: char) -> nat {
    ((c as u32) - ('0' as u32)) as nat
}

/// Whether every character of `s` is a decimal digit.
pub open spec fn all_digits(s: Seq<char>) -> bool {
    forall|i: int| 0 <= i < s.len() ==> is_digit(#[trigger] s[i])
}

/// The number that the digits `s` spell in base ten, most significant first.
pub open spec fn decimal_value(s: Seq<char>) -> nat
    decreases s.len(),
{
    if s.len() == 0 {
        0
    } else {
        decimal_value(s.drop_last()) * 10 + digit_value(s.last())
    }
}

/// The digits of `s`: `s` without one leading `+`, if it has one.
pub open spec fn unsigned_part(s: Seq<char>) -> Seq<char> {
    if s.len() > 0 && s[0] == '+' {
        s.drop_first()
    } else {
        s
    }
}

/// The `u32` that the text `s` denotes, if any: an optional `+` followed by
/// at least one decimal digit, with a value that fits in a `u32`. Nothing
/// else is accepted, not even surrounding whitespace.
pub open spec fn parse_u32(s: Seq<char>) -> Option<u32> {
    let d = unsigned_part(s);
    if d.len() > 0 && all_digits(d) && decimal_value(d) <= u32::MAX {
        Some(decimal_value(d) as u32)
    } else {
        None
    }
}

/// The text that `str::trim` leaves of `s`.
pub uninterp spec fn trimmed(s: Seq<char>) -> Seq<char>;

/// Relies on `str::trim`: the slice of `s` without its leading and trailing
/// whitespace, which depends on the characters of `s` alone.
#[verifier::external_body]
fn trim_text(s: &str) -> (r: &str)
    ensures
        r@ == trimmed(s@),
{
    s.trim()
}

/// Reads a guess from text that has already been trimmed: an optional `+`
/// and decimal digits whose value fits in a `u32`.
pub fn parse_guess(text: &str) -> (r: Option<u32>)
    ensures
        r == parse_u32(text@),
{
    let n = text.unicode_len();
    let mut i: usize = 0;
    if n > 0 && text.get_char(0) == '+' {
        i = 1;
    }
    let start = i;
    if start == n {
        return None;
    }
    proof {
        assert(unsigned_part(text@) =~= text@.subrange(start as int, n as int));
    }
    let mut acc: u32 = 0;
    let mut overflow = false;
    while i < n
        invariant
            n == text@.len(),
            start <= i <= n,
            unsigned_part(text@) =~= text@.subrange(start as int, n as int),
            all_digits(text@.subrange(start as int, i as int)),
            !overflow ==> acc == decimal_value(text@.subrange(start as int, i as int)),
            overflow ==> decimal_value(text@.subrange(start as int, i as int)) > u32::MAX,
        decreases n - i,
    {
        let c = text.get_char(i);
        let ghost prefix = text@.subrange(start as int, i as int);
        let ghost next = text@.subrange(start as int, i + 1);
        assert(next.drop_last() =~= prefix);
        assert(next.last() == c);
        if !('0' <= c && c <= '9') {
            assert(!all_digits(unsigned_part(text@))) by {
                assert(unsigned_part(text@)[i - start] == c);
            }
            return None;
        }
        let d = (c as u32) - ('0' as u32);
        if !overflow {
            if acc > (u32::MAX - d) / 10 {
                overflow = true;
            } else {
                acc = acc * 10 + d;
            }
        }
        i = i + 1;
        assert(all_digits(text@.subrange(start as int, i as int))) by {
            assert forall|k: int| 0 <= k < next.len() implies is_digit(#[trigger] next[k]) by {
                if k < prefix.len() {
                    assert(next[k] == prefix[k]);
                }
            }
        }
    }
    assert(text@.subrange(start as int, n as int) =~= unsigned_part(text@));
    if overflow {
        None
    } else {
        Some(acc)
    }
}

/// Reads a guess from a line of input: the line is trimmed, then parsed as by
/// `parse_guess`.
pub fn read_guess(line: &str) -> (r: Option<u32>)
    ensures
        r == parse_u32(trimmed(line@)),
{
    let text = trim_text(line);
    parse_guess(text)
}

/// The decimal digit that stands for `d`, which is below ten.
pub open spec fn digit_char(d: nat) -> char {
    ((d + 48) as u8) as char
}

/// The shortest decimal form of `n`, most significant digit first.
pub open spec fn decimal_digits(n: nat) -> Seq<char>
    decreases n,
{
    if n < 10 {
        seq![digit_char(n)]
    } else {
        decimal_digits(n / 10).push(digit_char(n % 10))
    }
}

/// The decimal form of `n` is a non-empty run of digits that spells `n`.
pub proof fn lemma_decimal_digits(n: nat)
    ensures
        decimal_digits(n).len() > 0,
        all_digits(decimal_digits(n)),
        decimal_value(decimal_digits(n)) == n,
    decreases n,
{
    let d = decimal_digits(n);
    if n < 10 {
        assert(d.drop_last() =~= Seq::<char>::empty());
        assert(digit_value(digit_char(n)) == n);
        assert(decimal_value(d) == decimal_value(d.drop_last()) * 10 + digit_value(d.last()));
    } else {
        lemma_decimal_digits(n / 10);
        assert(d.drop_last() =~= decimal_digits(n / 10));
        assert(digit_value(digit_char(n % 10)) == n % 10);
        assert(d.last() == digit_char(n % 10));
        assert((n / 10) * 10 + n % 10 == n) by (nonlinear_arith);
        assert(decimal_value(d) == decimal_value(d.drop_last()) * 10 + digit_value(d.last()));
        assert forall|i: int| 0 <= i < d.len() implies is_digit(#[trigger] d[i]) by {
            if i < d.len() - 1 {
                assert(d[i] == decimal_digits(n / 10)[i]);
            }
        }
    }
}

/// Parsing is stable: whatever number a text denotes, reading the decimal
/// form of that number gives the same number again.
pub proof fn lemma_parse_stable(s: Seq<char>)
    ensures
        parse_u32(s) is Some ==> parse_u32(decimal_digits(parse_u32(s)->0 as nat)) == parse_u32(s),
{
    if parse_u32(s) is Some {
        lemma_parse_decimal(parse_u32(s)->0);
    }
}

/// The decimal form of any `u32` reads back as that number.
pub proof fn lemma_parse_decimal(n: u32)
    ensures
        parse_u32(decimal_digits(n as nat)) == Some(n),
{
    lemma_decimal_digits(n as nat);
    let d = decimal_digits(n as nat);
    assert(is_digit(d[0]));
    assert(unsigned_part(d) == d);
}

/// Text holds no number where a character after the optional leading `+`
/// is not a decimal digit (a letter, a `-` sign, a decimal point), or where
/// no digit follows that `+` at all (empty text).
pub proof fn lemma_malformed_text(s: Seq<char>)
    requires
        unsigned_part(s).len() == 0 || exists|i: int|
            0 <= i < unsigned_part(s).len() && !is_digit(#[trigger] unsigned_part(s)[i]),
    ensures
        parse_u32(s) is None,
{
}

} // verus!
