//! Character classes and decimal numerals used by the wire format.

use vstd::prelude::*;
use vstd::string::*;

verus! {

/// The Unicode white-space code points, exactly the class that
/// `str::split_whitespace` separates fields on.
pub open spec fn is_wspace(c: char) -> bool {
    ||| c == '\u{9}'
    ||| c == '\u{a}'
    ||| c == '\u{b}'
    ||| c == '\u{c}'
    ||| c == '\u{d}'
    ||| c == ' '
    ||| c == '\u{85}'
    ||| c == '\u{a0}'
    ||| c == '\u{1680}'
    ||| c == '\u{2000}'
    ||| c == '\u{2001}'
    ||| c == '\u{2002}'
    ||| c == '\u{2003}'
    ||| c == '\u{2004}'
    ||| c == '\u{2005}'
    ||| c == '\u{2006}'
    ||| c == '\u{2007}'
    ||| c == '\u{2008}'
    ||| c == '\u{2009}'
    ||| c == '\u{200a}'
    ||| c == '\u{2028}'
    ||| c == '\u{2029}'
    ||| c == '\u{202f}'
    ||| c == '\u{205f}'
    ||| c == '\u{3000}'
}

/// Decides [`is_wspace`], mirroring the Unicode white-space table.
pub fn is_wspace_char(c: char) -> (r: bool)
    ensures
        r == is_wspace(c),
{
    c == '\u{9}' || c == '\u{a}' || c == '\u{b}' || c == '\u{c}' || c == '\u{d}' || c == ' '
        || c == '\u{85}' || c == '\u{a0}' || c == '\u{1680}' || c == '\u{2000}' || c == '\u{2001}'
        || c == '\u{2002}' || c == '\u{2003}' || c == '\u{2004}' || c == '\u{2005}'
        || c == '\u{2006}' || c == '\u{2007}' || c == '\u{2008}' || c == '\u{2009}'
        || c == '\u{200a}' || c == '\u{2028}' || c == '\u{2029}' || c == '\u{202f}'
        || c == '\u{205f}' || c == '\u{3000}'
}

/// The value of a decimal digit character, `None` for any other character.
pub open spec fn digit_of(c: char) -> Option<u8> {
    if c == '0' {
        Some(0u8)
    } else if c == '1' {
        Some(1u8)
    } else if c == '2' {
        Some(2u8)
    } else if c == '3' {
        Some(3u8)
    } else if c == '4' {
        Some(4u8)
    } else if c == '5' {
        Some(5u8)
    } else if c == '6' {
        Some(6u8)
    } else if c == '7' {
        Some(7u8)
    } else if c == '8' {
        Some(8u8)
    } else if c == '9' {
        Some(9u8)
    } else {
        None
    }
}

pub open spec fn is_digit(c: char) -> bool {
    digit_of(c) is Some
}

/// The numeric value of a digit character (0 for non-digits).
pub open spec fn dval(c: char) -> nat {
    match digit_of(c) {
        Some(d) => d as nat,
        None => 0,
    }
}

/// Decides [`digit_of`].
pub fn digit_of_char(c: char) -> (r: Option<u8>)
    ensures
        r == digit_of(c),
{
    match c {
        '0' => Some(0u8),
        '1' => Some(1u8),
        '2' => Some(2u8),
        '3' => Some(3u8),
        '4' => Some(4u8),
        '5' => Some(5u8),
        '6' => Some(6u8),
        '7' => Some(7u8),
        '8' => Some(8u8),
        '9' => Some(9u8),
        _ => None,
    }
}

/// No digit character is white space.
pub proof fn lemma_digit_not_wspace(c: char)
    requires
        is_digit(c),
    ensures
        !is_wspace(c),
{
}

/// The digit character for a value below ten.
pub open spec fn digit_char(d: nat) -> char {
    if d == 0 {
        '0'
    } else if d == 1 {
        '1'
    } else if d == 2 {
        '2'
    } else if d == 3 {
        '3'
    } else if d == 4 {
        '4'
    } else if d == 5 {
        '5'
    } else if d == 6 {
        '6'
    } else if d == 7 {
        '7'
    } else if d == 8 {
        '8'
    } else {
        '9'
    }
}

/// The decimal numeral of `n`, most significant digit first.
pub open spec fn dec_str(n: nat) -> Seq<char>
    decreases n,
{
    if n < 10 {
        seq![digit_char(n)]
    } else {
        dec_str(n / 10).push(digit_char(n % 10))
    }
}

/// Every character of a decimal numeral is a digit, and a numeral is never
/// empty.
pub proof fn lemma_dec_str_digits(n: nat)
    ensures
        dec_str(n).len() >= 1,
        forall|i: int| 0 <= i < dec_str(n).len() ==> is_digit(#[trigger] dec_str(n)[i]),
    decreases n,
{
    if n < 10 {
        assert(is_digit(dec_str(n)[0]));
    } else {
        lemma_dec_str_digits(n / 10);
        assert forall|i: int| 0 <= i < dec_str(n).len() implies is_digit(
            #[trigger] dec_str(n)[i],
        ) by {
            if i < dec_str(n / 10).len() {
                assert(dec_str(n)[i] == dec_str(n / 10)[i]);
            } else {
                assert(dec_str(n)[i] == digit_char(n % 10));
            }
        }
    }
}

/// The value of a digit string read left to right onto an accumulator.
pub open spec fn dec_val_from(s: Seq<char>, acc: nat) -> nat
    decreases s.len(),
{
    if s.len() == 0 {
        acc
    } else {
        dec_val_from(s.drop_first(), acc * 10 + dval(s[0]))
    }
}

pub open spec fn all_digits(s: Seq<char>) -> bool {
    forall|i: int| 0 <= i < s.len() ==> is_digit(s[i])
}

/// What `u16::from_str` accepts: an optional leading `+`, then one or more
/// decimal digits whose value fits in sixteen bits.
pub open spec fn dec_u16(s: Seq<char>) -> Option<u16> {
    let body = if s.len() > 0 && s[0] == '+' {
        s.drop_first()
    } else {
        s
    };
    if body.len() > 0 && all_digits(body) && dec_val_from(body, 0) <= 65535 {
        Some(dec_val_from(body, 0) as u16)
    } else {
        None
    }
}

/// Reading one more digit multiplies the value by ten and adds the digit.
pub proof fn lemma_dec_val_push(s: Seq<char>, c: char, acc: nat)
    ensures
        dec_val_from(s.push(c), acc) == dec_val_from(s, acc) * 10 + dval(c),
    decreases s.len(),
{
    if s.len() == 0 {
        assert(s.push(c).drop_first() =~= Seq::<char>::empty());
        assert(s.push(c)[0] == c);
        assert(dec_val_from(s.push(c), acc) == dec_val_from(
            s.push(c).drop_first(),
            acc * 10 + dval(c),
        ));
        assert(dec_val_from(s, acc) == acc);
    } else {
        assert(s.push(c).drop_first() =~= s.drop_first().push(c));
        assert(s.push(c)[0] == s[0]);
        lemma_dec_val_push(s.drop_first(), c, acc * 10 + dval(s[0]));
        assert(dec_val_from(s.push(c), acc) == dec_val_from(
            s.drop_first().push(c),
            acc * 10 + dval(s[0]),
        ));
        assert(dec_val_from(s, acc) == dec_val_from(s.drop_first(), acc * 10 + dval(s[0])));
    }
}

/// The value never drops below the accumulator it started from.
pub proof fn lemma_dec_val_lower(s: Seq<char>, acc: nat)
    ensures
        dec_val_from(s, acc) >= acc,
    decreases s.len(),
{
    if s.len() > 0 {
        lemma_dec_val_lower(s.drop_first(), acc * 10 + dval(s[0]));
    }
}

/// Reading back the decimal numeral of `n` yields `n`.
pub proof fn lemma_dec_str_val(n: nat)
    ensures
        dec_val_from(dec_str(n), 0) == n,
    decreases n,
{
    if n < 10 {
        assert(dec_str(n).drop_first() =~= Seq::<char>::empty());
        assert(dval(digit_char(n)) == n);
        assert(dec_val_from(dec_str(n), 0) == dec_val_from(
            Seq::<char>::empty(),
            0 * 10 + dval(dec_str(n)[0]),
        ));
        assert(dec_val_from(Seq::<char>::empty(), 0 * 10 + dval(dec_str(n)[0])) == dval(
            digit_char(n),
        ));
    } else {
        lemma_dec_str_val(n / 10);
        lemma_dec_val_push(dec_str(n / 10), digit_char(n % 10), 0);
        assert(dval(digit_char(n % 10)) == n % 10);
        assert(dec_val_from(dec_str(n), 0) == (n / 10) * 10 + n % 10);
        vstd::arithmetic::div_mod::lemma_fundamental_div_mod(n as int, 10);
    }
}

/// A numeral below 65536 parses back to its value: numerals round-trip.
pub proof fn lemma_dec_u16_round_trip(n: nat)
    requires
        n <= 65535,
    ensures
        dec_u16(dec_str(n)) == Some(n as u16),
{
    lemma_dec_str_digits(n);
    lemma_dec_str_val(n);
    assert(dec_str(n)[0] != '+');
}

/// Formats a value below ten as its digit.
fn digit_str(d: u16) -> (r: &'static str)
    requires
        d < 10,
    ensures
        r@ == seq![digit_char(d as nat)],
{
    let s: &'static str = match d {
        0u16 => "0",
        1u16 => "1",
        2u16 => "2",
        3u16 => "3",
        4u16 => "4",
        5u16 => "5",
        6u16 => "6",
        7u16 => "7",
        8u16 => "8",
        _ => "9",
    };
    proof {
        reveal_strlit("0");
        reveal_strlit("1");
        reveal_strlit("2");
        reveal_strlit("3");
        reveal_strlit("4");
        reveal_strlit("5");
        reveal_strlit("6");
        reveal_strlit("7");
        reveal_strlit("8");
        reveal_strlit("9");
        assert(s@ =~= seq![digit_char(d as nat)]);
    }
    s
}

/// Formats `n` as its decimal numeral.
pub fn format_u16(n: u16) -> (r: String)
    ensures
        r@ == dec_str(n as nat),
    decreases n,
{
    if n < 10 {
        let r = String::from_str(digit_str(n));
        proof {
            assert(r@ =~= dec_str(n as nat));
        }
        r
    } else {
        let mut r = format_u16(n / 10);
        r.append(digit_str(n % 10));
        proof {
            assert(r@ =~= dec_str(n as nat));
        }
        r
    }
}

/// Parses a string as `u16::from_str` does: an optional `+` sign, then
/// decimal digits; overflow past 65535, an empty body, or a stray character
/// all fail.
pub fn parse_u16(s: &str) -> (r: Option<u16>)
    ensures
        r == dec_u16(s@),
{
    let n = s.unicode_len();
    let start: usize = if n >= 1 && s.get_char(0) == '+' {
        1
    } else {
        0
    };
    let ghost body: Seq<char> = if s@.len() > 0 && s@[0] == '+' {
        s@.drop_first()
    } else {
        s@
    };
    proof {
        assert(body =~= s@.subrange(start as int, n as int));
    }
    if n == start {
        return None;
    }
    let mut acc: u32 = 0;
    let mut i: usize = start;
    while i < n
        invariant
            start <= i <= n,
            n == s@.len(),
            acc <= 65535,
            body == s@.subrange(start as int, n as int),
            body == (if s@.len() > 0 && s@[0] == '+' {
                s@.drop_first()
            } else {
                s@
            }),
            forall|j: int| start <= j < i ==> is_digit(#[trigger] s@[j]),
            dec_val_from(body, 0) == dec_val_from(s@.subrange(i as int, n as int), acc as nat),
        decreases n - i,
    {
        let c = s.get_char(i);
        match digit_of_char(c) {
            None => {
                proof {
                    assert(body[i - start] == s@[i as int]);
                    assert(!is_digit(body[i - start]));
                    assert(!all_digits(body));
                    let sbody = if s@.len() > 0 && s@[0] == '+' {
                        s@.drop_first()
                    } else {
                        s@
                    };
                    assert(sbody == body);
                    assert(!(sbody.len() > 0 && all_digits(sbody) && dec_val_from(sbody, 0)
                        <= 65535));
                    assert(dec_u16(s@) is None);
                }
                return None;
            },
            Some(d) => {
                proof {
                    let rest = s@.subrange(i as int, n as int);
                    assert(rest.drop_first() =~= s@.subrange(i as int + 1, n as int));
                    assert(dval(rest[0]) == d as nat);
                }
                acc = acc * 10 + d as u32;
                if acc > 65535 {
                    proof {
                        lemma_dec_val_lower(s@.subrange(i as int + 1, n as int), acc as nat);
                        assert(dec_val_from(body, 0) >= acc);
                        assert(dec_u16(s@) is None);
                    }
                    return None;
                }
            },
        }
        i += 1;
    }
    proof {
        assert(s@.subrange(i as int, n as int) =~= Seq::<char>::empty());
        assert(dec_val_from(body, 0) == acc as nat);
        assert(forall|j: int| 0 <= j < body.len() ==> is_digit(#[trigger] body[j]));
    }
    Some(acc as u16)
}

/// Compares two strings character by character.
pub fn str_eq(a: &str, b: &str) -> (r: bool)
    ensures
        r == (a@ == b@),
{
    let na = a.unicode_len();
    let nb = b.unicode_len();
    if na != nb {
        proof {
            assert(a@ != b@);
        }
        return false;
    }
    let mut i: usize = 0;
    while i < na
        invariant
            0 <= i <= na,
            na == a@.len(),
            na == b@.len(),
            forall|j: int| 0 <= j < i ==> a@[j] == b@[j],
        decreases na - i,
    {
        if a.get_char(i) != b.get_char(i) {
            return false;
        }
        i += 1;
    }
    proof {
        assert(a@ =~= b@);
    }
    true
}

} // verus!
