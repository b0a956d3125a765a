//! Decimal numerals: reading them from text and writing them as text.
use vstd::prelude::*;
use crate::text::{chars_of, push_char};

verus! {

/// Whether `c` is one of the decimal digits `0` to `9`.
pub open spec fn is_digit(c: char) -> bool {
    0x30 <= c as u32 && c as u32 <= 0x39
}

/// The number that a decimal digit denotes.
pub open spec fn digit_value(c: char) -> nat {
    (c as u32 - 0x30) as nat
}

/// Whether every character of `s` is a decimal digit.
pub open spec fn all_digits(s: Seq<char>) -> bool {
    forall|i: int| 0 <= i < s.len() ==> is_digit(#[trigger] s[i])
}

/// The number that a run of decimal digits denotes; the empty run denotes 0.
pub open spec fn digits_value(s: Seq<char>) -> nat
    decreases s.len(),
{
    if s.len() == 0 {
        0
    } else {
        digits_value(s.drop_last()) * 10 + digit_value(s.last())
    }
}

/// Whether `s` starts with a minus sign.
pub open spec fn has_minus(s: Seq<char>) -> bool {
    s.len() > 0 && s[0] == '-'
}

/// A numeral without its sign, if it has one.
pub open spec fn unsigned_part(s: Seq<char>) -> Seq<char> {
    if s.len() > 0 && (s[0] == '-' || s[0] == '+') {
        s.skip(1)
    } else {
        s
    }
}

/// A numeral: an optional `+` or `-`, then one decimal digit or more.
pub open spec fn is_numeral(s: Seq<char>) -> bool {
    unsigned_part(s).len() > 0 && all_digits(unsigned_part(s))
}

/// The integer that a numeral denotes.
pub open spec fn numeral_value(s: Seq<char>) -> int {
    if has_minus(s) {
        -(digits_value(unsigned_part(s)) as int)
    } else {
        digits_value(unsigned_part(s)) as int
    }
}

/// A number literal of the language: a numeral whose value a 16-bit signed
/// integer can hold.
pub open spec fn is_number(s: Seq<char>) -> bool {
    is_numeral(s) && i16::MIN <= numeral_value(s) <= i16::MAX
}

/// The value of a number literal.
pub open spec fn number_value(s: Seq<char>) -> i16 {
    numeral_value(s) as i16
}

/// A position written out: a numeral without a minus sign.
pub open spec fn is_index(s: Seq<char>) -> bool {
    is_numeral(s) && !has_minus(s)
}

/// The position that a numeral without a minus sign denotes.
pub open spec fn index_value(s: Seq<char>) -> nat {
    digits_value(unsigned_part(s))
}

/// The decimal digit for a number below ten.
pub open spec fn digit_char(d: nat) -> char {
    (0x30 + d) as u8 as char
}

/// The decimal digits of a natural number, without leading zeros.
pub open spec fn decimal(n: nat) -> Seq<char>
    decreases n,
{
    if n < 10 {
        seq![digit_char(n)]
    } else {
        decimal(n / 10).push(digit_char(n % 10))
    }
}

/// An integer in decimal, with a leading `-` when it is negative.
pub open spec fn signed_decimal(n: int) -> Seq<char> {
    if n < 0 {
        seq!['-'] + decimal((-n) as nat)
    } else {
        decimal(n as nat)
    }
}

/// One digit more multiplies the value by ten and adds the digit.
pub proof fn lemma_digits_value_push(s: Seq<char>, c: char)
    ensures
        digits_value(s.push(c)) == digits_value(s) * 10 + digit_value(c),
{
    assert(s.push(c).drop_last() =~= s);
}

/// Reads the digits of `cs` from `start` on. Returns their value when every
/// character is a digit, there is at least one, and the value is at most `limit`.
fn parse_digits(cs: &Vec<char>, start: usize, limit: u64) -> (r: Option<u64>)
    requires
        start <= cs.len(),
    ensures
        r == (if cs@.skip(start as int).len() > 0 && all_digits(cs@.skip(start as int))
            && digits_value(cs@.skip(start as int)) <= limit {
            Some(digits_value(cs@.skip(start as int)) as u64)
        } else {
            None
        }),
{
    let ghost body = cs@.skip(start as int);
    if start == cs.len() {
        return None;
    }
    let mut i: usize = start;
    let mut acc: u64 = 0;
    let mut over: bool = false;
    while i < cs.len()
        invariant
            start <= i <= cs.len(),
            body == cs@.skip(start as int),
            all_digits(body.take(i - start)),
            !over ==> acc == digits_value(body.take(i - start)) && acc <= limit,
            over ==> digits_value(body.take(i - start)) > limit,
        decreases cs.len() - i,
    {
        let c = cs[i];
        let code: u32 = c as u32;
        if code < 0x30 || code > 0x39 {
            assert(body[i - start] == c);
            assert(!is_digit(body[i - start]));
            return None;
        }
        let d: u64 = (code - 0x30) as u64;
        proof {
            assert(body.take(i - start + 1) =~= body.take(i - start).push(c));
            lemma_digits_value_push(body.take(i - start), c);
            assert(all_digits(body.take(i - start + 1))) by {
                assert forall|j: int| 0 <= j < body.take(i - start + 1).len() implies is_digit(
                    #[trigger] body.take(i - start + 1)[j],
                ) by {
                    if j < i - start {
                        assert(body.take(i - start)[j] == body.take(i - start + 1)[j]);
                    }
                }
            }
        }
        if !over {
            let next: u128 = acc as u128 * 10 + d as u128;
            if next > limit as u128 {
                over = true;
            } else {
                acc = next as u64;
            }
        }
        i += 1;
    }
    assert(body.take(i - start) =~= body);
    if over {
        None
    } else {
        Some(acc)
    }
}

/// Reads a number literal.
pub fn parse_i16(s: &str) -> (r: Option<i16>)
    ensures
        r == (if is_number(s@) {
            Some(number_value(s@))
        } else {
            None
        }),
{
    let cs = chars_of(s);
    if cs.len() == 0 {
        return None;
    }
    let negative = cs[0] == '-';
    let start: usize = if cs[0] == '-' || cs[0] == '+' {
        1
    } else {
        0
    };
    assert(cs@.skip(start as int) =~= unsigned_part(s@));
    match parse_digits(&cs, start, 32768) {
        None => None,
        Some(v) => {
            if negative {
                Some((0 - (v as i32)) as i16)
            } else if v == 32768 {
                None
            } else {
                Some(v as i16)
            }
        },
    }
}

/// Reads a position: a numeral without a minus sign that fits the machine.
pub fn parse_index(s: &str) -> (r: Option<usize>)
    ensures
        r == (if is_index(s@) && index_value(s@) <= usize::MAX {
            Some(index_value(s@) as usize)
        } else {
            None
        }),
{
    let cs = chars_of(s);
    if cs.len() == 0 || cs[0] == '-' {
        return None;
    }
    let start: usize = if cs[0] == '+' {
        1
    } else {
        0
    };
    assert(cs@.skip(start as int) =~= unsigned_part(s@));
    match parse_digits(&cs, start, usize::MAX as u64) {
        None => None,
        Some(v) => Some(v as usize),
    }
}

/// The decimal digit for a number below ten.
fn digit_to_char(d: u8) -> (c: char)
    requires
        d < 10,
    ensures
        c == digit_char(d as nat),
{
    (0x30u8 + d) as char
}

/// Appends `n` in decimal.
pub fn push_decimal(s: &mut String, n: u64)
    ensures
        final(s)@ == old(s)@ + decimal(n as nat),
    decreases n,
{
    if n >= 10 {
        push_decimal(s, n / 10);
    }
    push_char(s, digit_to_char((n % 10) as u8));
    assert(s@ =~= old(s)@ + decimal(n as nat));
}

/// Appends `n` in decimal, with a leading `-` when it is negative.
pub fn push_signed(s: &mut String, n: i16)
    ensures
        final(s)@ == old(s)@ + signed_decimal(n as int),
{
    if n < 0 {
        push_char(s, '-');
        push_decimal(s, (0 - (n as i32)) as u64);
        assert(s@ =~= old(s)@ + signed_decimal(n as int));
    } else {
        push_decimal(s, n as u64);
    }
}

/// The decimal form of a natural number is a non-empty run of digits that
/// denotes that number.
pub proof fn lemma_decimal_denotes(n: nat)
    ensures
        decimal(n).len() > 0,
        all_digits(decimal(n)),
        digits_value(decimal(n)) == n,
    decreases n,
{
    if n < 10 {
        assert(decimal(n).drop_last() =~= Seq::<char>::empty());
        assert(digits_value(decimal(n).drop_last()) == 0);
    } else {
        lemma_decimal_denotes(n / 10);
        lemma_digits_value_push(decimal(n / 10), digit_char(n % 10));
        assert forall|i: int| 0 <= i < decimal(n).len() implies is_digit(
            #[trigger] decimal(n)[i],
        ) by {
            if i < decimal(n / 10).len() {
                assert(decimal(n)[i] == decimal(n / 10)[i]);
            }
        }
    }
}

/// Writing a 16-bit integer in decimal and reading the text back gives the
/// integer again.
pub proof fn lemma_number_round_trip(n: i16)
    ensures
        is_number(signed_decimal(n as int)),
        number_value(signed_decimal(n as int)) == n,
{
    let text = signed_decimal(n as int);
    if n < 0 {
        let digits = decimal((-n) as nat);
        lemma_decimal_denotes((-n) as nat);
        assert(text[0] == '-');
        assert(unsigned_part(text) =~= digits);
    } else {
        lemma_decimal_denotes(n as nat);
        assert(is_digit(text[0]));
        assert(unsigned_part(text) =~= text);
    }
}

/// A position written in decimal reads back as that position.
pub proof fn lemma_index_round_trip(n: nat)
    ensures
        is_index(decimal(n)),
        index_value(decimal(n)) == n,
{
    lemma_decimal_denotes(n);
    assert(is_digit(decimal(n)[0]));
    assert(unsigned_part(decimal(n)) =~= decimal(n));
}

} // verus!
