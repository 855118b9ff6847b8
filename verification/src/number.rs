//! Decimal and hexadecimal numerals.

use crate::text::chars_of;
use vstd::prelude::*;
use vstd::string::*;

verus! {

/// Whether `c` is a numeral's digit in base `base`, which is at most sixteen.
pub open spec fn is_digit(c: char, base: nat) -> bool {
    ||| '0' <= c <= '9' && (c as int) - ('0' as int) < base
    ||| 'a' <= c <= 'f' && (c as int) - ('a' as int) + 10 < base
    ||| 'A' <= c <= 'F' && (c as int) - ('A' as int) + 10 < base
}

/// What a digit stands for.
pub open spec fn digit_value(c: char) -> nat {
    if '0' <= c <= '9' {
        ((c as int) - ('0' as int)) as nat
    } else if 'a' <= c <= 'f' {
        ((c as int) - ('a' as int) + 10) as nat
    } else {
        ((c as int) - ('A' as int) + 10) as nat
    }
}

/// The digit, in lower case, that stands for `d`.
pub open spec fn digit(d: nat) -> char {
    if d < 10 {
        (('0' as int) + d) as char
    } else {
        (('a' as int) + d - 10) as char
    }
}

/// Whether every character of `s` is a digit in base `base`.
pub open spec fn all_digits(s: Seq<char>, base: nat) -> bool {
    forall|i: int| 0 <= i < s.len() ==> is_digit(#[trigger] s[i], base)
}

/// The number that the digits of `s` write in base `base`.
pub open spec fn value(s: Seq<char>, base: nat) -> nat
    decreases s.len(),
{
    if s.len() == 0 {
        0
    } else {
        value(s.drop_last(), base) * base + digit_value(s.last())
    }
}

/// The numeral of `n` in base `base`, in lower case and without leading zeros.
pub open spec fn numeral(n: nat, base: nat) -> Seq<char>
    decreases n,
{
    if n < base || base < 2 {
        seq![digit(n)]
    } else {
        proof {
            assert(n / base < n) by (nonlinear_arith)
                requires
                    n >= base,
                    base >= 2,
            ;
        }
        numeral(n / base, base).push(digit(n % base))
    }
}

/// The decimal numeral of `n`.
pub open spec fn decimal(n: nat) -> Seq<char> {
    numeral(n, 10)
}

/// What a text reads as, as an unsigned number of at most `max`: decimal digits, at least one,
/// behind an optional `+`.
pub open spec fn parse_decimal(s: Seq<char>, max: nat) -> Option<nat> {
    let digits = if s.len() > 0 && s[0] == '+' {
        s.skip(1)
    } else {
        s
    };
    if digits.len() > 0 && all_digits(digits, 10) && value(digits, 10) <= max {
        Some(value(digits, 10))
    } else {
        None
    }
}

/// The first place from `i` on that holds no decimal digit: the end, if there is none.
pub open spec fn digits_end(s: Seq<char>, i: int) -> int
    decreases s.len() - i,
{
    if 0 <= i < s.len() && is_digit(s[i], 10) {
        digits_end(s, i + 1)
    } else {
        i
    }
}

/// Why a text does not read as an unsigned number of at most `max`. Reading goes from the left and
/// ends at the first character that is no digit, or as soon as the number is over `max`. A `+` with
/// nothing behind it is no digit.
pub open spec fn decimal_fault(s: Seq<char>, max: nat) -> Seq<char> {
    let digits = if s.len() > 1 && s[0] == '+' {
        s.skip(1)
    } else {
        s
    };
    let end = digits_end(digits, 0);
    if s.len() == 0 {
        "cannot parse integer from empty string"@
    } else if end < digits.len() && value(digits.take(end), 10) <= max {
        "invalid digit found in string"@
    } else {
        "number too large to fit in target type"@
    }
}

pub proof fn lemma_value_push(s: Seq<char>, c: char, base: nat)
    ensures
        value(s.push(c), base) == value(s, base) * base + digit_value(c),
{
    assert(s.push(c).drop_last() =~= s);
}

/// The value of a numeral's digits is the number that it writes.
pub proof fn lemma_numeral(n: nat, base: nat)
    requires
        2 <= base <= 16,
    ensures
        numeral(n, base).len() > 0,
        all_digits(numeral(n, base), base),
        value(numeral(n, base), base) == n,
    decreases n,
{
    if n < base {
        let s = seq![digit(n)];
        assert(s.drop_last() =~= Seq::<char>::empty());
        assert(value(s.drop_last(), base) == 0);
        assert(value(s.drop_last(), base) * base == 0) by (nonlinear_arith)
            requires
                value(s.drop_last(), base) == 0,
        ;
    } else {
        assert(n / base < n && n % base < base && (n / base) * base + n % base == n)
            by (nonlinear_arith)
            requires
                n >= base,
                base >= 2,
        ;
        lemma_numeral(n / base, base);
        lemma_value_push(numeral(n / base, base), digit(n % base), base);
    }
}

/// Reading the decimal numeral of a number gives the number back.
pub proof fn law_decimal_round_trip(n: nat, max: nat)
    requires
        n <= max,
    ensures
        parse_decimal(decimal(n), max) == Some(n),
{
    lemma_numeral(n, 10);
    assert(is_digit(decimal(n)[0], 10));
}

proof fn lemma_value_bound(s: Seq<char>, base: nat, len: nat)
    requires
        all_digits(s, base),
        2 <= base <= 16,
        s.len() <= len,
    ensures
        value(s, base) < vstd::arithmetic::power::pow(base as int, len),
    decreases len,
{
    broadcast use vstd::arithmetic::power::lemma_pow_positive;

    vstd::arithmetic::power::lemma_pow0(base as int);
    if len > 0 {
        let p = vstd::arithmetic::power::pow(base as int, (len - 1) as nat);
        assert(vstd::arithmetic::power::pow(base as int, len) == base * p) by {
            reveal(vstd::arithmetic::power::pow);
        }
        if s.len() > 0 {
            assert(forall|i: int| 0 <= i < s.drop_last().len() ==> s.drop_last()[i] == s[i]);
            lemma_value_bound(s.drop_last(), base, (len - 1) as nat);
            let v = value(s.drop_last(), base);
            assert(is_digit(s[s.len() - 1], base));
            let d = digit_value(s.last());
            assert(v * base + d < base * p) by (nonlinear_arith)
                requires
                    v < p,
                    d < base,
                    base >= 2,
            ;
        } else {
            assert(base * p > 0) by (nonlinear_arith)
                requires
                    base >= 2,
                    p > 0,
            ;
        }
    }
}

/// A hexadecimal numeral of at most four digits writes a number of sixteen bits.
pub proof fn lemma_short_hex(s: Seq<char>)
    requires
        all_digits(s, 16),
        s.len() <= 4,
    ensures
        value(s, 16) < 0x10000,
{
    lemma_value_bound(s, 16, 4);
    assert(vstd::arithmetic::power::pow(16, 4) == 0x10000) by {
        reveal_with_fuel(vstd::arithmetic::power::pow, 5);
    }
}

/// What a digit stands for, if the character is one in base `base`.
pub fn digit_of(c: char, base: u32) -> (r: Option<u32>)
    requires
        base <= 16,
    ensures
        r == (if is_digit(c, base as nat) {
            Some(digit_value(c) as u32)
        } else {
            None
        }),
{
    let d: u32 = if '0' <= c && c <= '9' {
        (c as u32) - ('0' as u32)
    } else if 'a' <= c && c <= 'f' {
        (c as u32) - ('a' as u32) + 10
    } else if 'A' <= c && c <= 'F' {
        (c as u32) - ('A' as u32) + 10
    } else {
        return None;
    };
    if d < base {
        Some(d)
    } else {
        None
    }
}

/// The number that digits write, or `None` if one of them is no digit or the number is over
/// `max`.
pub fn value_of(digits: &Vec<char>, base: u32, max: u32) -> (r: Option<u32>)
    requires
        2 <= base <= 16,
    ensures
        r == (if all_digits(digits@, base as nat) && value(digits@, base as nat) <= max {
            Some(value(digits@, base as nat) as u32)
        } else {
            None
        }),
{
    let mut total: u64 = 0;
    let mut over: bool = false;
    let mut i: usize = 0;
    while i < digits.len()
        invariant
            2 <= base <= 16,
            i <= digits.len(),
            all_digits(digits@.take(i as int), base as nat),
            over == (value(digits@.take(i as int), base as nat) > max),
            !over ==> total == value(digits@.take(i as int), base as nat),
        decreases digits.len() - i,
    {
        let ghost before = digits@.take(i as int);
        proof {
            assert(digits@.take(i + 1) =~= before.push(digits@[i as int]));
            lemma_value_push(before, digits@[i as int], base as nat);
            let v = value(before, base as nat);
            assert(v <= v * base) by (nonlinear_arith)
                requires
                    base >= 2,
            ;
        }
        match digit_of(digits[i], base) {
            None => {
                assert(!is_digit(digits@[i as int], base as nat));
                return None;
            },
            Some(d) => {
                if !over {
                    assert(total * base <= 0xffff_ffff * 16) by (nonlinear_arith)
                        requires
                            total <= 0xffff_ffff,
                            base <= 16,
                    ;
                    total = total * (base as u64) + (d as u64);
                    over = total > (max as u64);
                }
            },
        }
        i = i + 1;
    }
    assert(digits@.take(i as int) =~= digits@);
    if over {
        None
    } else {
        Some(total as u32)
    }
}

/// Reads an unsigned decimal number of at most `max`.
pub fn read_decimal(s: &str, max: u32) -> (r: Option<u32>)
    ensures
        r == (match parse_decimal(s@, max as nat) {
            Some(n) => Some(n as u32),
            None => None,
        }),
{
    let mut chars = chars_of(s);
    if chars.len() > 0 && chars[0] == '+' {
        let ghost whole = chars@;
        let _ = chars.remove(0);
        assert(chars@ =~= whole.skip(1));
    }
    if chars.len() == 0 {
        return None;
    }
    value_of(&chars, 10, max)
}

/// Tells why a text does not read as an unsigned decimal number of at most `max`.
pub fn fault_text(s: &str, max: u32) -> (r: &'static str)
    ensures
        r@ == decimal_fault(s@, max as nat),
{
    let mut digits = chars_of(s);
    if digits.len() == 0 {
        return "cannot parse integer from empty string";
    }
    if digits.len() > 1 && digits[0] == '+' {
        let ghost whole = digits@;
        let _ = digits.remove(0);
        assert(digits@ =~= whole.skip(1));
    }
    let ghost d = digits@;
    let mut total: u64 = 0;
    let mut over: bool = false;
    let mut i: usize = 0;
    while i < digits.len()
        invariant
            i <= digits.len(),
            d == digits@,
            s@.len() > 0,
            d == (if s@.len() > 1 && s@[0] == '+' {
                s@.skip(1)
            } else {
                s@
            }),
            digits_end(d, 0) == digits_end(d, i as int),
            over == (value(d.take(i as int), 10) > max),
            !over ==> total == value(d.take(i as int), 10),
        decreases digits.len() - i,
    {
        proof {
            assert(d.take(i + 1) =~= d.take(i as int).push(d[i as int]));
            lemma_value_push(d.take(i as int), d[i as int], 10);
        }
        match digit_of(digits[i], 10) {
            None => {
                assert(digits_end(d, i as int) == i);
                if over {
                    return "number too large to fit in target type";
                }
                return "invalid digit found in string";
            },
            Some(n) => {
                if !over {
                    total = total * 10 + (n as u64);
                    over = total > (max as u64);
                }
            },
        }
        i = i + 1;
    }
    "number too large to fit in target type"
}

/// The digit that stands for `d`, as a text.
fn digit_text(d: u32) -> (r: &'static str)
    requires
        d < 16,
    ensures
        r@ == seq![digit(d as nat)],
{
    proof {
        reveal_strlit("0");
        reveal_strlit("1");
        reveal_strlit("2");
        reveal_strlit("3");
        reveal_strlit("4");
        reveal_strlit("5");
        reveal_strlit("6");
        reveal_strlit("7");
        reveal_strlit("8");
        reveal_strlit("9");
        reveal_strlit("a");
        reveal_strlit("b");
        reveal_strlit("c");
        reveal_strlit("d");
        reveal_strlit("e");
        reveal_strlit("f");
    }
    let r = match d {
        0 => "0",
        1 => "1",
        2 => "2",
        3 => "3",
        4 => "4",
        5 => "5",
        6 => "6",
        7 => "7",
        8 => "8",
        9 => "9",
        10 => "a",
        11 => "b",
        12 => "c",
        13 => "d",
        14 => "e",
        _ => "f",
    };
    assert(r@ =~= seq![digit(d as nat)]);
    r
}

/// Writes a number in base `base`.
fn numeral_text(n: u32, base: u32) -> (r: String)
    requires
        2 <= base <= 16,
    ensures
        r@ == numeral(n as nat, base as nat),
    decreases n,
{
    if n < base {
        digit_text(n).to_owned()
    } else {
        assert(n / base < n && n % base < base) by (nonlinear_arith)
            requires
                n >= base,
                base >= 2,
        ;
        let mut out = numeral_text(n / base, base);
        let ghost before = out@;
        out.append(digit_text(n % base));
        assert(out@ =~= before.push(digit((n % base) as nat)));
        out
    }
}

/// Writes a number in decimal.
pub fn decimal_text(n: u32) -> (r: String)
    ensures
        r@ == decimal(n as nat),
{
    numeral_text(n, 10)
}

/// Writes a number in hexadecimal.
pub fn hex_text(n: u16) -> (r: String)
    ensures
        r@ == numeral(n as nat, 16),
{
    numeral_text(n as u32, 16)
}

/// A text reads as a number exactly if it is decimal digits, at least one, with or without a `+` in
/// front, and the number is not over the greatest. The number is made digit by digit: each further
/// one multiplies what came before by ten.
pub proof fn law_parse_decimal(s: Seq<char>, c: char, max: nat)
    ensures
        parse_decimal(Seq::empty(), max) is None,
        parse_decimal(seq!['+'], max) is None,
        '0' <= c <= '9' ==> parse_decimal(seq![c], max) == (if (c as int) - ('0' as int) <= max {
            Some(((c as int) - ('0' as int)) as nat)
        } else {
            None
        }),
        parse_decimal(s, max) matches Some(n) ==> n <= max,
        parse_decimal(s, max) is Some ==> s.len() > 0 && forall|i: int|
            0 <= i < s.len() ==> '0' <= #[trigger] s[i] <= '9' || (i == 0 && s[i] == '+'
                && s.len() > 1),
        parse_decimal(s, max) matches Some(n) ==> '0' <= c <= '9' ==> parse_decimal(
            s.push(c),
            max,
        ) == (if n * 10 + ((c as int) - ('0' as int)) <= max {
            Some((n * 10 + ((c as int) - ('0' as int))) as nat)
        } else {
            None
        }),
        s.len() > 0 && s[0] != '+' ==> parse_decimal(seq!['+'] + s, max) == parse_decimal(s, max),
{
    assert(seq!['+'].skip(1) =~= Seq::<char>::empty());
    let digits = if s.len() > 0 && s[0] == '+' {
        s.skip(1)
    } else {
        s
    };
    if '0' <= c <= '9' {
        assert(seq![c].drop_last() =~= Seq::<char>::empty());
        assert(value(seq![c].drop_last(), 10) == 0);
        assert(seq![c].last() == c);
    }
    if let Some(n) = parse_decimal(s, max) {
        assert forall|i: int| 0 <= i < s.len() implies '0' <= #[trigger] s[i] <= '9' || (i == 0
            && s[i] == '+' && s.len() > 1) by {
            if s[0] == '+' {
                if i > 0 {
                    assert(is_digit(digits[i - 1], 10));
                }
            } else {
                assert(is_digit(digits[i], 10));
            }
        }
        if '0' <= c <= '9' {
            let t = s.push(c);
            let more = digits.push(c);
            assert(t[0] == s[0]);
            if s[0] == '+' {
                assert(t.skip(1) =~= more);
            }
            lemma_value_push(digits, c, 10);
            assert forall|i: int| 0 <= i < more.len() implies is_digit(#[trigger] more[i], 10) by {
                if i < digits.len() {
                    assert(is_digit(digits[i], 10));
                }
            }
        }
    }
    assert((seq!['+'] + s).skip(1) =~= s);
}

/// The digits are those of ASCII, and from ten on the letters in either case; a number is read from
/// them place by place.
pub proof fn law_digits(s: Seq<char>, c: char, base: nat)
    requires
        base <= 16,
    ensures
        is_digit(c, 10) == ('0' <= c <= '9'),
        is_digit(c, 16) == ('0' <= c <= '9' || 'a' <= c <= 'f' || 'A' <= c <= 'F'),
        '0' <= c <= '9' ==> digit_value(c) == (c as int) - 48,
        'a' <= c <= 'f' ==> digit_value(c) == (c as int) - 87,
        'A' <= c <= 'F' ==> digit_value(c) == (c as int) - 55,
        value(Seq::empty(), base) == 0,
        value(s.push(c), base) == value(s, base) * base + digit_value(c),
{
    lemma_value_push(s, c, base);
}

/// An empty text is no number because it is empty; digits that are no number of at most `max` are
/// too large; and a character that is no digit is what is wrong with a text that begins with it.
pub proof fn law_decimal_fault(s: Seq<char>, max: nat)
    ensures
        s.len() == 0 ==> decimal_fault(s, max) == "cannot parse integer from empty string"@,
        s.len() > 0 && (forall|i: int| 0 <= i < s.len() ==> '0' <= #[trigger] s[i] <= '9')
            ==> decimal_fault(s, max) == "number too large to fit in target type"@,
        s.len() > 0 && !('0' <= s[0] <= '9') && s[0] != '+' ==> decimal_fault(s, max)
            == "invalid digit found in string"@,
{
    if s.len() > 0 && (forall|i: int| 0 <= i < s.len() ==> '0' <= #[trigger] s[i] <= '9') {
        lemma_digits_end(s, 0);
        assert(s[0] != '+');
    }
    if s.len() > 0 && !('0' <= s[0] <= '9') && s[0] != '+' {
        assert(digits_end(s, 0) == 0);
        assert(s.take(0) =~= Seq::<char>::empty());
        assert(value(s.take(0), 10) == 0);
    }
}

proof fn lemma_digits_end(s: Seq<char>, i: int)
    requires
        0 <= i <= s.len(),
        forall|k: int| 0 <= k < s.len() ==> '0' <= #[trigger] s[k] <= '9',
    ensures
        digits_end(s, i) == s.len(),
    decreases s.len() - i,
{
    if i < s.len() {
        assert('0' <= s[i] <= '9');
        lemma_digits_end(s, i + 1);
    }
}

} // verus!
