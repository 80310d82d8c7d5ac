//! Decimal numbers written and read as text.
use vstd::prelude::*;

use crate::chars;
use crate::text::to_chars;

verus! {

/// The character of one decimal digit.
pub open spec fn digit_char(d: nat) -> char {
    (48 + d) as char
}

/// The value of one decimal digit.
pub open spec fn digit_value(c: char) -> nat {
    (c as nat - 48) as nat
}

/// A number in decimal, without leading zeros.
pub open spec fn decimal(n: nat) -> Seq<char>
    decreases n,
{
    if n < 10 {
        seq![digit_char(n)]
    } else {
        decimal(n / 10).push(digit_char(n % 10))
    }
}

/// A number in decimal with leading zeros up to `width` characters.
pub open spec fn padded(n: nat, width: nat) -> Seq<char> {
    if decimal(n).len() < width {
        Seq::new((width - decimal(n).len()) as nat, |i: int| '0') + decimal(n)
    } else {
        decimal(n)
    }
}

/// The value of a run of decimal digits.
pub open spec fn digits_value(s: Seq<char>) -> nat
    decreases s.len(),
{
    if s.len() == 0 {
        0
    } else {
        digits_value(s.drop_last()) * 10 + digit_value(s.last())
    }
}

pub open spec fn all_digits(s: Seq<char>) -> bool {
    forall|i: int| 0 <= i < s.len() ==> chars::is_digit(#[trigger] s[i])
}

/// The number that a text denotes: digits, at least one, behind an optional plus sign.
pub open spec fn unsigned_value(s: Seq<char>) -> Option<nat> {
    let digits = if s.len() > 0 && s[0] == '+' {
        s.skip(1)
    } else {
        s
    };
    if digits.len() > 0 && all_digits(digits) {
        Some(digits_value(digits))
    } else {
        None
    }
}

/// The number that a text denotes, where it does not exceed `max`.
pub open spec fn unsigned_up_to(s: Seq<char>, max: nat) -> Option<nat> {
    match unsigned_value(s) {
        Some(v) => if v <= max {
            Some(v)
        } else {
            None
        },
        None => None,
    }
}

/// The 32-bit number that a text denotes.
pub open spec fn u32_value(s: Seq<char>) -> Option<u32> {
    match unsigned_up_to(s, u32::MAX as nat) {
        Some(v) => Some(v as u32),
        None => None,
    }
}

/// The 64-bit number that a text denotes.
pub open spec fn u64_value(s: Seq<char>) -> Option<u64> {
    match unsigned_up_to(s, u64::MAX as nat) {
        Some(v) => Some(v as u64),
        None => None,
    }
}

fn digit_to_char(d: u64) -> (res: char)
    requires
        d < 10,
    ensures
        res == digit_char(d as nat),
{
    (48 + d as u8) as char
}

/// Writes a number in decimal.
pub fn decimal_text(n: u64) -> (res: String)
    ensures
        res@ == decimal(n as nat),
    decreases n,
{
    if n < 10 {
        let mut out = String::new();
        out.push(digit_to_char(n));
        assert(out@ =~= decimal(n as nat));
        out
    } else {
        let mut out = decimal_text(n / 10);
        out.push(digit_to_char(n % 10));
        out
    }
}

/// Writes a number in decimal with leading zeros up to `width` characters.
pub fn padded_text(n: u64, width: usize) -> (res: String)
    ensures
        res@ == padded(n as nat, width as nat),
{
    let digits = decimal_text(n);
    let len = digits.as_str().unicode_len();
    let mut out = String::new();
    let mut i: usize = len;
    while i < width
        invariant
            out@ == Seq::new((i - len) as nat, |k: int| '0'),
            len <= i,
            i <= width || i == len,
        decreases width - i,
    {
        out.push('0');
        i += 1;
        assert(out@ =~= Seq::new((i - len) as nat, |k: int| '0'));
    }
    out.append(digits.as_str());
    assert(out@ =~= padded(n as nat, width as nat));
    out
}

proof fn lemma_value_grows(s: Seq<char>, i: int)
    requires
        0 <= i <= s.len(),
    ensures
        digits_value(s.take(i)) <= digits_value(s),
    decreases s.len() - i,
{
    if i < s.len() {
        lemma_value_grows(s, i + 1);
        assert(s.take(i + 1).drop_last() =~= s.take(i));
    } else {
        assert(s.take(i) =~= s);
    }
}

/// Reads an unsigned 64-bit number.
pub fn parse_u64(s: &str) -> (res: Option<u64>)
    ensures
        res == u64_value(s@),
{
    let chars = to_chars(s);
    let start: usize = if chars.len() > 0 && chars[0] == '+' {
        1
    } else {
        0
    };
    let ghost digits = if s@.len() > 0 && s@[0] == '+' {
        s@.skip(1)
    } else {
        s@
    };
    if chars.len() == start {
        return None;
    }
    let mut value: u64 = 0;
    let mut i: usize = start;
    while i < chars.len()
        invariant
            chars@ == s@,
            start <= i <= chars.len(),
            start <= 1,
            digits == s@.skip(start as int),
            unsigned_value(s@) == (if digits.len() > 0 && all_digits(digits) {
                Some(digits_value(digits))
            } else {
                None
            }),
            all_digits(digits.take(i - start)),
            value == digits_value(digits.take(i - start)),
        decreases chars.len() - i,
    {
        let c = chars[i];
        let ghost k = i - start;
        assert(digits[k] == c);
        if !('0' <= c && c <= '9') {
            assert(!chars::is_digit(digits[k]));
            return None;
        }
        assert(digits.take(k + 1).drop_last() =~= digits.take(k));
        let d: u64 = (c as u8 - 48) as u64;
        assert(digits_value(digits.take(k + 1)) == value * 10 + d);
        proof {
            lemma_value_grows(digits, k + 1);
        }
        if value > (u64::MAX - d) / 10 {
            assert(value * 10 + d > u64::MAX) by (nonlinear_arith)
                requires
                    value > (u64::MAX - d) / 10,
                    d < 10,
            ;
            return None;
        }
        value = value * 10 + d;
        i += 1;
        assert forall|j: int| 0 <= j < digits.take(k + 1).len() implies chars::is_digit(
            #[trigger] digits.take(k + 1)[j],
        ) by {
            if j < k {
                assert(digits.take(k + 1)[j] == digits.take(k)[j]);
            }
        }
    }
    assert(digits.take(digits.len() as int) =~= digits);
    Some(value)
}

/// Reads an unsigned 32-bit number.
pub fn parse_u32(s: &str) -> (res: Option<u32>)
    ensures
        res == u32_value(s@),
{
    match parse_u64(s) {
        Some(v) => if v <= u32::MAX as u64 {
            Some(v as u32)
        } else {
            None
        },
        None => None,
    }
}

/// Every number is read back from the text that it is written as, with or
/// without leading zeros.
pub proof fn law_written_numbers_read_back(n: nat, width: nat)
    ensures
        unsigned_value(decimal(n)) == Some(n),
        unsigned_value(padded(n, width)) == Some(n),
{
    lemma_decimal_value(n);
    lemma_padded_value(n, width);
    assert(chars::is_digit(decimal(n)[0]));
    assert(chars::is_digit(padded(n, width)[0]));
}

pub proof fn lemma_padded_value(n: nat, width: nat)
    ensures
        padded(n, width).len() > 0,
        all_digits(padded(n, width)),
        digits_value(padded(n, width)) == n,
{
    lemma_decimal_value(n);
    let zeros = Seq::new((width - decimal(n).len()) as nat, |i: int| '0');
    if decimal(n).len() < width {
        lemma_leading_zeros(zeros, decimal(n));
        assert(all_digits(padded(n, width)));
    }
}

pub proof fn lemma_decimal_value(n: nat)
    ensures
        decimal(n).len() > 0,
        all_digits(decimal(n)),
        digits_value(decimal(n)) == n,
    decreases n,
{
    if n < 10 {
        assert(decimal(n).drop_last() =~= Seq::empty());
        assert(digits_value(Seq::empty()) == 0);
    } else {
        lemma_decimal_value(n / 10);
        assert(decimal(n).drop_last() =~= decimal(n / 10));
        assert forall|i: int| 0 <= i < decimal(n).len() implies chars::is_digit(#[trigger] decimal(n)[i]) by {
            if i < decimal(n / 10).len() {
                assert(decimal(n)[i] == decimal(n / 10)[i]);
            }
        }
    }
}

proof fn lemma_leading_zeros(zeros: Seq<char>, digits: Seq<char>)
    requires
        forall|i: int| 0 <= i < zeros.len() ==> zeros[i] == '0',
    ensures
        digits_value(zeros + digits) == digits_value(digits),
    decreases zeros.len() + digits.len(),
{
    if digits.len() > 0 {
        lemma_leading_zeros(zeros, digits.drop_last());
        assert((zeros + digits).drop_last() =~= zeros + digits.drop_last());
    } else if zeros.len() > 0 {
        lemma_leading_zeros(zeros.drop_last(), digits);
        assert((zeros + digits).drop_last() =~= zeros.drop_last() + digits);
    } else {
        assert(zeros + digits =~= digits);
    }
}

/// A number is written in digits, as few as hold it and no fewer than asked for:
/// the digits added in front are zeros, and no other number begins with one.
pub proof fn law_numbers_are_written_shortest(n: nat, width: nat)
    ensures
        n > 0 ==> decimal(n)[0] != '0',
        n == 0 ==> decimal(n) == seq!['0'],
        padded(n, width).len() == (if decimal(n).len() < width {
            width
        } else {
            decimal(n).len()
        }),
        padded(n, width).skip(padded(n, width).len() - decimal(n).len()) == decimal(n),
        forall|i: int|
            0 <= i < padded(n, width).len() - decimal(n).len() ==> #[trigger] padded(n, width)[i]
                == '0',
        n < 100 ==> padded(n, 2).len() == 2,
    decreases n,
{
    let p = padded(n, width);
    assert(p.skip(p.len() - decimal(n).len()) =~= decimal(n));
    if n >= 10 {
        law_numbers_are_written_shortest(n / 10, width);
        lemma_decimal_value(n / 10);
        assert(decimal(n)[0] == decimal(n / 10)[0]);
    } else {
        assert(decimal(n) =~= seq![digit_char(n)]);
    }
    if n < 100 {
        reveal_with_fuel(decimal, 3);
    }
}

/// A text is read as a number just where it is digits, at least one of them,
/// behind a plus sign or not; each digit counts ten times as much as the next;
/// and a number that is too large is not read.
pub proof fn law_only_digits_are_read(s: Seq<char>, c: char)
    ensures
        s.len() == 0 ==> unsigned_value(s) is None,
        s.len() > 0 && s[0] != '+' ==> (unsigned_value(s) is Some <==> forall|i: int|
            0 <= i < s.len() ==> '0' <= #[trigger] s[i] <= '9'),
        s.len() > 0 && s[0] != '+' ==> unsigned_value(seq!['+'] + s) == unsigned_value(s),
        s.len() == 0 || s[0] == '+' ==> unsigned_value(seq!['+'] + s) is None,
        '0' <= c <= '9' ==> unsigned_value(seq![c]) == Some((c as int - 48) as nat),
        '0' <= c <= '9' && unsigned_value(s) is Some ==> unsigned_value(s.push(c)) == Some(
            (10 * unsigned_value(s)->0 + (c as int - 48)) as nat,
        ),
        unsigned_value(s) is Some && unsigned_value(s)->0 <= u32::MAX ==> u32_value(s) is Some
            && u32_value(s)->0 == unsigned_value(s)->0,
        unsigned_value(s) is Some && unsigned_value(s)->0 <= u64::MAX ==> u64_value(s) is Some
            && u64_value(s)->0 == unsigned_value(s)->0,
        u32_value(s) is Some ==> unsigned_value(s) is Some && unsigned_value(s)->0 <= u32::MAX,
        u64_value(s) is Some ==> unsigned_value(s) is Some && unsigned_value(s)->0 <= u64::MAX,
{
    let digits = if s.len() > 0 && s[0] == '+' {
        s.skip(1)
    } else {
        s
    };
    let signed = seq!['+'] + s;
    assert(signed.skip(1) =~= s);
    if s.len() > 0 && s[0] != '+' {
        if forall|i: int| 0 <= i < s.len() ==> '0' <= #[trigger] s[i] <= '9' {
            assert(all_digits(s));
        }
        if all_digits(s) {
            assert forall|i: int| 0 <= i < s.len() implies '0' <= #[trigger] s[i] <= '9' by {
                assert(chars::is_digit(s[i]));
            }
        }
    }
    if s.len() > 0 && s[0] == '+' {
        assert(!chars::is_digit(s[0]));
    }
    if '0' <= c <= '9' {
        let one = seq![c];
        assert(one.drop_last() =~= Seq::empty());
        reveal_with_fuel(digits_value, 2);
        assert(all_digits(one));
        if unsigned_value(s) is Some {
            let longer = s.push(c);
            let more = digits.push(c);
            assert(longer[0] == s[0]);
            if s[0] == '+' {
                assert(longer.skip(1) =~= more);
            }
            assert(all_digits(more)) by {
                assert forall|i: int| 0 <= i < more.len() implies chars::is_digit(
                    #[trigger] more[i],
                ) by {
                    if i < digits.len() {
                        assert(more[i] == digits[i]);
                    }
                }
            }
            assert(more.drop_last() =~= digits);
        }
    }
}

} // verus!
