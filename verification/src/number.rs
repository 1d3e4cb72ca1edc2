//! Numbers as text: decimal and hexadecimal, written and read.
use vstd::prelude::*;

verus! {

/// The character of a digit below ten.
pub open spec fn digit_char(d: nat) -> char {
    ('0' as u8 + d) as char
}

/// `n` in decimal, without leading zeros.
pub open spec fn decimal(n: nat) -> Seq<char>
    decreases n,
{
    if n < 10 {
        seq![digit_char(n)]
    } else {
        decimal(n / 10).push(digit_char(n % 10))
    }
}

/// The character of a digit below sixteen.
pub open spec fn hex_char(d: nat) -> char {
    if d < 10 {
        ('0' as u8 + d) as char
    } else {
        ('a' as u8 + (d - 10)) as char
    }
}

/// The lowest `width` hexadecimal digits of `n`, the highest first.
pub open spec fn hex_digits(n: nat, width: nat) -> Seq<char>
    decreases width,
{
    if width == 0 {
        Seq::empty()
    } else {
        hex_digits(n / 16, (width - 1) as nat).push(hex_char(n % 16))
    }
}

/// Whether `c` is one of `0` to `9`.
pub open spec fn is_digit(c: char) -> bool {
    '0' <= c <= '9'
}

/// Whether all characters are digits.
pub open spec fn all_digits(s: Seq<char>) -> bool {
    forall|i: int| 0 <= i < s.len() ==> is_digit(#[trigger] s[i])
}

/// The number that a sequence of digits stands for.
pub open spec fn digits_value(s: Seq<char>) -> nat
    decreases s.len(),
{
    if s.len() == 0 {
        0
    } else {
        (10 * digits_value(s.drop_last()) + (s.last() as nat - '0' as nat)) as nat
    }
}

/// `s` without one leading plus sign, if it has one.
pub open spec fn without_plus(s: Seq<char>) -> Seq<char> {
    if s.len() > 0 && s[0] == '+' {
        s.drop_first()
    } else {
        s
    }
}

/// The number that `s` spells: an optional plus sign, then at least one digit
/// and nothing else, with a value of at most `max`.
pub open spec fn number(s: Seq<char>, max: nat) -> Option<nat> {
    let digits = without_plus(s);
    if digits.len() > 0 && all_digits(digits) && digits_value(digits) <= max {
        Some(digits_value(digits))
    } else {
        None
    }
}

/// Appending digits does not make the number smaller.
proof fn lemma_value_monotonic(s: Seq<char>, n: int)
    requires
        0 <= n <= s.len(),
        all_digits(s),
    ensures
        digits_value(s.take(n)) <= digits_value(s),
    decreases s.len() - n,
{
    if n < s.len() {
        lemma_value_monotonic(s, n + 1);
        assert(s.take(n + 1).drop_last() == s.take(n));
        assert(is_digit(s[n]));
    } else {
        assert(s.take(n) == s);
    }
}

/// Reads a number of at most `max`.
pub fn parse_number(s: &[char], max: u64) -> (r: Option<u64>)
    ensures
        match r {
            Some(v) => number(s@, max as nat) == Some(v as nat),
            None => number(s@, max as nat) is None,
        },
{
    let start: usize = if s.len() > 0 && s[0] == '+' {
        1
    } else {
        0
    };
    let ghost digits = without_plus(s@);
    if start == s.len() {
        return None;
    }
    let mut value: u64 = 0;
    let mut i: usize = start;
    assert(digits.take(0).len() == 0);
    while i < s.len()
        invariant
            start <= i <= s@.len(),
            start < s@.len(),
            digits == s@.skip(start as int),
            digits == without_plus(s@),
            value <= max,
            value == digits_value(digits.take(i - start)),
            forall|k: int| 0 <= k < i - start ==> is_digit(#[trigger] digits[k]),
        decreases s@.len() - i,
    {
        let c: char = s[i];
        assert(digits[i - start] == c);
        if !('0' <= c && c <= '9') {
            return None;
        }
        let d: u64 = (c as u8 - 48) as u64;
        assert(digits.take(i - start + 1).drop_last() == digits.take(i - start));
        assert(digits_value(digits.take(i - start + 1)) == 10 * value + d);
        if value > max / 10 || d > max - value * 10 {
            proof {
                if all_digits(digits) {
                    lemma_value_monotonic(digits, i - start + 1);
                }
                assert(10 * value + d > max);
            }
            return None;
        }
        value = value * 10 + d;
        i = i + 1;
    }
    assert(digits.take(i - start) == digits);
    Some(value)
}

/// Reads a 16-bit number.
pub fn parse_u16(s: &[char]) -> (r: Option<u16>)
    ensures
        match r {
            Some(v) => number(s@, u16::MAX as nat) == Some(v as nat),
            None => number(s@, u16::MAX as nat) is None,
        },
{
    match parse_number(s, u16::MAX as u64) {
        Some(v) => Some(v as u16),
        None => None,
    }
}

/// Reads a 32-bit number.
pub fn parse_u32(s: &[char]) -> (r: Option<u32>)
    ensures
        match r {
            Some(v) => number(s@, u32::MAX as nat) == Some(v as nat),
            None => number(s@, u32::MAX as nat) is None,
        },
{
    match parse_number(s, u32::MAX as u64) {
        Some(v) => Some(v as u32),
        None => None,
    }
}

/// Reads a size.
pub fn parse_usize(s: &[char]) -> (r: Option<usize>)
    ensures
        match r {
            Some(v) => number(s@, usize::MAX as nat) == Some(v as nat),
            None => number(s@, usize::MAX as nat) is None,
        },
{
    match parse_number(s, usize::MAX as u64) {
        Some(v) => Some(v as usize),
        None => None,
    }
}

/// Appends `n` in decimal.
pub fn push_decimal(s: &mut String, n: u64)
    ensures
        final(s)@ == old(s)@ + decimal(n as nat),
    decreases n,
{
    if n >= 10 {
        push_decimal(s, n / 10);
    }
    s.push((48 + (n % 10) as u8) as char);
    assert(s@ == old(s)@ + decimal(n as nat));
}

/// `n` in decimal.
pub fn to_decimal(n: u64) -> (s: String)
    ensures
        s@ == decimal(n as nat),
{
    let mut s: String = String::new();
    push_decimal(&mut s, n);
    assert(s@ == decimal(n as nat));
    s
}

/// Appends the lowest `width` hexadecimal digits of `n`.
pub fn push_hex(s: &mut String, n: u64, width: u8)
    ensures
        final(s)@ == old(s)@ + hex_digits(n as nat, width as nat),
    decreases width,
{
    if width > 0 {
        push_hex(s, n / 16, width - 1);
        let d: u8 = (n % 16) as u8;
        if d < 10 {
            s.push((48 + d) as char);
        } else {
            s.push((87 + d) as char);
        }
    }
    assert(s@ == old(s)@ + hex_digits(n as nat, width as nat));
}

/// The decimal form of a number consists of digits that stand for it.
pub proof fn lemma_decimal_value(n: nat)
    ensures
        decimal(n).len() > 0,
        all_digits(decimal(n)),
        digits_value(decimal(n)) == n,
    decreases n,
{
    let s = decimal(n);
    if n < 10 {
        assert(s.drop_last().len() == 0);
        assert(digits_value(s.drop_last()) == 0);
    } else {
        lemma_decimal_value(n / 10);
        assert(s.drop_last() == decimal(n / 10));
    }
}

/// A number that was written in decimal is read back, as long as it is within
/// the bound of the reader.
pub proof fn law_decimal_is_read_back(n: nat, max: nat)
    requires
        n <= max,
    ensures
        number(decimal(n), max) == Some(n),
{
    lemma_decimal_value(n);
    assert(is_digit(decimal(n)[0]));
}

/// A number is written with its digits from the highest to the lowest.
pub proof fn law_decimal_digits(n: nat, d: nat)
    requires
        d < 10,
    ensures
        decimal(d).len() == 1,
        decimal(d)[0] as int == '0' as int + d,
        n > 0 ==> decimal(10 * n + d) == decimal(n).push(decimal(d)[0]),
{
    assert((10 * n + d) / 10 == n);
    assert((10 * n + d) % 10 == d);
}

/// What is read as a number consists of digits, with at most a plus sign in
/// front, and is within the bound. Leading zeros and the sign do not change it.
pub proof fn law_number(s: Seq<char>, max: nat)
    ensures
        number(s, max) matches Some(n) ==> {
            &&& n <= max
            &&& forall|i: int|
                0 <= i < s.len() ==> '0' <= #[trigger] s[i] <= '9' || i == 0 && s[0] == '+'
            &&& number(seq!['0'] + without_plus(s), max) == Some(n)
            &&& s[0] != '+' ==> number(seq!['+'] + s, max) == Some(n)
        },
        number(Seq::empty(), max) is None,
        number(seq!['+'], max) is None,
{
    assert(seq!['+'].drop_first() =~= Seq::<char>::empty());
    if let Some(n) = number(s, max) {
        let digits = without_plus(s);
        assert forall|i: int| 0 <= i < s.len() implies '0' <= #[trigger] s[i] <= '9' || i == 0
            && s[0] == '+' by {
            if s[0] == '+' {
                if i > 0 {
                    assert(is_digit(digits[i - 1]));
                }
            } else {
                assert(is_digit(digits[i]));
            }
        }
        lemma_zero_in_front(digits);
        let padded = seq!['0'] + digits;
        assert forall|i: int| 0 <= i < padded.len() implies is_digit(#[trigger] padded[i]) by {
            if i > 0 {
                assert(is_digit(digits[i - 1]));
            }
        }
        assert((seq!['+'] + s).drop_first() =~= s);
    }
}

/// A zero in front does not count.
proof fn lemma_zero_in_front(s: Seq<char>)
    requires
        all_digits(s),
    ensures
        digits_value(seq!['0'] + s) == digits_value(s),
    decreases s.len(),
{
    let padded = seq!['0'] + s;
    if s.len() == 0 {
        assert(padded.drop_last() =~= Seq::<char>::empty());
        assert(digits_value(padded.drop_last()) == 0);
    } else {
        assert(padded.drop_last() =~= seq!['0'] + s.drop_last());
        assert(padded.last() == s.last());
        lemma_zero_in_front(s.drop_last());
    }
}

/// Hexadecimal digits stand for the remainders by sixteen, the lowest one last,
/// and there are as many as the width says.
pub proof fn law_hex_digits(n: nat, d: nat, width: nat)
    requires
        d < 16,
    ensures
        hex_digits(16 * n + d, width + 1) == hex_digits(n, width).push(hex_char(d)),
        hex_digits(n, width).len() == width,
        hex_char(d) as int == (if d < 10 {
            '0' as int + d
        } else {
            'a' as int + d - 10
        }),
    decreases width,
{
    assert((16 * n + d) / 16 == n);
    assert((16 * n + d) % 16 == d);
    if width > 0 {
        law_hex_digits(n / 16, n % 16, (width - 1) as nat);
    }
}

/// A number that is too large is none at all.
pub proof fn law_number_is_refused(n: nat, max: nat)
    requires
        n > max,
    ensures
        number(decimal(n), max) is None,
{
    lemma_decimal_value(n);
    assert(is_digit(decimal(n)[0]));
}

} // verus!
