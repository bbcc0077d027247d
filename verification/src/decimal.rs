//! Decimal text of 128-bit signed integers: writing a value as canonical
//! decimal digits, and reading decimal text back the way `str::parse::<i128>`
//! reads it.
use vstd::prelude::*;
use vstd::string::StrSliceExecFns;

verus! {

/// Why decimal text does not denote an `i128`; the kinds of
/// `core::num::IntErrorKind` that parsing a signed integer can report.
#[derive(Debug, Clone, Copy, PartialEq, Eq, Structural)]
pub enum IntErrorKind {
    /// The text is empty.
    Empty,
    /// A character is not a decimal digit, or a sign stands alone.
    InvalidDigit,
    /// The value is above `i128::MAX`.
    PosOverflow,
    /// The value is below `i128::MIN`.
    NegOverflow,
}

impl IntErrorKind {
    /// The message of `core::num::ParseIntError` for this kind.
    pub open spec fn message_text(self) -> Seq<char> {
        match self {
            IntErrorKind::Empty => "cannot parse integer from empty string"@,
            IntErrorKind::InvalidDigit => "invalid digit found in string"@,
            IntErrorKind::PosOverflow => "number too large to fit in target type"@,
            IntErrorKind::NegOverflow => "number too small to fit in target type"@,
        }
    }

    /// The message of `core::num::ParseIntError` for this kind.
    pub fn message(&self) -> (m: &'static str)
        ensures
            m@ == self.message_text(),
    {
        match self {
            IntErrorKind::Empty => "cannot parse integer from empty string",
            IntErrorKind::InvalidDigit => "invalid digit found in string",
            IntErrorKind::PosOverflow => "number too large to fit in target type",
            IntErrorKind::NegOverflow => "number too small to fit in target type",
        }
    }
}

/// The character of the decimal digit `d` (`0 <= d < 10`).
pub open spec fn digit_char(d: int) -> char {
    if d == 0 {
        '0'
    } else if d == 1 {
        '1'
    } else if d == 2 {
        '2'
    } else if d == 3 {
        '3'
    } else if d == 4 {
        '4'
    } else if d == 5 {
        '5'
    } else if d == 6 {
        '6'
    } else if d == 7 {
        '7'
    } else if d == 8 {
        '8'
    } else {
        '9'
    }
}

/// Whether `c` is an ASCII decimal digit.
pub open spec fn is_digit(c: char) -> bool {
    '0' <= c && c <= '9'
}

/// The value of the ASCII decimal digit `c`.
pub open spec fn digit_value(c: char) -> int {
    c as int - '0' as int
}

/// The canonical decimal digits of `n`: no sign, no leading zero
/// (except for `0` itself).
pub open spec fn nat_text(n: nat) -> Seq<char>
    decreases n,
{
    if n < 10 {
        seq![digit_char(n as int)]
    } else {
        nat_text(n / 10).push(digit_char((n % 10) as int))
    }
}

/// The canonical decimal text of `v`: a `-` before the digits of a negative
/// value, nothing before those of any other.
pub open spec fn int_text(v: int) -> Seq<char> {
    if v < 0 {
        seq!['-'] + nat_text((-v) as nat)
    } else {
        nat_text(v as nat)
    }
}

/// Accumulates the digits `body` left to right into a value of the given
/// sign, stopping at the first character that is no digit or the first
/// digit that takes the value out of the `i128` range.
pub open spec fn accumulate(negative: bool, body: Seq<char>) -> Result<int, IntErrorKind>
    decreases body.len(),
{
    if body.len() == 0 {
        Ok(0)
    } else {
        match accumulate(negative, body.drop_last()) {
            Err(e) => Err(e),
            Ok(v) => {
                let c = body.last();
                if !is_digit(c) {
                    Err(IntErrorKind::InvalidDigit)
                } else {
                    let w = if negative {
                        v * 10 - digit_value(c)
                    } else {
                        v * 10 + digit_value(c)
                    };
                    if w > i128::MAX {
                        Err(IntErrorKind::PosOverflow)
                    } else if w < i128::MIN {
                        Err(IntErrorKind::NegOverflow)
                    } else {
                        Ok(w)
                    }
                }
            },
        }
    }
}

/// What `str::parse::<i128>` makes of the text `s`: an optional `+` or `-`,
/// then at least one decimal digit.
pub open spec fn parse_int_text(s: Seq<char>) -> Result<int, IntErrorKind> {
    if s.len() == 0 {
        Err(IntErrorKind::Empty)
    } else if (s[0] == '+' || s[0] == '-') && s.len() == 1 {
        Err(IntErrorKind::InvalidDigit)
    } else if s[0] == '+' {
        accumulate(false, s.drop_first())
    } else if s[0] == '-' {
        accumulate(true, s.drop_first())
    } else {
        accumulate(false, s)
    }
}

proof fn lemma_digit_char(d: int)
    requires
        0 <= d < 10,
    ensures
        is_digit(digit_char(d)),
        digit_value(digit_char(d)) == d,
        digit_char(d) != '-',
        digit_char(d) != '+',
        digit_char(d) == '0' <==> d == 0,
{
}

/// Reading the canonical digits of `n` with either sign gives `n` or `-n`,
/// as long as that value lies in the `i128` range.
proof fn lemma_accumulate_nat_text(negative: bool, n: nat)
    requires
        negative ==> -(n as int) >= i128::MIN,
        !negative ==> n <= i128::MAX,
    ensures
        accumulate(negative, nat_text(n)) == Ok::<int, IntErrorKind>(
            if negative { -(n as int) } else { n as int },
        ),
    decreases n,
{
    if n < 10 {
        lemma_digit_char(n as int);
        assert(nat_text(n).drop_last() =~= Seq::<char>::empty());
        assert(accumulate(negative, nat_text(n).drop_last()) == Ok::<int, IntErrorKind>(0));
    } else {
        lemma_digit_char((n % 10) as int);
        lemma_accumulate_nat_text(negative, n / 10);
        assert(nat_text(n).drop_last() =~= nat_text(n / 10));
        assert(nat_text(n).last() == digit_char((n % 10) as int));
        assert((n / 10) as int * 10 + (n % 10) as int == n as int);
    }
}

/// Digits of a positive value never start with `0`.
proof fn lemma_nat_text_first(n: nat)
    ensures
        nat_text(n).len() >= 1,
        n > 0 ==> nat_text(n)[0] != '0',
        n == 0 ==> nat_text(n) == seq!['0'],
        forall|i: int| 0 <= i < nat_text(n).len() ==> is_digit(#[trigger] nat_text(n)[i]),
    decreases n,
{
    if n < 10 {
        lemma_digit_char(n as int);
    } else {
        lemma_digit_char((n % 10) as int);
        lemma_nat_text_first(n / 10);
        assert forall|i: int| 0 <= i < nat_text(n).len() implies is_digit(
            #[trigger] nat_text(n)[i],
        ) by {
            if i < nat_text(n / 10).len() {
                assert(nat_text(n)[i] == nat_text(n / 10)[i]);
            }
        }
    }
}

/// Law: reading back the text that `i128_to_text` writes gives the value
/// that was written.
pub proof fn lemma_int_text_round_trip(v: i128)
    ensures
        parse_int_text(int_text(v as int)) == Ok::<int, IntErrorKind>(v as int),
{
    if v < 0 {
        let n = (-(v as int)) as nat;
        lemma_accumulate_nat_text(true, n);
        lemma_nat_text_first(n);
        let t = int_text(v as int);
        assert(t.drop_first() =~= nat_text(n));
    } else {
        let n = v as nat;
        lemma_accumulate_nat_text(false, n);
        lemma_nat_text_first(n);
    }
}

/// Law: the text of a value is canonical: digits only after an optional
/// leading `-`, which stands only before a nonzero value, and no leading
/// zero unless the value is zero.
pub proof fn lemma_int_text_canonical(v: i128)
    ensures
        ({
            let t = int_text(v as int);
            let digits = if v < 0 { t.drop_first() } else { t };
            &&& (v < 0 <==> t[0] == '-')
            &&& t[0] != '+'
            &&& digits.len() >= 1
            &&& forall|i: int| 0 <= i < t.len() && !(v < 0 && i == 0) ==> is_digit(#[trigger] t[i])
            &&& (digits[0] == '0' ==> v == 0 && digits.len() == 1)
        }),
{
    let n: nat = if v < 0 { (-(v as int)) as nat } else { v as nat };
    lemma_nat_text_first(n);
    let t = int_text(v as int);
    if v < 0 {
        assert(t.drop_first() =~= nat_text(n));
        assert forall|i: int| 0 <= i < t.len() && !(v < 0 && i == 0) implies is_digit(
            #[trigger] t[i],
        ) by {
            assert(t[i] == nat_text(n)[i - 1]);
        }
    } else {
        assert(t[0] != '-' && t[0] != '+') by {
            assert(is_digit(nat_text(n)[0]));
        }
    }
}

/// The `i128` range bounds the accumulated value at every step.
proof fn lemma_accumulate_range(negative: bool, body: Seq<char>)
    ensures
        accumulate(negative, body) matches Ok(v) ==> i128::MIN <= v <= i128::MAX,
        accumulate(negative, body) matches Ok(v) ==> (negative ==> v <= 0) && (!negative ==> v >= 0),
    decreases body.len(),
{
    if body.len() > 0 {
        lemma_accumulate_range(negative, body.drop_last());
    }
}

/// Once a prefix of the digits fails, the whole text fails the same way.
proof fn lemma_accumulate_prefix_err(negative: bool, body: Seq<char>, k: int)
    requires
        0 <= k <= body.len(),
        accumulate(negative, body.take(k)) is Err,
    ensures
        accumulate(negative, body) == accumulate(negative, body.take(k)),
    decreases body.len(),
{
    if k == body.len() {
        assert(body.take(k) =~= body);
    } else {
        assert(body.drop_last().take(k) =~= body.take(k));
        lemma_accumulate_prefix_err(negative, body.drop_last(), k);
    }
}

#[verifier::external_body]
fn string_from_chars(chars: Vec<char>) -> (text: String)
    ensures
        text@ == chars@,
{
    chars.into_iter().collect()
}

/// The ASCII digit character of `d`.
fn digit_to_char(d: u8) -> (c: char)
    requires
        d < 10,
    ensures
        c == digit_char(d as int),
{
    match d {
        0 => '0',
        1 => '1',
        2 => '2',
        3 => '3',
        4 => '4',
        5 => '5',
        6 => '6',
        7 => '7',
        8 => '8',
        _ => '9',
    }
}

/// The canonical decimal text of `v`, as `v.to_string()` writes it.
pub fn i128_to_text(v: i128) -> (text: String)
    ensures
        text@ == int_text(v as int),
{
    let magnitude: u128 = if v < 0 {
        ((-(v + 1)) as u128) + 1
    } else {
        v as u128
    };
    assert(magnitude as int == if v < 0 { -(v as int) } else { v as int });
    let mut m: u128 = magnitude;
    let mut suffix: Vec<char> = Vec::new();
    while m >= 10
        invariant
            nat_text(magnitude as nat) == nat_text(m as nat) + suffix@,
        decreases m,
    {
        let d: u8 = (m % 10) as u8;
        let c = digit_to_char(d);
        assert(nat_text(m as nat) == nat_text((m / 10) as nat).push(digit_char((m % 10) as int)));
        let ghost old_suffix = suffix@;
        suffix.insert(0, c);
        assert(nat_text((m / 10) as nat) + suffix@ =~= nat_text((m / 10) as nat).push(c) + old_suffix);
        m = m / 10;
    }
    let d: u8 = m as u8;
    let c = digit_to_char(d);
    suffix.insert(0, c);
    assert(nat_text(m as nat) =~= seq![c]);
    if v < 0 {
        suffix.insert(0, '-');
    }
    assert(suffix@ =~= int_text(v as int));
    string_from_chars(suffix)
}

/// The value of decimal text, as `str::parse::<i128>` reads it: an optional
/// `+` or `-`, then decimal digits, within the `i128` range.
pub fn parse_i128(text: &str) -> (res: Result<i128, IntErrorKind>)
    ensures
        match res {
            Ok(v) => parse_int_text(text@) == Ok::<int, IntErrorKind>(v as int),
            Err(e) => parse_int_text(text@) == Err::<int, IntErrorKind>(e),
        },
{
    let n = text.unicode_len();
    if n == 0 {
        return Err(IntErrorKind::Empty);
    }
    let first = text.get_char(0);
    if (first == '+' || first == '-') && n == 1 {
        return Err(IntErrorKind::InvalidDigit);
    }
    let negative = first == '-';
    let start: usize = if first == '+' || first == '-' { 1 } else { 0 };
    let ghost body = text@.subrange(start as int, n as int);
    assert(start == 1 ==> body =~= text@.drop_first());
    assert(start == 0 ==> body =~= text@);
    assert(parse_int_text(text@) == accumulate(negative, body));
    let mut acc: i128 = 0;
    let mut i: usize = start;
    assert(body.subrange(0, 0) =~= Seq::<char>::empty());
    while i < n
        invariant
            start <= i <= n,
            n == text@.len(),
            body == text@.subrange(start as int, n as int),
            accumulate(negative, body.subrange(0, i - start)) == Ok::<int, IntErrorKind>(acc as int),
            parse_int_text(text@) == accumulate(negative, body),
        decreases n - i,
    {
        let c = text.get_char(i);
        let ghost prefix = body.subrange(0, i + 1 - start);
        assert(prefix.drop_last() =~= body.subrange(0, i - start));
        assert(prefix.last() == c);
        proof {
            lemma_accumulate_range(negative, body.subrange(0, i - start));
            assert(body.take(i + 1 - start) =~= prefix);
            if accumulate(negative, prefix) is Err {
                lemma_accumulate_prefix_err(negative, body, i + 1 - start);
            }
        }
        if !('0' <= c && c <= '9') {
            return Err(IntErrorKind::InvalidDigit);
        }
        let d: i128 = (c as u32 - '0' as u32) as i128;
        let scaled = match acc.checked_mul(10) {
            Some(x) => x,
            None => {
                return if negative {
                    Err(IntErrorKind::NegOverflow)
                } else {
                    Err(IntErrorKind::PosOverflow)
                };
            },
        };
        let next = if negative { scaled.checked_sub(d) } else { scaled.checked_add(d) };
        match next {
            Some(x) => {
                acc = x;
            },
            None => {
                return if negative {
                    Err(IntErrorKind::NegOverflow)
                } else {
                    Err(IntErrorKind::PosOverflow)
                };
            },
        }
        i = i + 1;
    }
    assert(body.subrange(0, n - start) =~= body);
    Ok(acc)
}

} // verus!
