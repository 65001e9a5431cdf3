//! Whole numbers written in decimal, and read back.

use vstd::prelude::*;
use vstd::string::*;

use crate::text::to_chars;

verus! {

/// The character of a decimal digit.
pub open spec fn digit_char(d: int) -> char {
    (('0' as int) + d) as char
}

/// `n` in decimal, without leading zeros.
pub open spec fn decimal(n: nat) -> Seq<char>
    decreases n,
{
    if n < 10 {
        seq![digit_char(n as int)]
    } else {
        decimal(n / 10).push(digit_char((n % 10) as int))
    }
}

/// `i` in decimal, with a minus sign where it is negative.
pub open spec fn signed_decimal(i: int) -> Seq<char> {
    if i < 0 {
        seq!['-'] + decimal((-i) as nat)
    } else {
        decimal(i as nat)
    }
}

/// The digit character of `d`.
fn digit(d: u64) -> (c: char)
    requires
        d < 10,
    ensures
        c == digit_char(d as int),
{
    let b: u8 = 48 + d as u8;
    b as char
}

/// Appends `n` in decimal to `s`.
pub fn push_decimal(s: &mut String, n: u64)
    ensures
        final(s)@ == old(s)@ + decimal(n as nat),
    decreases n,
{
    if n >= 10 {
        push_decimal(s, n / 10);
    }
    s.push(digit(n % 10));
    assert(s@ =~= old(s)@ + decimal(n as nat));
}

/// Writes `n` in decimal.
pub fn decimal_text(n: u64) -> (s: String)
    ensures
        s@ == decimal(n as nat),
{
    let mut s = String::new();
    push_decimal(&mut s, n);
    assert(s@ =~= decimal(n as nat));
    s
}

/// Writes `i` in decimal, with a minus sign where it is negative.
pub fn signed_decimal_text(i: i64) -> (s: String)
    ensures
        s@ == signed_decimal(i as int),
{
    let mut s = String::new();
    if i < 0 {
        s.push('-');
        let m: u64 = (-(i as i128)) as u64;
        push_decimal(&mut s, m);
        assert(s@ =~= signed_decimal(i as int));
        s
    } else {
        push_decimal(&mut s, i as u64);
        assert(s@ =~= signed_decimal(i as int));
        s
    }
}

// ---------------------------------------------------------------------------
// Reading
// ---------------------------------------------------------------------------

/// Why a text is no whole number of the wanted range.
#[derive(Debug, Clone, Copy, PartialEq, Eq, Structural)]
pub enum IntError {
    /// There is nothing to read.
    Empty,
    /// A character that is no digit.
    InvalidDigit,
    /// The number is too large.
    PosOverflow,
}

impl IntError {
    /// The text of the error.
    pub open spec fn message_text(self) -> Seq<char> {
        match self {
            IntError::Empty => "cannot parse integer from empty string"@,
            IntError::InvalidDigit => "invalid digit found in string"@,
            IntError::PosOverflow => "number too large to fit in target type"@,
        }
    }

    /// Describes the error.
    pub fn message(&self) -> (s: String)
        ensures
            s@ == self.message_text(),
    {
        match self {
            IntError::Empty => "cannot parse integer from empty string".to_owned(),
            IntError::InvalidDigit => "invalid digit found in string".to_owned(),
            IntError::PosOverflow => "number too large to fit in target type".to_owned(),
        }
    }
}

/// Whether `c` is one of the ten digits.
pub open spec fn is_digit(c: char) -> bool {
    '0' <= c <= '9'
}

/// Whether `s` consists of digits alone.
pub open spec fn all_digits(s: Seq<char>) -> bool {
    forall|i: int| 0 <= i < s.len() ==> is_digit(#[trigger] s[i])
}

/// The number that a sequence of digits denotes.
pub open spec fn digits_value(s: Seq<char>) -> nat
    decreases s.len(),
{
    if s.len() == 0 {
        0
    } else {
        digits_value(s.drop_last()) * 10 + (s.last() as int - '0' as int) as nat
    }
}

/// `s` without the plus sign that may stand before the digits.
pub open spec fn unsigned_body(s: Seq<char>) -> Seq<char> {
    if s.len() > 1 && s[0] == '+' {
        s.skip(1)
    } else {
        s
    }
}

/// Whether the digits at the start of `s` already denote more than `max`.
pub open spec fn overflows(s: Seq<char>, max: nat) -> bool {
    exists|k: int|
        0 <= k <= s.len() && all_digits(#[trigger] s.take(k)) && digits_value(s.take(k)) > max
}

/// The number that `s` denotes, up to `max`: an optional plus sign, then digits only.
pub open spec fn parsed_uint(s: Seq<char>, max: nat) -> Result<nat, IntError> {
    let body = unsigned_body(s);
    if s.len() == 0 {
        Err(IntError::Empty)
    } else if overflows(body, max) {
        Err(IntError::PosOverflow)
    } else if !all_digits(body) {
        Err(IntError::InvalidDigit)
    } else {
        Ok(digits_value(body))
    }
}

/// The value of a longer run of digits is no less.
proof fn lemma_digits_value_monotone(s: Seq<char>, k: int)
    requires
        0 <= k <= s.len(),
        all_digits(s),
    ensures
        digits_value(s.take(k)) <= digits_value(s),
    decreases s.len() - k,
{
    if k == s.len() {
        assert(s.take(k) =~= s);
    } else {
        assert(s.drop_last().take(k) =~= s.take(k));
        lemma_digits_value_monotone(s.drop_last(), k);
    }
}

/// Reads a whole number of at most `max`.
pub fn parse_uint(s: &str, max: u64) -> (r: Result<u64, IntError>)
    ensures
        match r {
            Ok(n) => parsed_uint(s@, max as nat) == Ok::<nat, IntError>(n as nat),
            Err(e) => parsed_uint(s@, max as nat) == Err::<nat, IntError>(e),
        },
        r matches Ok(n) ==> n <= max,
{
    let v = to_chars(s);
    if v.len() == 0 {
        return Err(IntError::Empty);
    }
    let from: usize = if v.len() > 1 && v[0] == '+' {
        1
    } else {
        0
    };
    let ghost body = unsigned_body(s@);
    assert(body =~= v@.skip(from as int));
    let mut i: usize = from;
    let mut n: u64 = 0;
    assert(body.take(0) =~= seq![]);
    while i < v.len()
        invariant
            v@ == s@,
            from <= i <= v.len(),
            body == unsigned_body(s@),
            body == v@.skip(from as int),
            s@.len() > 0,
            all_digits(body.take(i - from)),
            digits_value(body.take(i - from)) == n,
            n <= max,
            forall|k: int| 0 <= k <= i - from ==> digits_value(#[trigger] body.take(k)) <= max,
        decreases v.len() - i,
    {
        let c: char = v[i];
        let ghost at = i - from;
        assert(body[at] == c);
        if c < '0' || '9' < c {
            proof {
                assert(!is_digit(body[at]));
                assert forall|k: int|
                    0 <= k <= body.len() && all_digits(#[trigger] body.take(k)) implies digits_value(
                    body.take(k),
                ) <= max by {
                    if k > at {
                        assert(body.take(k)[at] == body[at]);
                    }
                }
            }
            return Err(IntError::InvalidDigit);
        }
        let d: u64 = c as u64 - 48;
        let wide: u128 = n as u128 * 10 + d as u128;
        proof {
            assert(body.take(at + 1).drop_last() =~= body.take(at));
            assert(body.take(at + 1).last() == c);
            assert(all_digits(body.take(at + 1))) by {
                assert forall|j: int| 0 <= j < at + 1 implies is_digit(
                    #[trigger] body.take(at + 1)[j],
                ) by {
                    if j < at {
                        assert(body.take(at)[j] == body[j]);
                    }
                }
            }
            assert(digits_value(body.take(at + 1)) == wide);
        }
        if wide > max as u128 {
            return Err(IntError::PosOverflow);
        }
        n = wide as u64;
        i = i + 1;
    }
    assert(body.take(i - from) =~= body);
    Ok(n)
}

/// Reads a whole number of 64 bits.
pub fn parse_u64(s: &str) -> (r: Option<u64>)
    ensures
        match r {
            Some(n) => parsed_uint(s@, u64::MAX as nat) == Ok::<nat, IntError>(n as nat),
            None => parsed_uint(s@, u64::MAX as nat) is Err,
        },
{
    match parse_uint(s, u64::MAX) {
        Ok(n) => Some(n),
        Err(_) => None,
    }
}

/// A number in decimal consists of digits, denotes that number, and is not empty.
pub proof fn lemma_decimal(n: nat)
    ensures
        all_digits(decimal(n)),
        digits_value(decimal(n)) == n,
        decimal(n).len() > 0,
    decreases n,
{
    if n < 10 {
        let s = decimal(n);
        assert(s.drop_last() =~= seq![]);
        assert(s.last() == digit_char(n as int));
        assert(digits_value(s.drop_last()) == 0);
    } else {
        lemma_decimal(n / 10);
        let s = decimal(n);
        assert(s.drop_last() =~= decimal(n / 10));
        assert(s.last() == digit_char((n % 10) as int));
        assert forall|i: int| 0 <= i < s.len() implies is_digit(#[trigger] s[i]) by {
            if i < s.len() - 1 {
                assert(s[i] == decimal(n / 10)[i]);
            }
        }
    }
}

/// Reading undoes writing: a number written in decimal is read back as itself.
pub proof fn law_decimal_reads_back(n: nat, max: nat)
    requires
        n <= max,
    ensures
        parsed_uint(decimal(n), max) == Ok::<nat, IntError>(n),
{
    lemma_decimal(n);
    let s = decimal(n);
    assert(is_digit(s[0]));
    assert(unsigned_body(s) == s);
    assert forall|k: int| 0 <= k <= s.len() implies digits_value(#[trigger] s.take(k)) <= max by {
        lemma_digits_value_monotone(s, k);
    }
}

/// Reading goes digit by digit: one more digit makes the number ten times as large and
/// adds itself, up to the limit; any other character makes it no number; a plus sign before
/// the digits makes no difference; and of nothing, no number is read.
pub proof fn law_reading_digit_by_digit(s: Seq<char>, c: char, max: nat)
    ensures
        parsed_uint(Seq::empty(), max) == Err::<nat, IntError>(IntError::Empty),
        ({
            let digit = c as int - 0x30;
            let is_one = 0x30 <= c as int <= 0x39;
            &&& is_one && digit <= max ==> parsed_uint(seq![c], max) == Ok::<nat, IntError>(
                digit as nat,
            )
            &&& parsed_uint(s, max) matches Ok(n) ==> parsed_uint(s.push(c), max) == (if !is_one {
                Err::<nat, IntError>(IntError::InvalidDigit)
            } else if n * 10 + digit <= max {
                Ok((n * 10 + digit) as nat)
            } else {
                Err(IntError::PosOverflow)
            })
        }),
        parsed_uint(s, max) == Err::<nat, IntError>(IntError::PosOverflow) ==> parsed_uint(
            s.push(c),
            max,
        ) == Err::<nat, IntError>(IntError::PosOverflow),
        parsed_uint(s, max) == Err::<nat, IntError>(IntError::InvalidDigit) && s != seq!['+']
            ==> parsed_uint(s.push(c), max) == Err::<nat, IntError>(IntError::InvalidDigit),
        s.len() > 0 && s[0] != '+' ==> parsed_uint(seq!['+'] + s, max) == parsed_uint(s, max),
{
    if is_digit(c) && c as int - 0x30 <= max {
        lemma_read_one(c, max);
    }
    if parsed_uint(s, max) is Ok {
        lemma_read_one_more(s, c, max);
    } else if s.len() > 0 && s != seq!['+'] {
        lemma_wrong_stays_wrong(s, c, max);
    }
    if s == seq!['+'] {
        lemma_plus_is_no_number(max);
    }
    if s.len() > 0 && s[0] != '+' {
        assert((seq!['+'] + s).skip(1) =~= s);
    }
}

proof fn lemma_read_one(c: char, max: nat)
    requires
        is_digit(c),
        c as int - 0x30 <= max,
    ensures
        parsed_uint(seq![c], max) == Ok::<nat, IntError>((c as int - 0x30) as nat),
{
    let s = seq![c];
    assert(s.drop_last() =~= seq![]);
    assert(digits_value(s.drop_last()) == 0);
    assert(digits_value(s) == c as int - 0x30);
    assert forall|k: int| 0 <= k <= s.len() implies digits_value(#[trigger] s.take(k)) <= max by {
        if k == 1 {
            assert(s.take(k) =~= s);
        } else {
            assert(s.take(k) =~= seq![]);
        }
    }
}

proof fn lemma_read_one_more(s: Seq<char>, c: char, max: nat)
    requires
        parsed_uint(s, max) is Ok,
    ensures
        parsed_uint(s.push(c), max) == (if !is_digit(c) {
            Err::<nat, IntError>(IntError::InvalidDigit)
        } else if parsed_uint(s, max)->Ok_0 * 10 + (c as int - 0x30) <= max {
            Ok((parsed_uint(s, max)->Ok_0 * 10 + (c as int - 0x30)) as nat)
        } else {
            Err(IntError::PosOverflow)
        }),
{
    let body = unsigned_body(s);
    let longer = unsigned_body(s.push(c));
    let n = digits_value(body);
    if s.len() == 1 && s[0] == '+' {
        assert(!is_digit(s[0]));
        assert(false);
    }
    assert(longer =~= body.push(c));
    assert(longer.drop_last() =~= body);
    assert(longer.take(longer.len() as int) =~= longer);
    assert forall|k: int| 0 <= k <= body.len() implies !(all_digits(#[trigger] longer.take(k))
        && digits_value(longer.take(k)) > max) by {
        assert(longer.take(k) =~= body.take(k));
    }
    if is_digit(c) {
        assert forall|i: int| 0 <= i < longer.len() implies is_digit(#[trigger] longer[i]) by {
            if i < body.len() {
                assert(longer[i] == body[i]);
            }
        }
        assert(digits_value(longer) == n * 10 + (c as int - 0x30));
        if n * 10 + (c as int - 0x30) > max {
            let k = longer.len() as int;
            assert(all_digits(longer.take(k)) && digits_value(longer.take(k)) > max);
        }
    } else {
        assert(!is_digit(longer[longer.len() - 1]));
        assert forall|k: int| 0 <= k <= longer.len() implies !(all_digits(
            #[trigger] longer.take(k),
        ) && digits_value(longer.take(k)) > max) by {
            if k == longer.len() {
                assert(longer.take(k)[k - 1] == c);
            }
        }
    }
}

/// A number in decimal has digits only and no leading zero, so that no two texts are
/// written for one number; a negative one has a minus sign before it.
pub proof fn law_decimal_is_plain(n: nat)
    ensures
        decimal(n).len() > 0,
        forall|i: int| 0 <= i < decimal(n).len() ==> 0x30 <= (#[trigger] decimal(n)[i]) as int
            <= 0x39,
        n > 0 ==> decimal(n)[0] != '0',
        n < 10 ==> decimal(n).len() == 1,
        signed_decimal(n as int) == decimal(n),
        n > 0 ==> signed_decimal(-(n as int)) == seq!['-'] + decimal(n),
    decreases n,
{
    lemma_decimal(n);
    assert forall|i: int| 0 <= i < decimal(n).len() implies 0x30 <= (
    #[trigger] decimal(n)[i]) as int <= 0x39 by {
        assert(is_digit(decimal(n)[i]));
    }
    if n >= 10 {
        law_decimal_is_plain(n / 10);
        assert(decimal(n)[0] == decimal(n / 10)[0]);
    }
}

/// A plus sign alone is no number, whatever the limit.
proof fn lemma_plus_is_no_number(max: nat)
    ensures
        parsed_uint(seq!['+'], max) == Err::<nat, IntError>(IntError::InvalidDigit),
{
    let s = seq!['+'];
    assert(!is_digit(s[0]));
    assert forall|k: int| 0 <= k <= s.len() implies !(all_digits(#[trigger] s.take(k))
        && digits_value(s.take(k)) > max) by {
        if k == 1 {
            assert(s.take(k)[0] == '+');
        } else {
            assert(s.take(k) =~= seq![]);
        }
    }
}

/// What is no number does not become one by more characters, but for a plus sign alone.
proof fn lemma_wrong_stays_wrong(s: Seq<char>, c: char, max: nat)
    requires
        s.len() > 0,
        parsed_uint(s, max) is Err,
        s != seq!['+'],
    ensures
        parsed_uint(s.push(c), max) == parsed_uint(s, max),
{
    let body = unsigned_body(s);
    let longer = unsigned_body(s.push(c));
    if s.len() == 1 && s[0] == '+' {
        assert(s =~= seq!['+']);
    }
    assert(longer =~= body.push(c));
    if overflows(body, max) {
        let k = choose|k: int|
            0 <= k <= body.len() && all_digits(#[trigger] body.take(k)) && digits_value(
                body.take(k),
            ) > max;
        assert(longer.take(k) =~= body.take(k));
        assert(overflows(longer, max));
    } else {
        let i = choose|i: int| 0 <= i < body.len() && !is_digit(#[trigger] body[i]);
        assert(longer[i] == body[i]);
        assert forall|k: int| 0 <= k <= longer.len() implies !(all_digits(
            #[trigger] longer.take(k),
        ) && digits_value(longer.take(k)) > max) by {
            if k <= body.len() {
                assert(longer.take(k) =~= body.take(k));
            } else {
                assert(longer.take(k)[i] == body[i]);
            }
        }
    }
}

/// Each error has its own text.
pub proof fn law_errors_are_told_apart(a: IntError, b: IntError)
    ensures
        a.message_text() == b.message_text() <==> a == b,
{
    reveal_strlit("cannot parse integer from empty string");
    reveal_strlit("invalid digit found in string");
    reveal_strlit("number too large to fit in target type");
    assert(a.message_text()[0] == b.message_text()[0] ==> a == b);
}

} // verus!
