//! Points in time and how they are written.
//!
//! A time is a whole number of microseconds, `i64`, counted from the start of
//! the media. It is written as `[[hh:]mm:]ss[.frac]`: up to three fields,
//! separated by colons. Hours and minutes are whole numbers; seconds are a
//! decimal number with an optional sign, of which the first six fractional
//! digits count.

use crate::text::{chars_of, find_char, lemma_position, occurs, position};
use vstd::prelude::*;

verus! {

/// From this many whole seconds on, no time fits: hours and minutes cannot
/// bring such a number of seconds back into range.
pub const SECONDS_CAP: u64 = 100_000_000_000_000;

/// What is wrong with a time as it was written.
#[derive(Debug, Clone, Copy, PartialEq, Eq)]
pub enum ParseFault {
    /// More than three fields.
    TooManyFields,
    /// The hours are not a whole number that fits 32 bits.
    Hours,
    /// The minutes are not a whole number that fits 32 bits.
    Minutes,
    /// The seconds are not a decimal number.
    Seconds,
    /// The time does not fit the 64 bits that hold it.
    OutOfRange,
}

/// An error that concerns one command only and never ends a session.
#[derive(Debug, Clone, Copy, PartialEq, Eq)]
pub enum InteractiveError {
    /// A time could not be read.
    ParsingError { context: ParseFault },
}

// ---------------------------------------------------------------------------
// Numbers
// ---------------------------------------------------------------------------

/// `c` is a decimal digit.
pub open spec fn is_digit(c: char) -> bool {
    '0' <= c <= '9'
}

/// The value of the digit `c`.
pub open spec fn digit_value(c: char) -> int {
    c as int - '0' as int
}

/// Every character of `s` is a decimal digit.
pub open spec fn all_digits(s: Seq<char>) -> bool {
    forall|i: int| 0 <= i < s.len() ==> is_digit(s[i])
}

/// The number that the decimal digits `s` stand for; `0` for no digits.
pub open spec fn digits_value(s: Seq<char>) -> int
    decreases s.len(),
{
    if s.len() == 0 {
        0
    } else {
        10 * digits_value(s.drop_last()) + digit_value(s.last())
    }
}

/// `s` without a sign at its front.
pub open spec fn unsigned_part(s: Seq<char>) -> Seq<char> {
    if s.len() > 0 && (s[0] == '+' || s[0] == '-') {
        s.skip(1)
    } else {
        s
    }
}

/// The whole number that `s` stands for: one or more digits, a `+` before
/// them if any sign, and a value of at most `max`.
pub open spec fn parsed_natural(s: Seq<char>, max: int) -> Option<int> {
    let digits = unsigned_part(s);
    if (s.len() == 0 || s[0] != '-') && digits.len() > 0 && all_digits(digits) && digits_value(
        digits,
    ) <= max {
        Some(digits_value(digits))
    } else {
        None
    }
}

/// The value of the fractional digits `frac`, the first of which has the
/// weight `weight`, each further one a tenth of the one before it.
pub open spec fn fraction_value(frac: Seq<char>, weight: int) -> int
    decreases frac.len(),
{
    if frac.len() == 0 || weight <= 0 {
        0
    } else {
        digit_value(frac[0]) * weight + fraction_value(frac.drop_first(), weight / 10)
    }
}

/// The digits of `body` before its point.
pub open spec fn whole_part(body: Seq<char>) -> Seq<char> {
    body.take(position(body, '.'))
}

/// The digits of `body` behind its point; none where it has no point.
pub open spec fn fraction_part(body: Seq<char>) -> Seq<char> {
    if occurs(body, '.') {
        body.skip(position(body, '.') + 1)
    } else {
        Seq::empty()
    }
}

/// The microseconds that the seconds `s` stand for: an optional sign, digits,
/// and optionally a point and more digits, with a digit on at least one side
/// of the point. Fractional digits behind the sixth are left out.
pub open spec fn parsed_seconds(s: Seq<char>) -> Option<int> {
    let body = unsigned_part(s);
    let whole = whole_part(body);
    let frac = fraction_part(body);
    if all_digits(whole) && all_digits(frac) && whole.len() + frac.len() > 0 {
        let micros = digits_value(whole) * 1_000_000 + fraction_value(frac, 100_000);
        Some(
            if s.len() > 0 && s[0] == '-' {
                -micros
            } else {
                micros
            },
        )
    } else {
        None
    }
}

/// The time of hours, minutes and microseconds, where it fits.
pub open spec fn assembled(hours: int, minutes: int, micros: int) -> Result<i64, ParseFault> {
    let total = (hours * 60 + minutes) * 60_000_000 + micros;
    if i64::MIN <= total <= i64::MAX {
        Ok(total as i64)
    } else {
        Err(ParseFault::OutOfRange)
    }
}

/// The time that `text` stands for, in microseconds, or what is wrong with
/// it. The fields are looked at from the left, and the first one that is
/// wrong decides.
pub open spec fn parsed_time(text: Seq<char>) -> Result<i64, ParseFault> {
    let c1 = position(text, ':');
    if !occurs(text, ':') {
        match parsed_seconds(text) {
            None => Err(ParseFault::Seconds),
            Some(micros) => assembled(0, 0, micros),
        }
    } else {
        let first = text.take(c1);
        let rest = text.skip(c1 + 1);
        let c2 = position(rest, ':');
        if !occurs(rest, ':') {
            match parsed_natural(first, u32::MAX as int) {
                None => Err(ParseFault::Minutes),
                Some(minutes) => match parsed_seconds(rest) {
                    None => Err(ParseFault::Seconds),
                    Some(micros) => assembled(0, minutes, micros),
                },
            }
        } else {
            let second = rest.take(c2);
            let last = rest.skip(c2 + 1);
            if occurs(last, ':') {
                Err(ParseFault::TooManyFields)
            } else {
                match parsed_natural(first, u32::MAX as int) {
                    None => Err(ParseFault::Hours),
                    Some(hours) => match parsed_natural(second, u32::MAX as int) {
                        None => Err(ParseFault::Minutes),
                        Some(minutes) => match parsed_seconds(last) {
                            None => Err(ParseFault::Seconds),
                            Some(micros) => assembled(hours, minutes, micros),
                        },
                    },
                }
            }
        }
    }
}

proof fn lemma_digits_value_bounds(s: Seq<char>)
    requires
        all_digits(s),
    ensures
        digits_value(s) >= 0,
    decreases s.len(),
{
    if s.len() > 0 {
        lemma_digits_value_bounds(s.drop_last());
    }
}

/// Whether `c` is a decimal digit.
pub(crate) fn char_is_digit(c: char) -> (b: bool)
    ensures
        b == is_digit(c),
{
    '0' <= c && c <= '9'
}

/// The value of the digit `c`.
pub(crate) fn char_digit_value(c: char) -> (d: u64)
    requires
        is_digit(c),
    ensures
        d == digit_value(c),
        d <= 9,
{
    (c as u32 - '0' as u32) as u64
}

/// The greatest cap that `read_digits` takes.
pub(crate) const DIGITS_CAP: u128 = 0x1_0000_0000_0000_0000_0000;

/// What became of reading digits: whether all of them were digits, and
/// their value unless it reached the cap.
pub(crate) struct Digits {
    pub valid: bool,
    pub capped: bool,
    pub value: u128,
}

/// Reads the digits `chars[from..to]`. Their value is given where it is
/// below `cap`; where it is not, `capped` says so.
pub(crate) fn read_digits(chars: &Vec<char>, from: usize, to: usize, cap: u128) -> (digits: Digits)
    requires
        from <= to <= chars@.len(),
        cap <= DIGITS_CAP,
    ensures
        digits.valid == all_digits(chars@.subrange(from as int, to as int)),
        digits.valid && !digits.capped ==> digits.value == digits_value(
            chars@.subrange(from as int, to as int),
        ) && digits.value < cap,
        digits.valid && digits.capped ==> digits_value(chars@.subrange(from as int, to as int))
            >= cap,
{
    let ghost s = chars@.subrange(from as int, to as int);
    let mut value: u128 = 0;
    let mut capped = false;
    let mut i: usize = from;
    proof {
        assert(s.take(0) =~= Seq::<char>::empty());
    }
    while i < to
        invariant
            from <= i <= to <= chars@.len(),
            cap <= DIGITS_CAP,
            s == chars@.subrange(from as int, to as int),
            all_digits(s.take(i - from)),
            !capped ==> value == digits_value(s.take(i - from)) && value <= 10 * cap + 9,
            capped ==> digits_value(s.take(i - from)) >= cap,
        decreases to - i,
    {
        let c = chars[i];
        if !char_is_digit(c) {
            proof {
                assert(s[i - from] == c);
            }
            return Digits { valid: false, capped: false, value: 0 };
        }
        let d = char_digit_value(c);
        proof {
            let next = s.take(i - from + 1);
            assert(next.drop_last() =~= s.take(i - from));
            assert(next.last() == c);
            lemma_digits_value_bounds(s.take(i - from));
            assert(all_digits(next)) by {
                assert forall|j: int| 0 <= j < next.len() implies is_digit(next[j]) by {
                    if j < i - from {
                        assert(next[j] == s.take(i - from)[j]);
                    }
                }
            }
        }
        if !capped {
            if value >= cap {
                capped = true;
            } else {
                value = value * 10 + d as u128;
            }
        }
        i += 1;
    }
    proof {
        assert(s.take(to - from) =~= s);
    }
    if !capped && value >= cap {
        capped = true;
    }
    Digits { valid: true, capped, value }
}

/// The whole number that `chars[from..to]` stands for, where it is one of
/// at most `max`.
pub(crate) fn parse_natural(chars: &Vec<char>, from: usize, to: usize, max: u64) -> (number: Option<u64>)
    requires
        from <= to <= chars@.len(),
    ensures
        match number {
            Some(n) => parsed_natural(chars@.subrange(from as int, to as int), max as int) == Some(
                n as int,
            ),
            None => parsed_natural(chars@.subrange(from as int, to as int), max as int) is None,
        },
{
    let ghost s = chars@.subrange(from as int, to as int);
    if from < to && chars[from] == '-' {
        return None;
    }
    let start: usize = if from < to && chars[from] == '+' {
        from + 1
    } else {
        from
    };
    proof {
        assert(unsigned_part(s) =~= chars@.subrange(start as int, to as int));
    }
    if start == to {
        return None;
    }
    let digits = read_digits(chars, start, to, max as u128 + 1);
    if digits.valid && !digits.capped {
        Some(digits.value as u64)
    } else {
        None
    }
}

/// What became of reading seconds: their microseconds, or that their whole
/// part reached `SECONDS_CAP`.
pub(crate) enum Seconds {
    Micros(i128),
    Huge { negative: bool },
}

/// The microseconds that the seconds `chars[from..to]` stand for.
pub(crate) fn parse_seconds(chars: &Vec<char>, from: usize, to: usize) -> (seconds: Option<Seconds>)
    requires
        from <= to <= chars@.len(),
    ensures
        match seconds {
            None => parsed_seconds(chars@.subrange(from as int, to as int)) is None,
            Some(Seconds::Micros(m)) => parsed_seconds(chars@.subrange(from as int, to as int))
                == Some(m as int) && -(SECONDS_CAP as int) * 1_000_000 < m < SECONDS_CAP
                * 1_000_000,
            Some(Seconds::Huge { negative }) => match parsed_seconds(
                chars@.subrange(from as int, to as int),
            ) {
                Some(m) => if negative {
                    m <= -(SECONDS_CAP as int) * 1_000_000
                } else {
                    m >= SECONDS_CAP * 1_000_000
                },
                None => false,
            },
        },
{
    let ghost s = chars@.subrange(from as int, to as int);
    let negative = from < to && chars[from] == '-';
    let start: usize = if from < to && (chars[from] == '+' || chars[from] == '-') {
        from + 1
    } else {
        from
    };
    let ghost body = unsigned_part(s);
    proof {
        assert(body =~= chars@.subrange(start as int, to as int));
    }
    let dot: usize = find_char(chars, start, to, '.');
    let point: usize = start + dot;
    let frac_from: usize = if point < to {
        point + 1
    } else {
        to
    };
    let ghost whole = whole_part(body);
    let ghost frac = fraction_part(body);
    proof {
        lemma_position(body, '.');
        assert(whole =~= chars@.subrange(start as int, point as int));
        assert(frac =~= chars@.subrange(frac_from as int, to as int));
    }
    let read = read_digits(chars, start, point, SECONDS_CAP as u128);
    if !read.valid {
        return None;
    }
    // the fractional digits: all are checked, the first six count
    let mut micros: u64 = 0;
    let mut weight: u64 = 100_000;
    let mut i: usize = frac_from;
    proof {
        assert(frac.skip(0) =~= frac);
        assert(frac.take(0) =~= Seq::<char>::empty());
    }
    while i < to
        invariant
            frac_from <= i <= to <= chars@.len(),
            s == chars@.subrange(from as int, to as int),
            frac == fraction_part(unsigned_part(s)),
            frac == chars@.subrange(frac_from as int, to as int),
            micros < 1_000_000,
            all_digits(frac.take(i - frac_from)),
            weight == 100_000 || weight == 10_000 || weight == 1_000 || weight == 100 || weight
                == 10 || weight == 1 || weight == 0,
            micros + fraction_value(frac.skip(i - frac_from), weight as int) == fraction_value(
                frac,
                100_000,
            ),
            micros + 10 * weight <= 1_000_000,
        decreases to - i,
    {
        let c = chars[i];
        if !char_is_digit(c) {
            proof {
                assert(frac[i - frac_from] == c);
            }
            return None;
        }
        let d = char_digit_value(c);
        proof {
            let here = frac.skip(i - frac_from);
            assert(here[0] == c);
            assert(here.drop_first() =~= frac.skip(i - frac_from + 1));
            let next = frac.take(i - frac_from + 1);
            assert forall|j: int| 0 <= j < next.len() implies is_digit(next[j]) by {
                if j < i - frac_from {
                    assert(next[j] == frac.take(i - frac_from)[j]);
                }
            }
            assert(d * weight <= 9 * weight) by (nonlinear_arith)
                requires
                    d <= 9,
            ;
        }
        micros = micros + d * weight;
        weight = weight / 10;
        i += 1;
    }
    proof {
        assert(frac.take(to - frac_from) =~= frac);
        assert(frac.skip(to - frac_from) =~= Seq::<char>::empty());
        lemma_digits_value_bounds(whole);
    }
    if (point - start) + (to - frac_from) == 0 {
        return None;
    }
    proof {
        assert(s[0] == chars@[from as int]);
    }
    if read.capped {
        proof {
            assert(digits_value(whole) * 1_000_000 >= SECONDS_CAP * 1_000_000) by (nonlinear_arith)
                requires
                    digits_value(whole) >= SECONDS_CAP,
            ;
        }
        return Some(Seconds::Huge { negative });
    }
    let total: i128 = (read.value as i128) * 1_000_000 + (micros as i128);
    if negative {
        Some(Seconds::Micros(-total))
    } else {
        Some(Seconds::Micros(total))
    }
}

/// The time of hours, minutes and seconds, where it fits.
pub(crate) fn assemble(hours: u64, minutes: u64, seconds: Seconds) -> (time: Result<i64, ParseFault>)
    requires
        hours <= u32::MAX,
        minutes <= u32::MAX,
        match seconds {
            Seconds::Micros(m) => -(SECONDS_CAP as int) * 1_000_000 < m < SECONDS_CAP * 1_000_000,
            Seconds::Huge { .. } => true,
        },
    ensures
        forall|micros: int|
            (match seconds {
                Seconds::Micros(m) => micros == m,
                Seconds::Huge { negative } => if negative {
                    micros <= -(SECONDS_CAP as int) * 1_000_000
                } else {
                    micros >= SECONDS_CAP * 1_000_000
                },
            }) ==> time == assembled(hours as int, minutes as int, micros),
{
    match seconds {
        Seconds::Huge { .. } => Err(ParseFault::OutOfRange),
        Seconds::Micros(m) => {
            let base: i128 = ((hours as i128) * 60 + (minutes as i128)) * 60_000_000;
            let total: i128 = base + m;
            if total < i64::MIN as i128 || total > i64::MAX as i128 {
                Err(ParseFault::OutOfRange)
            } else {
                Ok(total as i64)
            }
        },
    }
}

/// Reads a time written as `[[hh:]mm:]ss[.frac]`.
///
/// The result is the time in microseconds. A text that is not a time is
/// refused with the fault of its first field that is wrong; a time that no
/// `i64` can hold is refused as out of range.
pub fn parse_time(time: &str) -> (result: Result<i64, InteractiveError>)
    ensures
        match result {
            Ok(micros) => parsed_time(time@) == Ok::<i64, ParseFault>(micros),
            Err(InteractiveError::ParsingError { context }) => parsed_time(time@) == Err::<
                i64,
                ParseFault,
            >(context),
        },
{
    let chars = chars_of(time);
    proof {
        assert(chars@.subrange(0, chars@.len() as int) =~= time@);
    }
    match parse_time_chars(&chars, 0, chars.len()) {
        Ok(micros) => Ok(micros),
        Err(context) => Err(InteractiveError::ParsingError { context }),
    }
}

/// Reads the time that `chars[from..to]` holds.
pub(crate) fn parse_time_chars(chars: &Vec<char>, from: usize, to: usize) -> (result: Result<
    i64,
    ParseFault,
>)
    requires
        from <= to <= chars@.len(),
    ensures
        result == parsed_time(chars@.subrange(from as int, to as int)),
{
    let ghost text = chars@.subrange(from as int, to as int);
    let c1: usize = find_char(chars, from, to, ':');
    if c1 >= to - from {
        return match parse_seconds(chars, from, to) {
            None => Err(ParseFault::Seconds),
            Some(seconds) => assemble(0, 0, seconds),
        };
    }
    let rest_from: usize = from + c1 + 1;
    let ghost first = text.take(c1 as int);
    let ghost rest = text.skip(c1 + 1);
    proof {
        assert(first =~= chars@.subrange(from as int, from + c1));
        assert(rest =~= chars@.subrange(rest_from as int, to as int));
    }
    let c2: usize = find_char(chars, rest_from, to, ':');
    if c2 >= to - rest_from {
        let minutes = match parse_natural(chars, from, from + c1, u32::MAX as u64) {
            None => {
                return Err(ParseFault::Minutes);
            },
            Some(minutes) => minutes,
        };
        return match parse_seconds(chars, rest_from, to) {
            None => Err(ParseFault::Seconds),
            Some(seconds) => assemble(0, minutes, seconds),
        };
    }
    let last_from: usize = rest_from + c2 + 1;
    let ghost second = rest.take(c2 as int);
    let ghost last = rest.skip(c2 + 1);
    proof {
        assert(second =~= chars@.subrange(rest_from as int, rest_from + c2));
        assert(last =~= chars@.subrange(last_from as int, to as int));
    }
    let c3: usize = find_char(chars, last_from, to, ':');
    if c3 < to - last_from {
        return Err(ParseFault::TooManyFields);
    }
    let hours = match parse_natural(chars, from, from + c1, u32::MAX as u64) {
        None => {
            return Err(ParseFault::Hours);
        },
        Some(hours) => hours,
    };
    let minutes = match parse_natural(chars, rest_from, rest_from + c2, u32::MAX as u64) {
        None => {
            return Err(ParseFault::Minutes);
        },
        Some(minutes) => minutes,
    };
    match parse_seconds(chars, last_from, to) {
        None => Err(ParseFault::Seconds),
        Some(seconds) => assemble(hours, minutes, seconds),
    }
}

// ---------------------------------------------------------------------------
// Showing a time
// ---------------------------------------------------------------------------

/// The character of the digit `d`.
pub open spec fn digit_char(d: int) -> char {
    ((48 + d) as u8) as char
}

/// `n` in decimal digits, without leading zeros.
pub open spec fn decimal(n: nat) -> Seq<char>
    decreases n,
{
    if n < 10 {
        seq![digit_char(n as int)]
    } else {
        decimal(n / 10).push(digit_char(n as int % 10))
    }
}

/// `n`, which is below 100, in two decimal digits.
pub open spec fn two_digits(n: int) -> Seq<char> {
    seq![digit_char(n / 10), digit_char(n % 10)]
}

/// A time as it is shown: `h:mm:ss.ff`. The seconds are those of the time
/// rounded to the nearest whole second, the hundredths are those of the
/// time itself, cut off; a time before 0 is shown as 0.
pub open spec fn displayed(micros: int) -> Seq<char> {
    let t = if micros < 0 {
        0
    } else {
        micros
    };
    let total = (t + 500_000) / 1_000_000;
    let hours = total / 3600;
    let minutes = (total % 3600) / 60;
    let seconds = total % 60;
    let hundredths = (t % 1_000_000) / 10_000;
    decimal(hours as nat) + seq![':'] + two_digits(minutes) + seq![':'] + two_digits(seconds)
        + seq!['.'] + two_digits(hundredths)
}

/// Appends the digit `d`.
pub(crate) fn push_digit(text: &mut String, d: u64)
    requires
        d < 10,
    ensures
        final(text)@ == old(text)@.push(digit_char(d as int)),
{
    text.push((48u8 + d as u8) as char);
}

/// Appends `n` in decimal digits.
pub(crate) fn push_decimal(text: &mut String, n: u64)
    ensures
        final(text)@ == old(text)@ + decimal(n as nat),
    decreases n,
{
    if n >= 10 {
        push_decimal(text, n / 10);
    }
    push_digit(text, n % 10);
    proof {
        assert(final(text)@ =~= old(text)@ + decimal(n as nat));
    }
}

/// Appends `n` in two decimal digits.
pub(crate) fn push_two_digits(text: &mut String, n: u64)
    requires
        n < 100,
    ensures
        final(text)@ == old(text)@ + two_digits(n as int),
{
    push_digit(text, n / 10);
    push_digit(text, n % 10);
    proof {
        assert(final(text)@ =~= old(text)@ + two_digits(n as int));
    }
}

/// A time, in microseconds, for showing.
#[derive(Debug, Clone, Copy, PartialEq, Eq)]
pub struct DurationDisplay(pub i64);

impl DurationDisplay {
    /// The time as `h:mm:ss.ff`.
    pub fn to_text(&self) -> (text: String)
        ensures
            text@ == displayed(self.0 as int),
    {
        let t: u64 = if self.0 < 0 {
            0
        } else {
            self.0 as u64
        };
        let total: u64 = (t + 500_000) / 1_000_000;
        let hours: u64 = total / 3600;
        let minutes: u64 = (total % 3600) / 60;
        let seconds: u64 = total % 60;
        let hundredths: u64 = (t % 1_000_000) / 10_000;
        let mut text = String::new();
        push_decimal(&mut text, hours);
        text.push(':');
        push_two_digits(&mut text, minutes);
        text.push(':');
        push_two_digits(&mut text, seconds);
        text.push('.');
        push_two_digits(&mut text, hundredths);
        proof {
            assert(text@ =~= displayed(self.0 as int));
        }
        text
    }
}

} // verus!
