//! Reading timestamps back: the parts of a `HH:MM:SS,mmm` text, and the
//! proof that writing a timestamp loses nothing.

use crate::subtitle::{
    decimal, digit, hours_of, millis_of, minutes_of, seconds_of, timestamp, zero_padded, zeros,
};
use crate::text::chars_of;
use vstd::prelude::*;

verus! {

/// The four numbers of a timestamp.
#[derive(Clone, Copy, Debug, PartialEq, Eq, Structural)]
pub struct TimeParts {
    pub hours: u64,
    pub minutes: u64,
    pub seconds: u64,
    pub millis: u64,
}

/// The four numbers of a timestamp, without bounds.
pub ghost struct Parts {
    pub hours: nat,
    pub minutes: nat,
    pub seconds: nat,
    pub millis: nat,
}

/// Whether `c` is one of the digits `0` to `9`.
pub open spec fn is_digit(c: char) -> bool {
    '0' as u32 <= c as u32 <= '9' as u32
}

/// The value of the digit `c`.
pub open spec fn digit_value(c: char) -> nat {
    (c as u32 - '0' as u32) as nat
}

/// Whether `s` holds digits only.
pub open spec fn all_digits(s: Seq<char>) -> bool {
    forall|i: int| 0 <= i < s.len() ==> is_digit(#[trigger] s[i])
}

/// The number that the digits `s` write in decimal.
pub open spec fn number_of(s: Seq<char>) -> nat
    decreases s.len(),
{
    if s.len() == 0 {
        0
    } else {
        number_of(s.drop_last()) * 10 + digit_value(s.last())
    }
}

/// The parts of the instant `millis`.
pub open spec fn parts_of(millis: nat) -> Parts {
    Parts {
        hours: hours_of(millis),
        minutes: minutes_of(millis),
        seconds: seconds_of(millis),
        millis: millis_of(millis),
    }
}

/// The instant that `parts` name, in milliseconds.
pub open spec fn instant_of(parts: Parts) -> nat {
    parts.hours * 3_600_000 + parts.minutes * 60_000 + parts.seconds * 1000 + parts.millis
}

/// The parts that the text `s` names, if it is a timestamp: two or more
/// digits of hours, a colon, two digits of minutes below sixty, a colon,
/// two digits of seconds below sixty, a comma, three digits of
/// milliseconds.
pub open spec fn parsed(s: Seq<char>) -> Option<Parts> {
    let h = s.len() - 10;
    if s.len() >= 12 && all_digits(s.subrange(0, h)) && s[h] == ':' && all_digits(
        s.subrange(h + 1, h + 3),
    ) && s[h + 3] == ':' && all_digits(s.subrange(h + 4, h + 6)) && s[h + 6] == ',' && all_digits(
        s.subrange(h + 7, h + 10),
    ) && number_of(s.subrange(h + 1, h + 3)) < 60 && number_of(s.subrange(h + 4, h + 6)) < 60 {
        Some(
            Parts {
                hours: number_of(s.subrange(0, h)),
                minutes: number_of(s.subrange(h + 1, h + 3)),
                seconds: number_of(s.subrange(h + 4, h + 6)),
                millis: number_of(s.subrange(h + 7, h + 10)),
            },
        )
    } else {
        None
    }
}

/// A number written in decimal reads back as itself.
pub proof fn lemma_decimal_reads_back(n: nat)
    ensures
        all_digits(decimal(n)),
        number_of(decimal(n)) == n,
        decimal(n).len() >= 1,
        n < 10 ==> decimal(n).len() == 1,
        10 <= n < 100 ==> decimal(n).len() == 2,
        100 <= n < 1000 ==> decimal(n).len() == 3,
    decreases n,
{
    if n < 10 {
        assert(number_of(decimal(n).drop_last()) == 0);
    } else {
        lemma_decimal_reads_back(n / 10);
        assert(decimal(n).drop_last() =~= decimal(n / 10));
    }
}

/// Zeros in front change nothing of what digits read as.
pub proof fn lemma_zeros_in_front(count: nat, digits: Seq<char>)
    requires
        all_digits(digits),
    ensures
        all_digits(zeros(count) + digits),
        number_of(zeros(count) + digits) == number_of(digits),
    decreases digits.len(), count,
{
    let all = zeros(count) + digits;
    if digits.len() > 0 {
        assert(all_digits(digits.drop_last()));
        lemma_zeros_in_front(count, digits.drop_last());
        assert(all.drop_last() =~= zeros(count) + digits.drop_last());
    } else if count > 0 {
        lemma_zeros_in_front((count - 1) as nat, digits);
        assert(all.drop_last() =~= zeros((count - 1) as nat) + digits);
    }
}

/// A padded number reads back as itself; it is exactly `width` long if the
/// number has no more than `width` digits.
pub proof fn lemma_padded_reads_back(n: nat, width: nat)
    ensures
        all_digits(zero_padded(n, width)),
        number_of(zero_padded(n, width)) == n,
        zero_padded(n, width).len() >= width,
        zero_padded(n, width).len() >= 1,
        decimal(n).len() <= width ==> zero_padded(n, width).len() == width,
{
    lemma_decimal_reads_back(n);
    if decimal(n).len() < width {
        lemma_zeros_in_front((width - decimal(n).len()) as nat, decimal(n));
    }
}

/// A timestamp reads back as the parts of its instant: writing an instant
/// and reading the text gives the hours, minutes, seconds and milliseconds
/// of the instant.
pub proof fn lemma_timestamp_reads_back(millis: nat)
    ensures
        parsed(timestamp(millis)) == Some(parts_of(millis)),
        instant_of(parts_of(millis)) == millis,
{
    let hh = zero_padded(hours_of(millis), 2);
    let mm = zero_padded(minutes_of(millis), 2);
    let ss = zero_padded(seconds_of(millis), 2);
    let ms = zero_padded(millis_of(millis), 3);
    lemma_padded_reads_back(hours_of(millis), 2);
    lemma_padded_reads_back(minutes_of(millis), 2);
    lemma_padded_reads_back(seconds_of(millis), 2);
    lemma_padded_reads_back(millis_of(millis), 3);
    lemma_decimal_reads_back(minutes_of(millis));
    lemma_decimal_reads_back(seconds_of(millis));
    lemma_decimal_reads_back(millis_of(millis));
    let s = timestamp(millis);
    let h = hh.len() as int;
    assert(s.subrange(0, h) =~= hh);
    assert(s.subrange(h + 1, h + 3) =~= mm);
    assert(s.subrange(h + 4, h + 6) =~= ss);
    assert(s.subrange(h + 7, h + 10) =~= ms);
}

/// Two instants with the same timestamp are the same instant.
pub proof fn lemma_timestamp_is_injective(a: nat, b: nat)
    requires
        timestamp(a) == timestamp(b),
    ensures
        a == b,
{
    lemma_timestamp_reads_back(a);
    lemma_timestamp_reads_back(b);
}

/// The value of the digit `c`, if it is a digit.
pub fn digit_of(c: char) -> (out: Option<u64>)
    ensures
        match out {
            Some(d) => is_digit(c) && d == digit_value(c),
            None => !is_digit(c),
        },
{
    let n: u32 = c as u32;
    if 0x30 <= n && n <= 0x39 {
        Some((n - 0x30) as u64)
    } else {
        None
    }
}

/// The number that `chars[from..to]` writes in decimal, if these are
/// digits and the number fits in 64 bits.
pub fn read_number(chars: &Vec<char>, from: usize, to: usize) -> (out: Option<u64>)
    requires
        from <= to <= chars@.len(),
    ensures
        match out {
            Some(n) => all_digits(chars@.subrange(from as int, to as int)) && n == number_of(
                chars@.subrange(from as int, to as int),
            ),
            None => !all_digits(chars@.subrange(from as int, to as int)) || number_of(
                chars@.subrange(from as int, to as int),
            ) > u64::MAX,
        },
{
    let mut value: u64 = 0;
    let mut i: usize = from;
    while i < to
        invariant
            from <= i <= to <= chars@.len(),
            all_digits(chars@.subrange(from as int, i as int)),
            value == number_of(chars@.subrange(from as int, i as int)),
        decreases to - i,
    {
        let ghost prefix = chars@.subrange(from as int, i as int);
        let ghost next = chars@.subrange(from as int, i + 1);
        proof {
            assert(next.drop_last() =~= prefix);
            assert(next.last() == chars@[i as int]);
        }
        match digit_of(chars[i]) {
            None => {
                return None;
            },
            Some(d) => {
                if value > (u64::MAX - d) / 10 {
                    proof {
                        lemma_number_grows(chars@, from as int, i + 1, to as int);
                    }
                    return None;
                }
                value = value * 10 + d;
                assert(all_digits(next));
            },
        }
        i += 1;
    }
    Some(value)
}

/// More digits never write a smaller number.
proof fn lemma_number_grows(chars: Seq<char>, from: int, mid: int, to: int)
    requires
        0 <= from <= mid <= to <= chars.len(),
    ensures
        number_of(chars.subrange(from, mid)) <= number_of(chars.subrange(from, to)),
    decreases to - mid,
{
    if mid < to {
        lemma_number_grows(chars, from, mid, to - 1);
        assert(chars.subrange(from, to).drop_last() =~= chars.subrange(from, to - 1));
    }
}

/// Reads a timestamp. Gives the parts that the text names; gives `None` if
/// the text is no timestamp, or if its hours do not fit in 64 bits.
pub fn parse_timestamp(text: &str) -> (out: Option<TimeParts>)
    ensures
        match out {
            Some(p) => parsed(text@) == Some(
                Parts {
                    hours: p.hours as nat,
                    minutes: p.minutes as nat,
                    seconds: p.seconds as nat,
                    millis: p.millis as nat,
                },
            ),
            None => parsed(text@) is None || parsed(text@)->0.hours > u64::MAX,
        },
{
    let chars: Vec<char> = chars_of(text);
    let n: usize = chars.len();
    if n < 12 {
        return None;
    }
    let h: usize = n - 10;
    if chars[h] != ':' || chars[h + 3] != ':' || chars[h + 6] != ',' {
        return None;
    }
    let minutes: u64 = match read_number(&chars, h + 1, h + 3) {
        Some(m) => m,
        None => {
            proof {
                if all_digits(chars@.subrange(h + 1, h + 3)) {
                    lemma_two_digits_fit(chars@.subrange(h + 1, h + 3));
                }
            }
            return None;
        },
    };
    let seconds: u64 = match read_number(&chars, h + 4, h + 6) {
        Some(s) => s,
        None => {
            proof {
                if all_digits(chars@.subrange(h + 4, h + 6)) {
                    lemma_two_digits_fit(chars@.subrange(h + 4, h + 6));
                }
            }
            return None;
        },
    };
    let millis: u64 = match read_number(&chars, h + 7, h + 10) {
        Some(m) => m,
        None => {
            proof {
                if all_digits(chars@.subrange(h + 7, h + 10)) {
                    lemma_three_digits_fit(chars@.subrange(h + 7, h + 10));
                }
            }
            return None;
        },
    };
    if minutes >= 60 || seconds >= 60 {
        return None;
    }
    match read_number(&chars, 0, h) {
        Some(hours) => Some(TimeParts { hours, minutes, seconds, millis }),
        None => None,
    }
}

/// Two digits write a number below one hundred.
proof fn lemma_two_digits_fit(s: Seq<char>)
    requires
        s.len() == 2,
        all_digits(s),
    ensures
        number_of(s) < 100,
{
    reveal_with_fuel(number_of, 3);
}

/// Three digits write a number below one thousand.
proof fn lemma_three_digits_fit(s: Seq<char>)
    requires
        s.len() == 3,
        all_digits(s),
    ensures
        number_of(s) < 1000,
{
    reveal_with_fuel(number_of, 4);
}

} // verus!
