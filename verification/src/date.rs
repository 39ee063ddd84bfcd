//! Calendar timestamps as plain values: publication dates carry year,
//! month, day and time-of-day fields, ordered chronologically, parsed from
//! RFC 3339 text and rendered for page and feed output.

use vstd::prelude::*;

use chrono::offset::TimeZone;
use chrono::{Datelike, Timelike};

use crate::text::{dec_of, digit_char, push_char, push_dec_u64};

verus! {

/// An instant in civil (UTC) time, split into its calendar fields.
#[derive(Debug, Clone, Copy, PartialEq, Eq, Structural)]
pub struct Moment {
    pub year: i32,
    pub month: u8,
    pub day: u8,
    pub hour: u8,
    pub minute: u8,
    pub second: u8,
}

/// The number of days in a month of a given year, with February taking
/// leap years into account.
pub open spec fn days_in_month(year: int, month: int) -> int {
    if month == 2 {
        if year % 4 == 0 && (year % 100 != 0 || year % 400 == 0) {
            29
        } else {
            28
        }
    } else if month == 4 || month == 6 || month == 9 || month == 11 {
        30
    } else {
        31
    }
}

impl Moment {
    /// Field ranges of any well-formed timestamp.
    pub open spec fn valid(self) -> bool {
        &&& 1 <= self.month <= 12
        &&& 1 <= self.day <= 31
        &&& self.hour < 24
        &&& self.minute < 60
        &&& self.second < 60
    }

    /// A timestamp that names a day that exists in the calendar.
    pub open spec fn real_date(self) -> bool {
        self.valid() && self.day <= days_in_month(self.year as int, self.month as int)
    }
}

/// Chronological order: field-by-field lexicographic comparison.
pub open spec fn before_eq(a: Moment, b: Moment) -> bool {
    if a.year != b.year {
        a.year < b.year
    } else if a.month != b.month {
        a.month < b.month
    } else if a.day != b.day {
        a.day < b.day
    } else if a.hour != b.hour {
        a.hour < b.hour
    } else if a.minute != b.minute {
        a.minute < b.minute
    } else {
        a.second <= b.second
    }
}

/// Decides `before_eq` at run time.
pub fn moment_le(a: &Moment, b: &Moment) -> (r: bool)
    ensures
        r == before_eq(*a, *b),
{
    if a.year != b.year {
        a.year < b.year
    } else if a.month != b.month {
        a.month < b.month
    } else if a.day != b.day {
        a.day < b.day
    } else if a.hour != b.hour {
        a.hour < b.hour
    } else if a.minute != b.minute {
        a.minute < b.minute
    } else {
        a.second <= b.second
    }
}

/// What RFC 3339 text parses to, normalised to UTC; `None` for text that
/// is not a timestamp. Left without a definition: the date grammar is the
/// calendar crate's business.
pub uninterp spec fn rfc3339_of(s: Seq<char>) -> Option<Moment>;

/// Relies on chrono's `DateTime::parse_from_rfc3339`, `with_timezone` and
/// the field accessors: the result depends on the text alone, and any
/// timestamp it accepts names a day that exists in the calendar.
#[verifier::external_body]
pub fn parse_rfc3339(s: &str) -> (r: Option<Moment>)
    ensures
        r == rfc3339_of(s@),
        r matches Option::Some(m) ==> m.real_date(),
{
    let u = match chrono::DateTime::parse_from_rfc3339(s) {
        Ok(dt) => dt.with_timezone(&chrono::Utc),
        Err(_) => return None,
    };
    Some(Moment {
        year: u.year(),
        month: u.month() as u8,
        day: u.day() as u8,
        hour: u.hour() as u8,
        minute: u.minute() as u8,
        second: u.second() as u8,
    })
}

/// What chrono's RFC 2822 formatter prints for a UTC timestamp with these
/// six fields, or nothing when the calendar crate refuses the fields as a
/// date. Left without a definition: weekday names and the rest of that
/// format are the calendar crate's business.
pub uninterp spec fn rfc2822_of(m: Moment) -> Seq<char>;

/// Relies on chrono's `Utc.with_ymd_and_hms` and `to_rfc2822`: within the
/// years RFC 2822 can write (`to_rfc2822` panics outside 0..=9999, so the
/// precondition keeps those years out), the text depends on the six
/// fields alone — the empty fallback included, since the constructor's
/// acceptance is a function of the fields too.
#[verifier::external_body]
pub fn format_rfc2822(m: &Moment) -> (r: String)
    requires
        0 <= m.year <= 9999,
    ensures
        r@ == rfc2822_of(*m),
{
    match chrono::Utc.with_ymd_and_hms(
        m.year,
        m.month as u32,
        m.day as u32,
        m.hour as u32,
        m.minute as u32,
        m.second as u32,
    ).single() {
        Some(dt) => dt.to_rfc2822(),
        None => String::new(),
    }
}

/// `s` left-padded with zeros to at least `w` characters.
pub open spec fn zero_pad(s: Seq<char>, w: int) -> Seq<char> {
    if s.len() >= w {
        s
    } else {
        Seq::new((w - s.len()) as nat, |i: int| '0') + s
    }
}

/// Ten to the `k`.
spec fn pow10(k: nat) -> nat
    decreases k,
{
    if k == 0 {
        1
    } else {
        10 * pow10((k - 1) as nat)
    }
}

proof fn lemma_dec_len_le(n: nat, k: nat)
    requires
        k >= 1,
        n < pow10(k),
    ensures
        dec_of(n).len() <= k,
    decreases k,
{
    if n >= 10 {
        assert(pow10(k) == 10 * pow10((k - 1) as nat));
        lemma_dec_len_le(n / 10, (k - 1) as nat);
    }
}

/// Appends the decimal rendering of `n`, zero-padded to at least `width`
/// digits.
pub fn push_dec_padded(out: &mut String, n: u64, width: usize)
    ensures
        final(out)@ == old(out)@ + zero_pad(dec_of(n as nat), width as int),
{
    proof {
        reveal_with_fuel(pow10, 21);
        assert(n < pow10(20));
        lemma_dec_len_le(n as nat, 20);
    }
    let mut digits: usize = 1;
    let mut x: u64 = n;
    while x >= 10
        invariant
            dec_of(n as nat).len() == dec_of(x as nat).len() + digits - 1,
            dec_of(n as nat).len() <= 20,
            digits >= 1,
        decreases x,
    {
        x = x / 10;
        proof {
            assert(dec_of(x as nat).len() >= 1);
        }
        digits = digits + 1;
    }
    assert(dec_of(x as nat).len() == 1);
    assert(dec_of(n as nat).len() == digits);
    let mut k: usize = digits;
    while k < width
        invariant
            digits <= k || k == digits,
            k >= digits,
            k <= if width > digits {
                width
            } else {
                digits
            },
            out@ == old(out)@ + Seq::new((k - digits) as nat, |i: int| '0'),
        decreases width - k,
    {
        push_char(out, '0');
        proof {
            assert(old(out)@ + Seq::new((k - digits) as nat, |i: int| '0').push('0') =~= old(
                out,
            )@ + Seq::new((k + 1 - digits) as nat, |i: int| '0'));
            assert((old(out)@ + Seq::new((k - digits) as nat, |i: int| '0')).push('0') =~= old(
                out,
            )@ + Seq::new((k - digits) as nat, |i: int| '0').push('0'));
        }
        k = k + 1;
    }
    push_dec_u64(out, n);
    proof {
        if width > digits {
            assert(final(out)@ =~= old(out)@ + zero_pad(dec_of(n as nat), width as int));
        } else {
            assert(Seq::new(0nat, |i: int| '0') =~= Seq::<char>::empty());
            assert(final(out)@ =~= old(out)@ + zero_pad(dec_of(n as nat), width as int));
        }
    }
}

/// The `YYYY-MM-DD` label of a timestamp's calendar day, the year
/// zero-padded to four digits and signed when negative.
pub open spec fn date_label_spec(m: Moment) -> Seq<char> {
    (if m.year >= 0 {
        zero_pad(dec_of(m.year as nat), 4)
    } else {
        seq!['-'] + zero_pad(dec_of((-(m.year as int)) as nat), 4)
    }) + seq!['-'] + zero_pad(dec_of(m.month as nat), 2) + seq!['-'] + zero_pad(
        dec_of(m.day as nat),
        2,
    )
}

/// Renders the calendar day of a timestamp as `YYYY-MM-DD`.
pub fn date_label(m: &Moment) -> (r: String)
    ensures
        r@ == date_label_spec(*m),
{
    let mut out = String::new();
    if m.year >= 0 {
        push_dec_padded(&mut out, m.year as u64, 4);
    } else {
        push_char(&mut out, '-');
        let mag: u64 = (-(m.year as i64)) as u64;
        push_dec_padded(&mut out, mag, 4);
    }
    push_char(&mut out, '-');
    push_dec_padded(&mut out, m.month as u64, 2);
    push_char(&mut out, '-');
    push_dec_padded(&mut out, m.day as u64, 2);
    assert(out@ =~= date_label_spec(*m));
    out
}

} // verus!
