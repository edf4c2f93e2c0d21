//! Times that are written in a message.

use crate::message::part_laws::decimals_tell_the_number;
use crate::message::time::{
    digit_run, digits_value, in_units, is_digit, quantity, relative, stamp, style_of, TimestampStyle,
};
use crate::message::time_twice::lemma_digit_run_is;
use crate::text::{decimal, digit, starts_with};
use vstd::prelude::*;
use vstd::string::*;

verus! {

proof fn lemma_digits_value(n: nat)
    ensures
        digits_value(decimal(n)) == n,
    decreases n,
{
    assert(forall|d: int| 0 <= d < 10 ==> #[trigger] digit(d) as int == '0' as int + d);
    let s = decimal(n);
    if n < 10 {
        assert(s.drop_last() =~= Seq::<char>::empty());
        assert(digits_value(s.drop_last()) == 0);
    } else {
        lemma_digits_value(n / 10);
        assert(s.drop_last() =~= decimal(n / 10));
    }
}

/// A time is written as its seconds, between an opening mark and a closing one.
pub open spec fn written(n: nat) -> Seq<char> {
    "<t:"@ + decimal(n)
}

proof fn lemma_written(n: nat, rest: Seq<char>)
    requires
        rest.len() > 0,
        !is_digit(rest[0]),
    ensures
        ({
            let s = written(n) + rest;
            let d = decimal(n).len() as int;
            &&& starts_with(s, "<t:"@)
            &&& d > 0
            &&& digit_run(s.skip(3)) == d
            &&& digits_value(s.subrange(3, 3 + d)) == n
            &&& forall|k: int| 0 <= k < rest.len() ==> s[3 + d + k] == #[trigger] rest[k]
            &&& s.len() == 3 + d + rest.len()
        }),
{
    reveal_strlit("<t:");
    decimals_tell_the_number(n);
    lemma_digits_value(n);
    let s = written(n) + rest;
    let d = decimal(n).len() as int;
    assert(s.take(3) =~= "<t:"@);
    assert(s.subrange(3, 3 + d) =~= decimal(n));
    assert forall|k: int| 0 <= k < d implies is_digit(#[trigger] s.skip(3)[k]) by {
        assert(s.skip(3)[k] == decimal(n)[k]);
    }
    assert(s.skip(3)[d] == rest[0]);
    lemma_digit_run_is(s.skip(3), d);
}

/// A time that is written without a style is read as its seconds, and shown as a date with the time,
/// whatever stands behind it.
pub proof fn times_are_read_as_written(n: nat, rest: Seq<char>)
    requires
        n <= i64::MAX,
    ensures
        stamp(written(n) + (seq!['>'] + rest)) is Some,
        stamp(written(n) + (seq!['>'] + rest))->0.seconds == n,
        stamp(written(n) + (seq!['>'] + rest))->0.style == TimestampStyle::DateAndTime,
        stamp(written(n) + (seq!['>'] + rest))->0.end == written(n).len() + 1,
{
    reveal_strlit("<t:");
    let tail = seq!['>'] + rest;
    assert(tail[0] == '>');
    lemma_written(n, tail);
}

/// A time that is written with the letter of a style is read as its seconds, in that style.
pub proof fn times_are_read_in_their_style(n: nat, letter: char, rest: Seq<char>)
    requires
        n <= i64::MAX,
    ensures
        ({
            let s = written(n) + (seq![':', letter, '>'] + rest);
            &&& stamp(s) is Some <==> style_of(letter) is Some
            &&& stamp(s) matches Some(st) ==> st.seconds == n && Some(st.style) == style_of(letter) && st.end == written(
                n,
            ).len() + 3
        }),
{
    reveal_strlit("<t:");
    let tail = seq![':', letter, '>'] + rest;
    assert(tail[0] == ':' && tail[1] == letter && tail[2] == '>');
    lemma_written(n, tail);
}

/// Each style has a letter of its own: small ones for what is short, capital ones for what is long.
pub proof fn styles_have_letters_of_their_own(a: char, b: char)
    ensures
        style_of(a) is Some && style_of(a) == style_of(b) ==> a == b,
        style_of('t') == Some(TimestampStyle::ShortTime) && style_of('T') == Some(TimestampStyle::LongTime),
        style_of('d') == Some(TimestampStyle::ShortDate) && style_of('D') == Some(TimestampStyle::LongDate),
        style_of('f') == Some(TimestampStyle::DateAndTime) && style_of('F') == Some(TimestampStyle::FullDateAndTime),
        style_of('R') == Some(TimestampStyle::Relative),
{
}

/// What is read as a time has the form of one: it begins and ends with its marks, and at least one digit
/// stands between.
pub proof fn times_have_their_form(s: Seq<char>)
    ensures
        stamp(s) matches Some(st) ==> starts_with(s, "<t:"@) && 5 <= st.end <= s.len() && s[st.end - 1] == '>' && is_digit(
            s[3],
        ) && 0 <= st.seconds,
{
    reveal_strlit("<t:");
    if stamp(s) is Some {
        let d = digit_run(s.skip(3));
        assert(s.take(3) == "<t:"@);
        crate::message::time::lemma_digit_run(s.skip(3));
        assert(d > 0);
        assert(s.skip(3)[0] == s[3]);
    }
}

// ---- Times as seen from now ----

/// The units that a span of time is told in.
pub enum SpanUnit {
    Minute,
    Hour,
    Day,
    Month,
    Year,
}

impl SpanUnit {
    /// How long so many of a unit are.
    pub open spec fn seconds(self, n: int) -> int {
        match self {
            SpanUnit::Minute => n * 60,
            SpanUnit::Hour => n * 3_600,
            SpanUnit::Day => n * 86_400,
            SpanUnit::Month => n * 2_592_000,
            SpanUnit::Year => n * 31_536_000,
        }
    }

    pub open spec fn name(self) -> Seq<char> {
        match self {
            SpanUnit::Minute => "minute"@,
            SpanUnit::Hour => "hour"@,
            SpanUnit::Day => "day"@,
            SpanUnit::Month => "month"@,
            SpanUnit::Year => "year"@,
        }
    }
}

/// A span of time is told in the largest unit that it fills, and by how often it fills it. Twelve months
/// of thirty days are told as a year, though they are a few days short of one.
pub proof fn spans_are_told_in_the_largest_unit(seconds: nat) -> (r: (nat, SpanUnit))
    requires
        seconds >= 60,
    ensures
        in_units(seconds) == quantity(r.0, r.1.name()),
        r.0 >= 1,
        seconds < r.1.seconds(r.0 + 1int),
        r.1.seconds(r.0 as int) <= seconds || (r.1 is Year && r.0 == 1 && SpanUnit::Month.seconds(12) <= seconds),
        r.1 is Minute ==> seconds < SpanUnit::Hour.seconds(1),
        r.1 is Hour ==> seconds < SpanUnit::Day.seconds(1),
        r.1 is Day ==> seconds < SpanUnit::Month.seconds(1),
        r.1 is Month ==> seconds < SpanUnit::Month.seconds(12),
{
    let minutes = seconds / 60;
    let hours = minutes / 60;
    let days = hours / 24;
    let months = days / 30;
    if minutes < 60 {
        (minutes, SpanUnit::Minute)
    } else if hours < 24 {
        (hours, SpanUnit::Hour)
    } else if days < 30 {
        (days, SpanUnit::Day)
    } else if months < 12 {
        (months, SpanUnit::Month)
    } else if days / 365 == 0 {
        (1, SpanUnit::Year)
    } else {
        (days / 365, SpanUnit::Year)
    }
}

/// A quantity begins with its number, and its unit is in the plural unless there is one of it.
pub proof fn quantities_tell_number_and_unit(n: nat, unit: Seq<char>)
    ensures
        decimal(n).is_prefix_of(quantity(n, unit)),
        n == 1 ==> quantity(n, unit).len() == decimal(n).len() + 1 + unit.len(),
        n != 1 ==> quantity(n, unit).len() == decimal(n).len() + 2 + unit.len() && quantity(n, unit).last() == 's',
        quantity(n, unit)[decimal(n).len() as int] == ' ',
        quantity(n, unit).skip(decimal(n).len() + 1int).take(unit.len() as int) == unit,
{
    reveal_strlit(" ");
    reveal_strlit("");
    reveal_strlit("s");
    let q = quantity(n, unit);
    assert(q.take(decimal(n).len() as int) =~= decimal(n));
    assert(q.skip(decimal(n).len() + 1int).take(unit.len() as int) =~= unit);
}

/// A time to come is told with how long it takes, and one that is over with how long it is ago.
pub proof fn times_are_seen_from_now(seconds: i64, now: i64)
    requires
        i64::MIN <= seconds - now <= i64::MAX,
    ensures
        seconds - now >= 60 ==> relative(seconds, now) == "in "@ + in_units((seconds - now) as nat),
        0 < seconds - now < 60 ==> relative(seconds, now) == "in less than a minute"@,
        now - seconds >= 60 ==> relative(seconds, now) == in_units((now - seconds) as nat) + " ago"@,
        0 <= now - seconds < 60 ==> relative(seconds, now) == "just now"@,
{
}

/// Spans beyond the range of times are told as the longest there are.
pub proof fn endless_spans_are_told_as_the_longest(seconds: i64, now: i64)
    ensures
        seconds - now > i64::MAX ==> relative(seconds, now) == "in "@ + in_units(i64::MAX as nat),
        now - seconds > i64::MAX ==> relative(seconds, now) == in_units((i64::MAX + 1) as nat) + " ago"@,
{
}

} // verus!
