//! Times of messages, and the markup for times inside their text.

use crate::ids::MessageId;
use crate::text::{
    chars_of, contains_text, decimal, decimal_string, find_char, first_index, join_with, lemma_first_index, matches_at, opt_text,
    split_on, split_str, starts_with, str_contains, string_of, sub_chars, texts,
};
use crate::unicode::{all_space, trim_text, trimmed, trimmed_end, trimmed_start};
use chrono::{DateTime, Datelike, Local};
use vstd::prelude::*;
use vstd::string::*;

verus! {

pub const DISCORD_EPOCH_MILLIS: u64 = 1_420_070_400_000;

/// The first and the last second that a calendar date is known for.
pub const FIRST_SECOND: i64 = -8_334_601_228_800;

pub const LAST_SECOND: i64 = 8_210_266_876_799;

pub const DAY_SECONDS: i64 = 86_400;

/// Whether a second has a calendar date.
pub open spec fn has_date(seconds: int) -> bool {
    FIRST_SECOND <= seconds <= LAST_SECOND
}

// ---- Markup ----

/// How a time is to be shown.
#[derive(Clone, Copy, Debug, PartialEq, Eq, Structural)]
pub enum TimestampStyle {
    ShortTime,
    LongTime,
    ShortDate,
    LongDate,
    DateAndTime,
    FullDateAndTime,
    ShortDateAndTime,
    ShortDateAndLongTime,
    Relative,
}

/// How times are told: in hours up to 24 or twice up to 12, and relative ones as seen from `now`.
#[derive(Clone, Copy, Debug, PartialEq, Eq, Structural)]
pub struct TimeFormat {
    pub hour_format_24: bool,
    pub now: i64,
}

/// A piece of a text: text that stays, or the markup of a time.
#[derive(Debug, PartialEq, Eq)]
pub enum TimestampToken {
    Text(String),
    Stamp { seconds: i64, style: TimestampStyle, markup: String },
}

pub enum TokenView {
    Text(Seq<char>),
    Stamp { seconds: i64, style: TimestampStyle, markup: Seq<char> },
}

impl View for TimestampToken {
    type V = TokenView;

    open spec fn view(&self) -> TokenView {
        match self {
            TimestampToken::Text(text) => TokenView::Text(text@),
            TimestampToken::Stamp { seconds, style, markup } => TokenView::Stamp {
                seconds: *seconds,
                style: *style,
                markup: markup@,
            },
        }
    }
}

pub open spec fn token_views(v: Seq<TimestampToken>) -> Seq<TokenView> {
    v.map_values(|t: TimestampToken| t@)
}

/// A text that stays as it is.
pub open spec fn kept(s: Seq<char>) -> Seq<TokenView> {
    seq![TokenView::Text(s)]
}

pub open spec fn is_digit(c: char) -> bool {
    '0' <= c && c <= '9'
}

/// How many decimal digits a text begins with.
pub open spec fn digit_run(s: Seq<char>) -> int
    decreases s.len(),
{
    if s.len() > 0 && is_digit(s[0]) {
        1 + digit_run(s.drop_first())
    } else {
        0
    }
}

/// The value of decimal digits.
pub open spec fn digits_value(s: Seq<char>) -> nat
    decreases s.len(),
{
    if s.len() == 0 {
        0
    } else {
        digits_value(s.drop_last()) * 10 + ((s.last() as u32 - 48) as nat)
    }
}

/// The style that a letter stands for.
pub open spec fn style_of(c: char) -> Option<TimestampStyle> {
    if c == 't' {
        Some(TimestampStyle::ShortTime)
    } else if c == 'T' {
        Some(TimestampStyle::LongTime)
    } else if c == 'd' {
        Some(TimestampStyle::ShortDate)
    } else if c == 'D' {
        Some(TimestampStyle::LongDate)
    } else if c == 'f' {
        Some(TimestampStyle::DateAndTime)
    } else if c == 'F' {
        Some(TimestampStyle::FullDateAndTime)
    } else if c == 's' {
        Some(TimestampStyle::ShortDateAndTime)
    } else if c == 'S' {
        Some(TimestampStyle::ShortDateAndLongTime)
    } else if c == 'R' {
        Some(TimestampStyle::Relative)
    } else {
        None
    }
}

/// The markup that a text begins with.
pub struct Stamp {
    pub end: int,
    pub seconds: i64,
    pub style: TimestampStyle,
}

/// The markup that a text begins with: `<t:`, digits whose value is a time, optionally a colon and
/// the letter of a style, and `>`.
pub open spec fn stamp(s: Seq<char>) -> Option<Stamp> {
    let d = digit_run(s.skip(3));
    let value = digits_value(s.subrange(3, 3 + d));
    let e = 3 + d;
    if !starts_with(s, "<t:"@) || d == 0 || value > i64::MAX || e >= s.len() {
        None
    } else if s[e] == '>' {
        Some(Stamp { end: e + 1, seconds: value as i64, style: TimestampStyle::DateAndTime })
    } else if s[e] == ':' && e + 2 < s.len() && s[e + 2] == '>' {
        match style_of(s[e + 1]) {
            Some(style) => Some(Stamp { end: e + 3, seconds: value as i64, style }),
            None => None,
        }
    } else {
        None
    }
}

/// A text taken apart into single characters and markup.
pub open spec fn markup_tokens(s: Seq<char>) -> Seq<TokenView>
    decreases s.len(),
{
    if s.len() == 0 {
        seq![]
    } else {
        let found = stamp(s);
        if found is Some && 0 < found->0.end <= s.len() {
            let st = found->0;
            seq![TokenView::Stamp { seconds: st.seconds, style: st.style, markup: s.take(st.end) }] + markup_tokens(
                s.skip(st.end),
            )
        } else {
            seq![TokenView::Text(s.take(1))] + markup_tokens(s.skip(1))
        }
    }
}

/// As [`markup_tokens`], but what stands between two backticks, if it is anything, is code and stays.
pub open spec fn line_tokens(s: Seq<char>) -> Seq<TokenView>
    decreases s.len(),
{
    let open = first_index(s, '`');
    let rest = s.skip(open + 1);
    let close = first_index(rest, '`');
    if !(0 <= open < s.len()) {
        markup_tokens(s)
    } else if close <= 0 || close >= rest.len() {
        markup_tokens(s.take(open)) + markup_tokens(s.skip(open))
    } else {
        markup_tokens(s.take(open)) + kept(s.subrange(open, open + close + 2)) + line_tokens(
            s.skip(open + close + 2),
        )
    }
}

/// Three backticks.
pub open spec fn fence() -> Seq<char> {
    seq!['`', '`', '`']
}

/// Whether a line ends a block of code: it is a fence, or ends with one behind some text.
pub open spec fn closes_block(line: Seq<char>) -> bool {
    let end = trimmed_end(line);
    ||| trimmed(line) == fence()
    ||| end.len() >= 3 && end.skip(end.len() - 3) == fence() && !all_space(end.take(end.len() - 3))
}

pub open spec fn opens_block(line: Seq<char>) -> bool {
    starts_with(trimmed_start(line), fence())
}

/// The tokens of the first `k` lines, and whether a block of code is open behind them. Lines are
/// separated by line feeds.
pub open spec fn block_tokens(lines: Seq<Seq<char>>, k: int) -> (Seq<TokenView>, bool)
    decreases k,
{
    if k <= 0 {
        (seq![], false)
    } else {
        let (before, in_block) = block_tokens(lines, k - 1);
        let line = lines[k - 1];
        let sep = if k == 1 { seq![] } else { seq![TokenView::Text(seq!['\n'])] };
        if in_block {
            (before + sep + kept(line), !closes_block(line))
        } else if opens_block(line) {
            (before + sep + kept(line), true)
        } else {
            (before + sep + line_tokens(line), false)
        }
    }
}

/// A message taken apart into text and the markup of times that is not code.
pub open spec fn timestamp_tokens(value: Seq<char>) -> Seq<TokenView> {
    if !contains_text(value, "<t:"@) {
        kept(value)
    } else {
        let lines = split_on(value, '\n');
        block_tokens(lines, lines.len() as int).0
    }
}

// ---- What taking apart keeps ----

/// The text that a token was made of.
pub open spec fn token_source(t: TokenView) -> Seq<char> {
    match t {
        TokenView::Text(text) => text,
        TokenView::Stamp { markup, .. } => markup,
    }
}

pub open spec fn token_sources(ts: Seq<TokenView>) -> Seq<char>
    decreases ts.len(),
{
    if ts.len() == 0 {
        seq![]
    } else {
        token_sources(ts.drop_last()) + token_source(ts.last())
    }
}

proof fn lemma_sources_add(a: Seq<TokenView>, b: Seq<TokenView>)
    ensures
        token_sources(a + b) == token_sources(a) + token_sources(b),
    decreases b.len(),
{
    if b.len() == 0 {
        assert(a + b =~= a);
        assert(token_sources(a) + token_sources(b) =~= token_sources(a));
    } else {
        assert((a + b).drop_last() =~= a + b.drop_last());
        lemma_sources_add(a, b.drop_last());
        assert((a + b).last() == b.last());
        assert(token_sources(a) + (token_sources(b.drop_last()) + token_source(b.last())) =~= (token_sources(a)
            + token_sources(b.drop_last())) + token_source(b.last()));
    }
}

proof fn lemma_sources_one(t: TokenView)
    ensures
        token_sources(seq![t]) == token_source(t),
{
    reveal_with_fuel(token_sources, 2);
    assert(seq![t].drop_last() =~= Seq::<TokenView>::empty());
    assert(token_sources(seq![t]) =~= token_source(t));
}

proof fn lemma_sources_chars(s: Seq<char>)
    ensures
        token_sources(kept(s)) == s,
{
    lemma_sources_one(TokenView::Text(s));
}

proof fn lemma_sources_markup(s: Seq<char>)
    ensures
        token_sources(markup_tokens(s)) == s,
    decreases s.len(),
{
    if s.len() == 0 {
        assert(token_sources(markup_tokens(s)) =~= s);
    } else {
        let found = stamp(s);
        if found is Some && 0 < found->0.end <= s.len() {
            let st = found->0;
            let end = st.end;
            let first = TokenView::Stamp { seconds: st.seconds, style: st.style, markup: s.take(end) };
            lemma_sources_markup(s.skip(end));
            lemma_sources_one(first);
            lemma_sources_add(seq![first], markup_tokens(s.skip(end)));
            assert(s.take(end) + s.skip(end) =~= s);
        } else {
            let first = TokenView::Text(s.take(1));
            lemma_sources_markup(s.skip(1));
            lemma_sources_one(first);
            lemma_sources_add(seq![first], markup_tokens(s.skip(1)));
            assert(s.take(1) + s.skip(1) =~= s);
        }
    }
}

proof fn lemma_sources_line(s: Seq<char>)
    ensures
        token_sources(line_tokens(s)) == s,
    decreases s.len(),
{
    let open = first_index(s, '`');
    lemma_first_index(s, '`');
    let rest = s.skip(open + 1);
    let close = first_index(rest, '`');
    if !(0 <= open < s.len()) {
        lemma_sources_markup(s);
    } else {
        lemma_first_index(rest, '`');
        lemma_sources_markup(s.take(open));
        if close <= 0 || close >= rest.len() {
            lemma_sources_markup(s.skip(open));
            lemma_sources_add(markup_tokens(s.take(open)), markup_tokens(s.skip(open)));
            assert(s.take(open) + s.skip(open) =~= s);
        } else {
            let code = s.subrange(open, open + close + 2);
            let tail = s.skip(open + close + 2);
            lemma_sources_chars(code);
            lemma_sources_line(tail);
            lemma_sources_add(markup_tokens(s.take(open)), kept(code));
            lemma_sources_add(markup_tokens(s.take(open)) + kept(code), line_tokens(tail));
            assert(s.take(open) + code + tail =~= s);
        }
    }
}

proof fn lemma_sources_block(lines: Seq<Seq<char>>, k: int)
    requires
        0 <= k <= lines.len(),
    ensures
        token_sources(block_tokens(lines, k).0) == join_with(lines.take(k), seq!['\n']),
    decreases k,
{
    if k == 0 {
        assert(token_sources(block_tokens(lines, 0).0) =~= join_with(lines.take(0), seq!['\n']));
    } else {
        lemma_sources_block(lines, k - 1);
        let (before, in_block) = block_tokens(lines, k - 1);
        let line = lines[k - 1];
        let sep = if k == 1 { seq![] } else { seq![TokenView::Text(seq!['\n'])] };
        lemma_sources_chars(line);
        lemma_sources_line(line);
        lemma_sources_one(TokenView::Text(seq!['\n']));
        lemma_sources_add(before, sep);
        lemma_sources_add(before + sep, kept(line));
        lemma_sources_add(before + sep, line_tokens(line));
        assert(lines.take(k).drop_last() =~= lines.take(k - 1));
        assert(lines.take(k).last() == line);
        if k == 1 {
            assert(token_sources(before) =~= Seq::<char>::empty());
            assert(token_sources(sep) =~= Seq::<char>::empty());
            assert(Seq::<char>::empty() + Seq::<char>::empty() + line =~= line);
            assert(lines.take(1)[0] == line);
        }
    }
}

proof fn lemma_join_split(s: Seq<char>, sep: char)
    ensures
        join_with(split_on(s, sep), seq![sep]) == s,
        split_on(s, sep).len() > 0,
    decreases s.len(),
{
    let i = first_index(s, sep);
    lemma_first_index(s, sep);
    if i < s.len() {
        let rest = split_on(s.skip(i + 1), sep);
        lemma_join_split(s.skip(i + 1), sep);
        lemma_join_front(s.take(i), rest, seq![sep]);
        assert(s.take(i) + seq![sep] + s.skip(i + 1) =~= s);
    }
}

pub(crate) proof fn lemma_join_front(first: Seq<char>, rest: Seq<Seq<char>>, sep: Seq<char>)
    requires
        rest.len() > 0,
    ensures
        join_with(seq![first] + rest, sep) == first + sep + join_with(rest, sep),
    decreases rest.len(),
{
    let all = seq![first] + rest;
    assert(all.drop_last() =~= seq![first] + rest.drop_last());
    assert(all.last() == rest.last());
    if rest.len() == 1 {
        assert(all.drop_last() =~= seq![first]);
        assert(join_with(seq![first], sep) == first);
        assert(rest[0] == rest.last());
    } else {
        lemma_join_front(first, rest.drop_last(), sep);
        assert(first + sep + join_with(rest.drop_last(), sep) + sep + rest.last() =~= first + sep + (join_with(
            rest.drop_last(),
            sep,
        ) + sep + rest.last()));
    }
}

/// Taking a text apart loses nothing: the sources of the tokens, one after the other, are the text.
pub proof fn tokens_are_the_text(value: Seq<char>)
    ensures
        token_sources(timestamp_tokens(value)) == value,
{
    if !contains_text(value, "<t:"@) {
        lemma_sources_chars(value);
    } else {
        let lines = split_on(value, '\n');
        lemma_sources_block(lines, lines.len() as int);
        assert(lines.take(lines.len() as int) =~= lines);
        lemma_join_split(value, '\n');
    }
}

// ---- Taking apart ----

fn count_digits(v: &Vec<char>, at: usize) -> (n: usize)
    requires
        at <= v@.len(),
    ensures
        n == digit_run(v@.skip(at as int)),
        at + n <= v@.len(),
{
    let mut n: usize = 0;
    let ghost whole = digit_run(v@.skip(at as int));
    let len: usize = v.len();
    while n < len - at && '0' <= v[at + n] && v[at + n] <= '9'
        invariant
            at <= len,
            len == v@.len(),
            at + n <= v@.len(),
            digit_run(v@.skip(at as int)) == n + digit_run(v@.skip(at + n)),
        decreases v@.len() - at - n,
    {
        assert(v@.skip(at + n).drop_first() =~= v@.skip(at + n + 1));
        assert(v@.skip(at + n)[0] == v@[at + n]);
        n += 1;
    }
    proof {
        if at + n < v@.len() {
            assert(v@.skip(at + n)[0] == v@[at + n]);
        }
    }
    n
}

pub(crate) proof fn lemma_digit_run(s: Seq<char>)
    ensures
        0 <= digit_run(s) <= s.len(),
        forall|k: int| 0 <= k < digit_run(s) ==> is_digit(#[trigger] s[k]),
    decreases s.len(),
{
    if s.len() > 0 && is_digit(s[0]) {
        lemma_digit_run(s.drop_first());
        assert forall|k: int| 0 <= k < digit_run(s) implies is_digit(#[trigger] s[k]) by {
            if k > 0 {
                assert(s[k] == s.drop_first()[k - 1]);
            }
        }
    }
}

/// The value of the digits `v[from..to]`, if it is a time.
fn parse_seconds(v: &Vec<char>, from: usize, to: usize) -> (r: Option<i64>)
    requires
        from <= to <= v@.len(),
        forall|k: int| from <= k < to ==> is_digit(#[trigger] v@[k]),
    ensures
        match r {
            Some(n) => n == digits_value(v@.subrange(from as int, to as int)),
            None => digits_value(v@.subrange(from as int, to as int)) > i64::MAX,
        },
{
    let mut value: i64 = 0;
    let mut over = false;
    let mut i: usize = from;
    assert(v@.subrange(from as int, from as int) =~= Seq::<char>::empty());
    while i < to
        invariant
            from <= i <= to <= v@.len(),
            forall|k: int| from <= k < to ==> is_digit(#[trigger] v@[k]),
            0 <= value,
            !over ==> value == digits_value(v@.subrange(from as int, i as int)),
            over ==> digits_value(v@.subrange(from as int, i as int)) > i64::MAX,
        decreases to - i,
    {
        proof {
            assert(v@.subrange(from as int, i + 1).drop_last() =~= v@.subrange(from as int, i as int));
            assert(v@.subrange(from as int, i + 1).last() == v@[i as int]);
            assert(is_digit(v@[i as int]));
        }
        if !over {
            let next: i128 = value as i128 * 10 + (v[i] as u32 - 48) as i128;
            if next > i64::MAX as i128 {
                over = true;
            } else {
                value = next as i64;
            }
        }
        i += 1;
    }
    if over {
        None
    } else {
        Some(value)
    }
}

fn timestamp_style(c: char) -> (r: Option<TimestampStyle>)
    ensures
        r == style_of(c),
{
    match c {
        't' => Some(TimestampStyle::ShortTime),
        'T' => Some(TimestampStyle::LongTime),
        'd' => Some(TimestampStyle::ShortDate),
        'D' => Some(TimestampStyle::LongDate),
        'f' => Some(TimestampStyle::DateAndTime),
        'F' => Some(TimestampStyle::FullDateAndTime),
        's' => Some(TimestampStyle::ShortDateAndTime),
        'S' => Some(TimestampStyle::ShortDateAndLongTime),
        'R' => Some(TimestampStyle::Relative),
        _ => None,
    }
}

/// The markup that begins at character `start`: the character behind it, the time and the style. There is
/// none behind the end.
pub fn parse_discord_timestamp(value: &Vec<char>, start: usize) -> (r: Option<(usize, i64, TimestampStyle)>)
    ensures
        start > value@.len() ==> r is None,
        start <= value@.len() ==> match (r, stamp(value@.skip(start as int))) {
            (Some((end, seconds, style)), Some(st)) => {
                &&& end == start + st.end
                &&& seconds == st.seconds
                &&& style == st.style
                &&& start < end <= value@.len()
            },
            (None, None) => true,
            _ => false,
        },
{
    if start > value.len() {
        return None;
    }
    let ghost s = value@.skip(start as int);
    let open = chars_of("<t:");
    proof {
        reveal_strlit("<t:");
    }
    let len: usize = value.len();
    if !matches_at(value, start, &open) {
        return None;
    }
    let digits_start: usize = start + 3;
    let n: usize = count_digits(value, digits_start);
    proof {
        assert(s.skip(3) =~= value@.skip(digits_start as int));
        lemma_digit_run(s.skip(3));
        assert forall|k: int| digits_start <= k < digits_start + n implies is_digit(#[trigger] value@[k]) by {
            assert(s.skip(3)[k - digits_start] == value@[k]);
        }
        assert(s.subrange(3, 3 + n) =~= value@.subrange(digits_start as int, digits_start + n));
    }
    if n == 0 {
        return None;
    }
    let seconds = parse_seconds(value, digits_start, digits_start + n);
    let seconds: i64 = match seconds {
        Some(seconds) => seconds,
        None => {
            return None;
        },
    };
    let e: usize = digits_start + n;
    if e >= len {
        return None;
    }
    assert(s[3 + n] == value@[e as int]);
    if value[e] == '>' {
        return Some((e + 1, seconds, TimestampStyle::DateAndTime));
    }
    if value[e] != ':' || len - e <= 2 {
        return None;
    }
    assert(s[3 + n + 1] == value@[e + 1]);
    assert(s[3 + n + 2] == value@[e + 2]);
    if value[e + 2] != '>' {
        return None;
    }
    match timestamp_style(value[e + 1]) {
        Some(style) => Some((e + 3, seconds, style)),
        None => None,
    }
}

proof fn lemma_tokens_push(v: Seq<TimestampToken>, t: TimestampToken)
    ensures
        token_views(v.push(t)) == token_views(v).push(t@),
{
    assert(token_views(v.push(t)) =~= token_views(v).push(t@));
}

/// The tokens of a text without code.
fn push_markup_tokens(out: &mut Vec<TimestampToken>, value: &Vec<char>)
    ensures
        token_views(final(out)@) == token_views(old(out)@) + markup_tokens(value@),
{
    let mut cursor: usize = 0;
    let ghost start = token_views(out@);
    assert(value@.skip(0) =~= value@);
    while cursor < value.len()
        invariant
            cursor <= value@.len(),
            token_views(out@) + markup_tokens(value@.skip(cursor as int)) == start + markup_tokens(value@),
        decreases value@.len() - cursor,
    {
        let ghost rest = value@.skip(cursor as int);
        let ghost before = token_views(out@);
        match parse_discord_timestamp(value, cursor) {
            Some((end, seconds, style)) => {
                let markup = string_of(value, cursor, end);
                let token = TimestampToken::Stamp { seconds, style, markup };
                proof {
                    lemma_tokens_push(out@, token);
                    assert(rest.take(end - cursor) =~= markup@);
                    assert(rest.skip(end - cursor) =~= value@.skip(end as int));
                    assert(before.push(token@) + markup_tokens(value@.skip(end as int)) =~= before + markup_tokens(rest));
                }
                out.push(token);
                cursor = end;
            },
            None => {
                let text = string_of(value, cursor, cursor + 1);
                let token = TimestampToken::Text(text);
                proof {
                    lemma_tokens_push(out@, token);
                    assert(rest.take(1) =~= text@);
                    assert(rest.skip(1) =~= value@.skip(cursor + 1));
                    assert(before.push(token@) + markup_tokens(value@.skip(cursor + 1)) =~= before + markup_tokens(rest));
                }
                out.push(token);
                cursor += 1;
            },
        }
    }
    assert(value@.skip(cursor as int) =~= Seq::<char>::empty());
    assert(token_views(out@) + Seq::<TokenView>::empty() =~= token_views(out@));
}

fn push_kept(out: &mut Vec<TimestampToken>, text: String)
    ensures
        token_views(final(out)@) == token_views(old(out)@) + kept(text@),
{
    let token = TimestampToken::Text(text);
    proof {
        lemma_tokens_push(out@, token);
        assert(token_views(out@).push(token@) =~= token_views(out@) + kept(text@));
    }
    out.push(token);
}

/// The tokens of one line outside a block of code.
fn push_line_tokens(out: &mut Vec<TimestampToken>, value: &Vec<char>)
    ensures
        token_views(final(out)@) == token_views(old(out)@) + line_tokens(value@),
{
    let mut cursor: usize = 0;
    let ghost start = token_views(out@);
    let len: usize = value.len();
    assert(value@.skip(0) =~= value@);
    loop
        invariant
            len == value@.len(),
            cursor <= value@.len(),
            token_views(out@) + line_tokens(value@.skip(cursor as int)) == start + line_tokens(value@),
            start == token_views(old(out)@),
        decreases value@.len() - cursor,
    {
        let ghost s = value@.skip(cursor as int);
        let ghost before = token_views(out@);
        let open: usize = find_char(value, cursor, '`');
        if open >= len {
            let rest = sub_chars(value, cursor, len);
            assert(rest@ =~= s);
            push_markup_tokens(out, &rest);
            return ;
        }
        let close: usize = find_char(value, open + 1, '`');
        let head = sub_chars(value, cursor, open);
        proof {
            assert(head@ =~= s.take(open - cursor));
            assert(s.skip(open - cursor + 1) =~= value@.skip(open + 1));
        }
        push_markup_tokens(out, &head);
        if close >= len || close == open + 1 {
            let rest = sub_chars(value, open, len);
            assert(rest@ =~= s.skip(open - cursor));
            push_markup_tokens(out, &rest);
            assert(token_views(out@) =~= before + (markup_tokens(head@) + markup_tokens(rest@)));
            return ;
        }
        let code = string_of(value, open, close + 1);
        proof {
            assert(code@ =~= s.subrange(open - cursor, close + 1 - cursor));
            assert(s.skip(close + 1 - cursor) =~= value@.skip(close + 1));
        }
        push_kept(out, code);
        proof {
            let tail = line_tokens(value@.skip(close + 1));
            assert(token_views(out@) + tail =~= before + (markup_tokens(head@) + kept(code@) + tail));
        }
        cursor = close + 1;
    }
}

/// Whether a line ends a block of code.
pub fn closes_markdown_code_block(value: &str) -> (r: bool)
    ensures
        r == closes_block(value@),
{
    let trimmed_value = trim_text(value);
    let fence_chars = chars_of("```");
    proof {
        reveal_strlit("```");
        assert("```"@ =~= fence());
    }
    if crate::text::str_eq(trimmed_value.as_str(), "```") {
        return true;
    }
    let v = chars_of(value);
    let mut end: usize = v.len();
    assert(v@.take(end as int) =~= value@);
    while end > 0 && v[end - 1].is_whitespace()
        invariant
            v@ == value@,
            end <= v@.len(),
            trimmed_end(value@) == trimmed_end(v@.take(end as int)),
        decreases end,
    {
        assert(v@.take(end as int).drop_last() =~= v@.take(end - 1));
        end -= 1;
    }
    let ghost t = v@.take(end as int);
    assert(trimmed_end(value@) == t);
    if end < 3 {
        return false;
    }
    if v[end - 3] != '`' || v[end - 2] != '`' || v[end - 1] != '`' {
        assert(t.skip(end - 3)[0] == v@[end - 3]);
        assert(t.skip(end - 3)[1] == v@[end - 2]);
        assert(t.skip(end - 3)[2] == v@[end - 1]);
        return false;
    }
    assert(t.skip(end - 3) =~= fence());
    let before = string_of(&v, 0, end - 3);
    assert(before@ =~= t.take(end - 3));
    !crate::unicode::is_all_space(before.as_str())
}

fn opens_code_block(value: &str) -> (r: bool)
    ensures
        r == opens_block(value@),
{
    let v = chars_of(value);
    let fence_chars = chars_of("```");
    proof {
        reveal_strlit("```");
        assert("```"@ =~= fence());
    }
    let mut from: usize = 0;
    assert(v@.skip(0) =~= value@);
    while from < v.len() && v[from].is_whitespace()
        invariant
            v@ == value@,
            from <= v@.len(),
            trimmed_start(value@) == trimmed_start(v@.skip(from as int)),
        decreases v@.len() - from,
    {
        assert(v@.skip(from as int).drop_first() =~= v@.skip(from + 1));
        from += 1;
    }
    matches_at(&v, from, &fence_chars)
}

/// Takes a message apart into text and the markup of times that is not code.
pub fn split_timestamps(value: &str) -> (r: Vec<TimestampToken>)
    ensures
        token_views(r@) == timestamp_tokens(value@),
{
    let mut out: Vec<TimestampToken> = Vec::new();
    assert(token_views(out@) =~= Seq::<TokenView>::empty());
    if !str_contains(value, "<t:") {
        push_kept(&mut out, value.to_owned());
        assert(token_views(out@) =~= kept(value@));
        return out;
    }
    let lines = split_str(value, '\n');
    let ghost pieces = split_on(value@, '\n');
    let mut in_code_block = false;
    let mut k: usize = 0;
    while k < lines.len()
        invariant
            texts(lines@) == pieces,
            k <= lines@.len(),
            token_views(out@) == block_tokens(pieces, k as int).0,
            in_code_block == block_tokens(pieces, k as int).1,
        decreases lines@.len() - k,
    {
        assert(pieces[k as int] == lines@[k as int]@);
        let ghost before = token_views(out@);
        if k > 0 {
            let newline = "\n".to_owned();
            proof {
                reveal_strlit("\n");
                assert(newline@ =~= seq!['\n']);
            }
            push_kept(&mut out, newline);
            assert(token_views(out@) =~= before + seq![TokenView::Text(seq!['\n'])]);
        } else {
            assert(before + Seq::<TokenView>::empty() =~= before);
        }
        let line: &String = &lines[k];
        if in_code_block {
            if closes_markdown_code_block(line.as_str()) {
                in_code_block = false;
            }
            push_kept(&mut out, line.clone());
        } else if opens_code_block(line.as_str()) {
            push_kept(&mut out, line.clone());
            in_code_block = true;
        } else {
            let chars = chars_of(line.as_str());
            push_line_tokens(&mut out, &chars);
        }
        k += 1;
    }
    out
}

// ---- Relative times ----

/// A number of units in words: the unit is in the plural unless there is one of it.
pub open spec fn quantity(n: nat, unit: Seq<char>) -> Seq<char> {
    decimal(n) + " "@ + unit + (if n == 1 {
        ""@
    } else {
        "s"@
    })
}

pub fn relative_quantity(value: u64, unit: &str) -> (r: String)
    ensures
        r@ == quantity(value as nat, unit@),
{
    let mut r = decimal_string(value);
    r.append(" ");
    r.append(unit);
    r.append(
        if value == 1 {
            ""
        } else {
            "s"
        },
    );
    r
}

/// The largest unit that a minute or more of time fills, and how often. A month has 30 days, a year
/// 365, and what is no longer told in months is a year at least.
pub open spec fn in_units(seconds: nat) -> Seq<char> {
    let minutes = seconds / 60;
    let hours = minutes / 60;
    let days = hours / 24;
    let months = days / 30;
    if minutes < 60 {
        quantity(minutes, "minute"@)
    } else if hours < 24 {
        quantity(hours, "hour"@)
    } else if days < 30 {
        quantity(days, "day"@)
    } else if months < 12 {
        quantity(months, "month"@)
    } else {
        quantity(if days / 365 == 0 {
            1
        } else {
            days / 365
        }, "year"@)
    }
}

fn relative_units(seconds: u64) -> (r: String)
    ensures
        r@ == in_units(seconds as nat),
{
    let minutes: u64 = seconds / 60;
    if minutes < 60 {
        return relative_quantity(minutes, "minute");
    }
    let hours: u64 = minutes / 60;
    if hours < 24 {
        return relative_quantity(hours, "hour");
    }
    let days: u64 = hours / 24;
    if days < 30 {
        return relative_quantity(days, "day");
    }
    let months: u64 = days / 30;
    if months < 12 {
        return relative_quantity(months, "month");
    }
    let years: u64 = days / 365;
    relative_quantity(
        if years == 0 {
            1
        } else {
            years
        },
        "year",
    )
}

pub open spec fn past(seconds: nat) -> Seq<char> {
    if seconds < 60 {
        "just now"@
    } else {
        in_units(seconds) + " ago"@
    }
}

pub fn format_relative_time_past(seconds: u64) -> (r: String)
    ensures
        r@ == past(seconds as nat),
{
    if seconds < 60 {
        return "just now".to_owned();
    }
    let mut r = relative_units(seconds);
    r.append(" ago");
    r
}

pub open spec fn future(seconds: nat) -> Seq<char> {
    if seconds < 60 {
        "in less than a minute"@
    } else {
        "in "@ + in_units(seconds)
    }
}

pub fn format_relative_time_future(seconds: u64) -> (r: String)
    ensures
        r@ == future(seconds as nat),
{
    if seconds < 60 {
        return "in less than a minute".to_owned();
    }
    let mut r = "in ".to_owned();
    let units = relative_units(seconds);
    r.append(units.as_str());
    r
}

/// The difference of two times, kept within the range of times.
pub open spec fn time_difference(seconds: i64, now: i64) -> int {
    let d = seconds - now;
    if d > i64::MAX {
        i64::MAX as int
    } else if d < i64::MIN {
        i64::MIN as int
    } else {
        d
    }
}

/// A time as seen from another one.
pub open spec fn relative(seconds: i64, now: i64) -> Seq<char> {
    let d = time_difference(seconds, now);
    if d > 0 {
        future(d as nat)
    } else {
        past((-d) as nat)
    }
}

pub fn format_discord_relative(seconds: i64, now: i64) -> (r: String)
    ensures
        r@ == relative(seconds, now),
{
    let d: i128 = seconds as i128 - now as i128;
    let d: i128 = if d > i64::MAX as i128 {
        i64::MAX as i128
    } else if d < i64::MIN as i128 {
        i64::MIN as i128
    } else {
        d
    };
    if d > 0 {
        format_relative_time_future(d as u64)
    } else {
        format_relative_time_past((-d) as u64)
    }
}

// ---- Local time ----

/// The pattern that a time of day is written with.
pub open spec fn time_pattern(hour_format_24: bool) -> Seq<char> {
    if hour_format_24 {
        "%H:%M"@
    } else {
        "%I:%M %p"@
    }
}

pub fn time_format(hour_format_24: bool) -> (r: &'static str)
    ensures
        r@ == time_pattern(hour_format_24),
{
    if hour_format_24 {
        "%H:%M"
    } else {
        "%I:%M %p"
    }
}

/// The pattern that a date with its time is written with.
pub open spec fn date_time_pattern(hour_format_24: bool) -> Seq<char> {
    if hour_format_24 {
        "%Y-%m-%d %H:%M"@
    } else {
        "%Y-%m-%d %I:%M %p"@
    }
}

/// The pattern that a style is written with.
pub open spec fn style_pattern(style: TimestampStyle, hour_format_24: bool) -> Seq<char> {
    match (style, hour_format_24) {
        (TimestampStyle::ShortTime, true) => "%H:%M"@,
        (TimestampStyle::ShortTime, false) => "%I:%M %p"@,
        (TimestampStyle::LongTime, true) => "%H:%M:%S"@,
        (TimestampStyle::LongTime, false) => "%I:%M:%S %p"@,
        (TimestampStyle::ShortDate, _) => "%m/%d/%Y"@,
        (TimestampStyle::LongDate, _) => "%B %d, %Y"@,
        (TimestampStyle::ShortDateAndTime, true) => "%m/%d/%Y, %H:%M"@,
        (TimestampStyle::ShortDateAndTime, false) => "%m/%d/%Y, %I:%M %p"@,
        (TimestampStyle::ShortDateAndLongTime, true) => "%m/%d/%Y, %H:%M:%S"@,
        (TimestampStyle::ShortDateAndLongTime, false) => "%m/%d/%Y, %I:%M:%S %p"@,
        (TimestampStyle::FullDateAndTime, true) => "%A, %B %d, %Y %H:%M"@,
        (TimestampStyle::FullDateAndTime, false) => "%A, %B %d, %Y %I:%M %p"@,
        (_, true) => "%B %d, %Y %H:%M"@,
        (_, false) => "%B %d, %Y %I:%M %p"@,
    }
}

pub fn timestamp_format(style: TimestampStyle, hour_format_24: bool) -> (r: &'static str)
    ensures
        r@ == style_pattern(style, hour_format_24),
{
    match (style, hour_format_24) {
        (TimestampStyle::ShortTime, true) => "%H:%M",
        (TimestampStyle::ShortTime, false) => "%I:%M %p",
        (TimestampStyle::LongTime, true) => "%H:%M:%S",
        (TimestampStyle::LongTime, false) => "%I:%M:%S %p",
        (TimestampStyle::ShortDate, _) => "%m/%d/%Y",
        (TimestampStyle::LongDate, _) => "%B %d, %Y",
        (TimestampStyle::ShortDateAndTime, true) => "%m/%d/%Y, %H:%M",
        (TimestampStyle::ShortDateAndTime, false) => "%m/%d/%Y, %I:%M %p",
        (TimestampStyle::ShortDateAndLongTime, true) => "%m/%d/%Y, %H:%M:%S",
        (TimestampStyle::ShortDateAndLongTime, false) => "%m/%d/%Y, %I:%M:%S %p",
        (TimestampStyle::FullDateAndTime, true) => "%A, %B %d, %Y %H:%M",
        (TimestampStyle::FullDateAndTime, false) => "%A, %B %d, %Y %I:%M %p",
        (_, true) => "%B %d, %Y %H:%M",
        (_, false) => "%B %d, %Y %I:%M %p",
    }
}

/// The patterns that this library writes times with.
pub open spec fn known_pattern(p: Seq<char>) -> bool {
    ||| exists|h: bool| p == #[trigger] time_pattern(h)
    ||| exists|h: bool| p == #[trigger] date_time_pattern(h)
    ||| exists|style: TimestampStyle, h: bool| p == #[trigger] style_pattern(style, h)
}

/// Whether two characters are the digits of a number.
pub open spec fn two_digits(tens: char, ones: char, n: int) -> bool {
    &&& '0' <= tens <= '9'
    &&& '0' <= ones <= '9'
    &&& 10 * (tens as int - '0' as int) + (ones as int - '0' as int) == n
}

/// Whether a text is the time of day of a second, counted where the clock stands: hours and minutes, and
/// which half of the day it is where the hours count to twelve.
pub open spec fn is_clock_text(text: Seq<char>, local: int, hour_format_24: bool) -> bool {
    let hour = local % 86_400 / 3_600;
    let minute = local % 3_600 / 60;
    if hour_format_24 {
        &&& text.len() == 5
        &&& two_digits(text[0], text[1], hour)
        &&& text[2] == ':'
        &&& two_digits(text[3], text[4], minute)
    } else {
        &&& text.len() == 8
        &&& two_digits(text[0], text[1], if hour % 12 == 0 { 12 } else { hour % 12 })
        &&& text[2] == ':'
        &&& two_digits(text[3], text[4], minute)
        &&& text[5] == ' '
        &&& text[6] == (if hour < 12 { 'A' } else { 'P' })
        &&& text[7] == 'M'
    }
}

/// Whether a character can stand in a written time: a letter, a digit, or what stands between them.
pub open spec fn is_time_char(c: char) -> bool {
    ||| 'a' <= c <= 'z'
    ||| 'A' <= c <= 'Z'
    ||| is_digit(c)
    ||| c == ' ' || c == '/' || c == ',' || c == ':' || c == '-' || c == '+'
}

/// Whether a text can be a written time: it has such characters only, begins with a number or a capital letter,
/// and behind a character that is no digit there are at least two more.
pub open spec fn is_time_text(text: Seq<char>) -> bool {
    &&& forall|i: int| 0 <= i < text.len() ==> is_time_char(#[trigger] text[i])
    &&& exists|i: int| 0 <= i < text.len() - 2 && !is_digit(#[trigger] text[i])
    &&& is_digit(text[0]) || text[0] == '-' || text[0] == '+' || 'A' <= text[0] <= 'Z'
}

/// The text of a second, counted where the clock stands, in a pattern.
pub uninterp spec fn formatted(local: int, pattern: Seq<char>) -> Seq<char>;

/// Whether a clock may show the second `local` at a Unix time: clocks are less than a day apart.
pub open spec fn is_local_second(local: int, seconds: int) -> bool {
    seconds - DAY_SECONDS < local < seconds + DAY_SECONDS
}

/// Whether a text is what a clock somewhere shows at a Unix time, in a pattern.
pub open spec fn is_local_text(text: Seq<char>, seconds: int, pattern: Seq<char>) -> bool {
    exists|local: int| is_local_second(local, seconds) && text == #[trigger] formatted(local, pattern)
}

/// Whether a text is the time of day that a clock somewhere shows at a Unix time.
pub open spec fn is_local_clock(text: Seq<char>, seconds: int, hour_format_24: bool) -> bool {
    exists|local: int|
        is_local_second(local, seconds) && text == #[trigger] formatted(local, time_pattern(hour_format_24))
            && is_clock_text(text, local, hour_format_24)
}

/// `DateTime::from_timestamp`, then `with_timezone` for the local zone and `format`. Claimed of them:
/// there is a text exactly for the times that have a date. It is the text of a second less than a day
/// away, which depends on that second and the pattern alone, and is a written time; in the two patterns for a
/// time of day it is the time of day of that second. Which second it is depends on the zone of the machine
/// and is left open.
#[verifier::external_body]
fn local_timestamp(seconds: i64, pattern: &str) -> (r: Option<String>)
    requires
        known_pattern(pattern@),
    ensures
        r is Some <==> has_date(seconds as int),
        r matches Some(text) ==> is_time_text(text@) && exists|local: int|
            is_local_second(local, seconds as int) && text@ == #[trigger] formatted(local, pattern@) && (forall|h: bool|
                #[trigger] time_pattern(h) == pattern@ ==> is_clock_text(text@, local, h)),
{
    DateTime::from_timestamp(seconds, 0).map(|date| date.with_timezone(&Local).format(pattern).to_string())
}

/// The days from the first of January 1970 to a day. Years are taken to begin with March, so that the day
/// that only some of them have is their last.
pub open spec fn day_number(date: LocalDate) -> int {
    let year = if date.month <= 2 {
        date.year - 1
    } else {
        date.year as int
    };
    let months = (date.month + 9) % 12;
    365 * year + year / 4 - year / 100 + year / 400 + (153 * months + 2) / 5 + date.day - 719_469
}

/// `DateTime::from_timestamp`, then `with_timezone` for the local zone and the year, month and day of
/// the date. Claimed of them, for times with at least a day before them and behind them that has a
/// date: there is a date, with a month from 1 to 12 and a day from 1 to 31, and it is the day of a second
/// less than a day away. Which second it is depends on the zone of the machine and is left open.
#[verifier::external_body]
fn local_date(seconds: i64) -> (r: Option<LocalDate>)
    requires
        has_date(seconds - DAY_SECONDS),
        has_date(seconds + DAY_SECONDS),
    ensures
        r is Some,
        r matches Some(date) ==> 1 <= date.month <= 12 && 1 <= date.day <= 31,
        r matches Some(date) ==> exists|local: int| #[trigger]
            is_local_second(local, seconds as int) && day_number(date) == local / 86_400,
{
    let date = DateTime::from_timestamp(seconds, 0)?.with_timezone(&Local).date_naive();
    Some(LocalDate { year: date.year(), month: date.month(), day: date.day() })
}

/// The Unix time that a text in the format of RFC 3339 stands for.
pub uninterp spec fn rfc3339_seconds(text: Seq<char>) -> Option<i64>;

/// `DateTime::parse_from_rfc3339` and `timestamp`. Claimed of them: the time depends on the text alone,
/// and lies in the years that four digits can write, which all have dates.
#[verifier::external_body]
fn parse_rfc3339(text: &str) -> (r: Option<i64>)
    ensures
        r == rfc3339_seconds(text@),
        r matches Some(seconds) ==> has_date(seconds as int),
{
    DateTime::parse_from_rfc3339(text).ok().map(|date| date.timestamp())
}

/// A day of the calendar.
#[derive(Clone, Copy, Debug, PartialEq, Eq, Structural)]
pub struct LocalDate {
    pub year: i32,
    pub month: u32,
    pub day: u32,
}

// ---- Putting together ----

/// What is shown for a token, given the local text of its time if it has a date.
pub open spec fn token_text(t: TokenView, local: Option<Seq<char>>, now: i64) -> Seq<char> {
    match t {
        TokenView::Text(text) => text,
        TokenView::Stamp { seconds, style, .. } => if style == TimestampStyle::Relative {
            relative(seconds, now)
        } else {
            match local {
                Some(text) => text,
                None => "<invalid time>"@,
            }
        },
    }
}

pub open spec fn rendered_tokens(ts: Seq<TokenView>, locals: Seq<Option<Seq<char>>>, now: i64) -> Seq<char>
    decreases ts.len(),
{
    if ts.len() == 0 {
        seq![]
    } else {
        rendered_tokens(ts.drop_last(), locals.drop_last(), now) + token_text(ts.last(), locals.last(), now)
    }
}

pub open spec fn opt_texts(v: Seq<Option<String>>) -> Seq<Option<Seq<char>>> {
    v.map_values(|o: Option<String>| opt_text(o))
}

/// The text of a message, given for each token the local text of its time. `locals` has one entry for
/// each token; those of text and of relative times are not looked at.
pub fn render_timestamp_tokens(tokens: &Vec<TimestampToken>, locals: &Vec<Option<String>>, now: i64) -> (r: String)
    requires
        tokens@.len() == locals@.len(),
    ensures
        r@ == rendered_tokens(token_views(tokens@), opt_texts(locals@), now),
{
    let mut r = String::new();
    let mut i: usize = 0;
    let ghost ts = token_views(tokens@);
    let ghost ls = opt_texts(locals@);
    assert(ts.take(0) =~= Seq::<TokenView>::empty());
    assert(r@ =~= Seq::<char>::empty());
    while i < tokens.len()
        invariant
            ts == token_views(tokens@),
            ls == opt_texts(locals@),
            tokens@.len() == locals@.len(),
            i <= tokens@.len(),
            r@ == rendered_tokens(ts.take(i as int), ls.take(i as int), now),
        decreases tokens@.len() - i,
    {
        proof {
            assert(ts.take(i + 1).drop_last() =~= ts.take(i as int));
            assert(ls.take(i + 1).drop_last() =~= ls.take(i as int));
            assert(ts.take(i + 1).last() == tokens@[i as int]@);
            assert(ls.take(i + 1).last() == opt_text(locals@[i as int]));
        }
        match &tokens[i] {
            TimestampToken::Text(text) => {
                r.append(text.as_str());
            },
            TimestampToken::Stamp { seconds, style, .. } => {
                if *style == TimestampStyle::Relative {
                    let text = format_discord_relative(*seconds, now);
                    r.append(text.as_str());
                } else {
                    match &locals[i] {
                        Some(text) => {
                            r.append(text.as_str());
                        },
                        None => {
                            r.append("<invalid time>");
                        },
                    }
                }
            },
        }
        i += 1;
    }
    assert(ts.take(i as int) =~= ts);
    assert(ls.take(i as int) =~= ls);
    r
}

/// What is shown for a token that stands for a time with a date and is not told relative to the present:
/// what a clock somewhere shows at that time, in the pattern of the style. Other tokens have no local text.
pub open spec fn local_fits(t: TokenView, local: Option<Seq<char>>, hour_format_24: bool) -> bool {
    match t {
        TokenView::Stamp { seconds, style, .. } if style != TimestampStyle::Relative && has_date(seconds as int) => {
            local matches Some(text) && is_time_text(text) && is_local_text(
                text,
                seconds as int,
                style_pattern(style, hour_format_24),
            )
        },
        _ => local is None,
    }
}

/// Whether each token has the local text that it is to have.
pub open spec fn locals_fit(ts: Seq<TokenView>, locals: Seq<Option<Seq<char>>>, hour_format_24: bool) -> bool {
    &&& ts.len() == locals.len()
    &&& forall|i: int| 0 <= i < ts.len() ==> local_fits(ts[i], #[trigger] locals[i], hour_format_24)
}

/// Whether a text with the markup of times is rendered to another: relative times are told as seen from `now`,
/// and the others as clocks somewhere show them.
pub open spec fn is_rendered(value: Seq<char>, r: Seq<char>, hour_format_24: bool, now: i64) -> bool {
    exists|locals: Seq<Option<Seq<char>>>|
        locals_fit(timestamp_tokens(value), locals, hour_format_24) && r == #[trigger] rendered_tokens(
            timestamp_tokens(value),
            locals,
            now,
        )
}

/// Renders the markup of times, except where it is shown as code. Relative times are told as seen
/// from `now`; the others in the local time zone.
pub fn render_discord_timestamps_at(value: &str, hour_format_24: bool, now: i64) -> (r: String)
    ensures
        is_rendered(value@, r@, hour_format_24, now),
{
    let tokens = split_timestamps(value);
    let mut locals: Vec<Option<String>> = Vec::new();
    let mut i: usize = 0;
    while i < tokens.len()
        invariant
            i <= tokens@.len(),
            locals@.len() == i,
            forall|k: int|
                0 <= k < i ==> local_fits(tokens@[k]@, opt_text(#[trigger] locals@[k]), hour_format_24),
        decreases tokens@.len() - i,
    {
        let local = match &tokens[i] {
            TimestampToken::Text(_) => None,
            TimestampToken::Stamp { seconds, style, .. } => if *style == TimestampStyle::Relative {
                None
            } else {
                let pattern = timestamp_format(*style, hour_format_24);
                assert(known_pattern(style_pattern(*style, hour_format_24)));
                local_timestamp(*seconds, pattern)
            },
        };
        locals.push(local);
        i += 1;
    }
    let r = render_timestamp_tokens(&tokens, &locals, now);
    proof {
        let ts = timestamp_tokens(value@);
        let ls = opt_texts(locals@);
        assert forall|k: int| 0 <= k < ts.len() implies local_fits(ts[k], #[trigger] ls[k], hour_format_24) by {
            assert(ts[k] == tokens@[k]@);
            assert(ls[k] == opt_text(locals@[k]));
        }
        assert(locals_fit(ts, ls, hour_format_24));
    }
    r
}

/// A text without markup is shown as it is, whatever the local texts are.
pub proof fn text_without_markup_stays(
    value: Seq<char>,
    locals: Seq<Option<Seq<char>>>,
    hour_format_24: bool,
    now: i64,
)
    requires
        !contains_text(value, "<t:"@),
        locals_fit(timestamp_tokens(value), locals, hour_format_24),
    ensures
        rendered_tokens(timestamp_tokens(value), locals, now) == value,
{
    let ts = timestamp_tokens(value);
    assert(ts.drop_last() =~= Seq::<TokenView>::empty());
    reveal_with_fuel(rendered_tokens, 2);
    assert(rendered_tokens(ts, locals, now) =~= value);
}

// ---- Times of messages ----

/// The Unix time in milliseconds at which a message was made: its identifier counts from an epoch of
/// its own, in the bits above the lowest 22.
pub open spec fn unix_millis(id: MessageId) -> int {
    id as int / 0x40_0000 + DISCORD_EPOCH_MILLIS
}

pub fn message_unix_millis(message_id: MessageId) -> (r: u64)
    ensures
        r == unix_millis(message_id),
{
    assert(message_id >> 22 == message_id / 0x40_0000) by (bit_vector);
    assert(message_id >> 22 <= 0x3ff_ffff_ffff) by (bit_vector);
    (message_id >> 22) + DISCORD_EPOCH_MILLIS
}

/// Messages made later have identifiers that are no smaller.
pub proof fn identifiers_order_messages(a: MessageId, b: MessageId)
    requires
        unix_millis(a) < unix_millis(b),
    ensures
        a < b,
{
}

pub fn discord_epoch_unix_millis() -> (r: u64)
    ensures
        r == DISCORD_EPOCH_MILLIS,
{
    DISCORD_EPOCH_MILLIS
}

/// The first identifier of a message made at a time, but never zero.
pub fn test_message_id_for_unix_millis(millis: u64) -> (r: MessageId)
    requires
        DISCORD_EPOCH_MILLIS <= millis,
        millis - DISCORD_EPOCH_MILLIS < 0x400_0000_0000,
    ensures
        unix_millis(r) == millis,
        r == (if millis == DISCORD_EPOCH_MILLIS {
            1
        } else {
            (millis - DISCORD_EPOCH_MILLIS) * 0x40_0000
        }),
{
    let since: u64 = millis - DISCORD_EPOCH_MILLIS;
    assert(since < 0x400_0000_0000 ==> since << 22 == since * 0x40_0000) by (bit_vector);
    let raw: u64 = since << 22;
    if raw == 0 {
        1
    } else {
        raw
    }
}

/// The second in which a message was made.
pub open spec fn unix_second(id: MessageId) -> int {
    unix_millis(id) / 1000
}

fn message_unix_second(message_id: MessageId) -> (r: i64)
    ensures
        r == unix_second(message_id),
        has_date(r - DAY_SECONDS),
        has_date(r + DAY_SECONDS),
{
    let millis: u64 = message_unix_millis(message_id);
    assert(message_id as int / 0x40_0000 <= 0x400_0000_0000);
    (millis / 1000) as i64
}

/// The local time of day at which a message was made. Every message has one; where the clock stands depends
/// on the time zone of the machine.
pub fn format_message_local_time(message_id: MessageId, hour_format_24: bool) -> (r: String)
    ensures
        is_local_clock(r@, unix_second(message_id), hour_format_24),
{
    let seconds: i64 = message_unix_second(message_id);
    let pattern = time_format(hour_format_24);
    assert(known_pattern(time_pattern(hour_format_24)));
    match local_timestamp(seconds, pattern) {
        Some(text) => text,
        None => "--:--".to_owned(),
    }
}

/// The local time of day that a text in the format of RFC 3339 stands for. There is one exactly where
/// the text has that format.
pub fn format_rfc3339_local_time(timestamp: &str, hour_format_24: bool) -> (r: Option<String>)
    ensures
        r is Some <==> rfc3339_seconds(timestamp@) is Some,
        r matches Some(text) ==> is_local_clock(text@, rfc3339_seconds(timestamp@)->0 as int, hour_format_24),
{
    match parse_rfc3339(timestamp) {
        Some(seconds) => {
            let pattern = time_format(hour_format_24);
            assert(known_pattern(time_pattern(hour_format_24)));
            local_timestamp(seconds, pattern)
        },
        None => None,
    }
}

/// The local date and time of a Unix time, if it has a date.
pub fn format_local_date_time(seconds: i64, hour_format_24: bool) -> (r: Option<String>)
    ensures
        r is Some <==> has_date(seconds as int),
        r matches Some(text) ==> is_local_text(text@, seconds as int, date_time_pattern(hour_format_24)),
{
    let pattern = if hour_format_24 {
        "%Y-%m-%d %H:%M"
    } else {
        "%Y-%m-%d %I:%M %p"
    };
    assert(known_pattern(date_time_pattern(hour_format_24)));
    local_timestamp(seconds, pattern)
}

/// Whether a day is that of a second which a clock somewhere shows at a Unix time.
pub open spec fn is_local_day(date: LocalDate, seconds: int) -> bool {
    &&& 1 <= date.month <= 12
    &&& 1 <= date.day <= 31
    &&& (seconds - DAY_SECONDS + 1) / 86_400 <= day_number(date) <= (seconds + DAY_SECONDS - 1) / 86_400
}

/// The local day on which a message was made.
pub fn message_local_date(message_id: MessageId) -> (r: LocalDate)
    ensures
        is_local_day(r, unix_second(message_id)),
{
    let seconds: i64 = message_unix_second(message_id);
    match local_date(seconds) {
        Some(date) => date,
        None => LocalDate { year: 2015, month: 1, day: 1 },
    }
}

/// Whether a message is the first of its day, given the days of the message and of the one before it.
pub fn starts_new_day(current: LocalDate, previous: Option<LocalDate>) -> (r: bool)
    ensures
        r == (previous != Some(current)),
{
    match previous {
        None => true,
        Some(previous) => current != previous,
    }
}

/// What can be said of whether a message is the first of its day, wherever the clock stands. One without a message
/// before it is. One that was made in the same second as the message before it is not, and one that was made three
/// days away from it is. In any case it is so where the two days are not the same.
pub open spec fn is_day_start(current: MessageId, previous: Option<MessageId>, r: bool) -> bool {
    match previous {
        None => r,
        Some(id) => {
            &&& exists|day: LocalDate, before: LocalDate| #[trigger]
                is_local_day(day, unix_second(current)) && #[trigger] is_local_day(before, unix_second(id)) && r == (day
                    != before)
            &&& unix_second(id) == unix_second(current) ==> !r
            &&& unix_second(current) - unix_second(id) >= 3 * DAY_SECONDS ==> r
            &&& unix_second(id) - unix_second(current) >= 3 * DAY_SECONDS ==> r
        },
    }
}

/// Whether a message is the first of its day.
pub fn message_starts_new_day(current: MessageId, previous: Option<MessageId>) -> (r: bool)
    ensures
        is_day_start(current, previous, r),
{
    match previous {
        None => true,
        Some(previous) => {
            let day = message_local_date(current);
            if message_unix_second(current) == message_unix_second(previous) {
                assert(is_local_day(day, unix_second(current)) && is_local_day(day, unix_second(previous)));
                return starts_new_day(day, Some(day));
            }
            let before = message_local_date(previous);
            assert(is_local_day(day, unix_second(current)) && is_local_day(before, unix_second(previous)));
            starts_new_day(day, Some(before))
        },
    }
}

} // verus!
