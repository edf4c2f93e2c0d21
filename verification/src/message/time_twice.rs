//! Rendering the markup of times leaves no markup behind, and keeps the lines and the code of a text.

use crate::message::time::{
    block_tokens, digit_run, fence, in_units, is_digit, is_time_char, is_time_text, kept,
    lemma_digit_run, lemma_join_front, line_tokens, locals_fit, markup_tokens,
    opens_block, quantity, relative, rendered_tokens, stamp, style_of, time_difference, timestamp_tokens, token_source,
    token_sources, token_text, tokens_are_the_text, TimestampStyle, TokenView,
};
use crate::text::{
    concat, contains_text, decimal, digit, first_index, join_with, lemma_first_index, lemma_first_index_is, split_on,
    starts_with,
};
use crate::unicode::{all_space, is_space, trimmed_start};
use vstd::prelude::*;
use vstd::string::*;

verus! {

// ---- What is shown for a time ----

/// Whether a text can be shown for the markup of a time.
pub open spec fn is_shown_time(x: Seq<char>) -> bool {
    ||| x == "<invalid time>"@
    ||| {
        &&& x.len() > 0
        &&& x[0] != 't' && x[0] != ':' && !is_space(x[0])
        &&& forall|i: int|
            0 <= i < x.len() ==> #[trigger] x[i] != '<' && x[i] != '>' && x[i] != '`' && x[i] != '\n'
        &&& exists|i: int| 0 <= i < x.len() - 2 && !is_digit(#[trigger] x[i])
    }
}

/// Whether a text can be shown for a token.
pub open spec fn shows(t: TokenView, x: Seq<char>) -> bool {
    match t {
        TokenView::Text(text) => x == text,
        TokenView::Stamp { .. } => is_shown_time(x),
    }
}

pub open spec fn is_rendering(ts: Seq<TokenView>, xs: Seq<Seq<char>>) -> bool {
    &&& ts.len() == xs.len()
    &&& forall|i: int| 0 <= i < ts.len() ==> shows(#[trigger] ts[i], xs[i])
}

pub open spec fn all_text(ts: Seq<TokenView>) -> bool {
    forall|i: int| 0 <= i < ts.len() ==> #[trigger] ts[i] is Text
}

pub open spec fn lacks(s: Seq<char>, c: char) -> bool {
    forall|i: int| 0 <= i < s.len() ==> #[trigger] s[i] != c
}

proof fn lemma_decimal_digits(n: nat)
    ensures
        decimal(n).len() > 0,
        forall|i: int| 0 <= i < decimal(n).len() ==> is_digit(#[trigger] decimal(n)[i]),
    decreases n,
{
    let d = (n % 10) as int;
    assert(is_digit(digit(d)));
    if n >= 10 {
        lemma_decimal_digits(n / 10);
    }
}

proof fn lemma_shown_quantity(n: nat, unit: Seq<char>, before: Seq<char>, after: Seq<char>)
    requires
        before == Seq::<char>::empty() || before == "in "@,
        after == Seq::<char>::empty() || after == " ago"@,
        unit.len() >= 2,
        forall|i: int| 0 <= i < unit.len() ==> 'a' <= #[trigger] unit[i] <= 'z',
    ensures
        is_shown_time(before + quantity(n, unit) + after),
{
    reveal_strlit("in ");
    reveal_strlit(" ago");
    reveal_strlit(" ");
    reveal_strlit("s");
    reveal_strlit("");
    reveal(is_space);
    lemma_decimal_digits(n);
    let x = before + quantity(n, unit) + after;
    let d = decimal(n);
    assert forall|i: int| 0 <= i < x.len() implies #[trigger] x[i] != '<' && x[i] != '>' && x[i] != '`' && x[i]
        != '\n' by {
        if before.len() <= i < before.len() + d.len() {
            assert(x[i] == d[i - before.len()]);
        } else if before.len() + d.len() < i < before.len() + d.len() + 1 + unit.len() {
            assert(x[i] == unit[i - before.len() - d.len() - 1]);
        }
    }
    let at = before.len() + d.len();
    assert(x[at as int] == ' ');
    assert(!is_digit(x[at as int]));
    if before.len() == 0 {
        assert(x[0] == d[0]);
    }
}

proof fn lemma_shown_units(seconds: nat, before: Seq<char>, after: Seq<char>)
    requires
        before == Seq::<char>::empty() || before == "in "@,
        after == Seq::<char>::empty() || after == " ago"@,
    ensures
        is_shown_time(before + in_units(seconds) + after),
{
    reveal_strlit("minute");
    reveal_strlit("hour");
    reveal_strlit("day");
    reveal_strlit("month");
    reveal_strlit("year");
    let minutes = seconds / 60;
    let hours = minutes / 60;
    let days = hours / 24;
    let months = days / 30;
    if minutes < 60 {
        lemma_shown_quantity(minutes, "minute"@, before, after);
    } else if hours < 24 {
        lemma_shown_quantity(hours, "hour"@, before, after);
    } else if days < 30 {
        lemma_shown_quantity(days, "day"@, before, after);
    } else if months < 12 {
        lemma_shown_quantity(months, "month"@, before, after);
    } else {
        lemma_shown_quantity(if days / 365 == 0 { 1 } else { days / 365 }, "year"@, before, after);
    }
}

proof fn lemma_shown_relative(seconds: i64, now: i64)
    ensures
        is_shown_time(relative(seconds, now)),
{
    reveal(is_space);
    let d = time_difference(seconds, now);
    let e = Seq::<char>::empty();
    if d > 0 {
        if d < 60 {
            reveal_strlit("in less than a minute");
            let x = "in less than a minute"@;
            assert(!is_digit(x[0]));
        } else {
            lemma_shown_units(d as nat, "in "@, e);
            assert("in "@ + in_units(d as nat) + e =~= "in "@ + in_units(d as nat));
        }
    } else if -d < 60 {
        reveal_strlit("just now");
        let x = "just now"@;
        assert(!is_digit(x[0]));
    } else {
        lemma_shown_units((-d) as nat, e, " ago"@);
        assert(e + in_units((-d) as nat) + " ago"@ =~= in_units((-d) as nat) + " ago"@);
    }
}

proof fn lemma_shown_time_text(x: Seq<char>)
    requires
        is_time_text(x),
    ensures
        is_shown_time(x),
{
    reveal(is_space);
    assert forall|i: int| 0 <= i < x.len() implies #[trigger] x[i] != '<' && x[i] != '>' && x[i] != '`' && x[i]
        != '\n' by {
        assert(is_time_char(x[i]));
    }
}

/// The texts that are shown for tokens, and that together they are the rendered text.
proof fn lemma_shown(
    ts: Seq<TokenView>,
    locals: Seq<Option<Seq<char>>>,
    hour_format_24: bool,
    now: i64,
) -> (xs: Seq<Seq<char>>)
    requires
        locals_fit(ts, locals, hour_format_24),
    ensures
        is_rendering(ts, xs),
        concat(xs) == rendered_tokens(ts, locals, now),
    decreases ts.len(),
{
    if ts.len() == 0 {
        seq![]
    } else {
        let (front, behind) = (ts.drop_last(), locals.drop_last());
        assert forall|i: int| 0 <= i < front.len() implies crate::message::time::local_fits(
            front[i],
            #[trigger] behind[i],
            hour_format_24,
        ) by {
            assert(behind[i] == locals[i]);
        }
        let before = lemma_shown(front, behind, hour_format_24, now);
        let (t, local) = (ts.last(), locals.last());
        let x = token_text(t, local, now);
        assert(local == locals[locals.len() - 1]);
        if let TokenView::Stamp { seconds, style, .. } = t {
            if style == TimestampStyle::Relative {
                lemma_shown_relative(seconds, now);
            } else if local is Some {
                lemma_shown_time_text(local->0);
            }
        }
        let xs = before.push(x);
        assert(xs.drop_last() =~= before);
        assert forall|i: int| 0 <= i < ts.len() implies shows(#[trigger] ts[i], xs[i]) by {
            if i < front.len() {
                assert(shows(front[i], before[i]));
            }
        }
        xs
    }
}

proof fn lemma_concat_add(a: Seq<Seq<char>>, b: Seq<Seq<char>>)
    ensures
        concat(a + b) == concat(a) + concat(b),
    decreases b.len(),
{
    if b.len() == 0 {
        assert(a + b =~= a);
        assert(concat(a) + concat(b) =~= concat(a));
    } else {
        assert((a + b).drop_last() =~= a + b.drop_last());
        lemma_concat_add(a, b.drop_last());
        assert(concat(a) + (concat(b.drop_last()) + b.last()) =~= (concat(a) + concat(b.drop_last())) + b.last());
    }
}

proof fn lemma_concat_one(x: Seq<char>)
    ensures
        concat(seq![x]) == x,
{
    reveal_with_fuel(concat, 2);
    assert(seq![x].drop_last() =~= Seq::<Seq<char>>::empty());
    assert(concat(seq![x]) =~= x);
}

/// A rendering of tokens is one of the first of them, and one of the rest.
proof fn lemma_parted(a: Seq<TokenView>, b: Seq<TokenView>, xs: Seq<Seq<char>>)
    requires
        is_rendering(a + b, xs),
    ensures
        is_rendering(a, xs.take(a.len() as int)),
        is_rendering(b, xs.skip(a.len() as int)),
        concat(xs) == concat(xs.take(a.len() as int)) + concat(xs.skip(a.len() as int)),
{
    let n = a.len() as int;
    assert(xs =~= xs.take(n) + xs.skip(n));
    lemma_concat_add(xs.take(n), xs.skip(n));
    assert forall|i: int| 0 <= i < a.len() implies shows(#[trigger] a[i], xs.take(n)[i]) by {
        assert(shows((a + b)[i], xs[i]));
    }
    assert forall|i: int| 0 <= i < b.len() implies shows(#[trigger] b[i], xs.skip(n)[i]) by {
        assert(shows((a + b)[n + i], xs[n + i]));
    }
}

// ---- No markup comes of it ----

pub open spec fn lacks_stamps(r: Seq<char>) -> bool {
    forall|j: int| 0 <= j <= r.len() ==> #[trigger] stamp(r.skip(j)) is None
}

pub(crate) proof fn lemma_digit_run_is(s: Seq<char>, n: int)
    requires
        0 <= n <= s.len(),
        forall|k: int| 0 <= k < n ==> is_digit(#[trigger] s[k]),
        n < s.len() ==> !is_digit(s[n]),
    ensures
        digit_run(s) == n,
    decreases s.len(),
{
    if n > 0 {
        assert forall|k: int| 0 <= k < n - 1 implies is_digit(#[trigger] s.drop_first()[k]) by {
            assert(s.drop_first()[k] == s[k + 1]);
        }
        lemma_digit_run_is(s.drop_first(), n - 1);
    }
}

proof fn lemma_digit_run_ends(s: Seq<char>)
    ensures
        digit_run(s) < s.len() ==> !is_digit(s[digit_run(s)]),
    decreases s.len(),
{
    if s.len() > 0 && is_digit(s[0]) {
        lemma_digit_run(s.drop_first());
        lemma_digit_run_ends(s.drop_first());
    }
}

/// What markup looks like.
proof fn lemma_stamp(s: Seq<char>)
    requires
        stamp(s) is Some,
    ensures
        ({
            let end = stamp(s)->0.end;
            let e = 3 + digit_run(s.skip(3));
            &&& 4 <= e < s.len()
            &&& s[0] == '<' && s[1] == 't' && s[2] == ':'
            &&& forall|k: int| 3 <= k < e ==> is_digit(#[trigger] s[k])
            &&& !is_digit(s[e])
            &&& (end == e + 1 && s[e] == '>') || (end == e + 3 && end <= s.len() && s[e] == ':' && style_of(s[e + 1])
                is Some && s[e + 2] == '>')
            &&& end <= s.len()
        }),
{
    reveal_strlit("<t:");
    let t = s.skip(3);
    let e = 3 + digit_run(t);
    lemma_digit_run(t);
    lemma_digit_run_ends(t);
    assert(s.take(3)[0] == s[0] && s.take(3)[1] == s[1] && s.take(3)[2] == s[2]);
    assert forall|k: int| 3 <= k < e implies is_digit(#[trigger] s[k]) by {
        assert(t[k - 3] == s[k]);
    }
    assert(s[e] == t[e - 3]);
}

/// Markup depends on its own characters only.
proof fn lemma_stamp_prefix(r: Seq<char>, s: Seq<char>)
    requires
        stamp(r) is Some,
        stamp(r)->0.end <= s.len(),
        s.take(stamp(r)->0.end) == r.take(stamp(r)->0.end),
    ensures
        stamp(s) is Some,
{
    reveal_strlit("<t:");
    lemma_stamp(r);
    let end = stamp(r)->0.end;
    let d = digit_run(r.skip(3));
    assert forall|k: int| 0 <= k < end implies #[trigger] s[k] == r[k] by {
        assert(s.take(end)[k] == r.take(end)[k]);
    }
    assert(s.take(3) =~= r.take(3));
    assert forall|k: int| 0 <= k < d implies is_digit(#[trigger] s.skip(3)[k]) by {
        assert(s.skip(3)[k] == s[k + 3]);
        assert(r[k + 3] == s[k + 3]);
    }
    lemma_digit_run_is(s.skip(3), d);
    assert(s.subrange(3, 3 + d) =~= r.subrange(3, 3 + d));
}

/// No markup reaches into the text of a time.
proof fn lemma_no_stamp_over(r: Seq<char>, p: int, x: Seq<char>)
    requires
        is_shown_time(x),
        0 < p,
        starts_with(r.skip(p), x),
        p <= r.len(),
        stamp(r) is Some,
    ensures
        stamp(r)->0.end <= p,
{
    lemma_stamp(r);
    let end = stamp(r)->0.end;
    let e = 3 + digit_run(r.skip(3));
    assert forall|i: int| 0 <= i < x.len() implies r[p + i] == #[trigger] x[i] by {
        assert(r.skip(p).take(x.len() as int)[i] == x[i]);
    }
    if p < end {
        if x == "<invalid time>"@ {
            reveal_strlit("<invalid time>");
            assert(r[p] == x[0]);
        } else {
            assert(r[p] == x[0]);
            let i = choose|i: int| 0 <= i < x.len() - 2 && !is_digit(#[trigger] x[i]);
            assert(r[p + i] == x[i]);
            assert(p >= 3);
            assert(p + i >= e);
            let last = end - 1;
            assert(r[last] == '>');
            assert(last <= p + i + 2);
            assert(r[p + (last - p)] == x[last - p]);
        }
    }
}

/// How far a rendering keeps the text: to the end, or to where the text of a time stands.
proof fn lemma_kept_front(s: Seq<char>, xs: Seq<Seq<char>>) -> (r: (int, Seq<char>))
    requires
        is_rendering(markup_tokens(s), xs),
    ensures
        0 <= r.0 <= s.len(),
        r.0 <= concat(xs).len(),
        concat(xs).take(r.0) == s.take(r.0),
        (r.0 == s.len() && concat(xs).len() == s.len()) || (is_shown_time(r.1) && starts_with(
            concat(xs).skip(r.0),
            r.1,
        )),
    decreases s.len(),
{
    let all = concat(xs);
    if s.len() == 0 {
        assert(xs =~= Seq::<Seq<char>>::empty());
        assert(all.take(0) =~= s.take(0));
        (0, seq![])
    } else {
        let (first, rest) = lemma_first_token(s);
        lemma_parted(seq![first], markup_tokens(rest), xs);
        assert(xs.take(1) =~= seq![xs[0]]);
        lemma_concat_one(xs[0]);
        assert(shows(markup_tokens(s)[0], xs[0]));
        let tail = concat(xs.skip(1));
        if stamp(s) is Some {
            assert(all.take(0) =~= s.take(0));
            assert(all.skip(0).take(xs[0].len() as int) =~= xs[0]);
            (0, xs[0])
        } else {
            let (n, x) = lemma_kept_front(rest, xs.skip(1));
            assert(all =~= seq![s[0]] + tail);
            assert(all.take(n + 1) =~= seq![s[0]] + tail.take(n));
            assert(s.take(n + 1) =~= seq![s[0]] + rest.take(n));
            assert(all.skip(n + 1) =~= tail.skip(n));
            (n + 1, x)
        }
    }
}

/// The first token of a text, and the text behind it.
proof fn lemma_first_token(s: Seq<char>) -> (r: (TokenView, Seq<char>))
    requires
        s.len() > 0,
    ensures
        markup_tokens(s) == seq![r.0] + markup_tokens(r.1),
        r.1.len() < s.len(),
        stamp(s) is None ==> r.0 == TokenView::Text(seq![s[0]]) && r.1 == s.skip(1),
        stamp(s) is Some ==> r.0 is Stamp && r.1 == s.skip(stamp(s)->0.end),
        stamp(s) is Some ==> r.0->Stamp_markup == s.take(stamp(s)->0.end),
{
    if stamp(s) is Some {
        lemma_stamp(s);
        let st = stamp(s)->0;
        (TokenView::Stamp { seconds: st.seconds, style: st.style, markup: s.take(st.end) }, s.skip(st.end))
    } else {
        assert(s.take(1) =~= seq![s[0]]);
        (TokenView::Text(s.take(1)), s.skip(1))
    }
}

/// What the text of a time begins with and does not hold.
proof fn lemma_shown_facts(x: Seq<char>)
    requires
        is_shown_time(x),
    ensures
        x.len() > 0,
        !is_space(x[0]) && x[0] != '`',
        lacks(x, '`'),
        lacks(x, '\n'),
        forall|j: int| 0 <= j < x.len() && #[trigger] x[j] == '<' ==> j + 1 < x.len() && x[j + 1] != 't',
{
    reveal_strlit("<invalid time>");
    reveal(is_space);
}

/// Where no markup begins in the text, none does in its rendering.
proof fn lemma_no_new_stamp(s: Seq<char>, xs: Seq<Seq<char>>, tail: Seq<char>)
    requires
        s.len() > 0,
        stamp(s) is None,
        is_rendering(markup_tokens(s.skip(1)), xs),
        tail == concat(xs),
    ensures
        stamp(seq![s[0]] + tail) is None,
{
    let r = seq![s[0]] + tail;
    let rest = s.skip(1);
    if stamp(r) is Some {
        let (n, t) = lemma_kept_front(rest, xs);
        let end = stamp(r)->0.end;
        lemma_stamp(r);
        assert(r.take(n + 1) =~= seq![s[0]] + tail.take(n));
        assert(s.take(n + 1) =~= seq![s[0]] + rest.take(n));
        if end > n + 1 {
            assert(r.skip(n + 1) =~= tail.skip(n));
            if is_shown_time(t) && starts_with(tail.skip(n), t) {
                lemma_no_stamp_over(r, n + 1, t);
            }
        }
        assert(end <= n + 1);
        assert(s.take(end) =~= s.take(n + 1).take(end));
        assert(r.take(end) =~= r.take(n + 1).take(end));
        lemma_stamp_prefix(r, s);
    }
}

proof fn lemma_no_stamps_joined(x: Seq<char>, tail: Seq<char>)
    requires
        lacks_stamps(tail),
        is_shown_time(x) || (x.len() == 1 && stamp(x + tail) is None),
    ensures
        lacks_stamps(x + tail),
{
    let r = x + tail;
    assert forall|j: int| 0 <= j <= r.len() implies #[trigger] stamp(r.skip(j)) is None by {
        if j >= x.len() {
            assert(r.skip(j) =~= tail.skip(j - x.len()));
            assert(stamp(tail.skip(j - x.len())) is None);
        } else if is_shown_time(x) {
            if stamp(r.skip(j)) is Some {
                lemma_shown_facts(x);
                lemma_stamp(r.skip(j));
                assert(r.skip(j)[0] == x[j]);
                assert(r.skip(j)[1] == x[j + 1]);
            }
        } else {
            assert(r.skip(0) =~= r);
        }
    }
}

/// Rendered text holds no markup. It holds backticks and line feeds only where the text does, and begins as the
/// text does, or with the text of a time.
proof fn lemma_markup_rendered(s: Seq<char>, xs: Seq<Seq<char>>)
    requires
        is_rendering(markup_tokens(s), xs),
    ensures
        lacks_stamps(concat(xs)),
        lacks(s, '`') ==> lacks(concat(xs), '`'),
        lacks(s, '\n') ==> lacks(concat(xs), '\n'),
        s.len() == 0 ==> concat(xs).len() == 0,
        s.len() > 0 ==> concat(xs).len() > 0,
        s.len() > 0 && stamp(s) is None ==> concat(xs)[0] == s[0],
        s.len() > 0 && stamp(s) is Some ==> !is_space(concat(xs)[0]) && concat(xs)[0] != '`',
    decreases s.len(),
{
    let r = concat(xs);
    if s.len() == 0 {
        assert(xs =~= Seq::<Seq<char>>::empty());
        assert(r.len() == 0);
        assert forall|j: int| 0 <= j <= r.len() implies #[trigger] stamp(r.skip(j)) is None by {
            if stamp(r.skip(j)) is Some {
                lemma_stamp(r.skip(j));
            }
        }
    } else {
        let (first, rest) = lemma_first_token(s);
        lemma_parted(seq![first], markup_tokens(rest), xs);
        assert(xs.take(1) =~= seq![xs[0]]);
        lemma_concat_one(xs[0]);
        assert(shows(markup_tokens(s)[0], xs[0]));
        let x = xs[0];
        let tail = concat(xs.skip(1));
        lemma_markup_rendered(rest, xs.skip(1));
        if stamp(s) is Some {
            lemma_shown_facts(x);
        } else {
            assert(x == seq![s[0]]);
            lemma_no_new_stamp(s, xs.skip(1), tail);
        }
        lemma_no_stamps_joined(x, tail);
        assert forall|i: int| 0 <= i < rest.len() implies s.contains(#[trigger] rest[i]) by {
            let k = s.len() - rest.len() + i;
            assert(rest[i] == s[k]);
        }
        lemma_lacks_parts(s, rest, x, tail, '`');
        lemma_lacks_parts(s, rest, x, tail, '\n');
    }
}

/// Whether a text holds no backtick and no line feed, or is the first character of another.
spec fn lacks_or_is(x: Seq<char>, s: Seq<char>) -> bool {
    (lacks(x, '`') && lacks(x, '\n')) || x == seq![s[0]]
}

proof fn lemma_lacks_parts(s: Seq<char>, rest: Seq<char>, x: Seq<char>, tail: Seq<char>, c: char)
    requires
        c == '`' || c == '\n',
        s.len() > 0,
        lacks_or_is(x, s),
        forall|i: int| 0 <= i < rest.len() ==> s.contains(#[trigger] rest[i]),
        lacks(rest, c) ==> lacks(tail, c),
    ensures
        lacks(s, c) ==> lacks(x + tail, c),
{
    if lacks(s, c) {
        assert forall|i: int| 0 <= i < rest.len() implies #[trigger] rest[i] != c by {
            assert(s.contains(rest[i]));
        }
        assert forall|i: int| 0 <= i < (x + tail).len() implies #[trigger] (x + tail)[i] != c by {
            if i < x.len() {
                assert((x + tail)[i] == x[i]);
                assert(s[0] != c);
            } else {
                assert((x + tail)[i] == tail[i - x.len()]);
            }
        }
    }
}

/// Where there is no markup, there are no stamps among the tokens.
proof fn lemma_text_only(r: Seq<char>)
    requires
        lacks_stamps(r),
    ensures
        all_text(markup_tokens(r)),
    decreases r.len(),
{
    if r.len() > 0 {
        assert(r.skip(0) =~= r);
        assert(stamp(r.skip(0)) is None);
        let (first, rest) = lemma_first_token(r);
        assert forall|j: int| 0 <= j <= rest.len() implies #[trigger] stamp(rest.skip(j)) is None by {
            assert(rest.skip(j) =~= r.skip(j + 1));
            assert(stamp(r.skip(j + 1)) is None);
        }
        lemma_text_only(rest);
        lemma_all_text_add(seq![first], markup_tokens(rest));
    }
}

proof fn lemma_all_text_add(a: Seq<TokenView>, b: Seq<TokenView>)
    requires
        all_text(a),
        all_text(b),
    ensures
        all_text(a + b),
{
    assert forall|i: int| 0 <= i < (a + b).len() implies #[trigger] (a + b)[i] is Text by {
        if i < a.len() {
            assert((a + b)[i] == a[i]);
        } else {
            assert((a + b)[i] == b[i - a.len()]);
        }
    }
}

// ---- Lines ----

/// How much white space a text begins with.
proof fn lemma_trimmed_start(s: Seq<char>) -> (w: int)
    ensures
        0 <= w <= s.len(),
        trimmed_start(s) == s.skip(w),
        all_space(s.take(w)),
        w < s.len() ==> !is_space(s[w]),
    decreases s.len(),
{
    if s.len() > 0 && is_space(s[0]) {
        let w = lemma_trimmed_start(s.drop_first());
        assert(s.drop_first().skip(w) =~= s.skip(w + 1));
        assert forall|i: int| 0 <= i < w + 1 implies is_space(#[trigger] s.take(w + 1)[i]) by {
            if i > 0 {
                assert(s.take(w + 1)[i] == s.drop_first().take(w)[i - 1]);
            }
        }
        w + 1
    } else {
        assert(s.skip(0) =~= s);
        0
    }
}

/// A line opens a block of code exactly where three backticks stand behind white space only.
proof fn lemma_opens_block(s: Seq<char>)
    ensures
        opens_block(s) <==> ({
            let open = first_index(s, '`');
            &&& open + 2 < s.len()
            &&& all_space(s.take(open))
            &&& s[open + 1] == '`' && s[open + 2] == '`'
        }),
{
    reveal(is_space);
    lemma_first_index(s, '`');
    let open = first_index(s, '`');
    let w = lemma_trimmed_start(s);
    if opens_block(s) {
        let t = s.skip(w);
        assert(t.take(3)[0] == s[w] && t.take(3)[1] == s[w + 1] && t.take(3)[2] == s[w + 2]);
        assert forall|k: int| 0 <= k < w implies s[k] != '`' by {
            assert(is_space(s.take(w)[k]));
        }
        lemma_first_index_is(s, '`', w);
    }
    if open + 2 < s.len() && all_space(s.take(open)) && s[open + 1] == '`' && s[open + 2] == '`' {
        if w < open {
            assert(is_space(s.take(open)[w]));
        }
        if open < w {
            assert(is_space(s.take(w)[open]));
        }
        assert(s.skip(w).take(3) =~= fence());
    }
}

/// Text that is all white space once it is rendered held no markup.
proof fn lemma_space_is_kept(s: Seq<char>, xs: Seq<Seq<char>>)
    requires
        is_rendering(markup_tokens(s), xs),
        all_space(concat(xs)),
    ensures
        concat(xs) == s,
{
    let r = concat(xs);
    let (n, x) = lemma_kept_front(s, xs);
    if !(n == s.len() && r.len() == s.len()) {
        reveal_strlit("<invalid time>");
        assert(r.skip(n).take(x.len() as int)[0] == x[0]);
        assert(r[n] == x[0]);
        assert(is_space(r[n]));
        assert(!is_space(x[0])) by {
            reveal(is_space);
        }
    }
    assert(r.take(n) =~= r);
    assert(s.take(n) =~= s);
}

/// Backticks that rendered text begins with stand in the text.
proof fn lemma_backticks_are_kept(s: Seq<char>, xs: Seq<Seq<char>>, n: int)
    requires
        is_rendering(markup_tokens(s), xs),
        0 <= n <= concat(xs).len(),
        forall|i: int| 0 <= i < n ==> #[trigger] concat(xs)[i] == '`',
    ensures
        n <= s.len(),
        forall|i: int| 0 <= i < n ==> #[trigger] s[i] == '`',
{
    let r = concat(xs);
    let (m, x) = lemma_kept_front(s, xs);
    if m < n {
        reveal_strlit("<invalid time>");
        reveal(is_space);
        assert(r.skip(m).take(x.len() as int)[0] == x[0]);
        assert(r[m] == x[0]);
        if x != "<invalid time>"@ {
            assert(x[0] != '`');
        }
    }
    assert forall|i: int| 0 <= i < n implies #[trigger] s[i] == '`' by {
        assert(r.take(m)[i] == s.take(m)[i]);
        assert(r[i] == '`');
    }
}

proof fn lemma_open_line_rendered(s: Seq<char>, xs: Seq<Seq<char>>)
    requires
        is_rendering(line_tokens(s), xs),
        first_index(s, '`') < s.len(),
        ({
            let rest = s.skip(first_index(s, '`') + 1);
            let close = first_index(rest, '`');
            close <= 0 || close >= rest.len()
        }),
    ensures
        all_text(line_tokens(concat(xs))),
        lacks(s, '\n') ==> lacks(concat(xs), '\n'),
        !opens_block(s) ==> !opens_block(concat(xs)),
{
    let r = concat(xs);
    let open = first_index(s, '`');
    lemma_first_index(s, '`');
    lemma_opens_block(s);
    lemma_opens_block(r);
    let rest = s.skip(open + 1);
    let close = first_index(rest, '`');
    lemma_first_index(rest, '`');
    let head = s.take(open);
    let n = markup_tokens(head).len() as int;
    let tail = s.skip(open);
    lemma_parted(markup_tokens(head), markup_tokens(tail), xs);
    let (ra, rb) = (concat(xs.take(n)), concat(xs.skip(n)));
    lemma_markup_rendered(head, xs.take(n));
    lemma_markup_rendered(tail, xs.skip(n));
    lemma_no_stamp_at_backtick(tail);
    assert(lacks(head, '`'));
    assert(r == ra + rb);
    assert(r[ra.len() as int] == rb[0]);
    assert forall|k: int| 0 <= k < ra.len() implies r[k] != '`' by {
        assert(r[k] == ra[k]);
    }
    lemma_first_index_is(r, '`', ra.len() as int);
    let at = ra.len() as int;
    let rest2 = r.skip(at + 1);
    assert(rest2 =~= rb.skip(1));
    lemma_tail_after_backtick(tail, xs.skip(n));
    assert(tail.skip(1) =~= rest);
    lemma_first_index(rest2, '`');
    assert(r.take(at) =~= ra);
    assert(r.skip(at) =~= rb);
    if close == 0 && rest.len() > 0 {
        assert(tail[1] == '`');
        assert(rest2[0] == rb[1]);
    } else {
        assert forall|i: int| 0 <= i < rest.len() implies #[trigger] rest[i] != '`' by {
            if close > 0 {
                assert(close >= rest.len());
            }
        }
        assert(lacks(rest2, '`'));
        assert(first_index(rest2, '`') == rest2.len());
    }
    lemma_text_only(ra);
    lemma_text_only(rb);
    lemma_all_text_add(markup_tokens(ra), markup_tokens(rb));
    if opens_block(r) {
        assert(r.take(at) =~= ra);
        lemma_space_is_kept(head, xs.take(n));
        assert(rb[1] == r[at + 1] && rb[2] == r[at + 2]);
        lemma_backticks_are_kept(tail, xs.skip(n), 3);
        assert(s[open + 1] == tail[1] && s[open + 2] == tail[2]);
    }
    assert(s =~= head + tail);
    lemma_lacks_slices(s, head, tail, ra, rb);
}

proof fn lemma_code_line_rendered(s: Seq<char>, xs: Seq<Seq<char>>, tail: Seq<char>, ts: Seq<Seq<char>>)
    requires
        is_rendering(line_tokens(s), xs),
        first_index(s, '`') < s.len(),
        ({
            let open = first_index(s, '`');
            let rest = s.skip(open + 1);
            let close = first_index(rest, '`');
            &&& 0 < close < rest.len()
            &&& tail == s.skip(open + close + 2)
            &&& ts == xs.skip(markup_tokens(s.take(open)).len() as int + 1)
        }),
        all_text(line_tokens(concat(ts))),
        lacks(tail, '\n') ==> lacks(concat(ts), '\n'),
    ensures
        all_text(line_tokens(concat(xs))),
        lacks(s, '\n') ==> lacks(concat(xs), '\n'),
        !opens_block(s) ==> !opens_block(concat(xs)),
{
    let r = concat(xs);
    let open = first_index(s, '`');
    lemma_first_index(s, '`');
    lemma_opens_block(s);
    lemma_opens_block(r);
    let rest = s.skip(open + 1);
    let close = first_index(rest, '`');
    lemma_first_index(rest, '`');
    let head = s.take(open);
    let n = markup_tokens(head).len() as int;
    let code = s.subrange(open, open + close + 2);
    let front = markup_tokens(head) + kept(code);
    lemma_parted(front, line_tokens(tail), xs);
    lemma_parted(markup_tokens(head), kept(code), xs.take(n + 1));
    assert(xs.take(n + 1).take(n) =~= xs.take(n));
    assert(xs.take(n + 1).skip(n) =~= seq![xs[n]]);
    lemma_concat_one(xs[n]);
    assert(shows(kept(code)[0], xs.take(n + 1).skip(n)[0]));
    let (ra, rt) = (concat(xs.take(n)), concat(ts));
    lemma_markup_rendered(head, xs.take(n));
    assert(lacks(head, '`'));
    assert(r == ra + code + rt);
    let at = ra.len() as int;
    assert(r[at] == code[0]);
    assert forall|k: int| 0 <= k < at implies r[k] != '`' by {
        assert(r[k] == ra[k]);
    }
    lemma_first_index_is(r, '`', at);
    let rest2 = r.skip(at + 1);
    assert forall|k: int| 0 <= k < close implies rest2[k] != '`' by {
        assert(rest2[k] == code[k + 1]);
        assert(code[k + 1] == rest[k]);
    }
    assert(rest2[close] == code[close + 1]);
    assert(code[close + 1] == rest[close]);
    lemma_first_index_is(rest2, '`', close);
    assert(r.take(at) =~= ra);
    assert(r.subrange(at, at + close + 2) =~= code);
    assert(r.skip(at + close + 2) =~= rt);
    lemma_text_only(ra);
    lemma_all_text_add(markup_tokens(ra), kept(code));
    lemma_all_text_add(markup_tokens(ra) + kept(code), line_tokens(rt));
    assert(line_tokens(r) == markup_tokens(ra) + kept(code) + line_tokens(rt));
    assert(r[at + 1] == rest2[0]);
    assert(s =~= head + (code + tail));
    lemma_lacks_slices(s, head, code + tail, ra, code + rt);
    assert(ra + code + rt =~= ra + (code + rt));
    if lacks(s, '\n') {
        assert(lacks(tail, '\n')) by {
            assert forall|i: int| 0 <= i < tail.len() implies #[trigger] tail[i] != '\n' by {
                assert(tail[i] == s[open + close + 2 + i]);
            }
        }
        assert(lacks(code + rt, '\n')) by {
            assert forall|i: int| 0 <= i < (code + rt).len() implies #[trigger] (code + rt)[i] != '\n' by {
                if i < code.len() {
                    assert((code + rt)[i] == s[open + i]);
                } else {
                    assert((code + rt)[i] == rt[i - code.len()]);
                }
            }
        }
        assert forall|i: int| 0 <= i < r.len() implies #[trigger] r[i] != '\n' by {
            if i < ra.len() {
                assert(r[i] == ra[i]);
            } else {
                assert(r[i] == (code + rt)[i - ra.len()]);
            }
        }
    }
}

/// A rendered line holds no markup outside of code, holds no line feed, and opens no block of code.
proof fn lemma_line_rendered(s: Seq<char>, xs: Seq<Seq<char>>)
    requires
        is_rendering(line_tokens(s), xs),
    ensures
        all_text(line_tokens(concat(xs))),
        lacks(s, '\n') ==> lacks(concat(xs), '\n'),
        !opens_block(s) ==> !opens_block(concat(xs)),
    decreases s.len(),
{
    let r = concat(xs);
    let open = first_index(s, '`');
    lemma_first_index(s, '`');
    if !(0 <= open < s.len()) {
        lemma_opens_block(r);
        lemma_markup_rendered(s, xs);
        assert(lacks(s, '`'));
        lemma_first_index(r, '`');
        assert(first_index(r, '`') == r.len());
        lemma_text_only(r);
    } else {
        let rest = s.skip(open + 1);
        let close = first_index(rest, '`');
        lemma_first_index(rest, '`');
        if close <= 0 || close >= rest.len() {
            lemma_open_line_rendered(s, xs);
        } else {
            let head = markup_tokens(s.take(open));
            let tail = s.skip(open + close + 2);
            let front = head + kept(s.subrange(open, open + close + 2));
            lemma_parted(front, line_tokens(tail), xs);
            let ts = xs.skip(front.len() as int);
            lemma_line_rendered(tail, ts);
            lemma_code_line_rendered(s, xs, tail, ts);
        }
    }
}

proof fn lemma_no_stamp_at_backtick(s: Seq<char>)
    requires
        s.len() > 0,
        s[0] == '`',
    ensures
        stamp(s) is None,
{
    if stamp(s) is Some {
        lemma_stamp(s);
    }
}

/// Behind a backtick at its start, rendered text holds no backtick where the text holds none, and one at once
/// where the text does.
proof fn lemma_tail_after_backtick(s: Seq<char>, xs: Seq<Seq<char>>)
    requires
        is_rendering(markup_tokens(s), xs),
        s.len() > 0,
        s[0] == '`',
    ensures
        lacks(s.skip(1), '`') ==> lacks(concat(xs).skip(1), '`'),
        s.len() > 1 && s[1] == '`' ==> concat(xs).len() > 1 && concat(xs)[1] == '`',
{
    lemma_no_stamp_at_backtick(s);
    let (first, rest) = lemma_first_token(s);
    lemma_parted(seq![first], markup_tokens(rest), xs);
    assert(xs.take(1) =~= seq![xs[0]]);
    lemma_concat_one(xs[0]);
    assert(shows(markup_tokens(s)[0], xs[0]));
    let tail = concat(xs.skip(1));
    lemma_markup_rendered(rest, xs.skip(1));
    assert(concat(xs).skip(1) =~= tail);
    if s.len() > 1 && s[1] == '`' {
        assert(rest[0] == '`');
        lemma_no_stamp_at_backtick(rest);
        assert(concat(xs)[1] == tail[0]);
    }
}

proof fn lemma_lacks_slices(s: Seq<char>, a: Seq<char>, b: Seq<char>, ra: Seq<char>, rb: Seq<char>)
    requires
        s == a + b,
        lacks(a, '\n') ==> lacks(ra, '\n'),
    ensures
        lacks(s, '\n') ==> lacks(ra, '\n') && lacks(b, '\n'),
        lacks(s, '\n') && lacks(rb, '\n') ==> lacks(ra + rb, '\n'),
{
    if lacks(s, '\n') {
        assert forall|i: int| 0 <= i < a.len() implies #[trigger] a[i] != '\n' by {
            assert(a[i] == s[i]);
        }
        assert forall|i: int| 0 <= i < b.len() implies #[trigger] b[i] != '\n' by {
            assert(b[i] == s[a.len() + i]);
        }
        if lacks(rb, '\n') {
            assert forall|i: int| 0 <= i < (ra + rb).len() implies #[trigger] (ra + rb)[i] != '\n' by {
                if i < ra.len() {
                    assert((ra + rb)[i] == ra[i]);
                } else {
                    assert((ra + rb)[i] == rb[i - ra.len()]);
                }
            }
        }
    }
}

// ---- Blocks ----

/// The tokens of the first lines do not depend on the others.
proof fn lemma_block_prefix(a: Seq<Seq<char>>, b: Seq<Seq<char>>, k: int)
    requires
        0 <= k <= a.len(),
        k <= b.len(),
        a.take(k) == b.take(k),
    ensures
        block_tokens(a, k) == block_tokens(b, k),
    decreases k,
{
    if k > 0 {
        assert(a.take(k - 1) =~= a.take(k).take(k - 1));
        assert(b.take(k - 1) =~= b.take(k).take(k - 1));
        lemma_block_prefix(a, b, k - 1);
        assert(a.take(k)[k - 1] == b.take(k)[k - 1]);
    }
}

pub open spec fn all_lack(lines: Seq<Seq<char>>, c: char) -> bool {
    forall|i: int| 0 <= i < lines.len() ==> lacks(#[trigger] lines[i], c)
}

/// The lines of a rendering: as many as before, with the same blocks of code.
proof fn lemma_block_rendered(lines: Seq<Seq<char>>, k: int, xs: Seq<Seq<char>>) -> (shown: Seq<Seq<char>>)
    requires
        0 <= k <= lines.len(),
        all_lack(lines, '\n'),
        is_rendering(block_tokens(lines, k).0, xs),
    ensures
        shown.len() == k,
        all_lack(shown, '\n'),
        concat(xs) == join_with(shown, seq!['\n']),
        block_tokens(shown, k).1 == block_tokens(lines, k).1,
        all_text(block_tokens(shown, k).0),
    decreases k,
{
    let feed = seq!['\n'];
    if k == 0 {
        assert(xs =~= Seq::<Seq<char>>::empty());
        seq![]
    } else {
        let (before, in_block) = block_tokens(lines, k - 1);
        let line = lines[k - 1];
        let sep = if k == 1 { seq![] } else { seq![TokenView::Text(feed)] };
        let own = if in_block || opens_block(line) { kept(line) } else { line_tokens(line) };
        lemma_parted(before + sep, own, xs);
        let m = (before + sep).len() as int;
        lemma_parted(before, sep, xs.take(m));
        let n = before.len() as int;
        assert(xs.take(m).take(n) =~= xs.take(n));
        let ys = lemma_block_rendered(lines, k - 1, xs.take(n));
        let mid = xs.take(m).skip(n);
        if k > 1 {
            assert(mid =~= seq![mid[0]]);
            lemma_concat_one(mid[0]);
            assert(shows(sep[0], mid[0]));
        } else {
            assert(mid =~= Seq::<Seq<char>>::empty());
        }
        let r = concat(xs.skip(m));
        assert(lacks(lines[k - 1], '\n'));
        if in_block || opens_block(line) {
            assert(xs.skip(m) =~= seq![xs.skip(m)[0]]);
            lemma_concat_one(xs.skip(m)[0]);
            assert(shows(kept(line)[0], xs.skip(m)[0]));
            assert(r == line);
        } else {
            lemma_line_rendered(line, xs.skip(m));
        }
        let shown = ys.push(r);
        assert(shown.take(k - 1) =~= ys.take(k - 1));
        lemma_block_prefix(shown, ys, k - 1);
        assert(shown[k - 1] == r);
        let t = block_tokens(shown, k - 1).0;
        lemma_all_text_add(t, sep);
        if in_block || opens_block(line) {
            lemma_all_text_add(t + sep, kept(r));
        } else {
            lemma_all_text_add(t + sep, line_tokens(r));
        }
        assert(shown.drop_last() =~= ys);
        if k == 1 {
            assert(concat(xs.take(n)) =~= Seq::<char>::empty());
            assert(concat(mid) =~= Seq::<char>::empty());
            assert(Seq::<char>::empty() + Seq::<char>::empty() + r =~= r);
        } else {
            assert(concat(xs) =~= join_with(ys, feed) + feed + r);
        }
        assert forall|i: int| 0 <= i < shown.len() implies lacks(#[trigger] shown[i], '\n') by {
            if i < k - 1 {
                assert(shown[i] == ys[i]);
            }
        }
        shown
    }
}

/// Lines that hold no line feed are what their text is split into.
proof fn lemma_split_joined(lines: Seq<Seq<char>>)
    requires
        lines.len() > 0,
        all_lack(lines, '\n'),
    ensures
        split_on(join_with(lines, seq!['\n']), '\n') == lines,
    decreases lines.len(),
{
    let feed = seq!['\n'];
    let first = lines[0];
    let s = join_with(lines, feed);
    assert(lacks(lines[0], '\n'));
    if lines.len() == 1 {
        lemma_first_index_is(s, '\n', s.len() as int);
        assert(lines =~= seq![s]);
    } else {
        let rest = lines.drop_first();
        assert(lines =~= seq![first] + rest);
        lemma_join_front(first, rest, feed);
        assert forall|k: int| 0 <= k < first.len() implies s[k] != '\n' by {
            assert(s[k] == first[k]);
        }
        assert(s[first.len() as int] == '\n');
        lemma_first_index_is(s, '\n', first.len() as int);
        assert(s.take(first.len() as int) =~= first);
        assert(s.skip(first.len() as int + 1) =~= join_with(rest, feed));
        assert forall|i: int| 0 <= i < rest.len() implies lacks(#[trigger] rest[i], '\n') by {
            assert(rest[i] == lines[i + 1]);
        }
        lemma_split_joined(rest);
    }
}

proof fn lemma_split_lacks(s: Seq<char>)
    ensures
        all_lack(split_on(s, '\n'), '\n'),
        split_on(s, '\n').len() > 0,
    decreases s.len(),
{
    let i = first_index(s, '\n');
    lemma_first_index(s, '\n');
    if i < s.len() {
        lemma_split_lacks(s.skip(i + 1));
        let all = split_on(s, '\n');
        assert forall|k: int| 0 <= k < all.len() implies lacks(#[trigger] all[k], '\n') by {
            if k == 0 {
                assert(all[0] == s.take(i));
            } else {
                assert(all[k] == split_on(s.skip(i + 1), '\n')[k - 1]);
            }
        }
    }
}

/// Tokens that are all text are shown as they are.
proof fn lemma_text_stays(ts: Seq<TokenView>, locals: Seq<Option<Seq<char>>>, now: i64)
    requires
        all_text(ts),
        ts.len() == locals.len(),
    ensures
        rendered_tokens(ts, locals, now) == token_sources(ts),
    decreases ts.len(),
{
    if ts.len() > 0 {
        assert(ts[ts.len() - 1] is Text);
        assert forall|i: int| 0 <= i < ts.drop_last().len() implies #[trigger] ts.drop_last()[i] is Text by {
            assert(ts.drop_last()[i] == ts[i]);
        }
        lemma_text_stays(ts.drop_last(), locals.drop_last(), now);
    }
}

/// Rendering twice changes nothing: whatever the clocks show, and whenever the second rendering is made, a text
/// that was rendered stays as it is.
pub proof fn rendering_twice_is_rendering_once(
    value: Seq<char>,
    locals: Seq<Option<Seq<char>>>,
    hour_format_24: bool,
    now: i64,
    again: Seq<Option<Seq<char>>>,
    hour_format_again: bool,
    later: i64,
)
    requires
        locals_fit(timestamp_tokens(value), locals, hour_format_24),
        locals_fit(timestamp_tokens(rendered_tokens(timestamp_tokens(value), locals, now)), again, hour_format_again),
    ensures
        ({
            let r = rendered_tokens(timestamp_tokens(value), locals, now);
            rendered_tokens(timestamp_tokens(r), again, later) == r
        }),
{
    let ts = timestamp_tokens(value);
    let r = rendered_tokens(ts, locals, now);
    let xs = lemma_shown(ts, locals, hour_format_24, now);
    if contains_text(r, "<t:"@) {
        if !contains_text(value, "<t:"@) {
            assert(xs =~= seq![xs[0]]);
            lemma_concat_one(xs[0]);
            assert(shows(ts[0], xs[0]));
        } else {
            let lines = split_on(value, '\n');
            lemma_split_lacks(value);
            let shown = lemma_block_rendered(lines, lines.len() as int, xs);
            lemma_split_joined(shown);
        }
    }
    assert(all_text(timestamp_tokens(r)));
    lemma_text_stays(timestamp_tokens(r), again, later);
    tokens_are_the_text(r);
}

// ---- What rendering keeps in number ----

/// How often a character occurs.
pub open spec fn occurrences(s: Seq<char>, c: char) -> nat
    decreases s.len(),
{
    if s.len() == 0 {
        0
    } else {
        occurrences(s.drop_last(), c) + (if s.last() == c { 1nat } else { 0 })
    }
}

proof fn lemma_occurrences_add(a: Seq<char>, b: Seq<char>, c: char)
    ensures
        occurrences(a + b, c) == occurrences(a, c) + occurrences(b, c),
    decreases b.len(),
{
    if b.len() == 0 {
        assert(a + b =~= a);
    } else {
        assert((a + b).drop_last() =~= a + b.drop_last());
        lemma_occurrences_add(a, b.drop_last(), c);
    }
}

proof fn lemma_occurrences_none(s: Seq<char>, c: char)
    requires
        lacks(s, c),
    ensures
        occurrences(s, c) == 0,
    decreases s.len(),
{
    if s.len() > 0 {
        assert(s[s.len() - 1] != c);
        assert forall|i: int| 0 <= i < s.drop_last().len() implies #[trigger] s.drop_last()[i] != c by {
            assert(s.drop_last()[i] == s[i]);
        }
        lemma_occurrences_none(s.drop_last(), c);
    }
}

/// Whether no markup among tokens holds a character.
spec fn markup_lacks(ts: Seq<TokenView>, c: char) -> bool {
    forall|i: int| 0 <= i < ts.len() ==> (#[trigger] ts[i] matches TokenView::Stamp { markup, .. } ==> lacks(markup, c))
}

proof fn lemma_markup_lacks_add(a: Seq<TokenView>, b: Seq<TokenView>, c: char)
    requires
        markup_lacks(a, c),
        markup_lacks(b, c),
    ensures
        markup_lacks(a + b, c),
{
    assert forall|i: int| 0 <= i < (a + b).len() implies (#[trigger] (a + b)[i] matches TokenView::Stamp {
        markup,
        ..
    } ==> lacks(markup, c)) by {
        if i < a.len() {
            assert((a + b)[i] == a[i]);
        } else {
            assert((a + b)[i] == b[i - a.len()]);
        }
    }
}

proof fn lemma_markup_lacks(s: Seq<char>, c: char)
    requires
        c == '`' || c == '\n',
    ensures
        markup_lacks(markup_tokens(s), c),
    decreases s.len(),
{
    if s.len() > 0 {
        let (first, rest) = lemma_first_token(s);
        lemma_markup_lacks(rest, c);
        if stamp(s) is Some {
            lemma_stamp(s);
            let end = stamp(s)->0.end;
            let markup = s.take(end);
            assert forall|i: int| 0 <= i < markup.len() implies #[trigger] markup[i] != c by {
                assert(markup[i] == s[i]);
            }
        }
        assert(markup_lacks(seq![first], c));
        lemma_markup_lacks_add(seq![first], markup_tokens(rest), c);
    }
}

proof fn lemma_line_markup_lacks(s: Seq<char>, c: char)
    requires
        c == '`' || c == '\n',
    ensures
        markup_lacks(line_tokens(s), c),
    decreases s.len(),
{
    let open = first_index(s, '`');
    lemma_first_index(s, '`');
    if !(0 <= open < s.len()) {
        lemma_markup_lacks(s, c);
    } else {
        let rest = s.skip(open + 1);
        let close = first_index(rest, '`');
        lemma_first_index(rest, '`');
        lemma_markup_lacks(s.take(open), c);
        if close <= 0 || close >= rest.len() {
            lemma_markup_lacks(s.skip(open), c);
            lemma_markup_lacks_add(markup_tokens(s.take(open)), markup_tokens(s.skip(open)), c);
        } else {
            let code = s.subrange(open, open + close + 2);
            let tail = s.skip(open + close + 2);
            lemma_line_markup_lacks(tail, c);
            lemma_markup_lacks_add(markup_tokens(s.take(open)), kept(code), c);
            lemma_markup_lacks_add(markup_tokens(s.take(open)) + kept(code), line_tokens(tail), c);
        }
    }
}

proof fn lemma_block_markup_lacks(lines: Seq<Seq<char>>, k: int, c: char)
    requires
        c == '`' || c == '\n',
    ensures
        markup_lacks(block_tokens(lines, k).0, c),
    decreases k,
{
    if k > 0 {
        lemma_block_markup_lacks(lines, k - 1, c);
        let before = block_tokens(lines, k - 1).0;
        let line = lines[k - 1];
        let sep = if k == 1 { seq![] } else { seq![TokenView::Text(seq!['\n'])] };
        lemma_line_markup_lacks(line, c);
        lemma_markup_lacks_add(before, sep, c);
        lemma_markup_lacks_add(before + sep, kept(line), c);
        lemma_markup_lacks_add(before + sep, line_tokens(line), c);
    }
}

proof fn lemma_same_occurrences(ts: Seq<TokenView>, xs: Seq<Seq<char>>, c: char)
    requires
        c == '`' || c == '\n',
        markup_lacks(ts, c),
        is_rendering(ts, xs),
    ensures
        occurrences(concat(xs), c) == occurrences(token_sources(ts), c),
    decreases ts.len(),
{
    if ts.len() > 0 {
        let (t, x) = (ts.last(), xs.last());
        assert(ts[ts.len() - 1] == t);
        assert(shows(ts[ts.len() - 1], xs[ts.len() - 1]));
        assert forall|i: int| 0 <= i < ts.drop_last().len() implies shows(
            #[trigger] ts.drop_last()[i],
            xs.drop_last()[i],
        ) && (ts.drop_last()[i] matches TokenView::Stamp { markup, .. } ==> lacks(markup, c)) by {
            assert(ts.drop_last()[i] == ts[i]);
            assert(shows(ts[i], xs[i]));
        }
        lemma_same_occurrences(ts.drop_last(), xs.drop_last(), c);
        lemma_occurrences_add(concat(xs.drop_last()), x, c);
        lemma_occurrences_add(token_sources(ts.drop_last()), token_source(t), c);
        if let TokenView::Stamp { markup, .. } = t {
            lemma_occurrences_none(markup, c);
            reveal_strlit("<invalid time>");
            assert(lacks(x, c)) by {
                if x != "<invalid time>"@ {
                    assert forall|i: int| 0 <= i < x.len() implies #[trigger] x[i] != c by {}
                }
            }
            lemma_occurrences_none(x, c);
        }
    }
}

/// Rendering keeps the line feeds and the backticks in number.
pub proof fn rendering_keeps_lines_and_backticks(
    value: Seq<char>,
    locals: Seq<Option<Seq<char>>>,
    hour_format_24: bool,
    now: i64,
    c: char,
)
    requires
        c == '`' || c == '\n',
        locals_fit(timestamp_tokens(value), locals, hour_format_24),
    ensures
        occurrences(rendered_tokens(timestamp_tokens(value), locals, now), c) == occurrences(value, c),
{
    let ts = timestamp_tokens(value);
    let xs = lemma_shown(ts, locals, hour_format_24, now);
    if contains_text(value, "<t:"@) {
        let lines = split_on(value, '\n');
        lemma_block_markup_lacks(lines, lines.len() as int, c);
    }
    lemma_same_occurrences(ts, xs, c);
    tokens_are_the_text(value);
}

} // verus!
