//! What embeds show.

use crate::message::embed::{
    all_made, are_embed_lines, are_embed_shares, embed_parts, field_items, footer_of, fragment, gutter, inline_run,
    inner_width, is_embed_lines, is_embed_share, is_footer_time, is_low_value_link, item, item_lines, joined_lines,
    label_with_url, media_items, plain_text, prepared, row_entry, shown_url, unescaped,
    with_gutter, without_char, without_emphasis, EmbedField, EmbedInfo, ItemView, Preparation, PreparedView,
};
use crate::message::format_laws::short_text_is_one_line;
use crate::message::line::LineView;
use crate::message::placeholder::with_placeholders;
use crate::message::rendered::RenderedView;
use crate::message::styled::content_lines;
use crate::message::time::{
    is_rendered, locals_fit, rendered_tokens, text_without_markup_stays, timestamp_tokens, TimeFormat,
};
use crate::style::{Style, Theme};
use crate::text::{contains_text, join_with, lemma_first_index_is, opt_text, starts_with};
use crate::unicode::{all_space, display_width, is_plain};
use vstd::prelude::*;
use vstd::string::*;

verus! {

// ---- Plain text ----

/// Whether a text holds nothing that markdown gives a meaning to.
pub open spec fn has_no_markdown(s: Seq<char>) -> bool {
    forall|i: int|
        0 <= i < s.len() ==> #[trigger] s[i] != '[' && s[i] != ']' && s[i] != '(' && s[i] != ')' && s[i] != '*' && s[i]
            != '\\' && s[i] != '\u{fe00}'
}

proof fn lemma_no_emphasis(s: Seq<char>)
    requires
        has_no_markdown(s),
    ensures
        without_emphasis(s) == s,
    decreases s.len(),
{
    if s.len() > 0 {
        assert forall|i: int| 0 <= i < s.skip(1).len() implies #[trigger] s.skip(1)[i] != '[' && s.skip(1)[i] != ']'
            && s.skip(1)[i] != '(' && s.skip(1)[i] != ')' && s.skip(1)[i] != '*' && s.skip(1)[i] != '\\' && s.skip(1)[i]
            != '\u{fe00}' by {
            assert(s.skip(1)[i] == s[i + 1]);
        }
        lemma_no_emphasis(s.skip(1));
        assert(s[0] != '*');
        assert(s.take(1) + s.skip(1) =~= s);
    } else {
        assert(without_emphasis(s) =~= s);
    }
}

proof fn lemma_no_escape(s: Seq<char>)
    requires
        has_no_markdown(s),
    ensures
        unescaped(s) == s,
    decreases s.len(),
{
    if s.len() > 0 {
        assert forall|i: int| 0 <= i < s.skip(1).len() implies #[trigger] s.skip(1)[i] != '[' && s.skip(1)[i] != ']'
            && s.skip(1)[i] != '(' && s.skip(1)[i] != ')' && s.skip(1)[i] != '*' && s.skip(1)[i] != '\\' && s.skip(1)[i]
            != '\u{fe00}' by {
            assert(s.skip(1)[i] == s[i + 1]);
        }
        lemma_no_escape(s.skip(1));
        assert(s[0] != '\\');
        assert(s.take(1) + s.skip(1) =~= s);
    } else {
        assert(unescaped(s) =~= s);
    }
}

proof fn lemma_fragment(s: Seq<char>)
    requires
        has_no_markdown(s),
    ensures
        fragment(s) == s,
{
    lemma_no_emphasis(s);
    lemma_no_escape(s);
}

proof fn lemma_without_char_add(a: Seq<char>, b: Seq<char>, c: char)
    ensures
        without_char(a + b, c) == without_char(a, c) + without_char(b, c),
    decreases b.len(),
{
    if b.len() == 0 {
        assert(a + b =~= a);
        assert(without_char(a, c) + without_char(b, c) =~= without_char(a, c));
    } else {
        assert((a + b).drop_last() =~= a + b.drop_last());
        lemma_without_char_add(a, b.drop_last(), c);
        assert((a + b).skip((a + b).len() - 1) =~= b.skip(b.len() - 1));
        assert(without_char(a, c) + (without_char(b.drop_last(), c) + b.skip(b.len() - 1)) =~= (without_char(a, c)
            + without_char(b.drop_last(), c)) + b.skip(b.len() - 1));
    }
}

proof fn lemma_without_char(s: Seq<char>, c: char)
    requires
        forall|i: int| 0 <= i < s.len() ==> #[trigger] s[i] != c,
    ensures
        without_char(s, c) == s,
    decreases s.len(),
{
    if s.len() > 0 {
        let rest = s.drop_last();
        assert forall|i: int| 0 <= i < rest.len() implies #[trigger] rest[i] != c by {
            assert(rest[i] == s[i]);
        }
        lemma_without_char(rest, c);
        assert(s[s.len() - 1] != c);
        assert(rest + s.skip(s.len() - 1) =~= s);
    } else {
        assert(without_char(s, c) =~= s);
    }
}

/// Text without markdown stays as it is.
pub proof fn plain_words_stay(s: Seq<char>)
    requires
        has_no_markdown(s),
    ensures
        plain_text(s) == s,
{
    lemma_without_char(s, '\u{fe00}');
    lemma_first_index_is(s, '[', s.len() as int);
    lemma_fragment(s);
}

/// A link behind some words shows its label and its address, unless it only offers to post something: then the label.
/// What follows it is shown as it would be alone.
pub proof fn links_show_label_and_address(before: Seq<char>, label: Seq<char>, url: Seq<char>, after: Seq<char>)
    requires
        has_no_markdown(before),
        has_no_markdown(label),
        has_no_markdown(url),
        label.len() > 0,
        url.len() > 0,
        label != url,
    ensures
        plain_text(before + seq!['['] + label + seq![']', '('] + url + seq![')'] + after) == before + (if is_low_value_link(
            url,
        ) {
            label
        } else {
            label + seq![' ', '('] + url + seq![')']
        }) + plain_text(after),
{
    let c = '\u{fe00}';
    let clean = without_char(after, c);
    let all = before + seq!['['] + label + seq![']', '('] + url + seq![')'] + after;
    let front = before + seq!['['] + label + seq![']', '('] + url + seq![')'];
    lemma_without_char_add(front, after, c);
    assert forall|i: int| 0 <= i < front.len() implies #[trigger] front[i] != c by {
        let (p, q, r) = (before.len() as int, label.len() as int, url.len() as int);
        if i < p {
            assert(front[i] == before[i]);
        } else if p < i < p + 1 + q {
            assert(front[i] == label[i - p - 1]);
        } else if p + 1 + q + 2 <= i < p + q + 3 + r {
            assert(front[i] == url[i - p - q - 3]);
        }
    }
    lemma_without_char(front, c);
    let s = front + clean;
    let open = before.len() as int;
    assert forall|k: int| 0 <= k < open implies s[k] != '[' by {
        assert(s[k] == before[k]);
    }
    assert(s[open] == '[');
    lemma_first_index_is(s, '[', open);
    let rest = s.skip(open + 1);
    let n = label.len() as int;
    assert forall|k: int| 0 <= k < n implies rest[k] != ']' by {
        assert(rest[k] == label[k]);
    }
    assert(rest[n] == ']');
    lemma_first_index_is(rest, ']', n);
    let tail = rest.skip(n + 1);
    assert(tail[0] == '(');
    let inner = tail.skip(1);
    let m = url.len() as int;
    assert forall|k: int| 0 <= k < m implies inner[k] != ')' by {
        assert(inner[k] == url[k]);
    }
    assert(inner[m] == ')');
    lemma_first_index_is(inner, ')', m);
    assert(s.take(open) =~= before);
    assert(rest.take(n) =~= label);
    assert(inner.take(m) =~= url);
    assert(inner.skip(m + 1) =~= clean);
    lemma_fragment(before);
    lemma_fragment(label);
    lemma_no_escape(url);
    reveal_strlit(" (");
    reveal_strlit(")");
    assert(" ("@ =~= seq![' ', '(']);
    assert(")"@ =~= seq![')']);
}

// ---- Parts ----

proof fn lemma_contains(a: Seq<char>, needle: Seq<char>, b: Seq<char>)
    ensures
        contains_text(a + needle + b, needle),
{
    let s = a + needle + b;
    let k = a.len() as int;
    assert(s.skip(k).take(needle.len() as int) =~= needle);
    assert(starts_with(s.skip(k), needle));
}

pub(crate) proof fn lemma_join_contains(pieces: Seq<Seq<char>>, sep: Seq<char>, i: int)
    requires
        0 <= i < pieces.len(),
    ensures
        contains_text(join_with(pieces, sep), pieces[i]),
    decreases pieces.len(),
{
    let e = Seq::<char>::empty();
    if pieces.len() == 1 {
        lemma_contains(e, pieces[0], e);
        assert(e + pieces[0] + e =~= pieces[0]);
    } else if i == pieces.len() - 1 {
        let front = join_with(pieces.drop_last(), sep) + sep;
        lemma_contains(front, pieces[i], e);
        assert(front + pieces[i] + e =~= front + pieces[i]);
    } else {
        let front = join_with(pieces.drop_last(), sep);
        lemma_join_contains(pieces.drop_last(), sep, i);
        let k = choose|k: int| 0 <= k <= front.len() && #[trigger] starts_with(front.skip(k), pieces[i]);
        let all = join_with(pieces, sep);
        assert(all.skip(k).take(pieces[i].len() as int) =~= front.skip(k).take(pieces[i].len() as int));
        assert(starts_with(all.skip(k), pieces[i]));
    }
}

/// Whether a field is shown at a place among the parts of an embed. One that stands beside others is shown with its
/// name, a colon and its value, without markdown; another has a part for its name and one behind it for its value, as
/// far as they are not empty.
pub open spec fn shows_field(parts: Seq<ItemView>, at: int, f: EmbedField, theme: Theme) -> bool {
    if f.inline {
        &&& 0 <= at < parts.len()
        &&& parts[at].style == theme.embed_field_name
        &&& contains_text(parts[at].text, plain_text(f.name@) + seq![':', ' '] + plain_text(f.value@))
    } else {
        let named: int = if f.name@.len() > 0 { 1 } else { 0 };
        &&& 0 <= at
        &&& f.name@.len() > 0 ==> at < parts.len() && parts[at].text == f.name@ && parts[at].style
            == theme.embed_field_name
        &&& f.value@.len() > 0 ==> at + named < parts.len() && parts[at + named].text == f.value@
    }
}

proof fn lemma_shift_field(a: Seq<ItemView>, b: Seq<ItemView>, c: Seq<ItemView>, at: int, f: EmbedField, theme: Theme)
    requires
        shows_field(b, at, f, theme),
    ensures
        shows_field(a + b + c, a.len() + at, f, theme),
{
    let all = a + b + c;
    if 0 <= at < b.len() {
        assert(all[a.len() + at] == b[at]);
    }
    if 0 <= at + 1 < b.len() {
        assert(all[a.len() + at + 1] == b[at + 1]);
    }
}

proof fn lemma_fields(fields: Seq<EmbedField>, theme: Theme) -> (places: Seq<int>)
    ensures
        places.len() == fields.len(),
        forall|i: int|
            0 <= i < fields.len() ==> shows_field(field_items(fields, theme), #[trigger] places[i], fields[i], theme),
        forall|i: int, j: int|
            #![trigger places[i], places[j]]
            0 <= i < j < places.len() ==> 0 <= places[i] <= places[j],
        forall|i: int| 0 <= i < places.len() ==> 0 <= #[trigger] places[i],
    decreases fields.len(),
{
    let parts = field_items(fields, theme);
    let none = Seq::<ItemView>::empty();
    if fields.len() == 0 {
        seq![]
    } else if fields[0].inline {
        let n = inline_run(fields, 3) as int;
        lemma_run(fields, 3);
        assert(n >= 1) by {
            reveal_with_fuel(inline_run, 2);
        }
        let entries = fields.take(n).map_values(|f: EmbedField| row_entry(f));
        let row = join_with(entries, " │ "@);
        let first = item(Some(row), theme.embed_field_name);
        let rest = field_items(fields.skip(n), theme);
        let later = lemma_fields(fields.skip(n), theme);
        reveal_strlit(": ");
        assert(": "@ =~= seq![':', ' ']);
        lemma_join_contains(entries, " │ "@, 0);
        assert(row.len() > 0) by {
            assert(entries[0] == row_entry(fields[0]));
            let k = choose|k: int| 0 <= k <= row.len() && #[trigger] starts_with(row.skip(k), entries[0]);
        }
        assert(first.len() == 1);
        assert(parts =~= first + rest + none);
        let places = Seq::new(fields.len(), |i: int| if i < n { 0 } else { 1 + later[i - n] });
        assert forall|i: int| 0 <= i < fields.len() implies shows_field(parts, #[trigger] places[i], fields[i], theme) by {
            if i < n {
                lemma_join_contains(entries, " │ "@, i);
                assert(entries[i] == row_entry(fields[i]));
                assert(parts[0] == first[0]);
                assert(fields[i].inline);
            } else {
                assert(shows_field(rest, later[i - n], fields.skip(n)[i - n], theme));
                lemma_shift_field(first, rest, none, later[i - n], fields[i], theme);
            }
        }
        places
    } else {
        let f = fields[0];
        let (name, value) = (item(Some(f.name@), theme.embed_field_name), item(Some(f.value@), Style::none()));
        let first = name + value;
        let rest = field_items(fields.skip(1), theme);
        let later = lemma_fields(fields.skip(1), theme);
        assert(parts =~= first + rest + none);
        let places = Seq::new(fields.len(), |i: int| if i < 1 { 0 } else { first.len() + later[i - 1] });
        assert forall|i: int| 0 <= i < fields.len() implies shows_field(parts, #[trigger] places[i], fields[i], theme) by {
            if i == 0 {
                if f.name@.len() > 0 {
                    assert(parts[0] == name[0]);
                }
                if f.value@.len() > 0 {
                    assert(parts[name.len() as int] == value[0]);
                }
            } else {
                assert(shows_field(rest, later[i - 1], fields.skip(1)[i - 1], theme));
                lemma_shift_field(first, rest, none, later[i - 1], fields[i], theme);
            }
        }
        places
    }
}

proof fn lemma_run(fields: Seq<EmbedField>, max: nat)
    ensures
        inline_run(fields, max) <= max,
        inline_run(fields, max) <= fields.len(),
        forall|i: int| 0 <= i < inline_run(fields, max) ==> (#[trigger] fields[i]).inline,
    decreases max,
{
    if max > 0 && fields.len() > 0 && fields[0].inline {
        let rest = fields.skip(1);
        lemma_run(rest, (max - 1) as nat);
        assert forall|i: int| 0 <= i < inline_run(fields, max) implies (#[trigger] fields[i]).inline by {
            if i > 0 {
                assert(rest[i - 1] == fields[i]);
            }
        }
    }
}

/// Fields that stand side by side share a part, up to three of them.
pub proof fn at_most_three_fields_share_a_row(fields: Seq<EmbedField>)
    ensures
        inline_run(fields, 3) <= 3,
        fields.len() >= 3 && fields[0].inline && fields[1].inline && fields[2].inline ==> inline_run(fields, 3) == 3,
        fields.len() > 0 && !fields[0].inline ==> inline_run(fields, 3) == 0,
{
    lemma_run(fields, 3);
    reveal_with_fuel(inline_run, 4);
    if fields.len() >= 3 {
        assert(fields.skip(1)[0] == fields[1]);
        assert(fields.skip(1).skip(1)[0] == fields[2]);
    }
}

/// A row of fields that stand side by side: all of them, up to three, with a bar between each two.
pub proof fn side_by_side_fields_make_a_row(fields: Seq<EmbedField>, theme: Theme, n: int)
    requires
        1 <= n <= 3,
        n <= fields.len(),
        forall|i: int| 0 <= i < n ==> (#[trigger] fields[i]).inline,
        n == 3 || n == fields.len() || !fields[n].inline,
    ensures
        ({
            let bar = seq![' ', '│', ' '];
            let row = if n == 1 {
                name_and_value(fields[0])
            } else if n == 2 {
                name_and_value(fields[0]) + bar + name_and_value(fields[1])
            } else {
                name_and_value(fields[0]) + bar + name_and_value(fields[1]) + bar + name_and_value(fields[2])
            };
            field_items(fields, theme) == seq![ItemView { text: row, style: theme.embed_field_name }] + field_items(
                fields.skip(n),
                theme,
            )
        }),
{
    reveal_with_fuel(inline_run, 4);
    assert(fields[0].inline);
    if n >= 2 {
        assert(fields.skip(1)[0] == fields[1]);
        assert(fields[1].inline);
    } else if fields.len() > 1 {
        assert(fields.skip(1)[0] == fields[1]);
    }
    if n >= 3 {
        assert(fields.skip(1).skip(1)[0] == fields[2]);
        assert(fields[2].inline);
    } else if n == 2 && fields.len() > 2 {
        assert(fields.skip(1).skip(1)[0] == fields[2]);
    }
    assert(inline_run(fields, 3) == n);
    reveal_strlit(" │ ");
    reveal_strlit(": ");
    assert(" │ "@ =~= seq![' ', '│', ' ']);
    assert(": "@ =~= seq![':', ' ']);
    let entries = fields.take(n).map_values(|f: EmbedField| row_entry(f));
    reveal_with_fuel(join_with, 4);
    let bar = seq![' ', '│', ' '];
    let row = join_with(entries, " │ "@);
    assert(entries[0] == name_and_value(fields[0]));
    if n == 1 {
        assert(row =~= name_and_value(fields[0]));
    } else if n == 2 {
        assert(entries[1] == name_and_value(fields[1]));
        assert(entries.drop_last()[0] == entries[0]);
        assert(row =~= name_and_value(fields[0]) + bar + name_and_value(fields[1]));
    } else {
        assert(entries[1] == name_and_value(fields[1]));
        assert(entries[2] == name_and_value(fields[2]));
        assert(entries.drop_last()[1] == entries[1]);
        assert(entries.drop_last().drop_last()[0] == entries[0]);
        assert(row =~= name_and_value(fields[0]) + bar + name_and_value(fields[1]) + bar + name_and_value(fields[2]));
    }
    assert(item(Some(row), theme.embed_field_name) =~= seq![ItemView { text: row, style: theme.embed_field_name }]);
}

/// The name and the value of a field, without markdown.
pub open spec fn name_and_value(f: EmbedField) -> Seq<char> {
    plain_text(f.name@) + seq![':', ' '] + plain_text(f.value@)
}

/// Whether a part shows a text in a style.
pub open spec fn is_part(parts: Seq<ItemView>, at: int, text: Seq<char>, style: Style) -> bool {
    0 <= at < parts.len() && parts[at].text == text && parts[at].style == style
}

/// The parts of an embed: provider, author, title, description, fields, footer and address, in this order, as far as
/// they are there. Every field is shown. Names stand with their addresses, the footer with its time, and the
/// description and fields in a row are without markdown.
#[verifier::spinoff_prover]
#[verifier::rlimit(40)]
pub proof fn embeds_show_all_they_have(embed: EmbedInfo, content: Option<String>, time: Option<String>, theme: Theme) -> (r:
    (Seq<int>, Seq<int>))
    ensures
        ({
            let parts = embed_parts(embed, content, time, theme);
            let (at, fields) = r;
            &&& at.len() == 6
            &&& 0 <= at[0] <= at[1] <= at[2] <= at[3] <= at[4] <= at[5] <= parts.len()
            &&& shows_label(parts, at[0], embed.provider_name, embed.provider_url, theme.embed_footer)
            &&& shows_label(parts, at[1], embed.author_name, embed.author_url, theme.embed_author)
            &&& embed.title matches Some(t) ==> t@.len() > 0 ==> is_part(parts, at[2], t@, theme.embed_title)
            &&& embed.description matches Some(d) ==> plain_text(d@).len() > 0 ==> is_part(
                parts,
                at[3],
                plain_text(d@),
                Style::none(),
            )
            &&& embed.footer_text matches Some(f) ==> time is None && f@.len() > 0 ==> is_part(
                parts,
                at[4],
                f@,
                theme.embed_footer,
            )
            &&& embed.footer_text matches Some(f) ==> time matches Some(t) ==> is_part(
                parts,
                at[4],
                f@ + seq![' ', '·', ' '] + t@,
                theme.embed_footer,
            )
            &&& time matches Some(t) ==> embed.footer_text is None && t@.len() > 0 ==> is_part(
                parts,
                at[4],
                t@,
                theme.embed_footer,
            )
            &&& embed.url matches Some(u) ==> u@.len() > 0 && !(content matches Some(c) && contains_text(c@, u@)) && !(
            embed.provider_url matches Some(p) && p@ == u@) && !(embed.author_url matches Some(a) && a@ == u@) ==> is_part(
                parts,
                at[5],
                u@,
                theme.embed_link,
            )
            &&& fields.len() == embed.fields@.len()
            &&& forall|i: int|
                0 <= i < fields.len() ==> at[3] <= #[trigger] fields[i] && shows_field(
                    parts,
                    fields[i],
                    embed.fields@[i],
                    theme,
                )
            &&& forall|i: int, j: int|
                #![trigger fields[i], fields[j]]
                0 <= i < j < fields.len() ==> fields[i] <= fields[j]
        }),
{
    let parts = embed_parts(embed, content, time, theme);
    let description = match embed.description {
        Some(d) => Some(plain_text(d@)),
        None => None,
    };
    let p0 = item(label_with_url(embed.provider_name, embed.provider_url), theme.embed_footer);
    let p1 = item(label_with_url(embed.author_name, embed.author_url), theme.embed_author);
    let p2 = item(opt_text(embed.title), theme.embed_title);
    let p3 = item(description, Style::none());
    let p4 = field_items(embed.fields@, theme);
    let p5 = media_items(embed, theme);
    let p6 = item(footer_of(embed.footer_text, time), theme.embed_footer);
    let p7 = item(shown_url(embed, content), theme.embed_link);
    reveal_strlit(" · ");
    assert(" · "@ =~= seq![' ', '·', ' ']);
    let a1 = p0.len() as int;
    let a2 = a1 + p1.len();
    let a3 = a2 + p2.len();
    let a4 = a3 + p3.len();
    let a6 = a4 + p4.len() + p5.len();
    let a7 = a6 + p6.len();
    let at = seq![0, a1, a2, a3, a6, a7];
    assert(parts.len() == a7 + p7.len());
    lemma_label(parts, 0, p0, embed.provider_name, embed.provider_url, theme.embed_footer);
    lemma_label(parts, a1, p1, embed.author_name, embed.author_url, theme.embed_author);
    if p2.len() > 0 {
        assert(parts[a2] == p2[0]);
    }
    if p3.len() > 0 {
        assert(parts[a3] == p3[0]);
    }
    if p6.len() > 0 {
        assert(parts[a6] == p6[0]);
    }
    if p7.len() > 0 {
        assert(parts[a7] == p7[0]);
    }
    let front = p0 + p1 + p2 + p3;
    let back = p5 + p6 + p7;
    assert(parts =~= front + p4 + back);
    let own = lemma_fields(embed.fields@, theme);
    let fields = Seq::new(own.len(), |i: int| front.len() + own[i]);
    assert forall|i: int| 0 <= i < fields.len() implies at[3] <= #[trigger] fields[i] && shows_field(
        parts,
        fields[i],
        embed.fields@[i],
        theme,
    ) by {
        assert(own[i] >= 0);
        lemma_shift_field(front, p4, back, own[i], embed.fields@[i], theme);
    }
    assert forall|i: int, j: int| #![trigger fields[i], fields[j]] 0 <= i < j < fields.len() implies fields[i] <= fields[j] by {
        assert(own[i] <= own[j]);
    }
    (at, fields)
}

/// The name and the value of every field of an embed are shown: in one part with a colon between them, for a field that
/// stands beside others, and in two parts, the value behind the name, for another.
pub proof fn fields_show_name_and_value(
    embed: EmbedInfo,
    content: Option<String>,
    time: Option<String>,
    theme: Theme,
    i: int,
) -> (at: int)
    requires
        0 <= i < embed.fields@.len(),
        has_no_markdown(embed.fields@[i].name@),
        has_no_markdown(embed.fields@[i].value@),
        embed.fields@[i].name@.len() > 0,
        embed.fields@[i].value@.len() > 0,
    ensures
        ({
            let parts = embed_parts(embed, content, time, theme);
            let (name, value) = (embed.fields@[i].name@, embed.fields@[i].value@);
            &&& 0 <= at < parts.len()
            &&& embed.fields@[i].inline ==> contains_text(parts[at].text, name + seq![':', ' '] + value)
            &&& !embed.fields@[i].inline ==> at + 1 < parts.len() && parts[at].text == name && parts[at + 1].text == value
        }),
{
    let (_, fields) = embeds_show_all_they_have(embed, content, time, theme);
    plain_words_stay(embed.fields@[i].name@);
    plain_words_stay(embed.fields@[i].value@);
    assert(shows_field(embed_parts(embed, content, time, theme), fields[i], embed.fields@[i], theme));
    fields[i]
}

/// The descriptions of media that say something new are shown, each with the kind of the medium.
pub proof fn embeds_describe_their_media(embed: EmbedInfo, content: Option<String>, time: Option<String>, theme: Theme) -> (at:
    (int, int, int))
    ensures
        ({
            let parts = embed_parts(embed, content, time, theme);
            let said = opt_text(embed.description);
            let (thumbnail, image, video) = (
                opt_text(embed.thumbnail_description),
                opt_text(embed.image_description),
                opt_text(embed.video_description),
            );
            &&& thumbnail matches Some(t) ==> !all_space(t) && said != thumbnail ==> is_part(
                parts,
                at.0,
                "[thumbnail: "@ + t + "]"@,
                theme.embed_footer,
            )
            &&& image matches Some(t) ==> !all_space(t) && said != image && image != thumbnail ==> is_part(
                parts,
                at.1,
                "[image: "@ + t + "]"@,
                theme.embed_footer,
            )
            &&& video matches Some(t) ==> !all_space(t) && said != video && video != thumbnail && video != image
                ==> is_part(parts, at.2, "[video: "@ + t + "]"@, theme.embed_footer)
            &&& at.0 <= at.1 <= at.2
        }),
{
    let parts = embed_parts(embed, content, time, theme);
    let description = match embed.description {
        Some(d) => Some(plain_text(d@)),
        None => None,
    };
    let front = item(label_with_url(embed.provider_name, embed.provider_url), theme.embed_footer) + item(
        label_with_url(embed.author_name, embed.author_url),
        theme.embed_author,
    ) + item(opt_text(embed.title), theme.embed_title) + item(description, Style::none()) + field_items(
        embed.fields@,
        theme,
    );
    let media = media_items(embed, theme);
    let back = item(footer_of(embed.footer_text, time), theme.embed_footer) + item(
        shown_url(embed, content),
        theme.embed_link,
    );
    assert(parts =~= front + media + back);
    assert(forall|i: int| 0 <= i < media.len() ==> parts[front.len() + i] == #[trigger] media[i]);
    reveal_strlit("[");
    reveal_strlit(": ");
    reveal_strlit("thumbnail");
    reveal_strlit("image");
    reveal_strlit("video");
    reveal_strlit("[thumbnail: ");
    reveal_strlit("[image: ");
    reveal_strlit("[video: ");
    assert("["@ + "thumbnail"@ + ": "@ =~= "[thumbnail: "@);
    assert("["@ + "image"@ + ": "@ =~= "[image: "@);
    assert("["@ + "video"@ + ": "@ =~= "[video: "@);
    let thumbnail = crate::message::embed::media_text(embed, embed.thumbnail_description);
    let image = crate::message::embed::media_text(embed, embed.image_description);
    let own = if image == thumbnail { None } else { image };
    let first = crate::message::embed::media_item("thumbnail"@, thumbnail, theme);
    let second = crate::message::embed::media_item("image"@, own, theme);
    let a = front.len() as int;
    let b = a + first.len();
    let c = b + second.len();
    if first.len() > 0 {
        assert(media[0] == first[0]);
    }
    if second.len() > 0 {
        assert(media[first.len() as int] == second[0]);
    }
    if media.len() > first.len() + second.len() {
        assert(parts[c] == media[(first.len() + second.len()) as int]);
    }
    (a, b, c)
}

/// Whether a label and an address, as far as they are there and not blank, are shown.
pub open spec fn shows_label(parts: Seq<ItemView>, at: int, label: Option<String>, url: Option<String>, style: Style) -> bool {
    let has_label = label matches Some(l) && !all_space(l@);
    let has_url = url matches Some(u) && !all_space(u@);
    &&& has_label && has_url ==> is_part(parts, at, (label->0)@ + seq![' ', '·', ' '] + (url->0)@, style)
    &&& has_label && !has_url ==> is_part(parts, at, (label->0)@, style)
    &&& !has_label && has_url ==> is_part(parts, at, (url->0)@, style)
}

proof fn lemma_label(
    parts: Seq<ItemView>,
    at: int,
    own: Seq<ItemView>,
    label: Option<String>,
    url: Option<String>,
    style: Style,
)
    requires
        own == item(label_with_url(label, url), style),
        0 <= at,
        at + own.len() <= parts.len(),
        own.len() > 0 ==> parts[at] == own[0],
    ensures
        shows_label(parts, at, label, url, style),
{
    reveal_strlit(" · ");
    assert(" · "@ =~= seq![' ', '·', ' ']);
}

// ---- Lines ----

/// Whether parts can be shown as they are: plain text without markup, each short enough for a line.
pub open spec fn are_short(parts: Seq<ItemView>, width: int) -> bool {
    forall|i: int|
        0 <= i < parts.len() ==> {
            let text = (#[trigger] parts[i]).text;
            is_plain(text) && !contains_text(text, "<t:"@) && 0 < text.len() <= width
        }
}

proof fn lemma_no_slots(r: RenderedView, loaded: Seq<Seq<char>>, cells: u16)
    requires
        r.emoji_slots.len() == 0,
    ensures
        with_placeholders(r, loaded, cells) == r,
{
}

proof fn lemma_short_lines(parts: Seq<ItemView>, made: Seq<PreparedView>, how: Preparation, width: usize)
    requires
        all_made(parts, made, how),
        how.markup.len() == 0,
        are_short(parts, width as int),
    ensures
        item_lines(parts, made, width).len() == parts.len(),
        forall|i: int|
            0 <= i < parts.len() ==> (#[trigger] item_lines(parts, made, width)[i]).text == parts[i].text && item_lines(
                parts,
                made,
                width,
            )[i].style == parts[i].style,
    decreases parts.len(),
{
    if parts.len() > 0 {
        let (front, before) = (parts.drop_last(), made.drop_last());
        assert forall|i: int| 0 <= i < front.len() implies how.makes(front[i].text, #[trigger] before[i]) by {
            assert(how.makes(parts[i].text, made[i]));
        }
        assert forall|i: int| 0 <= i < front.len() implies {
            let text = (#[trigger] front[i]).text;
            is_plain(text) && !contains_text(text, "<t:"@) && 0 < text.len() <= width
        } by {
            assert(front[i] == parts[i]);
        }
        lemma_short_lines(front, before, how, width);
        let n = parts.len() - 1;
        let (part, m) = (parts[n], made[n]);
        assert(how.makes(parts[n].text, made[n]));
        let told = choose|told: Seq<char>| #[trigger]
            is_rendered(part.text, told, how.time.hour_format_24, how.time.now) && m == (PreparedView {
                rendered: with_placeholders(
                    prepared(how.markup, told).rendered,
                    how.loaded,
                    how.options.compact_emoji_width,
                ),
                links: prepared(how.markup, told).links,
            });
        lemma_not_told(part.text, told, how.time);
        lemma_no_slots(prepared(how.markup, told).rendered, how.loaded, how.options.compact_emoji_width);
        short_text_is_one_line(m.rendered, m.links, width, part.style, seq![]);
        let line = content_lines(m.rendered, m.links, width, part.style, seq![]);
        assert(line[0].style == part.style);
        let all = item_lines(parts, made, width);
        assert(all =~= item_lines(front, before, width) + line);
        assert forall|i: int| 0 <= i < parts.len() implies (#[trigger] all[i]).text == parts[i].text && all[i].style
            == parts[i].style by {
            if i < n {
                assert(all[i] == item_lines(front, before, width)[i]);
                assert(front[i] == parts[i]);
            } else {
                assert(all[i] == line[0]);
            }
        }
    }
}

/// Text without markup of times is told as it is.
pub proof fn lemma_not_told(text: Seq<char>, told: Seq<char>, time: TimeFormat)
    requires
        !contains_text(text, "<t:"@),
        is_rendered(text, told, time.hour_format_24, time.now),
    ensures
        told == text,
{
    let locals = choose|locals: Seq<Option<Seq<char>>>|
        locals_fit(timestamp_tokens(text), locals, time.hour_format_24) && told == #[trigger] rendered_tokens(
            timestamp_tokens(text),
            locals,
            time.now,
        );
    text_without_markup_stays(text, locals, time.hour_format_24, time.now);
}

/// The lines of an embed with short plain parts: one for each part, behind the gutter, in its style.
pub proof fn embed_lines_show_the_parts(
    lines: Seq<LineView>,
    embed: EmbedInfo,
    content: Option<String>,
    how: Preparation,
    width: usize,
) -> (time: Option<String>)
    requires
        is_embed_lines(lines, embed, content, how, width),
        how.markup.len() == 0,
        forall|time: Option<String>| #[trigger]
            is_footer_time(time, embed, how.time.hour_format_24) ==> are_short(
                embed_parts(embed, content, time, how.options.theme),
                width - display_width("  ▎ "@),
            ),
    ensures
        is_footer_time(time, embed, how.time.hour_format_24),
        ({
            let parts = embed_parts(embed, content, time, how.options.theme);
            &&& lines.len() == parts.len()
            &&& forall|i: int|
                0 <= i < lines.len() ==> (#[trigger] lines[i]).text == "  ▎ "@ + parts[i].text && lines[i].style
                    == parts[i].style
        }),
{
    let theme = how.options.theme;
    let (time, made) = choose|time: Option<String>, made: Seq<PreparedView>|
        is_footer_time(time, embed, how.time.hour_format_24) && #[trigger] all_made(
            embed_parts(embed, content, time, theme),
            made,
            how,
        ) && lines == with_gutter(
            item_lines(embed_parts(embed, content, time, theme), made, inner_width(width)),
            crate::message::embed::gutter_style(embed.color, theme),
        );
    let parts = embed_parts(embed, content, time, theme);
    assert(gutter() == "  ▎ "@);
    if parts.len() > 0 {
        assert(0 < parts[0].text.len());
        assert(inner_width(width) == width - display_width("  ▎ "@));
    } else {
        assert(item_lines(parts, made, inner_width(width)).len() == 0);
    }
    if parts.len() > 0 {
        lemma_short_lines(parts, made, how, inner_width(width));
    }
    time
}

proof fn lemma_joined(each: Seq<Seq<LineView>>, k: int) -> (at: int)
    requires
        0 <= k < each.len(),
    ensures
        0 <= at,
        at + each[k].len() <= joined_lines(each).len(),
        joined_lines(each).subrange(at, at + each[k].len()) == each[k],
    decreases each.len(),
{
    let rest = each.drop_last();
    let before = joined_lines(rest);
    let all = joined_lines(each);
    if k == each.len() - 1 {
        let at = before.len() as int;
        assert(all.subrange(at, at + each[k].len()) =~= each[k]);
        at
    } else {
        let at = lemma_joined(rest, k);
        assert(rest[k] == each[k]);
        assert(all.subrange(at, at + each[k].len()) =~= before.subrange(at, at + each[k].len()));
        at
    }
}

/// Every embed whose address no earlier one has is shown among the lines of all.
pub proof fn every_embed_is_shown(
    lines: Seq<LineView>,
    embeds: Seq<EmbedInfo>,
    content: Option<String>,
    how: Preparation,
    width: usize,
    k: int,
) -> (r: (int, int))
    requires
        are_embed_lines(lines, embeds, content, how, width),
        0 <= k < embeds.len(),
        embeds[k].url is None || forall|j: int|
            0 <= j < k ==> opt_text((#[trigger] embeds[j]).url) != opt_text(embeds[k].url),
    ensures
        0 <= r.0 <= r.1 <= lines.len(),
        is_embed_lines(lines.subrange(r.0, r.1), embeds[k], content, how, width),
{
    let each = choose|each: Seq<Seq<LineView>>| #[trigger]
        are_embed_shares(each, embeds, embeds.len() as int, content, how, width) && lines == joined_lines(each);
    assert(is_embed_share(each[k], embeds, k, content, how, width));
    let at = lemma_joined(each, k);
    (at, at + each[k].len())
}

} // verus!
