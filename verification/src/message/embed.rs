//! Embeds: cards with a title, fields and links below a message.

use crate::message::line::{lemma_line_views_add, lemma_line_views_push, line_views, LineView, MessageContentLine};
use crate::message::rendered::{emoji_slots, InlineEmojiSlot, RenderedText, RenderedView, TextHighlight};
use crate::message::rich::{prefix_message_content_line_with_style, prefixed_line_styled};
use crate::message::styled::{content_lines, wrap_rendered_text_lines};
use crate::message::options::FormatOptions;
use crate::message::placeholder::{rendered_text_with_loaded_custom_emoji_placeholders, with_placeholders};
use crate::message::time::{
    format_rfc3339_local_time, is_local_clock, is_rendered, render_discord_timestamps_at, rfc3339_seconds, TimeFormat,
};
use crate::style::{color_of, embed_color, Style, Theme};
use crate::text::{
    chars_of, contains_text, find_char, first_index, join_strings, join_with, opt_text, str_contains, str_eq,
    string_of, texts,
};
use crate::unicode::{all_space, display_width, is_all_space, str_width};
use vstd::prelude::*;
use vstd::string::*;

verus! {

#[derive(Debug, PartialEq, Eq)]
pub struct EmbedField {
    pub name: String,
    pub value: String,
    pub inline: bool,
}

/// A card below a message.
#[derive(Debug, PartialEq, Eq)]
pub struct EmbedInfo {
    pub color: Option<u32>,
    pub provider_name: Option<String>,
    pub provider_url: Option<String>,
    pub author_name: Option<String>,
    pub author_url: Option<String>,
    pub title: Option<String>,
    pub description: Option<String>,
    pub fields: Vec<EmbedField>,
    pub thumbnail_description: Option<String>,
    pub image_description: Option<String>,
    pub video_description: Option<String>,
    pub footer_text: Option<String>,
    pub timestamp: Option<String>,
    pub url: Option<String>,
}

// ---- Optional text ----

/// A text, unless it is missing or blank.
pub open spec fn not_blank(s: Option<String>) -> Option<Seq<char>> {
    match s {
        Some(s) => if all_space(s@) {
            None
        } else {
            Some(s@)
        },
        None => None,
    }
}

/// Whether there is a text that is not blank.
pub fn is_present(s: &Option<String>) -> (r: bool)
    ensures
        r == (not_blank(*s) is Some),
{
    match s {
        Some(s) => !is_all_space(s.as_str()),
        None => false,
    }
}

/// A label and an address, as far as they are there, with a dot between them.
pub open spec fn label_with_url(label: Option<String>, url: Option<String>) -> Option<Seq<char>> {
    match (not_blank(label), not_blank(url)) {
        (Some(label), Some(url)) => Some(label + " · "@ + url),
        (Some(label), None) => Some(label),
        (None, Some(url)) => Some(url),
        (None, None) => None,
    }
}

pub fn embed_label_with_url(label: &Option<String>, url: &Option<String>) -> (r: Option<String>)
    ensures
        opt_text(r) == label_with_url(*label, *url),
{
    let has_label = is_present(label);
    let has_url = is_present(url);
    match label {
        Some(label) if has_label => {
            let mut text = label.clone();
            match url {
                Some(url) if has_url => {
                    text.append(" · ");
                    text.append(url.as_str());
                },
                _ => {},
            }
            Some(text)
        },
        _ => match url {
            Some(url) if has_url => Some(url.clone()),
            _ => None,
        },
    }
}

/// The footer: its text and its time, as far as they are there.
pub open spec fn footer_of(text: Option<String>, time: Option<String>) -> Option<Seq<char>> {
    match (text, time) {
        (Some(text), Some(time)) => Some(text@ + " · "@ + time@),
        (Some(text), None) => Some(text@),
        (None, Some(time)) => Some(time@),
        (None, None) => None,
    }
}

pub fn format_embed_footer(text: &Option<String>, time: &Option<String>) -> (r: Option<String>)
    ensures
        opt_text(r) == footer_of(*text, *time),
{
    match (text, time) {
        (Some(text), Some(time)) => {
            let mut footer = text.clone();
            footer.append(" · ");
            footer.append(time.as_str());
            Some(footer)
        },
        (Some(text), None) => Some(text.clone()),
        (None, Some(time)) => Some(time.clone()),
        (None, None) => None,
    }
}

// ---- Text without markdown ----

/// A text without doubled asterisks.
pub open spec fn without_emphasis(s: Seq<char>) -> Seq<char>
    decreases s.len(),
{
    if s.len() == 0 {
        seq![]
    } else if s.len() >= 2 && s[0] == '*' && s[1] == '*' {
        without_emphasis(s.skip(2))
    } else {
        s.take(1) + without_emphasis(s.skip(1))
    }
}

/// The characters that a backslash takes their meaning from.
pub open spec fn is_escapable(c: char) -> bool {
    c == '\\' || c == '*' || c == '_' || c == '`' || c == '~' || c == '|' || c == '[' || c == ']' || c == '(' || c
        == ')' || c == '.' || c == '!' || c == '#'
}

/// A text in which each escaped character stands for itself.
pub open spec fn unescaped(s: Seq<char>) -> Seq<char>
    decreases s.len(),
{
    if s.len() == 0 {
        seq![]
    } else if s.len() >= 2 && s[0] == '\\' && is_escapable(s[1]) {
        s.subrange(1, 2) + unescaped(s.skip(2))
    } else {
        s.take(1) + unescaped(s.skip(1))
    }
}

pub open spec fn fragment(s: Seq<char>) -> Seq<char> {
    unescaped(without_emphasis(s))
}

/// A character in lower case, as far as ASCII goes.
pub open spec fn ascii_lower(c: char) -> u32 {
    if 'A' <= c && c <= 'Z' {
        (c as u32 + 32) as u32
    } else {
        c as u32
    }
}

/// Whether `s` begins with `prefix`, which is in lower case, regardless of the case of ASCII letters.
pub open spec fn starts_with_ascii(s: Seq<char>, prefix: Seq<char>) -> bool {
    &&& prefix.len() <= s.len()
    &&& forall|k: int| 0 <= k < prefix.len() ==> ascii_lower(#[trigger] s[k]) == prefix[k] as u32
}

/// Links that only offer to post something.
pub open spec fn is_low_value_link(url: Seq<char>) -> bool {
    starts_with_ascii(url, "https://x.com/intent/"@) || starts_with_ascii(url, "https://twitter.com/intent/"@)
}

/// A link in plain text.
pub open spec fn plain_link(label: Seq<char>, url: Seq<char>) -> Seq<char> {
    if is_low_value_link(url) {
        label
    } else if label.len() == 0 {
        url
    } else if label == url || url.len() == 0 {
        label
    } else {
        label + " ("@ + url + ")"@
    }
}

/// A text with its links, written `[label](address)`, in plain text. What looks like a link but ends
/// with the text is left as it is.
pub open spec fn plain_links(s: Seq<char>) -> Seq<char>
    decreases s.len(),
{
    let open = first_index(s, '[');
    let rest = s.skip(open + 1);
    let label_len = first_index(rest, ']');
    let after = rest.skip(label_len + 1);
    let inner = after.skip(1);
    let url_len = first_index(inner, ')');
    if !(0 <= open < s.len()) {
        fragment(s)
    } else if !(0 <= label_len < rest.len()) {
        fragment(s.take(open)) + fragment(s.skip(open))
    } else if after.len() == 0 || after[0] != '(' {
        fragment(s.take(open)) + "["@ + plain_links(rest)
    } else if !(0 <= url_len < inner.len()) {
        fragment(s.take(open)) + fragment(s.skip(open))
    } else {
        fragment(s.take(open)) + plain_link(fragment(rest.take(label_len)), unescaped(inner.take(url_len)))
            + plain_links(inner.skip(url_len + 1))
    }
}

/// A text without one character.
pub open spec fn without_char(s: Seq<char>, c: char) -> Seq<char>
    decreases s.len(),
{
    if s.len() == 0 {
        seq![]
    } else if s.last() == c {
        without_char(s.drop_last(), c)
    } else {
        without_char(s.drop_last(), c) + s.skip(s.len() - 1)
    }
}

/// The text of an embed without markdown.
pub open spec fn plain_text(s: Seq<char>) -> Seq<char> {
    plain_links(without_char(s, '\u{fe00}'))
}

/// Links of low value are shown by their label alone.
pub proof fn low_value_links_show_their_label(label: Seq<char>, url: Seq<char>)
    requires
        is_low_value_link(url),
    ensures
        plain_link(label, url) == label,
{
}

fn strip_emphasis(v: &Vec<char>) -> (r: Vec<char>)
    ensures
        r@ == without_emphasis(v@),
{
    let mut r: Vec<char> = Vec::new();
    let mut i: usize = 0;
    assert(v@.skip(0) =~= v@);
    assert(r@ + without_emphasis(v@) =~= without_emphasis(v@));
    while i < v.len()
        invariant
            i <= v@.len(),
            r@ + without_emphasis(v@.skip(i as int)) == without_emphasis(v@),
        decreases v@.len() - i,
    {
        let ghost s = v@.skip(i as int);
        assert(s[0] == v@[i as int]);
        if v.len() - i >= 2 && v[i] == '*' && v[i + 1] == '*' {
            assert(s[1] == v@[i + 1]);
            assert(s.skip(2) =~= v@.skip(i + 2));
            i += 2;
        } else {
            proof {
                if s.len() >= 2 {
                    assert(s[1] == v@[i + 1]);
                }
                assert(s.skip(1) =~= v@.skip(i + 1));
                assert(r@.push(v@[i as int]) + without_emphasis(s.skip(1)) =~= r@ + (s.take(1) + without_emphasis(s.skip(1))));
            }
            r.push(v[i]);
            i += 1;
        }
    }
    assert(v@.skip(i as int) =~= Seq::<char>::empty());
    assert(r@ + Seq::<char>::empty() =~= r@);
    r
}

fn escapable(c: char) -> (r: bool)
    ensures
        r == is_escapable(c),
{
    c == '\\' || c == '*' || c == '_' || c == '`' || c == '~' || c == '|' || c == '[' || c == ']' || c == '(' || c
        == ')' || c == '.' || c == '!' || c == '#'
}

fn unescape_chars(v: &Vec<char>) -> (r: String)
    ensures
        r@ == unescaped(v@),
{
    let mut r = String::new();
    let mut i: usize = 0;
    assert(v@.skip(0) =~= v@);
    assert(r@ + unescaped(v@) =~= unescaped(v@));
    while i < v.len()
        invariant
            i <= v@.len(),
            r@ + unescaped(v@.skip(i as int)) == unescaped(v@),
        decreases v@.len() - i,
    {
        let ghost s = v@.skip(i as int);
        let ghost before = r@;
        assert(s[0] == v@[i as int]);
        if v.len() - i >= 2 && v[i] == '\\' && escapable(v[i + 1]) {
            proof {
                assert(s[1] == v@[i + 1]);
                assert(s.skip(2) =~= v@.skip(i + 2));
                assert(before.push(v@[i + 1]) + unescaped(s.skip(2)) =~= before + (s.subrange(1, 2) + unescaped(s.skip(2))));
            }
            r.push(v[i + 1]);
            i += 2;
        } else {
            proof {
                if s.len() >= 2 {
                    assert(s[1] == v@[i + 1]);
                }
                assert(s.skip(1) =~= v@.skip(i + 1));
                assert(before.push(v@[i as int]) + unescaped(s.skip(1)) =~= before + (s.take(1) + unescaped(s.skip(1))));
            }
            r.push(v[i]);
            i += 1;
        }
    }
    assert(v@.skip(i as int) =~= Seq::<char>::empty());
    assert(r@ + Seq::<char>::empty() =~= r@);
    r
}

pub fn unescape_embed_markdown(value: &str) -> (r: String)
    ensures
        r@ == unescaped(value@),
{
    unescape_chars(&chars_of(value))
}

pub fn strip_embed_markdown_emphasis(value: &str) -> (r: String)
    ensures
        r@ == without_emphasis(value@),
{
    let v = strip_emphasis(&chars_of(value));
    let r = string_of(&v, 0, v.len());
    assert(r@ =~= v@);
    r
}

/// Part of a text without emphasis and escapes.
pub fn plain_embed_fragment(value: &str) -> (r: String)
    ensures
        r@ == fragment(value@),
{
    unescape_chars(&strip_emphasis(&chars_of(value)))
}

fn prefix_matches(v: &Vec<char>, prefix: &str) -> (r: bool)
    ensures
        r == starts_with_ascii(v@, prefix@),
{
    let p = chars_of(prefix);
    if v.len() < p.len() {
        return false;
    }
    let mut i: usize = 0;
    while i < p.len()
        invariant
            p@ == prefix@,
            p@.len() <= v@.len(),
            i <= p@.len(),
            forall|k: int| 0 <= k < i ==> ascii_lower(#[trigger] v@[k]) == prefix@[k] as u32,
        decreases p@.len() - i,
    {
        let c = v[i];
        let code: u32 = if 'A' <= c && c <= 'Z' { c as u32 + 32 } else { c as u32 };
        if code != p[i] as u32 {
            assert(ascii_lower(v@[i as int]) != prefix@[i as int] as u32);
            return false;
        }
        i += 1;
    }
    true
}

pub fn is_low_value_embed_link_url(url: &str) -> (r: bool)
    ensures
        r == is_low_value_link(url@),
{
    let v = chars_of(url);
    prefix_matches(&v, "https://x.com/intent/") || prefix_matches(&v, "https://twitter.com/intent/")
}

pub fn push_plain_embed_link(output: &mut String, label: &str, url: &str)
    ensures
        final(output)@ == old(output)@ + plain_link(label@, url@),
{
    let ghost before = output@;
    if is_low_value_embed_link_url(url) {
        output.append(label);
    } else if label.is_empty() {
        output.append(url);
    } else if str_eq(label, url) || url.is_empty() {
        output.append(label);
    } else {
        output.append(label);
        output.append(" (");
        output.append(url);
        output.append(")");
        assert(output@ =~= before + (label@ + " ("@ + url@ + ")"@));
    }
}

fn push_fragment(output: &mut String, v: &Vec<char>, from: usize, to: usize)
    requires
        from <= to <= v@.len(),
    ensures
        final(output)@ == old(output)@ + fragment(v@.subrange(from as int, to as int)),
{
    let piece = string_of(v, from, to);
    let plain = plain_embed_fragment(piece.as_str());
    output.append(plain.as_str());
}

#[verifier::spinoff_prover]
#[verifier::rlimit(60)]
fn plain_chars(v: &Vec<char>) -> (r: String)
    ensures
        r@ == plain_links(v@),
{
    let mut output = String::new();
    let mut cursor: usize = 0;
    let len: usize = v.len();
    assert(v@.skip(0) =~= v@);
    assert(output@ + plain_links(v@) =~= plain_links(v@));
    loop
        invariant
            len == v@.len(),
            cursor <= v@.len(),
            output@ + plain_links(v@.skip(cursor as int)) == plain_links(v@),
        decreases v@.len() - cursor,
    {
        let ghost s = v@.skip(cursor as int);
        let ghost before = output@;
        let start: usize = find_char(v, cursor, '[');
        let ghost open = start - cursor;
        if start >= len {
            assert(v@.subrange(cursor as int, len as int) =~= s);
            push_fragment(&mut output, v, cursor, len);
            return output;
        }
        proof {
            assert(v@.subrange(cursor as int, start as int) =~= s.take(open));
            assert(v@.subrange(start as int, len as int) =~= s.skip(open));
            assert(s.skip(open + 1) =~= v@.skip(start + 1));
        }
        push_fragment(&mut output, v, cursor, start);
        let label_end: usize = find_char(v, start + 1, ']');
        let ghost rest = s.skip(open + 1);
        if label_end >= len {
            push_fragment(&mut output, v, start, len);
            assert(output@ =~= before + (fragment(s.take(open)) + fragment(s.skip(open))));
            return output;
        }
        let ghost label_len = label_end - (start + 1);
        let ghost after = rest.skip(label_len + 1);
        proof {
            assert(after =~= v@.skip(label_end + 1));
        }
        let url_start: usize = label_end + 1;
        if url_start >= len || v[url_start] != '(' {
            proof {
                if url_start < len {
                    assert(after[0] == v@[url_start as int]);
                }
            }
            output.append("[");
            proof {
                assert(output@ + plain_links(rest) =~= before + (fragment(s.take(open)) + "["@ + plain_links(rest)));
            }
            cursor = start + 1;
        } else {
            assert(after[0] == v@[url_start as int]);
            let url_end: usize = find_char(v, url_start + 1, ')');
            let ghost inner = after.skip(1);
            assert(inner =~= v@.skip(url_start + 1));
            if url_end >= len {
                push_fragment(&mut output, v, start, len);
                assert(output@ =~= before + (fragment(s.take(open)) + fragment(s.skip(open))));
                return output;
            }
            let ghost url_len = url_end - (url_start + 1);
            let label = string_of(v, start + 1, label_end);
            let label = plain_embed_fragment(label.as_str());
            let url = string_of(v, url_start + 1, url_end);
            let url = unescape_embed_markdown(url.as_str());
            proof {
                assert(rest.take(label_len) =~= v@.subrange(start + 1, label_end as int));
                assert(inner.take(url_len) =~= v@.subrange(url_start + 1, url_end as int));
                assert(inner.skip(url_len + 1) =~= v@.skip(url_end + 1));
            }
            push_plain_embed_link(&mut output, label.as_str(), url.as_str());
            proof {
                let tail = plain_links(inner.skip(url_len + 1));
                assert(output@ + tail =~= before + (fragment(s.take(open)) + plain_link(label@, url@) + tail));
            }
            cursor = url_end + 1;
        }
    }
}

/// The text of an embed without markdown: emphasis and escapes go, and links become plain text.
pub fn plain_embed_text(value: &str) -> (r: String)
    ensures
        r@ == plain_text(value@),
{
    let v = chars_of(value);
    let mut kept: Vec<char> = Vec::new();
    let mut i: usize = 0;
    assert(v@.take(0) =~= Seq::<char>::empty());
    while i < v.len()
        invariant
            v@ == value@,
            i <= v@.len(),
            kept@ == without_char(v@.take(i as int), '\u{fe00}'),
        decreases v@.len() - i,
    {
        proof {
            assert(v@.take(i + 1).drop_last() =~= v@.take(i as int));
            assert(kept@.push(v@[i as int]) =~= kept@ + v@.take(i + 1).skip(i as int));
        }
        if v[i] != '\u{fe00}' {
            kept.push(v[i]);
        }
        i += 1;
    }
    assert(v@.take(i as int) =~= v@);
    plain_chars(&kept)
}

// ---- The parts of an embed ----

/// A stretch of an embed in one style.
#[derive(Debug, PartialEq, Eq)]
pub struct EmbedItem {
    pub text: String,
    pub style: Style,
}

pub struct ItemView {
    pub text: Seq<char>,
    pub style: Style,
}

impl View for EmbedItem {
    type V = ItemView;

    open spec fn view(&self) -> ItemView {
        ItemView { text: self.text@, style: self.style }
    }
}

pub open spec fn item_views(v: Seq<EmbedItem>) -> Seq<ItemView> {
    v.map_values(|i: EmbedItem| i@)
}

/// A part that is there and not empty.
pub open spec fn item(text: Option<Seq<char>>, style: Style) -> Seq<ItemView> {
    match text {
        Some(text) => if text.len() == 0 {
            seq![]
        } else {
            seq![ItemView { text, style }]
        },
        None => seq![],
    }
}

/// How many of the first `max` fields stand side by side: up to the first that does not.
pub open spec fn inline_run(fields: Seq<EmbedField>, max: nat) -> nat
    decreases max,
{
    if max == 0 || fields.len() == 0 || !fields[0].inline {
        0
    } else {
        1 + inline_run(fields.skip(1), (max - 1) as nat)
    }
}

/// A field in a row of fields.
pub open spec fn row_entry(f: EmbedField) -> Seq<char> {
    plain_text(f.name@) + ": "@ + plain_text(f.value@)
}

/// Fields: those that stand side by side make rows of up to three, the others take two parts each.
pub open spec fn field_items(fields: Seq<EmbedField>, theme: Theme) -> Seq<ItemView>
    decreases fields.len(),
{
    if fields.len() == 0 {
        seq![]
    } else if fields[0].inline {
        let n = inline_run(fields, 3);
        item(
            Some(join_with(fields.take(n as int).map_values(|f: EmbedField| row_entry(f)), " │ "@)),
            theme.embed_field_name,
        ) + field_items(fields.skip(if 0 < n <= fields.len() {
            n as int
        } else {
            1
        }), theme)
    } else {
        item(Some(fields[0].name@), theme.embed_field_name) + item(Some(fields[0].value@), Style::none()) + field_items(
            fields.skip(1),
            theme,
        )
    }
}

/// Whether the description of a medium says something that the embed does not say already.
pub open spec fn media_text(embed: EmbedInfo, description: Option<String>) -> Option<Seq<char>> {
    if not_blank(description) is Some && opt_text(embed.description) != opt_text(description) {
        opt_text(description)
    } else {
        None
    }
}

pub open spec fn media_item(kind: Seq<char>, description: Option<Seq<char>>, theme: Theme) -> Seq<ItemView> {
    match description {
        Some(d) => item(Some("["@ + kind + ": "@ + d + "]"@), theme.embed_footer),
        None => seq![],
    }
}

/// The descriptions of the thumbnail, the image and the video, each text once.
pub open spec fn media_items(embed: EmbedInfo, theme: Theme) -> Seq<ItemView> {
    let thumbnail = media_text(embed, embed.thumbnail_description);
    let image = media_text(embed, embed.image_description);
    let image = if image == thumbnail { None } else { image };
    let video = media_text(embed, embed.video_description);
    let video = if video == thumbnail || video == image { None } else { video };
    media_item("thumbnail"@, thumbnail, theme) + media_item("image"@, image, theme) + media_item("video"@, video, theme)
}

/// The address of an embed, unless the message, the provider or the author shows it already.
pub open spec fn shown_url(embed: EmbedInfo, content: Option<String>) -> Option<Seq<char>> {
    match embed.url {
        None => None,
        Some(url) => if (content matches Some(c) && contains_text(c@, url@)) || opt_text(embed.provider_url) == Some(
            url@,
        ) || opt_text(embed.author_url) == Some(url@) {
            None
        } else {
            Some(url@)
        },
    }
}

/// The parts of an embed from top to bottom.
pub open spec fn embed_parts(embed: EmbedInfo, content: Option<String>, time: Option<String>, theme: Theme) -> Seq<
    ItemView,
> {
    let description = match embed.description {
        Some(d) => Some(plain_text(d@)),
        None => None,
    };
    item(label_with_url(embed.provider_name, embed.provider_url), theme.embed_footer) + item(
        label_with_url(embed.author_name, embed.author_url),
        theme.embed_author,
    ) + item(opt_text(embed.title), theme.embed_title) + item(description, Style::none()) + field_items(
        embed.fields@,
        theme,
    ) + media_items(embed, theme) + item(footer_of(embed.footer_text, time), theme.embed_footer) + item(
        shown_url(embed, content),
        theme.embed_link,
    )
}

proof fn lemma_items_push(v: Seq<EmbedItem>, i: EmbedItem)
    ensures
        item_views(v.push(i)) == item_views(v).push(i@),
{
    assert(item_views(v.push(i)) =~= item_views(v).push(i@));
}

fn push_item(items: &mut Vec<EmbedItem>, text: Option<String>, style: Style)
    ensures
        item_views(final(items)@) == item_views(old(items)@) + item(opt_text(text), style),
{
    let ghost before = item_views(items@);
    assert(before + Seq::<ItemView>::empty() =~= before);
    if let Some(text) = text {
        if !text.as_str().is_empty() {
            let new = EmbedItem { text, style };
            proof {
                lemma_items_push(items@, new);
                assert(before.push(new@) =~= before + seq![new@]);
            }
            items.push(new);
        }
    }
}

proof fn lemma_inline_run(fields: Seq<EmbedField>, max: nat)
    ensures
        inline_run(fields, max) <= max,
        inline_run(fields, max) <= fields.len(),
    decreases max,
{
    if max > 0 && fields.len() > 0 && fields[0].inline {
        lemma_inline_run(fields.skip(1), (max - 1) as nat);
    }
}

fn count_inline(fields: &Vec<EmbedField>, from: usize) -> (n: usize)
    requires
        from <= fields@.len(),
    ensures
        n == inline_run(fields@.skip(from as int), 3),
        from + n <= fields@.len(),
{
    let mut n: usize = 0;
    let len: usize = fields.len();
    while n < 3 && n < len - from && fields[from + n].inline
        invariant
            len == fields@.len(),
            from <= len,
            n <= 3,
            from + n <= fields@.len(),
            inline_run(fields@.skip(from as int), 3) == n + inline_run(fields@.skip(from + n), (3 - n) as nat),
        decreases 3 - n,
    {
        assert(fields@.skip(from + n).skip(1) =~= fields@.skip(from + n + 1));
        n += 1;
    }
    n
}

fn format_row_entry(field: &EmbedField) -> (r: String)
    ensures
        r@ == row_entry(*field),
{
    let mut entry = plain_embed_text(field.name.as_str());
    entry.append(": ");
    let value = plain_embed_text(field.value.as_str());
    entry.append(value.as_str());
    entry
}

/// Adds the fields of an embed.
pub fn push_embed_fields(items: &mut Vec<EmbedItem>, fields: &Vec<EmbedField>, theme: &Theme)
    ensures
        item_views(final(items)@) == item_views(old(items)@) + field_items(fields@, *theme),
{
    let mut index: usize = 0;
    let ghost start = item_views(items@);
    assert(fields@.skip(0) =~= fields@);
    while index < fields.len()
        invariant
            start == item_views(old(items)@),
            index <= fields@.len(),
            item_views(items@) + field_items(fields@.skip(index as int), *theme) == start + field_items(fields@, *theme),
        decreases fields@.len() - index,
    {
        let ghost rest = fields@.skip(index as int);
        let ghost before = item_views(items@);
        assert(rest[0] == fields@[index as int]);
        if fields[index].inline {
            let n: usize = count_inline(fields, index);
            proof {
                lemma_inline_run(rest, 3);
                reveal_with_fuel(inline_run, 2);
                assert(n >= 1);
            }
            let ghost entries = rest.take(n as int).map_values(|f: EmbedField| row_entry(f));
            let mut row: Vec<String> = Vec::new();
            let mut k: usize = 0;
            assert(texts(row@) =~= entries.take(0));
            while k < n
                invariant
                    k <= n,
                    index + n <= fields@.len() <= usize::MAX,
                    rest == fields@.skip(index as int),
                    entries == rest.take(n as int).map_values(|f: EmbedField| row_entry(f)),
                    texts(row@) == entries.take(k as int),
                decreases n - k,
            {
                let entry = format_row_entry(&fields[index + k]);
                proof {
                    assert(rest[k as int] == fields@[index + k]);
                    assert(entries[k as int] == entry@);
                    assert(texts(row@.push(entry)) =~= texts(row@).push(entry@));
                    assert(entries.take(k + 1) =~= entries.take(k as int).push(entry@));
                }
                row.push(entry);
                k += 1;
            }
            assert(entries.take(n as int) =~= entries);
            let joined = join_strings(&row, " │ ");
            push_item(items, Some(joined), theme.embed_field_name);
            proof {
                assert(rest.skip(n as int) =~= fields@.skip(index + n));
                let this = item(Some(joined@), theme.embed_field_name);
                let tail = field_items(rest.skip(n as int), *theme);
                assert(before + this + tail =~= before + (this + tail));
            }
            index = index + n;
        } else {
            let field = &fields[index];
            push_item(items, Some(field.name.clone()), theme.embed_field_name);
            push_item(items, Some(field.value.clone()), Style::plain());
            proof {
                assert(rest.skip(1) =~= fields@.skip(index + 1));
                let a = item(Some(field.name@), theme.embed_field_name);
                let b = item(Some(field.value@), Style::none());
                let tail = field_items(rest.skip(1), *theme);
                assert(before + a + b + tail =~= before + (a + b + tail));
            }
            index = index + 1;
        }
    }
    assert(fields@.skip(index as int) =~= Seq::<EmbedField>::empty());
    assert(item_views(items@) + Seq::<ItemView>::empty() =~= item_views(items@));
}

fn opt_eq(a: &Option<String>, b: &Option<String>) -> (r: bool)
    ensures
        r == (opt_text(*a) == opt_text(*b)),
{
    match (a, b) {
        (Some(a), Some(b)) => str_eq(a.as_str(), b.as_str()),
        (None, None) => true,
        _ => false,
    }
}

fn media_description(embed: &EmbedInfo, description: &Option<String>) -> (r: Option<String>)
    ensures
        opt_text(r) == media_text(*embed, *description),
{
    if is_present(description) && !opt_eq(&embed.description, description) {
        match description {
            Some(d) => Some(d.clone()),
            None => None,
        }
    } else {
        None
    }
}

fn push_media_item(items: &mut Vec<EmbedItem>, kind: &str, description: &Option<String>, theme: &Theme)
    ensures
        item_views(final(items)@) == item_views(old(items)@) + media_item(kind@, opt_text(*description), *theme),
{
    let ghost before = item_views(items@);
    assert(before + Seq::<ItemView>::empty() =~= before);
    if let Some(d) = description {
        let mut text = "[".to_owned();
        text.append(kind);
        text.append(": ");
        text.append(d.as_str());
        text.append("]");
        push_item(items, Some(text), theme.embed_footer);
    }
}

fn push_media_items(items: &mut Vec<EmbedItem>, embed: &EmbedInfo, theme: &Theme)
    ensures
        item_views(final(items)@) == item_views(old(items)@) + media_items(*embed, *theme),
{
    let ghost before = item_views(items@);
    let thumbnail = media_description(embed, &embed.thumbnail_description);
    let image = media_description(embed, &embed.image_description);
    let image: Option<String> = if opt_eq(&image, &thumbnail) { None } else { image };
    let video = media_description(embed, &embed.video_description);
    let video: Option<String> = if opt_eq(&video, &thumbnail) || opt_eq(&video, &image) { None } else { video };
    push_media_item(items, "thumbnail", &thumbnail, theme);
    push_media_item(items, "image", &image, theme);
    push_media_item(items, "video", &video, theme);
    proof {
        let a = media_item("thumbnail"@, opt_text(thumbnail), *theme);
        let b = media_item("image"@, opt_text(image), *theme);
        let c = media_item("video"@, opt_text(video), *theme);
        assert(before + a + b + c =~= before + (a + b + c));
    }
}

fn url_to_show(embed: &EmbedInfo, content: &Option<String>) -> (r: Option<String>)
    ensures
        opt_text(r) == shown_url(*embed, *content),
{
    match &embed.url {
        None => None,
        Some(url) => {
            let in_content = match content {
                Some(content) => str_contains(content.as_str(), url.as_str()),
                None => false,
            };
            let of_provider = match &embed.provider_url {
                Some(provider) => str_eq(provider.as_str(), url.as_str()),
                None => false,
            };
            let of_author = match &embed.author_url {
                Some(author) => str_eq(author.as_str(), url.as_str()),
                None => false,
            };
            if in_content || of_provider || of_author {
                None
            } else {
                Some(url.clone())
            }
        },
    }
}

/// The parts of an embed from top to bottom, given the content of the message and the local time of
/// the footer.
pub fn embed_items(embed: &EmbedInfo, content: &Option<String>, time: &Option<String>, theme: &Theme) -> (r: Vec<
    EmbedItem,
>)
    ensures
        item_views(r@) == embed_parts(*embed, *content, *time, *theme),
{
    let mut items: Vec<EmbedItem> = Vec::new();
    assert(item_views(items@) =~= Seq::<ItemView>::empty());
    let provider = embed_label_with_url(&embed.provider_name, &embed.provider_url);
    push_item(&mut items, provider, theme.embed_footer);
    assert(item_views(items@) =~= item(opt_text(provider), theme.embed_footer));
    let author = embed_label_with_url(&embed.author_name, &embed.author_url);
    push_item(&mut items, author, theme.embed_author);
    let title: Option<String> = match &embed.title {
        Some(title) => Some(title.clone()),
        None => None,
    };
    push_item(&mut items, title, theme.embed_title);
    let description: Option<String> = match &embed.description {
        Some(description) => Some(plain_embed_text(description.as_str())),
        None => None,
    };
    push_item(&mut items, description, Style::plain());
    push_embed_fields(&mut items, &embed.fields, theme);
    push_media_items(&mut items, embed, theme);
    let footer = format_embed_footer(&embed.footer_text, time);
    push_item(&mut items, footer, theme.embed_footer);
    let url = url_to_show(embed, content);
    push_item(&mut items, url, theme.embed_link);
    items
}

// ---- Lines ----

/// A text with what it becomes: its mentions or emoji markup replaced, and its links found.
#[derive(Debug, PartialEq, Eq)]
pub struct PreparedText {
    pub source: String,
    pub rendered: RenderedText,
    pub links: Vec<(usize, usize)>,
}

pub struct PreparedView {
    pub rendered: RenderedView,
    pub links: Seq<(usize, usize)>,
}

/// What a text was prepared to: the first entry for it, or the text itself.
pub open spec fn prepared(table: Seq<PreparedText>, text: Seq<char>) -> PreparedView
    decreases table.len(),
{
    if table.len() == 0 {
        PreparedView { rendered: RenderedView { text, highlights: seq![], emoji_slots: seq![] }, links: seq![] }
    } else if table[0].source@ == text {
        PreparedView { rendered: table[0].rendered@, links: table[0].links@ }
    } else {
        prepared(table.drop_first(), text)
    }
}

pub fn clone_rendered(r: &RenderedText) -> (c: RenderedText)
    ensures
        c@ == r@,
{
    let mut highlights: Vec<TextHighlight> = Vec::new();
    let mut i: usize = 0;
    while i < r.highlights.len()
        invariant
            i <= r.highlights@.len(),
            highlights@ == r.highlights@.take(i as int),
        decreases r.highlights@.len() - i,
    {
        highlights.push(r.highlights[i]);
        assert(highlights@ =~= r.highlights@.take(i + 1));
        i += 1;
    }
    assert(highlights@ =~= r.highlights@);
    let mut slots: Vec<InlineEmojiSlot> = Vec::new();
    let mut i: usize = 0;
    assert(emoji_slots(slots@) =~= emoji_slots(r.emoji_slots@).take(0));
    while i < r.emoji_slots.len()
        invariant
            i <= r.emoji_slots@.len(),
            emoji_slots(slots@) == emoji_slots(r.emoji_slots@).take(i as int),
        decreases r.emoji_slots@.len() - i,
    {
        let s = &r.emoji_slots[i];
        let copy = InlineEmojiSlot {
            byte_start: s.byte_start,
            byte_len: s.byte_len,
            display_width: s.display_width,
            url: s.url.clone(),
        };
        proof {
            assert(emoji_slots(slots@.push(copy)) =~= emoji_slots(slots@).push(copy@));
            assert(emoji_slots(r.emoji_slots@).take(i + 1) =~= emoji_slots(r.emoji_slots@).take(i as int).push(copy@));
        }
        slots.push(copy);
        i += 1;
    }
    assert(emoji_slots(slots@) =~= emoji_slots(r.emoji_slots@));
    RenderedText { text: r.text.clone(), highlights, emoji_slots: slots }
}

fn copy_links(links: &Vec<(usize, usize)>) -> (r: Vec<(usize, usize)>)
    ensures
        r@ == links@,
{
    let mut r: Vec<(usize, usize)> = Vec::new();
    let mut i: usize = 0;
    while i < links.len()
        invariant
            i <= links@.len(),
            r@ == links@.take(i as int),
        decreases links@.len() - i,
    {
        r.push(links[i]);
        assert(r@ =~= links@.take(i + 1));
        i += 1;
    }
    assert(r@ =~= links@);
    r
}

/// What a text was prepared to, with its links.
pub fn look_up(table: &[PreparedText], text: &str) -> (r: (RenderedText, Vec<(usize, usize)>))
    ensures
        r.0@ == prepared(table@, text@).rendered,
        r.1@ == prepared(table@, text@).links,
{
    let mut i: usize = 0;
    assert(table@.skip(0) =~= table@);
    while i < table.len()
        invariant
            i <= table@.len(),
            prepared(table@, text@) == prepared(table@.skip(i as int), text@),
        decreases table@.len() - i,
    {
        assert(table@.skip(i as int)[0] == table@[i as int]);
        assert(table@.skip(i as int).drop_first() =~= table@.skip(i + 1));
        if str_eq(table[i].source.as_str(), text) {
            let rendered = clone_rendered(&table[i].rendered);
            return (rendered, copy_links(&table[i].links));
        }
        i += 1;
    }
    let rendered = RenderedText { text: text.to_owned(), highlights: Vec::new(), emoji_slots: Vec::new() };
    let links: Vec<(usize, usize)> = Vec::new();
    assert(rendered@.emoji_slots =~= seq![]);
    assert(links@ =~= seq![]);
    (rendered, links)
}

/// The bar on the left of an embed.
pub open spec fn gutter() -> Seq<char> {
    "  ▎ "@
}

pub open spec fn gutter_style(color: Option<u32>, theme: Theme) -> Style {
    match color {
        Some(color) => theme.embed_gutter.with_fg(color_of(color)),
        None => theme.embed_gutter,
    }
}

pub fn embed_line_style(color: Option<u32>, theme: &Theme) -> (r: Style)
    ensures
        r == gutter_style(color, *theme),
{
    match color {
        Some(color) => theme.embed_gutter.fg(embed_color(color)),
        None => theme.embed_gutter,
    }
}

/// The width that is left beside the bar: at least one column.
pub open spec fn inner_width(width: usize) -> usize {
    if width > display_width(gutter()) {
        (width - display_width(gutter())) as usize
    } else {
        1
    }
}

pub fn width_inside_gutter(width: usize) -> (r: usize)
    ensures
        r == inner_width(width),
{
    let gutter_width: usize = str_width("  ▎ ");
    if width > gutter_width {
        width - gutter_width
    } else {
        1
    }
}

/// Lines with the bar on their left.
pub open spec fn with_gutter(lines: Seq<LineView>, style: Style) -> Seq<LineView> {
    lines.map_values(|l: LineView| prefixed_line_styled(gutter(), style, l))
}

/// Puts the bar on the left of lines.
pub fn add_gutter(lines: Vec<MessageContentLine>, style: Style) -> (r: Vec<MessageContentLine>)
    ensures
        line_views(r@) == with_gutter(line_views(lines@), style),
{
    let ghost all = lines@;
    let ghost expected = with_gutter(line_views(all), style);
    let mut out: Vec<MessageContentLine> = Vec::new();
    assert(line_views(out@) =~= expected.take(0));
    for line in it: lines
        invariant
            it.seq() == all,
            expected == with_gutter(line_views(all), style),
            line_views(out@) == expected.take(it.index()),
    {
        let prefixed = prefix_message_content_line_with_style("  ▎ ", style, line);
        proof {
            assert(line_views(all)[it.index()] == line@);
            assert(expected[it.index()] == prefixed@);
            lemma_line_views_push(out@, prefixed);
            assert(expected.take(it.index() + 1) =~= expected.take(it.index()).push(prefixed@));
        }
        out.push(prefixed);
    }
    assert(expected.take(all.len() as int) =~= expected);
    out
}

/// How embeds are prepared and shown: the texts whose emoji markup was replaced, the images that are loaded, the
/// options, and how times are told.
pub struct Preparation {
    pub markup: Seq<PreparedText>,
    pub loaded: Seq<Seq<char>>,
    pub options: FormatOptions,
    pub time: TimeFormat,
}

impl Preparation {
    /// What a text is prepared to: its times are told, then its emoji markup is replaced, and images that are loaded
    /// get room.
    pub open spec fn makes(self, source: Seq<char>, made: PreparedView) -> bool {
        exists|told: Seq<char>| #[trigger]
            is_rendered(source, told, self.time.hour_format_24, self.time.now) && made == (PreparedView {
                rendered: with_placeholders(prepared(self.markup, told).rendered, self.loaded, self.options.compact_emoji_width),
                links: prepared(self.markup, told).links,
            })
    }
}

/// What the lines of embeds depend on, besides the embeds and the content of the message.
pub struct EmbedFormatContext<'a> {
    pub markup: &'a [PreparedText],
    pub loaded: &'a [String],
    pub options: &'a FormatOptions,
    pub time: TimeFormat,
}

impl<'a> EmbedFormatContext<'a> {
    pub open spec fn value(self) -> Preparation {
        Preparation {
            markup: self.markup@,
            loaded: texts(self.loaded@),
            options: *self.options,
            time: self.time,
        }
    }
}

/// Whether each part of an embed is prepared.
pub open spec fn all_made(items: Seq<ItemView>, made: Seq<PreparedView>, how: Preparation) -> bool {
    &&& made.len() == items.len()
    &&& forall|i: int| 0 <= i < items.len() ==> how.makes(items[i].text, #[trigger] made[i])
}

/// The lines of the parts of an embed, once they are prepared.
pub open spec fn item_lines(items: Seq<ItemView>, made: Seq<PreparedView>, width: usize) -> Seq<LineView>
    decreases items.len(),
{
    if items.len() == 0 {
        seq![]
    } else {
        item_lines(items.drop_last(), made.drop_last(), width) + content_lines(
            made.last().rendered,
            made.last().links,
            width,
            items.last().style,
            seq![],
        )
    }
}

/// Whether these are the lines of an embed: those of its parts behind a gutter. The time in its footer is what a
/// clock somewhere shows.
pub open spec fn is_embed_lines(
    lines: Seq<LineView>,
    embed: EmbedInfo,
    content: Option<String>,
    how: Preparation,
    width: usize,
) -> bool {
    let theme = how.options.theme;
    exists|time: Option<String>, made: Seq<PreparedView>|
        is_footer_time(time, embed, how.time.hour_format_24) && #[trigger] all_made(
            embed_parts(embed, content, time, theme),
            made,
            how,
        ) && lines == with_gutter(
            item_lines(embed_parts(embed, content, time, theme), made, inner_width(width)),
            gutter_style(embed.color, theme),
        )
}

/// Whether a text is the local time of the footer of an embed. There is one where the embed has a time that
/// can be read.
pub open spec fn is_footer_time(time: Option<String>, embed: EmbedInfo, hour_format_24: bool) -> bool {
    match embed.timestamp {
        Some(t) => match rfc3339_seconds(t@) {
            Some(seconds) => time matches Some(text) && is_local_clock(text@, seconds as int, hour_format_24),
            None => time is None,
        },
        None => time is None,
    }
}

/// The local time of the footer of an embed.
pub fn embed_footer_time(embed: &EmbedInfo, hour_format_24: bool) -> (r: Option<String>)
    ensures
        is_footer_time(r, *embed, hour_format_24),
{
    match &embed.timestamp {
        Some(timestamp) => format_rfc3339_local_time(timestamp.as_str(), hour_format_24),
        None => None,
    }
}

/// Prepares a text: its times are told, its emoji markup is replaced, and images that are loaded get room.
pub fn prepare_embed_text(value: &str, context: &EmbedFormatContext<'_>) -> (r: (RenderedText, Vec<(usize, usize)>))
    ensures
        context.value().makes(value@, PreparedView { rendered: r.0@, links: r.1@ }),
{
    let told = render_discord_timestamps_at(value, context.time.hour_format_24, context.time.now);
    let (replaced, links) = look_up(context.markup, told.as_str());
    let rendered = rendered_text_with_loaded_custom_emoji_placeholders(
        replaced,
        context.loaded,
        context.options.compact_emoji_width,
    );
    proof {
        let how = context.value();
        assert(is_rendered(value@, told@, how.time.hour_format_24, how.time.now));
        assert((PreparedView { rendered: rendered@, links: links@ }) == (PreparedView {
            rendered: with_placeholders(prepared(how.markup, told@).rendered, how.loaded, how.options.compact_emoji_width),
            links: prepared(how.markup, told@).links,
        }));
    }
    (rendered, links)
}

/// Adds the lines of a text of an embed.
pub fn push_embed_text(
    lines: &mut Vec<MessageContentLine>,
    value: &str,
    context: &EmbedFormatContext<'_>,
    width: usize,
    style: Style,
)
    ensures
        exists|made: PreparedView| #[trigger]
            context.value().makes(value@, made) && line_views(final(lines)@) == line_views(old(lines)@) + content_lines(
                made.rendered,
                made.links,
                width,
                style,
                seq![],
            ),
{
    let (rendered, links) = prepare_embed_text(value, context);
    let ghost made = PreparedView { rendered: rendered@, links: links@ };
    assert(context.value().makes(value@, made));
    let mut wrapped = wrap_rendered_text_lines(rendered, links.as_slice(), width, style);
    proof {
        lemma_line_views_add(lines@, wrapped@);
    }
    lines.append(&mut wrapped);
}

/// Formats an embed, given the content of its message.
pub fn format_embed(
    embed: &EmbedInfo,
    content: &Option<String>,
    context: &EmbedFormatContext<'_>,
    width: usize,
) -> (r: Vec<MessageContentLine>)
    ensures
        is_embed_lines(line_views(r@), *embed, *content, context.value(), width),
{
    let theme = &context.options.theme;
    let inside: usize = width_inside_gutter(width);
    let time = embed_footer_time(embed, context.time.hour_format_24);
    let items = embed_items(embed, content, &time, theme);
    let ghost how = context.value();
    let ghost parts = embed_parts(*embed, *content, time, *theme);
    let ghost mut made: Seq<PreparedView> = Seq::empty();
    let mut lines: Vec<MessageContentLine> = Vec::new();
    let mut i: usize = 0;
    proof {
        assert(parts.take(0) =~= Seq::<ItemView>::empty());
        assert(line_views(lines@) =~= Seq::<LineView>::empty());
    }
    while i < items.len()
        invariant
            how == context.value(),
            item_views(items@) == parts,
            i <= items@.len(),
            all_made(parts.take(i as int), made, how),
            line_views(lines@) == item_lines(parts.take(i as int), made, inside),
        decreases items@.len() - i,
    {
        let ghost before = line_views(lines@);
        push_embed_text(&mut lines, items[i].text.as_str(), context, inside, items[i].style);
        proof {
            let item = parts[i as int];
            assert(item == items@[i as int]@);
            let next = choose|m: PreparedView| #[trigger]
                how.makes(item.text, m) && line_views(lines@) == before + content_lines(
                    m.rendered,
                    m.links,
                    inside,
                    item.style,
                    seq![],
                );
            let all = made.push(next);
            assert(parts.take(i + 1).drop_last() =~= parts.take(i as int));
            assert(all.drop_last() =~= made);
            assert forall|k: int| 0 <= k < i + 1 implies how.makes(parts.take(i + 1)[k].text, #[trigger] all[k]) by {
                if k < i {
                    assert(how.makes(parts.take(i as int)[k].text, made[k]));
                }
            }
            made = all;
        }
        i += 1;
    }
    proof {
        assert(parts.take(i as int) =~= parts);
        assert(all_made(embed_parts(*embed, *content, time, *theme), made, how));
    }
    add_gutter(lines, embed_line_style(embed.color, theme))
}

/// Whether an embed is shown: those with the address of an earlier one are not.
pub open spec fn embed_shown(embeds: Seq<EmbedInfo>, k: int) -> bool {
    embeds[k].url is Some ==> forall|j: int|
        0 <= j < k ==> opt_text((#[trigger] embeds[j]).url) != opt_text(embeds[k].url)
}

/// Whether these are the lines of an embed among others: none, where it is not shown.
pub open spec fn is_embed_share(
    lines: Seq<LineView>,
    embeds: Seq<EmbedInfo>,
    k: int,
    content: Option<String>,
    how: Preparation,
    width: usize,
) -> bool {
    if embed_shown(embeds, k) {
        is_embed_lines(lines, embeds[k], content, how, width)
    } else {
        lines.len() == 0
    }
}

/// Lines one after the other.
pub open spec fn joined_lines(each: Seq<Seq<LineView>>) -> Seq<LineView>
    decreases each.len(),
{
    if each.len() == 0 {
        seq![]
    } else {
        joined_lines(each.drop_last()) + each.last()
    }
}

/// Whether these are the lines of the first `k` embeds, those of each apart.
pub open spec fn are_embed_shares(
    each: Seq<Seq<LineView>>,
    embeds: Seq<EmbedInfo>,
    k: int,
    content: Option<String>,
    how: Preparation,
    width: usize,
) -> bool {
    &&& each.len() == k
    &&& forall|i: int| 0 <= i < k ==> is_embed_share(#[trigger] each[i], embeds, i, content, how, width)
}

/// Whether these are the lines of embeds.
pub open spec fn are_embed_lines(
    lines: Seq<LineView>,
    embeds: Seq<EmbedInfo>,
    content: Option<String>,
    how: Preparation,
    width: usize,
) -> bool {
    exists|each: Seq<Seq<LineView>>| #[trigger]
        are_embed_shares(each, embeds, embeds.len() as int, content, how, width) && lines == joined_lines(each)
}

fn is_embed_shown(embeds: &Vec<EmbedInfo>, k: usize) -> (r: bool)
    requires
        k < embeds@.len(),
    ensures
        r == embed_shown(embeds@, k as int),
{
    if embeds[k].url.is_none() {
        return true;
    }
    let mut j: usize = 0;
    while j < k
        invariant
            j <= k < embeds@.len(),
            embeds@[k as int].url is Some,
            forall|i: int| 0 <= i < j ==> opt_text((#[trigger] embeds@[i]).url) != opt_text(embeds@[k as int].url),
        decreases k - j,
    {
        if opt_eq(&embeds[j].url, &embeds[k].url) {
            return false;
        }
        j += 1;
    }
    true
}

/// The lines of all embeds of a message.
pub fn format_embed_lines(
    embeds: &Vec<EmbedInfo>,
    content: &Option<String>,
    context: &EmbedFormatContext<'_>,
    width: usize,
) -> (r: Vec<MessageContentLine>)
    ensures
        are_embed_lines(line_views(r@), embeds@, *content, context.value(), width),
{
    let ghost how = context.value();
    let ghost mut each: Seq<Seq<LineView>> = Seq::empty();
    let mut lines: Vec<MessageContentLine> = Vec::new();
    let mut k: usize = 0;
    assert(line_views(lines@) =~= Seq::<LineView>::empty());
    while k < embeds.len()
        invariant
            how == context.value(),
            k <= embeds@.len(),
            are_embed_shares(each, embeds@, k as int, *content, how, width),
            line_views(lines@) == joined_lines(each),
        decreases embeds@.len() - k,
    {
        let ghost mut share: Seq<LineView> = Seq::empty();
        assert(line_views(lines@) + share =~= line_views(lines@));
        let ghost before = line_views(lines@);
        if is_embed_shown(embeds, k) {
            let mut formatted = format_embed(&embeds[k], content, context, width);
            proof {
                lemma_line_views_add(lines@, formatted@);
                share = line_views(formatted@);
            }
            lines.append(&mut formatted);
        }
        proof {
            let all = each.push(share);
            assert(all.drop_last() =~= each);
            assert(line_views(lines@) == before + share);
            assert forall|i: int| 0 <= i < k + 1 implies is_embed_share(
                #[trigger] all[i],
                embeds@,
                i,
                *content,
                how,
                width,
            ) by {
                if i < k {
                    assert(all[i] == each[i]);
                }
            }
            each = all;
        }
        k += 1;
    }
    assert(are_embed_shares(each, embeds@, embeds@.len() as int, *content, how, width));
    lines
}

/// Without embeds there are no lines of them.
pub proof fn no_embeds_no_lines(
    lines: Seq<LineView>,
    embeds: Seq<EmbedInfo>,
    content: Option<String>,
    how: Preparation,
    width: usize,
)
    requires
        embeds.len() == 0,
        are_embed_lines(lines, embeds, content, how, width),
    ensures
        lines.len() == 0,
{
}

} // verus!
