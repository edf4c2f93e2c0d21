//! How many lines a message takes, and which parts of its text stand out.

use crate::message::rendered::{RenderedText, TextHighlight, TextHighlightKind};
use crate::state::sorting::{is_order, key_less, key_views, orders_list_every_item, sorted_order};
use crate::text::{
    byte_at, byte_len, char_len, chars_of, lemma_byte_at_ends, lemma_byte_at_monotonic, lemma_byte_at_step, matches_at,
    starts_with, utf8_len,
};
use vstd::prelude::*;
use vstd::string::*;

verus! {

// ---- Lines ----

/// What of a poll decides how many lines it takes: its answers, and whether the votes were counted.
#[derive(Clone, Copy, Debug, PartialEq, Eq, Structural)]
pub struct PollLines {
    pub answers: usize,
    pub counted: bool,
}

/// The lines of a forwarded message.
#[derive(Clone, Copy, Debug, PartialEq, Eq, Structural)]
pub struct ForwardedLines {
    pub content_lines: usize,
    pub has_attachments: bool,
    pub embed_lines: usize,
    /// Whether it is known where or when it was sent.
    pub has_source: bool,
}

/// What of a message decides how many lines it takes. The text is wrapped to the width of the pane in
/// `content_lines`, and to that of the card of a poll in `card_lines`.
#[derive(Clone, Copy, Debug, PartialEq, Eq, Structural)]
pub struct MessageLineParts {
    /// The number of the kind of message, and whether that is an ordinary one.
    pub kind: u8,
    pub regular: bool,
    pub is_reply: bool,
    pub content_lines: usize,
    pub card_lines: usize,
    pub has_attachments: bool,
    pub poll: Option<PollLines>,
    pub embed_lines: usize,
    pub reaction_lines: usize,
    pub forwarded: Option<ForwardedLines>,
}

pub open spec fn one_if(b: bool) -> int {
    if b {
        1
    } else {
        0
    }
}

pub open spec fn at_least_one(n: int) -> int {
    if n >= 1 {
        n
    } else {
        1
    }
}

/// The lines of what the service tells: of a boost, a new thread, the first message of a thread, or the
/// result of a poll.
pub open spec fn system_lines(kind: u8, poll: Option<PollLines>) -> Option<usize> {
    if 8 <= kind <= 11 {
        Some(1)
    } else if kind == 18 {
        Some(3)
    } else if kind == 21 {
        Some(2)
    } else if kind == 46 {
        Some(
            match poll {
                Some(poll) => if poll.counted {
                    4
                } else {
                    3
                },
                None => 2,
            },
        )
    } else {
        None
    }
}

pub fn system_message_line_count(kind: u8, poll: Option<PollLines>) -> (r: Option<usize>)
    ensures
        r == system_lines(kind, poll),
{
    match kind {
        8..=11 => Some(1),
        18 => Some(3),
        21 => Some(2),
        46 => Some(
            match poll {
                Some(poll) => {
                    if poll.counted {
                        4
                    } else {
                        3
                    }
                },
                None => 2,
            },
        ),
        _ => None,
    }
}

/// The lines of the card of a poll: its frame, the text, the question with two lines below, and the answers.
pub open spec fn poll_card_lines(card_lines: int, answers: int) -> int {
    2 + card_lines + 3 + answers
}

pub open spec fn forwarded_lines(f: ForwardedLines) -> int {
    1 + at_least_one(f.content_lines + one_if(f.has_attachments) + f.embed_lines)
}

/// The lines of a message, its head with them.
pub open spec fn base_lines(m: MessageLineParts) -> int {
    match system_lines(m.kind, m.poll) {
        Some(lines) => 1 + at_least_one(lines as int),
        None => {
            let card = !m.is_reply && m.poll is Some;
            let text = if card {
                0
            } else {
                m.content_lines as int
            };
            let poll = if card {
                poll_card_lines(m.card_lines as int, m.poll->0.answers as int)
            } else {
                0
            };
            let kind = one_if(!m.is_reply && m.poll is None && !m.regular);
            let forwarded = match m.forwarded {
                Some(f) => forwarded_lines(f) + one_if(f.has_source),
                None => 0,
            };
            1 + at_least_one(
                one_if(m.is_reply) + poll + kind + text + one_if(m.has_attachments) + m.embed_lines + forwarded
                    + m.reaction_lines,
            )
        },
    }
}

fn count(b: bool) -> (r: usize)
    ensures
        r == one_if(b),
{
    if b {
        1
    } else {
        0
    }
}

fn nonzero(n: usize) -> (r: usize)
    ensures
        r == at_least_one(n as int),
{
    if n >= 1 {
        n
    } else {
        1
    }
}

pub fn forwarded_snapshot_line_count(f: &ForwardedLines) -> (r: usize)
    requires
        forwarded_lines(*f) <= usize::MAX,
    ensures
        r == forwarded_lines(*f),
{
    1 + nonzero(f.content_lines + count(f.has_attachments) + f.embed_lines)
}

pub fn message_base_line_count(m: &MessageLineParts) -> (r: usize)
    requires
        base_lines(*m) <= usize::MAX,
    ensures
        r == base_lines(*m),
{
    if let Some(lines) = system_message_line_count(m.kind, m.poll) {
        return 1 + nonzero(lines);
    }
    let card = !m.is_reply && m.poll.is_some();
    let text: usize = if card { 0 } else { m.content_lines };
    let poll: usize = match m.poll {
        Some(poll) => {
            if card {
                2 + m.card_lines + 3 + poll.answers
            } else {
                0
            }
        },
        None => 0,
    };
    let kind = count(!m.is_reply && m.poll.is_none() && !m.regular);
    let forwarded: usize = match &m.forwarded {
        Some(f) => forwarded_snapshot_line_count(f) + count(f.has_source),
        None => 0,
    };
    1 + nonzero(
        count(m.is_reply) + poll + kind + text + count(m.has_attachments) + m.embed_lines + forwarded
            + m.reaction_lines,
    )
}

/// The lines of a message with its preview and the gap below it.
pub fn message_rendered_height(m: &MessageLineParts, preview_height: u16, gap: usize) -> (r: usize)
    requires
        base_lines(*m) + preview_height + gap <= usize::MAX,
    ensures
        r == base_lines(*m) + preview_height + gap,
{
    message_base_line_count(m) + preview_height as usize + gap
}

/// No message is without a line below its head.
pub proof fn messages_take_two_lines(m: MessageLineParts)
    ensures
        base_lines(m) >= 2,
{
}

// ---- Names of everyone ----

/// A character of a word.
pub open spec fn is_word_char(c: char) -> bool {
    ('0' <= c && c <= '9') || ('a' <= c && c <= 'z') || ('A' <= c && c <= 'Z') || c == '_'
}

fn is_literal_mention_word_char(c: char) -> (r: bool)
    ensures
        r == is_word_char(c),
{
    ('0' <= c && c <= '9') || ('a' <= c && c <= 'z') || ('A' <= c && c <= 'Z') || c == '_'
}

/// Whether characters `from` to `to` stand as a word of their own.
pub open spec fn stands_alone(text: Seq<char>, from: int, to: int) -> bool {
    &&& from > 0 ==> !is_word_char(text[from - 1])
    &&& to < text.len() ==> !is_word_char(text[to])
}

/// The first place from `from` on where a name stands, or the end of the text.
pub open spec fn place_of_name(text: Seq<char>, name: Seq<char>, from: int) -> int
    decreases text.len() - from,
{
    if from >= text.len() {
        text.len() as int
    } else if starts_with(text.skip(from), name) {
        from
    } else {
        place_of_name(text, name, from + 1)
    }
}

/// The highlights of a name, from the character `from` on. A name within a word is none.
pub open spec fn name_marks(text: Seq<char>, name: Seq<char>, from: int) -> Seq<TextHighlight>
    recommends
        name.len() > 0,
    decreases text.len() - from,
{
    let at = place_of_name(text, name, from);
    let to = at + name.len();
    if from < 0 || at < from || at >= text.len() || to > text.len() || name.len() == 0 {
        Seq::empty()
    } else {
        let rest = name_marks(text, name, to);
        if stands_alone(text, at, to) {
            seq![
                TextHighlight {
                    start: byte_at(text, at) as usize,
                    end: byte_at(text, to) as usize,
                    kind: TextHighlightKind::SelfMention,
                },
            ] + rest
        } else {
            rest
        }
    }
}

/// Highlights a name that calls everyone, wherever it stands as a word of its own.
pub fn add_literal_mention_highlights(rendered: &mut RenderedText, mention: &str)
    requires
        mention@.len() > 0,
    ensures
        final(rendered).text == old(rendered).text,
        final(rendered).emoji_slots == old(rendered).emoji_slots,
        final(rendered).highlights@ == old(rendered).highlights@ + name_marks(old(rendered).text@, mention@, 0),
{
    let text = chars_of(rendered.text.as_str());
    let name = chars_of(mention);
    let total = byte_len(rendered.text.as_str());
    let ghost expected = rendered.highlights@ + name_marks(text@, name@, 0);
    let mut from: usize = 0;
    let mut i: usize = 0;
    let mut byte: usize = 0;
    proof {
        lemma_byte_at_ends(text@);
    }
    while i < text.len()
        invariant
            name@ == mention@,
            name@.len() > 0,
            text@ == old(rendered).text@,
            total == utf8_len(text@),
            rendered.text == old(rendered).text,
            rendered.emoji_slots == old(rendered).emoji_slots,
            from <= i <= text@.len(),
            byte == byte_at(text@, i as int),
            place_of_name(text@, name@, from as int) == place_of_name(text@, name@, i as int),
            expected == old(rendered).highlights@ + name_marks(text@, name@, 0),
            expected == rendered.highlights@ + name_marks(text@, name@, from as int),
        decreases text@.len() - i,
    {
        if matches_at(&text, i, &name) {
            let end: usize = i + name.len();
            let start_byte = byte;
            let mut k: usize = i;
            proof {
                lemma_byte_at_monotonic(text@, i as int, end as int);
            }
            while k < end
                invariant
                    i <= k <= end <= text@.len(),
                    total == utf8_len(text@),
                    byte == byte_at(text@, k as int),
                decreases end - k,
            {
                proof {
                    lemma_byte_at_step(text@, k as int);
                    lemma_byte_at_monotonic(text@, k + 1, k + 1);
                }
                byte = byte + char_len(text[k]);
                k += 1;
            }
            let alone = (i == 0 || !is_literal_mention_word_char(text[i - 1])) && (end == text.len()
                || !is_literal_mention_word_char(text[end]));
            let ghost before = rendered.highlights@;
            let ghost rest = name_marks(text@, name@, end as int);
            if alone {
                let mark = TextHighlight { start: start_byte, end: byte, kind: TextHighlightKind::SelfMention };
                rendered.highlights.push(mark);
                assert(before + (seq![mark] + rest) =~= before.push(mark) + rest);
            }
            from = end;
            i = end;
        } else {
            proof {
                lemma_byte_at_step(text@, i as int);
                lemma_byte_at_monotonic(text@, i + 1, i + 1);
            }
            byte = byte + char_len(text[i]);
            i += 1;
        }
    }
    assert(name_marks(text@, name@, from as int) =~= Seq::empty());
    assert(rendered.highlights@ =~= expected);
}

// ---- Merging ----

/// Ordered highlights, with those that meet made one. The colour of a name of the user's own wins.
pub open spec fn merged(hs: Seq<TextHighlight>) -> Seq<TextHighlight>
    decreases hs.len(),
{
    if hs.len() == 0 {
        Seq::empty()
    } else {
        let before = merged(hs.drop_last());
        let h = hs.last();
        if before.len() > 0 && h.start <= before.last().end {
            let last = before.last();
            before.drop_last().push(
                TextHighlight {
                    start: last.start,
                    end: if h.end > last.end {
                        h.end
                    } else {
                        last.end
                    },
                    kind: if h.kind is SelfMention {
                        TextHighlightKind::SelfMention
                    } else {
                        last.kind
                    },
                },
            )
        } else {
            before.push(h)
        }
    }
}

pub open spec fn place_key(h: TextHighlight) -> Seq<u64> {
    seq![h.start as u64, h.end as u64]
}

pub open spec fn place_keys(hs: Seq<TextHighlight>) -> Seq<Seq<u64>> {
    hs.map_values(|h: TextHighlight| place_key(h))
}

pub open spec fn reordered(hs: Seq<TextHighlight>, order: Seq<usize>) -> Seq<TextHighlight> {
    order.map_values(|i: usize| hs[i as int])
}

/// Whether `r` are highlights put in order and merged.
pub open spec fn is_normalized(r: Seq<TextHighlight>, hs: Seq<TextHighlight>) -> bool {
    exists|order: Seq<usize>|
        is_order(place_keys(hs), hs.len() as int, order) && r == merged(#[trigger] reordered(hs, order))
}

/// Orders highlights by where they begin and end, and merges those that meet.
pub fn normalize_text_highlights(highlights: &mut Vec<TextHighlight>)
    ensures
        is_normalized(final(highlights)@, old(highlights)@),
{
    let ghost all = highlights@;
    let mut keys: Vec<Vec<u64>> = Vec::new();
    let mut i: usize = 0;
    while i < highlights.len()
        invariant
            highlights@ == all,
            i <= all.len(),
            key_views(keys@) == place_keys(all).take(i as int),
        decreases all.len() - i,
    {
        let mut key: Vec<u64> = Vec::new();
        key.push(highlights[i].start as u64);
        key.push(highlights[i].end as u64);
        assert(key@ =~= place_key(all[i as int]));
        let ghost before = keys@;
        keys.push(key);
        assert(key_views(keys@) =~= key_views(before).push(place_key(all[i as int])));
        assert(place_keys(all).take(i + 1) =~= place_keys(all).take(i as int).push(place_key(all[i as int])));
        i += 1;
    }
    assert(place_keys(all).take(all.len() as int) =~= place_keys(all));
    assert(keys@.len() == key_views(keys@).len());
    let order = sorted_order(&keys);
    let ghost sorted = reordered(all, order@);
    let mut out: Vec<TextHighlight> = Vec::new();
    let mut k: usize = 0;
    assert(sorted.take(0) =~= Seq::<TextHighlight>::empty());
    while k < order.len()
        invariant
            highlights@ == all,
            is_order(place_keys(all), all.len() as int, order@),
            sorted == reordered(all, order@),
            k <= order@.len(),
            out@ == merged(sorted.take(k as int)),
        decreases order@.len() - k,
    {
        let h = highlights[order[k]];
        assert(sorted.take(k + 1).drop_last() =~= sorted.take(k as int));
        assert(sorted.take(k + 1).last() == h);
        let len = out.len();
        if len > 0 && h.start <= out[len - 1].end {
            let last = out[len - 1];
            let ghost before = out@;
            out.set(
                len - 1,
                TextHighlight {
                    start: last.start,
                    end: if h.end > last.end { h.end } else { last.end },
                    kind: if matches!(h.kind, TextHighlightKind::SelfMention) {
                        TextHighlightKind::SelfMention
                    } else {
                        last.kind
                    },
                },
            );
            assert(out@ =~= before.drop_last().push(out@.last()));
        } else {
            out.push(h);
        }
        k += 1;
    }
    assert(sorted.take(k as int) =~= sorted);
    *highlights = out;
}

/// Whether highlights begin one behind the other, and none ends before it begins.
pub open spec fn in_place_order(hs: Seq<TextHighlight>) -> bool {
    &&& forall|i: int| 0 <= i < hs.len() ==> (#[trigger] hs[i]).start <= hs[i].end
    &&& forall|i: int, j: int|
        #![trigger hs[i], hs[j]]
        0 <= i < j < hs.len() ==> hs[i].start <= hs[j].start
}

/// Whether a byte is highlighted.
pub open spec fn highlighted(hs: Seq<TextHighlight>, byte: int) -> bool {
    exists|i: int| 0 <= i < hs.len() && (#[trigger] hs[i]).start <= byte < hs[i].end
}

/// Merged highlights lie apart from each other, in the order of the text.
pub proof fn merged_highlights_lie_apart(hs: Seq<TextHighlight>)
    requires
        in_place_order(hs),
    ensures
        forall|i: int, j: int|
            #![trigger merged(hs)[i], merged(hs)[j]]
            0 <= i < j < merged(hs).len() ==> merged(hs)[i].end < merged(hs)[j].start,
        forall|i: int| 0 <= i < merged(hs).len() ==> (#[trigger] merged(hs)[i]).start <= merged(hs)[i].end,
        hs.len() > 0 ==> merged(hs).len() > 0 && merged(hs).last().start <= hs.last().start,
    decreases hs.len(),
{
    if hs.len() > 0 {
        let rest = hs.drop_last();
        merged_highlights_lie_apart(rest);
        let before = merged(rest);
        let h = hs.last();
        if rest.len() > 0 {
            assert(rest.last() == hs[hs.len() - 2]);
            assert(before.last().start <= h.start);
        } else {
            assert(before.len() == 0);
        }
        let all = merged(hs);
        assert forall|i: int, j: int|
            #![trigger all[i], all[j]]
            0 <= i < j < all.len() implies all[i].end < all[j].start by {
            if before.len() > 0 && h.start <= before.last().end {
                assert(all[i] == before[i]);
                assert(all[j].start == before[j].start);
                assert(before[i].end < before[j].start);
            } else {
                assert(all[i] == before[i]);
                if j < before.len() {
                    assert(all[j] == before[j]);
                } else {
                    let last = before.len() - 1;
                    if i < last {
                        assert(before[i].end < before[last].start);
                    }
                }
            }
        }
        assert forall|i: int| 0 <= i < all.len() implies (#[trigger] all[i]).start <= all[i].end by {
            if i < before.len() {
                assert(before[i].start <= before[i].end);
                assert(all[i].start == before[i].start);
            }
            assert(hs[hs.len() - 1].start <= hs[hs.len() - 1].end);
        }
    }
}

/// Merging highlights the same bytes as before.
pub proof fn merging_keeps_what_is_highlighted(hs: Seq<TextHighlight>, byte: int)
    requires
        in_place_order(hs),
    ensures
        highlighted(merged(hs), byte) == highlighted(hs, byte),
    decreases hs.len(),
{
    if hs.len() > 0 {
        let rest = hs.drop_last();
        merging_keeps_what_is_highlighted(rest, byte);
        merged_highlights_lie_apart(rest);
        let before = merged(rest);
        let all = merged(hs);
        let h = hs.last();
        if rest.len() > 0 {
            assert(rest.last() == hs[hs.len() - 2]);
            assert(before.last().start <= h.start);
        } else {
            assert(before.len() == 0);
        }
        assert(hs[hs.len() - 1].start <= hs[hs.len() - 1].end);
        let joins = before.len() > 0 && h.start <= before.last().end;
        assert(forall|i: int| 0 <= i < rest.len() ==> rest[i] == hs[i]);
        assert(highlighted(hs, byte) == (highlighted(rest, byte) || h.start <= byte < h.end)) by {
            if highlighted(hs, byte) {
                let i = choose|i: int| 0 <= i < hs.len() && (#[trigger] hs[i]).start <= byte < hs[i].end;
                if i < rest.len() {
                    assert(rest[i] == hs[i]);
                }
            }
            if highlighted(rest, byte) {
                let i = choose|i: int| 0 <= i < rest.len() && (#[trigger] rest[i]).start <= byte < rest[i].end;
                assert(hs[i] == rest[i]);
            }
            if h.start <= byte < h.end {
                assert(hs[hs.len() - 1] == h);
            }
        }
        assert(highlighted(all, byte) == (highlighted(before, byte) || h.start <= byte < h.end)) by {
            let last = before.len() - 1;
            if highlighted(all, byte) {
                let i = choose|i: int| 0 <= i < all.len() && (#[trigger] all[i]).start <= byte < all[i].end;
                if i < last || (!joins && i == last) {
                    assert(before[i] == all[i]);
                } else if joins && byte < before.last().end {
                    assert(before[last].start <= byte < before[last].end);
                }
            }
            if highlighted(before, byte) {
                let i = choose|i: int| 0 <= i < before.len() && (#[trigger] before[i]).start <= byte < before[i].end;
                assert(all[i].start <= byte < all[i].end);
            }
            if h.start <= byte < h.end {
                let at = all.len() - 1;
                assert(all[at].start <= byte < all[at].end);
            }
        }
    }
}

/// What was ordered begins one behind the other.
pub proof fn ordered_highlights_follow_each_other(hs: Seq<TextHighlight>, order: Seq<usize>)
    requires
        is_order(place_keys(hs), hs.len() as int, order),
        forall|i: int| 0 <= i < hs.len() ==> (#[trigger] hs[i]).start <= hs[i].end,
    ensures
        in_place_order(reordered(hs, order)),
{
    let sorted = reordered(hs, order);
    assert forall|i: int| 0 <= i < sorted.len() implies (#[trigger] sorted[i]).start <= sorted[i].end by {
        assert(order[i] < hs.len());
        assert(hs[order[i] as int].start <= hs[order[i] as int].end);
    }
    assert forall|i: int, j: int|
        #![trigger sorted[i], sorted[j]]
        0 <= i < j < sorted.len() implies sorted[i].start <= sorted[j].start by {
        let a = order[i] as int;
        let b = order[j] as int;
        assert(place_keys(hs)[a] == place_key(hs[a]));
        assert(place_keys(hs)[b] == place_key(hs[b]));
        if key_less(place_key(hs[a]), place_key(hs[b])) {
            assert(place_key(hs[a])[0] <= place_key(hs[b])[0]);
        } else {
            assert(place_key(hs[a])[0] == place_key(hs[b])[0]);
        }
    }
}

/// Whether two highlights meet.
pub open spec fn meets(a: TextHighlight, b: TextHighlight) -> bool {
    a.start <= b.end && b.start <= a.end
}

/// Whether one of the highlights is a name of the user's own that meets another highlight.
pub open spec fn own_name_meets(hs: Seq<TextHighlight>, m: TextHighlight) -> bool {
    exists|i: int| 0 <= i < hs.len() && (#[trigger] hs[i]).kind is SelfMention && meets(hs[i], m)
}

spec fn within(h: TextHighlight, m: TextHighlight) -> bool {
    m.start <= h.start && h.end <= m.end
}

/// Whether an own name among highlights lies in another highlight.
spec fn own_name_within(hs: Seq<TextHighlight>, m: TextHighlight) -> bool {
    exists|i: int| 0 <= i < hs.len() && (#[trigger] hs[i]).kind is SelfMention && within(hs[i], m)
}

/// Whether a highlight lies in one of those that have the colour of an own name.
spec fn within_own(ms: Seq<TextHighlight>, h: TextHighlight) -> bool {
    exists|j: int| 0 <= j < ms.len() && (#[trigger] ms[j]).kind is SelfMention && within(h, ms[j])
}

proof fn lemma_own_names(hs: Seq<TextHighlight>)
    requires
        in_place_order(hs),
    ensures
        forall|i: int| 0 <= i < hs.len() && (#[trigger] hs[i]).kind is SelfMention ==> within_own(merged(hs), hs[i]),
        forall|j: int|
            0 <= j < merged(hs).len() && (#[trigger] merged(hs)[j]).kind is SelfMention ==> own_name_within(
                hs,
                merged(hs)[j],
            ),
    decreases hs.len(),
{
    if hs.len() > 0 {
        let rest = hs.drop_last();
        let before = merged(rest);
        let all = merged(hs);
        let h = hs.last();
        lemma_own_names(rest);
        merged_highlights_lie_apart(rest);
        if rest.len() > 0 {
            assert(rest.last() == hs[hs.len() - 2]);
            assert(before.last().start <= h.start);
        } else {
            assert(before.len() == 0);
        }
        let last = before.len() - 1;
        let joins = before.len() > 0 && h.start <= before.last().end;
        assert forall|i: int| 0 <= i < hs.len() && (#[trigger] hs[i]).kind is SelfMention implies within_own(all, hs[i]) by {
            if i < rest.len() {
                assert(rest[i] == hs[i]);
                assert(within_own(before, rest[i]));
                let j = choose|j: int|
                    0 <= j < before.len() && (#[trigger] before[j]).kind is SelfMention && within(hs[i], before[j]);
                assert(all[j].kind is SelfMention && within(hs[i], all[j]));
            } else {
                let at = all.len() - 1;
                assert(all[at].kind is SelfMention && within(h, all[at]));
            }
        }
        assert forall|j: int| 0 <= j < all.len() && (#[trigger] all[j]).kind is SelfMention implies own_name_within(
            hs,
            all[j],
        ) by {
            if j == all.len() - 1 && h.kind is SelfMention {
                assert(hs[hs.len() - 1].kind is SelfMention && within(hs[hs.len() - 1], all[j]));
            } else {
                assert(before[j].kind is SelfMention);
                assert(own_name_within(rest, before[j]));
                let i = choose|i: int|
                    0 <= i < rest.len() && (#[trigger] rest[i]).kind is SelfMention && within(rest[i], before[j]);
                assert(hs[i].kind is SelfMention && within(hs[i], all[j]));
            }
        }
    }
}

/// The colour of an own name wins: among highlights that were put in order and merged, those have it which a name
/// of the user's own meets, and no others.
pub proof fn own_names_win(r: Seq<TextHighlight>, hs: Seq<TextHighlight>, j: int)
    requires
        is_normalized(r, hs),
        forall|i: int| 0 <= i < hs.len() ==> (#[trigger] hs[i]).start <= hs[i].end,
        0 <= j < r.len(),
    ensures
        r[j].kind is SelfMention <==> own_name_meets(hs, r[j]),
{
    let order = choose|order: Seq<usize>|
        is_order(place_keys(hs), hs.len() as int, order) && r == merged(#[trigger] reordered(hs, order));
    let sorted = reordered(hs, order);
    ordered_highlights_follow_each_other(hs, order);
    lemma_own_names(sorted);
    merged_highlights_lie_apart(sorted);
    if r[j].kind is SelfMention {
        let i = choose|i: int|
            0 <= i < sorted.len() && (#[trigger] sorted[i]).kind is SelfMention && within(sorted[i], r[j]);
        assert(sorted[i].start <= sorted[i].end);
        assert(hs[order[i] as int] == sorted[i]);
        assert(meets(hs[order[i] as int], r[j]));
    }
    if own_name_meets(hs, r[j]) {
        let i = choose|i: int| 0 <= i < hs.len() && (#[trigger] hs[i]).kind is SelfMention && meets(hs[i], r[j]);
        orders_list_every_item(place_keys(hs), hs.len() as int, order, i);
        let k = choose|k: int| 0 <= k < order.len() && order[k] == i;
        assert(sorted[k] == hs[i]);
        assert(within_own(r, sorted[k]));
        let m = choose|m: int| 0 <= m < r.len() && (#[trigger] r[m]).kind is SelfMention && within(hs[i], r[m]);
        if m < j {
            assert(r[m].end < r[j].start);
        } else if j < m {
            assert(r[j].end < r[m].start);
        }
    }
}

} // verus!
