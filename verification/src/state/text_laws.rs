//! Who and what is named where.

use crate::ids::{ChannelId, UserId};
use crate::message::rendered::{TextHighlight, TextHighlightKind};
use crate::state::channel_pane::{
    category_above, category_of, is_root, search_list, selection, PaneChannel, Pick,
};
use crate::state::channel_text::{other_typers, typer_name, typing_text, TypingUser};
use crate::state::guilds::{folder_at, heading_above, key_of, GuildEntryView};
use crate::state::list_laws::lemma_selection;
use crate::state::model::ChannelPaneEntry;
use crate::state::mentions::{mention_name, place_of_mention, with_calls, MentionInfo};
use crate::state::message_render::{is_word_char, name_marks, place_of_name};
use crate::state::thread_cards::{applied, place_of_tag, ForumTag};
use crate::text::{byte_at, contains_text, opt_text, starts_with};
use vstd::prelude::*;
use vstd::string::*;

verus! {

// ---- Names that call everyone ----

/// Whether a name stands at a place, as a word of its own.
pub open spec fn is_called(text: Seq<char>, name: Seq<char>, at: int) -> bool {
    &&& 0 <= at && at + name.len() <= text.len()
    &&& text.subrange(at, at + name.len()) == name
    &&& at > 0 ==> !is_word_char(text[at - 1])
    &&& at + name.len() < text.len() ==> !is_word_char(text[at + name.len()])
}

/// The mark of a name at a place.
pub open spec fn mark_at(text: Seq<char>, name: Seq<char>, at: int) -> TextHighlight {
    TextHighlight {
        start: byte_at(text, at) as usize,
        end: byte_at(text, at + name.len()) as usize,
        kind: TextHighlightKind::SelfMention,
    }
}

proof fn lemma_place_of_name(text: Seq<char>, name: Seq<char>, from: int)
    requires
        0 <= from <= text.len(),
        name.len() > 0,
    ensures
        from <= place_of_name(text, name, from) <= text.len(),
        place_of_name(text, name, from) < text.len() ==> starts_with(text.skip(place_of_name(text, name, from)), name),
        forall|k: int| from <= k < place_of_name(text, name, from) ==> !starts_with(#[trigger] text.skip(k), name),
    decreases text.len() - from,
{
    if from < text.len() && !starts_with(text.skip(from), name) {
        lemma_place_of_name(text, name, from + 1);
    }
}

proof fn lemma_marks(text: Seq<char>, name: Seq<char>, from: int)
    requires
        0 <= from <= text.len(),
        name.len() > 0,
        forall|i: int| 0 < i < name.len() ==> #[trigger] name[i] != name[0],
    ensures
        forall|i: int|
            0 <= i < name_marks(text, name, from).len() ==> exists|at: int|
                from <= at && is_called(text, name, at) && #[trigger] name_marks(text, name, from)[i] == #[trigger] mark_at(
                    text,
                    name,
                    at,
                ),
        forall|at: int|
            from <= at && #[trigger] is_called(text, name, at) ==> name_marks(text, name, from).contains(
                mark_at(text, name, at),
            ),
    decreases text.len() - from,
{
    lemma_place_of_name(text, name, from);
    let at = place_of_name(text, name, from);
    let to = at + name.len();
    let marks = name_marks(text, name, from);
    assert forall|b: int| from <= b && #[trigger] is_called(text, name, b) implies b >= at by {
        if b < at {
            assert(text.skip(b).take(name.len() as int) =~= text.subrange(b, b + name.len()));
            assert(starts_with(text.skip(b), name));
        }
    }
    if at < text.len() && to <= text.len() {
        assert(text.skip(at).take(name.len() as int) =~= text.subrange(at, to));
        lemma_marks(text, name, to);
        let rest = name_marks(text, name, to);
        let alone = is_called(text, name, at);
        assert forall|i: int| 0 <= i < marks.len() implies exists|b: int|
            from <= b && is_called(text, name, b) && #[trigger] marks[i] == #[trigger] mark_at(text, name, b) by {
            if alone && i == 0 {
                assert(marks[0] == mark_at(text, name, at));
            } else {
                let k = if alone { i - 1 } else { i };
                assert(marks[i] == rest[k]);
                let b = choose|b: int|
                    to <= b && is_called(text, name, b) && #[trigger] rest[k] == #[trigger] mark_at(text, name, b);
                assert(marks[i] == mark_at(text, name, b));
            }
        }
        assert forall|b: int| from <= b && #[trigger] is_called(text, name, b) implies marks.contains(
            mark_at(text, name, b),
        ) by {
            if b == at {
                assert(marks[0] == mark_at(text, name, at));
            } else if b < to {
                assert(text.subrange(b, b + name.len())[0] == text[b]);
                assert(text.subrange(at, to)[b - at] == text[b]);
                assert(name[b - at] != name[0]);
            } else {
                assert(rest.contains(mark_at(text, name, b)));
                let k = choose|k: int| 0 <= k < rest.len() && rest[k] == mark_at(text, name, b);
                let i = if alone { k + 1 } else { k };
                assert(marks[i] == rest[k]);
            }
        }
    } else {
        assert forall|b: int| from <= b && #[trigger] is_called(text, name, b) implies marks.contains(
            mark_at(text, name, b),
        ) by {
            assert(text.skip(b).take(name.len() as int) =~= text.subrange(b, b + name.len()));
            assert(starts_with(text.skip(b), name));
        }
    }
}

/// The names that call everyone are highlighted wherever they stand as words of their own, and only there; the other
/// highlights stay. For who is not known, nothing is.
pub proof fn calls_to_everyone_are_highlighted(highlights: Seq<TextHighlight>, text: Seq<char>, at: int, h: TextHighlight)
    ensures
        is_called(text, "@everyone"@, at) ==> with_calls(highlights, text, true).contains(
            mark_at(text, "@everyone"@, at),
        ),
        is_called(text, "@here"@, at) ==> with_calls(highlights, text, true).contains(mark_at(text, "@here"@, at)),
        highlights.contains(h) ==> with_calls(highlights, text, true).contains(h),
        with_calls(highlights, text, true).contains(h) ==> highlights.contains(h) || exists|k: int|
            is_called(text, "@everyone"@, k) && h == #[trigger] mark_at(text, "@everyone"@, k) || is_called(
                text,
                "@here"@,
                k,
            ) && h == mark_at(text, "@here"@, k),
        with_calls(highlights, text, false) == highlights,
{
    reveal_strlit("@everyone");
    reveal_strlit("@here");
    let (everyone, here) = ("@everyone"@, "@here"@);
    assert forall|i: int| 0 < i < everyone.len() implies #[trigger] everyone[i] != everyone[0] by {}
    assert forall|i: int| 0 < i < here.len() implies #[trigger] here[i] != here[0] by {}
    lemma_marks(text, everyone, 0);
    lemma_marks(text, here, 0);
    let (a, b) = (name_marks(text, everyone, 0), name_marks(text, here, 0));
    let all = with_calls(highlights, text, true);
    assert(all == highlights + a + b);
    if is_called(text, everyone, at) {
        let i = choose|i: int| 0 <= i < a.len() && a[i] == mark_at(text, everyone, at);
        assert(all[highlights.len() + i] == a[i]);
    }
    if is_called(text, here, at) {
        let i = choose|i: int| 0 <= i < b.len() && b[i] == mark_at(text, here, at);
        assert(all[highlights.len() + a.len() + i] == b[i]);
    }
    if highlights.contains(h) {
        let i = choose|i: int| 0 <= i < highlights.len() && highlights[i] == h;
        assert(all[i] == h);
    }
    if all.contains(h) && !highlights.contains(h) {
        let i = choose|i: int| 0 <= i < all.len() && all[i] == h;
        if i < highlights.len() {
            assert(highlights[i] == h);
        } else if i < highlights.len() + a.len() {
            assert(a[i - highlights.len()] == h);
            let k = choose|k: int| 0 <= k && is_called(text, everyone, k) && h == #[trigger] mark_at(text, everyone, k);
            assert(is_called(text, everyone, k) && h == mark_at(text, everyone, k));
        } else {
            assert(b[i - highlights.len() - a.len()] == h);
            let k = choose|k: int| 0 <= k && is_called(text, here, k) && h == #[trigger] mark_at(text, here, k);
            let other = mark_at(text, everyone, k);
            assert(is_called(text, here, k) && h == mark_at(text, here, k));
        }
    }
}

proof fn lemma_mention(mentions: Seq<MentionInfo>, user_id: UserId, at: int)
    requires
        0 <= at < mentions.len(),
        mentions[at].user_id == user_id,
        forall|i: int| 0 <= i < at ==> (#[trigger] mentions[i]).user_id != user_id,
    ensures
        place_of_mention(mentions, user_id) == at,
    decreases at,
{
    if at > 0 {
        let rest = mentions.drop_first();
        assert(mentions[0].user_id != user_id);
        assert forall|i: int| 0 <= i < at - 1 implies (#[trigger] rest[i]).user_id != user_id by {
            assert(rest[i] == mentions[i + 1]);
        }
        lemma_mention(rest, user_id, at - 1);
    }
}

/// Someone who is mentioned is called by the name in the guild, if the message tells it, or by the name that is known,
/// or else by the name that the message tells.
pub proof fn mentions_use_the_nearest_name(mentions: Seq<MentionInfo>, known: Option<Seq<char>>, user_id: UserId, at: int)
    requires
        0 <= at < mentions.len(),
        mentions[at].user_id == user_id,
        forall|i: int| 0 <= i < at ==> (#[trigger] mentions[i]).user_id != user_id,
    ensures
        mention_name(mentions, known, user_id) == Some(
            if mentions[at].guild_nick is Some {
                (mentions[at].guild_nick->0)@
            } else if known is Some {
                known->0
            } else {
                mentions[at].display_name@
            },
        ),
{
    lemma_mention(mentions, user_id, at);
}

// ---- Rows ----

proof fn lemma_category_above(entries: Seq<ChannelPaneEntry>, at: int, h: int, id: ChannelId)
    requires
        0 <= h < at <= entries.len(),
        is_header(entries[h], id),
        forall|k: int| h < k < at ==> !((#[trigger] entries[k]) is CategoryHeader),
    ensures
        category_above(entries, at) == Some(id),
    decreases at,
{
    if h < at - 1 {
        assert(!(entries[at - 1] is CategoryHeader));
        lemma_category_above(entries, at - 1, h, id);
    }
}

pub open spec fn is_header(entry: ChannelPaneEntry, id: ChannelId) -> bool {
    entry matches ChannelPaneEntry::CategoryHeader { channel_id, .. } && channel_id == id
}

/// A row belongs to the category whose heading it is, or that stands above it with no other between; a channel at the
/// top, and what is below it, belongs to none.
pub proof fn rows_belong_to_the_category_above(entries: Seq<ChannelPaneEntry>, at: int, h: int, id: ChannelId)
    requires
        0 <= h <= at < entries.len(),
        is_header(entries[h], id),
        forall|k: int| h < k <= at ==> !((#[trigger] entries[k]) is CategoryHeader),
    ensures
        h == at ==> category_of(entries, at) == Some(id),
        h < at ==> category_of(entries, at) == (match entries[at] {
            ChannelPaneEntry::Channel { branch, .. } if branch is Root => None,
            ChannelPaneEntry::Thread { parent_branch, .. } if parent_branch is Root => None,
            ChannelPaneEntry::VoiceParticipant { parent_branch, .. } if parent_branch is Root => None,
            _ => Some(id),
        }),
{
    if h < at {
        assert(!(entries[at] is CategoryHeader));
        lemma_category_above(entries, at, h, id);
    }
}

/// A guild in a folder belongs to the folder whose heading stands above it with no other between.
pub proof fn guilds_belong_to_the_folder_above(rows: Seq<GuildEntryView>, at: int, h: int)
    requires
        0 <= h <= at < rows.len(),
        rows[h] is FolderHeader,
        key_of(rows[h]->folder) is Some,
        forall|k: int| h < k <= at ==> rows[k] is Guild && !(#[trigger] rows[k]->branch is Root),
    ensures
        folder_at(rows, at) == key_of(rows[h]->folder),
{
    if h < at {
        assert(rows[at] is Guild && !(rows[at]->branch is Root));
        lemma_heading(rows, at, h);
    }
}

proof fn lemma_heading(rows: Seq<GuildEntryView>, at: int, h: int)
    requires
        0 <= h < at <= rows.len(),
        rows[h] is FolderHeader,
        key_of(rows[h]->folder) is Some,
        forall|k: int| h < k < at ==> rows[k] is Guild && !(#[trigger] rows[k]->branch is Root),
    ensures
        heading_above(rows, at) == key_of(rows[h]->folder),
    decreases at,
{
    if h < at - 1 {
        assert(rows[at - 1] is Guild && !(rows[at - 1]->branch is Root));
        lemma_heading(rows, at - 1, h);
    }
}

/// A search goes through every channel that is no thread and no category: those at the top and those in categories,
/// collapsed or not.
pub proof fn searches_reach_every_channel(channels: Seq<PaneChannel>, i: int, n: int, category: Option<int>)
    requires
        0 <= i < channels.len(),
        0 <= n <= channels.len(),
        !(channels[i].kind is Thread) && !(channels[i].kind is Category),
        category is None ==> i < n && is_root(channels, channels[i]),
        category matches Some(j) ==> 0 <= j < n && channels[j].kind is Category && channels[i].parent_id == Some(
            channels[j].id,
        ),
    ensures
        search_list(channels, n).contains(channels[i]),
    decreases n,
{
    let c = channels[n - 1];
    let before = search_list(channels, n - 1);
    let all = search_list(channels, n);
    let here = match category {
        None => i == n - 1,
        Some(j) => j == n - 1,
    };
    if !here {
        searches_reach_every_channel(channels, i, n - 1, category);
        let k = choose|k: int| 0 <= k < before.len() && before[k] == channels[i];
        assert(all[k] == channels[i]);
    } else if category is None {
        assert(all[before.len() as int] == channels[i]);
    } else {
        let pick = Pick::Children { category: c.id };
        let places = lemma_selection(channels, pick);
        let own = |k: int| crate::state::channel_pane::picked(pick, channels[k]);
        assert(own(i));
        let p = choose|p: int| 0 <= p < places.len() && places[p] == i;
        assert(selection(channels, pick)[p] == channels[places[p]]);
        assert(all[before.len() + p] == channels[i]);
    }
}

// ---- Tags ----

proof fn lemma_tag(tags: Seq<ForumTag>, id: u64, at: int)
    requires
        0 <= at < tags.len(),
        tags[at].id == id,
        forall|i: int| 0 <= i < at ==> (#[trigger] tags[i]).id != id,
    ensures
        place_of_tag(tags, id) == at,
    decreases at,
{
    if at > 0 {
        let rest = tags.drop_first();
        assert(tags[0].id != id);
        assert forall|i: int| 0 <= i < at - 1 implies (#[trigger] rest[i]).id != id by {
            assert(rest[i] == tags[i + 1]);
        }
        lemma_tag(rest, id, at - 1);
    }
}

proof fn lemma_no_tag(tags: Seq<ForumTag>, id: u64)
    requires
        forall|i: int| 0 <= i < tags.len() ==> (#[trigger] tags[i]).id != id,
    ensures
        place_of_tag(tags, id) == tags.len(),
    decreases tags.len(),
{
    if tags.len() > 0 {
        let rest = tags.drop_first();
        assert(tags[0].id != id);
        assert forall|i: int| 0 <= i < rest.len() implies (#[trigger] rest[i]).id != id by {
            assert(rest[i] == tags[i + 1]);
        }
        lemma_no_tag(rest, id);
    }
}

/// The tags of a post are shown in the order of the post, each with its name and with its image or its emoji; those
/// that the forum does not know are not.
pub proof fn tags_are_shown_in_order(ids: Seq<u64>, id: u64, tags: Seq<ForumTag>, at: int)
    ensures
        (0 <= at < tags.len() && tags[at].id == id && forall|i: int| 0 <= i < at ==> (#[trigger] tags[i]).id != id) ==> {
            let all = applied(ids.push(id), tags);
            let last = all[all.len() - 1];
            &&& all.len() == applied(ids, tags).len() + 1
            &&& all.drop_last() == applied(ids, tags)
            &&& last.name == tags[at].name@
            &&& last.custom_emoji_url == opt_text(tags[at].custom_emoji_url)
            &&& tags[at].custom_emoji_url is Some ==> last.unicode_emoji is None
        },
        (forall|i: int| 0 <= i < tags.len() ==> (#[trigger] tags[i]).id != id) ==> applied(ids.push(id), tags) == applied(
            ids,
            tags,
        ),
{
    assert(ids.push(id).drop_last() =~= ids);
    if 0 <= at < tags.len() && tags[at].id == id && forall|i: int| 0 <= i < at ==> (#[trigger] tags[i]).id != id {
        lemma_tag(tags, id, at);
        assert(applied(ids.push(id), tags).drop_last() =~= applied(ids, tags));
    }
    if forall|i: int| 0 <= i < tags.len() ==> (#[trigger] tags[i]).id != id {
        lemma_no_tag(tags, id);
    }
}

// ---- Typing ----

/// Of those who type, the user is left out and all others are kept, in their order.
pub proof fn others_who_type_are_told(a: Seq<TypingUser>, t: TypingUser, me: Option<UserId>)
    ensures
        me == Some(t.user_id) ==> other_typers(a.push(t), me) == other_typers(a, me),
        me != Some(t.user_id) ==> other_typers(a.push(t), me) == other_typers(a, me).push(t),
        other_typers(Seq::<TypingUser>::empty(), me).len() == 0,
{
    assert(a.push(t).drop_last() =~= a);
}

/// Up to three who type are named, in their order. More are not told apart, and of nobody nothing is said.
pub proof fn up_to_three_who_type_are_named(others: Seq<TypingUser>, i: int)
    ensures
        typing_text(others) is None <==> others.len() == 0,
        0 <= i < others.len() <= 3 ==> contains_text(typing_text(others)->0, typer_name(others[i])),
        others.len() > 3 ==> typing_text(others) == Some("Several people are typing…"@),
        others.len() == 1 ==> typing_text(others) == Some(typer_name(others[0]) + " is typing…"@),
{
    if 0 <= i < others.len() <= 3 {
        let text = typing_text(others)->0;
        let name = typer_name(others[i]);
        let at = if i == 0 {
            0int
        } else if others.len() == 2 {
            (typer_name(others[0]) + " and "@).len() as int
        } else if i == 1 {
            (typer_name(others[0]) + ", "@).len() as int
        } else {
            (typer_name(others[0]) + ", "@ + typer_name(others[1]) + ", and "@).len() as int
        };
        assert(text.skip(at).take(name.len() as int) =~= name);
        assert(starts_with(text.skip(at), name));
    }
}

} // verus!
