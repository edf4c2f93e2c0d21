//! The emojis that a message can be reacted to with.

use crate::ids::EmojiId;
use crate::message::reactions::ReactionEmoji;
use crate::state::model::EmojiReactionItem;
use crate::text::{chars_of, has_text, join_strings, join_with, list_contains, split_on, split_str, string_of, texts};
use crate::unicode::{split_words, upper_char, uppercase_char, words};
use vstd::prelude::*;
use vstd::string::*;

verus! {

/// The text and the name of the emoji that a text stands for, if it stands for one.
pub uninterp spec fn emoji_entry(text: Seq<char>) -> Option<(Seq<char>, Seq<char>)>;

/// The text and the name of the emoji at a place of the list of all of them, if it is that long.
pub uninterp spec fn listed_emoji(index: int) -> Option<(Seq<char>, Seq<char>)>;

/// Whether these are all emojis.
pub open spec fn lists_all(all: Seq<EmojiEntry>) -> bool {
    forall|i: int|
        0 <= i ==> #[trigger] listed_emoji(i) == (if i < all.len() {
            Some((all[i].text@, all[i].name@))
        } else {
            None
        })
}

/// An emoji and its name.
#[derive(Debug, PartialEq, Eq)]
pub struct EmojiEntry {
    pub text: String,
    pub name: String,
}

pub open spec fn entry_view(e: Option<EmojiEntry>) -> Option<(Seq<char>, Seq<char>)> {
    match e {
        Some(e) => Some((e.text@, e.name@)),
        None => None,
    }
}

/// `emojis::get`, with `Emoji::as_str` and `Emoji::name` of what it found. Claimed of it: what is found
/// depends on the text alone.
#[verifier::external_body]
pub(crate) fn find_emoji(value: &str) -> (r: Option<EmojiEntry>)
    ensures
        entry_view(r) == emoji_entry(value@),
{
    emojis::get(value).map(|e| EmojiEntry { text: e.as_str().to_owned(), name: e.name().to_owned() })
}

/// `emojis::iter`, with `Emoji::as_str` and `Emoji::name` of each emoji. Claimed of it: the list is the
/// same every time.
#[verifier::external_body]
pub(crate) fn list_emojis() -> (r: Vec<EmojiEntry>)
    ensures
        forall|i: int|
            0 <= i ==> #[trigger] listed_emoji(i) == (if i < r@.len() {
                Some((r@[i].text@, r@[i].name@))
            } else {
                None
            }),
{
    emojis::iter().map(|e| EmojiEntry { text: e.as_str().to_owned(), name: e.name().to_owned() }).collect()
}

/// A word with its first letter in upper case.
pub open spec fn capitalized(word: Seq<char>) -> Seq<char> {
    if word.len() == 0 {
        word
    } else {
        uppercase_char(word[0]) + word.skip(1)
    }
}

/// The words that are not empty, capitalized.
pub open spec fn title_words(ws: Seq<Seq<char>>) -> Seq<Seq<char>>
    decreases ws.len(),
{
    if ws.len() == 0 {
        Seq::empty()
    } else if ws.last().len() == 0 {
        title_words(ws.drop_last())
    } else {
        title_words(ws.drop_last()).push(capitalized(ws.last()))
    }
}

/// Words as a title.
pub open spec fn title_case(ws: Seq<Seq<char>>) -> Seq<char> {
    join_with(title_words(ws), " "@)
}

fn capitalize(word: &str) -> (r: String)
    ensures
        r@ == capitalized(word@),
{
    let cs = chars_of(word);
    if cs.len() == 0 {
        return String::new();
    }
    let first = upper_char(cs[0]);
    let mut out = string_of(&first, 0, first.len());
    let rest = string_of(&cs, 1, cs.len());
    out.append(rest.as_str());
    assert(out@ =~= capitalized(word@));
    out
}

fn title_case_words(ws: &Vec<String>) -> (r: String)
    ensures
        r@ == title_case(texts(ws@)),
{
    let ghost all = texts(ws@);
    let mut out: Vec<String> = Vec::new();
    let mut i: usize = 0;
    assert(all.take(0) =~= Seq::<Seq<char>>::empty());
    assert(texts(out@) =~= Seq::<Seq<char>>::empty());
    while i < ws.len()
        invariant
            all == texts(ws@),
            i <= ws@.len(),
            texts(out@) == title_words(all.take(i as int)),
        decreases ws@.len() - i,
    {
        assert(all.take(i + 1).drop_last() =~= all.take(i as int));
        assert(all[i as int] == ws@[i as int]@);
        if ws[i].as_str().unicode_len() > 0 {
            let ghost before = out@;
            let word = capitalize(ws[i].as_str());
            out.push(word);
            assert(texts(out@) =~= texts(before).push(word@));
        }
        i += 1;
    }
    assert(all.take(i as int) =~= all);
    join_strings(&out, " ")
}

/// The label of an emoji: its name as a title.
pub fn unicode_emoji_label(name: &str) -> (r: String)
    ensures
        r@ == title_case(words(name@)),
{
    let ws = split_words(name);
    title_case_words(&ws)
}

/// The label of a custom emoji: its name as a title, where lines stand for blanks.
pub fn custom_emoji_label(name: &str) -> (r: String)
    ensures
        r@ == title_case(split_on(name@, '_')),
{
    let ws = split_str(name, '_');
    title_case_words(&ws)
}

/// A custom emoji of a guild.
#[derive(Debug, PartialEq, Eq)]
pub struct CustomEmojiInfo {
    pub id: EmojiId,
    pub name: String,
    pub animated: bool,
    pub available: bool,
    pub image_url: Option<String>,
}

pub fn custom_emoji_reaction_item(emoji: &CustomEmojiInfo) -> (r: EmojiReactionItem)
    ensures
        r.label@ == title_case(split_on(emoji.name@, '_')),
        r.emoji == (ReactionEmoji::Custom {
            id: emoji.id,
            name: Some(emoji.name),
            animated: emoji.animated,
            image_url: emoji.image_url,
        }),
{
    EmojiReactionItem {
        emoji: ReactionEmoji::Custom {
            id: emoji.id,
            name: Some(emoji.name.clone()),
            animated: emoji.animated,
            image_url: match &emoji.image_url {
                Some(url) => Some(url.clone()),
                None => None,
            },
        },
        label: custom_emoji_label(emoji.name.as_str()),
    }
}

/// Whether a custom emoji can be sent: one of this guild that does not move, and with a subscription
/// every other.
pub fn custom_emoji_can_be_used_directly(animated: bool, is_foreign: bool, has_nitro: bool) -> (r: bool)
    ensures
        r == ((!is_foreign && !animated) || has_nitro),
{
    (!is_foreign && !animated) || has_nitro
}

/// The emojis that are offered first where the user chose none.
pub open spec fn default_quick() -> Seq<Seq<char>> {
    seq!["👍"@, "❤️"@, "😂"@, "🎉"@, "😮"@, "😢"@, "🙏"@, "👀"@]
}

/// The emojis that are offered first.
pub open spec fn quick_emojis(favorites: Seq<Seq<char>>) -> Seq<Seq<char>> {
    if favorites.len() == 0 {
        default_quick()
    } else {
        favorites
    }
}

pub fn effective_quick_unicode_emojis(favorites: &Vec<String>) -> (r: Vec<String>)
    ensures
        texts(r@) == quick_emojis(texts(favorites@)),
{
    let mut out: Vec<String> = Vec::new();
    if favorites.len() == 0 {
        out.push("👍".to_string());
        out.push("❤️".to_string());
        out.push("😂".to_string());
        out.push("🎉".to_string());
        out.push("😮".to_string());
        out.push("😢".to_string());
        out.push("🙏".to_string());
        out.push("👀".to_string());
        assert(texts(out@) =~= default_quick());
        return out;
    }
    let mut i: usize = 0;
    assert(texts(out@) =~= texts(favorites@).take(0));
    while i < favorites.len()
        invariant
            i <= favorites@.len(),
            texts(out@) == texts(favorites@).take(i as int),
        decreases favorites@.len() - i,
    {
        let ghost before = out@;
        let s = favorites[i].clone();
        out.push(s);
        assert(texts(out@) =~= texts(before).push(s@));
        assert(texts(favorites@).take(i + 1) =~= texts(favorites@).take(i as int).push(s@));
        i += 1;
    }
    assert(texts(favorites@).take(i as int) =~= texts(favorites@));
    out
}

pub fn is_quick_unicode_emoji(value: &str, favorites: &Vec<String>) -> (r: bool)
    ensures
        r == has_text(quick_emojis(texts(favorites@)), value@),
{
    let quick = effective_quick_unicode_emojis(favorites);
    list_contains(quick.as_slice(), value)
}

/// The value of an [`EmojiReactionItem`] for an emoji of Unicode.
pub struct UnicodeItem {
    pub text: Seq<char>,
    pub label: Seq<char>,
}

/// Whether an item stands for an emoji.
pub open spec fn is_unicode_item(item: EmojiReactionItem, v: UnicodeItem) -> bool {
    item.label@ == v.label && (item.emoji matches ReactionEmoji::Unicode(text) && text@ == v.text)
}

pub open spec fn are_unicode_items(items: Seq<EmojiReactionItem>, vs: Seq<UnicodeItem>) -> bool {
    items.len() == vs.len() && forall|i: int| 0 <= i < items.len() ==> is_unicode_item(#[trigger] items[i], vs[i])
}

pub open spec fn item_of(entry: (Seq<char>, Seq<char>)) -> UnicodeItem {
    UnicodeItem { text: entry.0, label: title_case(words(entry.1)) }
}

fn unicode_emoji_reaction_item(entry: EmojiEntry) -> (r: EmojiReactionItem)
    ensures
        is_unicode_item(r, item_of((entry.text@, entry.name@))),
{
    let label = unicode_emoji_label(entry.name.as_str());
    EmojiReactionItem { emoji: ReactionEmoji::Unicode(entry.text), label }
}

/// The items of those texts that stand for an emoji. `found` gives what each stands for.
pub open spec fn quick_items(found: Seq<Option<(Seq<char>, Seq<char>)>>) -> Seq<UnicodeItem>
    decreases found.len(),
{
    if found.len() == 0 {
        Seq::empty()
    } else {
        match found.last() {
            Some(entry) => quick_items(found.drop_last()).push(item_of(entry)),
            None => quick_items(found.drop_last()),
        }
    }
}

pub open spec fn found_entries(v: Seq<Option<EmojiEntry>>) -> Seq<Option<(Seq<char>, Seq<char>)>> {
    v.map_values(|e: Option<EmojiEntry>| entry_view(e))
}

/// The items of what was found.
pub fn items_of_found(found: Vec<Option<EmojiEntry>>) -> (r: Vec<EmojiReactionItem>)
    ensures
        are_unicode_items(r@, quick_items(found_entries(found@))),
{
    let ghost all = found_entries(found@);
    let mut out: Vec<EmojiReactionItem> = Vec::new();
    assert(all.take(0) =~= Seq::<Option<(Seq<char>, Seq<char>)>>::empty());
    for entry in it: found
        invariant
            it.seq() == found@,
            all == found_entries(found@),
            are_unicode_items(out@, quick_items(all.take(it.index() as int))),
    {
        let ghost i = it.index() as int;
        assert(all[i] == entry_view(entry));
        assert(all.take(i + 1).drop_last() =~= all.take(i));
        if let Some(entry) = entry {
            out.push(unicode_emoji_reaction_item(entry));
        }
    }
    assert(all.take(all.len() as int) =~= all);
    out
}

/// The items of the emojis that are offered first.
pub fn quick_unicode_emoji_reaction_items(favorites: &Vec<String>) -> (r: Vec<EmojiReactionItem>)
    ensures
        are_unicode_items(
            r@,
            quick_items(quick_emojis(texts(favorites@)).map_values(|t: Seq<char>| emoji_entry(t))),
        ),
{
    let quick = effective_quick_unicode_emojis(favorites);
    let ghost wanted = texts(quick@).map_values(|t: Seq<char>| emoji_entry(t));
    let mut found: Vec<Option<EmojiEntry>> = Vec::new();
    let mut i: usize = 0;
    assert(found_entries(found@) =~= wanted.take(0));
    while i < quick.len()
        invariant
            i <= quick@.len(),
            wanted == texts(quick@).map_values(|t: Seq<char>| emoji_entry(t)),
            found_entries(found@) == wanted.take(i as int),
        decreases quick@.len() - i,
    {
        let ghost before = found@;
        let entry = find_emoji(quick[i].as_str());
        assert(texts(quick@)[i as int] == quick@[i as int]@);
        found.push(entry);
        assert(found_entries(found@) =~= found_entries(before).push(entry_view(entry)));
        assert(wanted.take(i + 1) =~= wanted.take(i as int).push(wanted[i as int]));
        i += 1;
    }
    assert(wanted.take(i as int) =~= wanted);
    items_of_found(found)
}

/// The items of the emojis of a list that are not offered first.
pub open spec fn remaining_items(all: Seq<EmojiEntry>, quick: Seq<Seq<char>>) -> Seq<UnicodeItem>
    decreases all.len(),
{
    if all.len() == 0 {
        Seq::empty()
    } else if has_text(quick, all.last().text@) {
        remaining_items(all.drop_last(), quick)
    } else {
        remaining_items(all.drop_last(), quick).push(item_of((all.last().text@, all.last().name@)))
    }
}

/// No emoji is offered twice: what is offered first is not among the rest.
pub proof fn no_emoji_is_offered_twice(all: Seq<EmojiEntry>, quick: Seq<Seq<char>>)
    ensures
        forall|i: int|
            0 <= i < remaining_items(all, quick).len() ==> !has_text(
                quick,
                (#[trigger] remaining_items(all, quick)[i]).text,
            ),
    decreases all.len(),
{
    if all.len() > 0 {
        no_emoji_is_offered_twice(all.drop_last(), quick);
        let before = remaining_items(all.drop_last(), quick);
        let items = remaining_items(all, quick);
        assert forall|i: int| 0 <= i < items.len() implies !has_text(quick, (#[trigger] items[i]).text) by {
            if i < before.len() {
                assert(items[i] == before[i]);
            }
        }
    }
}

pub fn items_not_offered_first(all: Vec<EmojiEntry>, favorites: &Vec<String>) -> (r: Vec<EmojiReactionItem>)
    ensures
        are_unicode_items(r@, remaining_items(all@, quick_emojis(texts(favorites@)))),
{
    let quick = effective_quick_unicode_emojis(favorites);
    let ghost entries = all@;
    let mut out: Vec<EmojiReactionItem> = Vec::new();
    assert(entries.take(0) =~= Seq::<EmojiEntry>::empty());
    for entry in it: all
        invariant
            it.seq() == entries,
            texts(quick@) == quick_emojis(texts(favorites@)),
            are_unicode_items(out@, remaining_items(entries.take(it.index() as int), texts(quick@))),
    {
        let ghost i = it.index() as int;
        assert(entries.take(i + 1).drop_last() =~= entries.take(i));
        assert(entries[i] == entry);
        if !list_contains(quick.as_slice(), entry.text.as_str()) {
            out.push(unicode_emoji_reaction_item(entry));
        }
    }
    assert(entries.take(entries.len() as int) =~= entries);
    out
}

/// The items of all emojis that are not offered first.
pub fn remaining_unicode_emoji_reaction_items(favorites: &Vec<String>) -> (r: Vec<EmojiReactionItem>)
    ensures
        exists|all: Seq<EmojiEntry>| #[trigger]
            lists_all(all) && are_unicode_items(r@, remaining_items(all, quick_emojis(texts(favorites@)))),
{
    let all = list_emojis();
    let ghost entries = all@;
    let r = items_not_offered_first(all, favorites);
    assert(lists_all(entries) && are_unicode_items(r@, remaining_items(entries, quick_emojis(texts(favorites@)))));
    r
}

/// Custom emojis that can be used now.
pub open spec fn available(emojis: Seq<CustomEmojiInfo>) -> Seq<CustomEmojiInfo>
    decreases emojis.len(),
{
    if emojis.len() == 0 {
        Seq::empty()
    } else if emojis.last().available {
        available(emojis.drop_last()).push(emojis.last())
    } else {
        available(emojis.drop_last())
    }
}

/// Whether an item stands for a custom emoji.
pub open spec fn is_custom_item(item: EmojiReactionItem, e: CustomEmojiInfo) -> bool {
    item.label@ == title_case(split_on(e.name@, '_')) && item.emoji == (ReactionEmoji::Custom {
        id: e.id,
        name: Some(e.name),
        animated: e.animated,
        image_url: e.image_url,
    })
}

/// The items with those of the custom emojis of a guild behind them.
pub fn with_custom_emojis(items: Vec<EmojiReactionItem>, emojis: &Vec<CustomEmojiInfo>) -> (r: Vec<EmojiReactionItem>)
    ensures
        r@.len() == items@.len() + available(emojis@).len(),
        r@.take(items@.len() as int) == items@,
        forall|k: int|
            0 <= k < available(emojis@).len() ==> is_custom_item(#[trigger] r@[items@.len() + k], available(emojis@)[k]),
{
    let ghost front = items@;
    let mut out = items;
    let mut i: usize = 0;
    assert(emojis@.take(0) =~= Seq::<CustomEmojiInfo>::empty());
    assert(out@.take(front.len() as int) =~= front);
    while i < emojis.len()
        invariant
            i <= emojis@.len(),
            out@.len() == front.len() + available(emojis@.take(i as int)).len(),
            out@.take(front.len() as int) == front,
            forall|k: int|
                0 <= k < available(emojis@.take(i as int)).len() ==> is_custom_item(
                    #[trigger] out@[front.len() + k],
                    available(emojis@.take(i as int))[k],
                ),
        decreases emojis@.len() - i,
    {
        assert(emojis@.take(i + 1).drop_last() =~= emojis@.take(i as int));
        if emojis[i].available {
            let ghost before = out@;
            out.push(custom_emoji_reaction_item(&emojis[i]));
            assert(out@.take(front.len() as int) =~= before.take(front.len() as int));
            assert forall|k: int| 0 <= k < available(emojis@.take(i + 1)).len() implies is_custom_item(
                #[trigger] out@[front.len() + k],
                available(emojis@.take(i + 1))[k],
            ) by {
                if k < available(emojis@.take(i as int)).len() {
                    assert(out@[front.len() + k] == before[front.len() + k]);
                }
            }
        }
        i += 1;
    }
    assert(emojis@.take(i as int) =~= emojis@);
    out
}

} // verus!
