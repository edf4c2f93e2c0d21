//! What a key does where it is pressed, and what stands below what.

use crate::ids::ChannelId;
use crate::state::channel_pane::{
    confirmed_row, pane_rows, shows_activity, ChannelConfirm, ChannelKind, ChannelPaneRow, RecipientActivity,
};
use crate::state::channel_text::{label_of, pane_title, MessagePaneSource, NamedChannel};
use crate::state::dashboard::DashboardState;
use crate::state::emoji::{item_of, quick_items};
use crate::state::gif_picker::{turned, GifPickerState};
use crate::state::guilds::{confirmed, ActiveGuildScope, GuildConfirm, GuildEntryView};
use crate::state::local_upload_preview::{
    first_pending, is_candidate, place_of_preview, place_of_result, synced, LocalUploadPreviewState,
};
use crate::state::message_actions::chosen;
use crate::state::message_viewport::PaneContent;
use crate::state::model::{ChannelPaneEntry, FocusPane};
use crate::state::popups::MessageActionMenuState;
use vstd::prelude::*;
use vstd::string::*;

verus! {

// ---- Rows that are opened ----

/// Opening a row of the guild list leads to what the row shows: the conversations, the guild, or what
/// the folder holds. Where there is no row, nothing happens.
pub proof fn opening_a_row_leads_to_its_guild(rows: Seq<GuildEntryView>, selected: int)
    ensures
        confirmed(rows, selected) is Nothing <==> !(0 <= selected < rows.len()),
        confirmed(rows, selected) matches GuildConfirm::Activate { scope: ActiveGuildScope::Guild(id) }
            ==> rows[selected] is Guild && rows[selected]->Guild_state.id == id,
        0 <= selected < rows.len() && rows[selected] is Guild ==> confirmed(rows, selected) is Activate,
        0 <= selected < rows.len() && rows[selected] is DirectMessages ==> confirmed(rows, selected)
            == (GuildConfirm::Activate { scope: ActiveGuildScope::DirectMessages }),
        confirmed(rows, selected) is ToggleFolder <==> 0 <= selected < rows.len() && rows[selected] is FolderHeader,
        confirmed(rows, selected) matches GuildConfirm::Activate { scope } ==> !(scope is Unset),
{
}

/// Opening a row of the channel list leads to the channel or thread that the row shows. A category is
/// opened or closed, and for someone in a call the actions are offered.
pub proof fn opening_a_row_leads_to_its_channel(entries: Seq<ChannelPaneEntry>, selected: int)
    ensures
        confirmed_row(entries, selected) is Nothing <==> !(0 <= selected < entries.len()),
        confirmed_row(entries, selected) matches ChannelConfirm::Activate { channel_id } ==> (entries[selected]
            matches ChannelPaneEntry::Channel { channel_id: id, .. } ==> id == channel_id) && (entries[selected]
            matches ChannelPaneEntry::Thread { channel_id: id, .. } ==> id == channel_id),
        confirmed_row(entries, selected) is Activate <==> 0 <= selected < entries.len() && (entries[selected] is Channel
            || entries[selected] is Thread),
        confirmed_row(entries, selected) is ToggleCategory <==> 0 <= selected < entries.len()
            && entries[selected] is CategoryHeader,
        confirmed_row(entries, selected) is OpenActions <==> 0 <= selected < entries.len()
            && entries[selected] is VoiceParticipant,
{
}

// ---- Rows of the channel list ----

/// Every row of the channel list has its line, and where the other of a conversation is there and does
/// something, that stands on the line directly below.
pub proof fn activities_stand_below_their_conversation(
    kinds: Seq<ChannelKind>,
    recipients: Seq<Option<RecipientActivity>>,
    n: int,
    i: int,
) -> (at: int)
    requires
        0 <= i < n <= kinds.len(),
        kinds.len() == recipients.len(),
        n <= usize::MAX,
    ensures
        0 <= at < pane_rows(kinds, recipients, n).len(),
        pane_rows(kinds, recipients, n)[at] == (ChannelPaneRow::Entry { entry_index: i as usize }),
        shows_activity(kinds[i], recipients[i]) ==> at + 1 < pane_rows(kinds, recipients, n).len() && pane_rows(
            kinds,
            recipients,
            n,
        )[at + 1] == (ChannelPaneRow::Activity {
            owner_entry_index: i as usize,
            recipient_id: recipients[i]->0.recipient_id,
        }),
        !shows_activity(kinds[i], recipients[i]) ==> at + 1 == pane_rows(kinds, recipients, n).len() || pane_rows(
            kinds,
            recipients,
            n,
        )[at + 1] == (ChannelPaneRow::Entry { entry_index: (i + 1) as usize }),
    decreases n,
{
    let rows = pane_rows(kinds, recipients, n);
    let before = pane_rows(kinds, recipients, n - 1);
    if i == n - 1 {
        assert(rows[before.len() as int] == (ChannelPaneRow::Entry { entry_index: i as usize }));
        before.len() as int
    } else {
        let at = activities_stand_below_their_conversation(kinds, recipients, n - 1, i);
        assert(rows[at] == before[at]);
        if at + 1 < before.len() {
            assert(rows[at + 1] == before[at + 1]);
        } else {
            lemma_last_row(kinds, recipients, n - 1);
            assert(rows[at + 1] == (ChannelPaneRow::Entry { entry_index: (n - 1) as usize }));
        }
        at
    }
}

proof fn lemma_last_row(kinds: Seq<ChannelKind>, recipients: Seq<Option<RecipientActivity>>, n: int)
    requires
        0 < n <= usize::MAX,
    ensures
        pane_rows(kinds, recipients, n).len() > 0,
        pane_rows(kinds, recipients, n).last() matches ChannelPaneRow::Entry { entry_index } ==> entry_index == n - 1,
        pane_rows(kinds, recipients, n).last() matches ChannelPaneRow::Activity { owner_entry_index, .. }
            ==> owner_entry_index == n - 1,
{
}

/// How many conversations show what the other does.
pub open spec fn activity_count(kinds: Seq<ChannelKind>, recipients: Seq<Option<RecipientActivity>>, n: int) -> int
    decreases n,
{
    if n <= 0 {
        0
    } else {
        activity_count(kinds, recipients, n - 1) + (if kinds[n - 1] is DirectMessage && recipients[n - 1] is Some
            && recipients[n - 1]->0.has_activity && !(recipients[n - 1]->0.status is Offline) && !(
        recipients[n - 1]->0.status is Unknown) {
            1int
        } else {
            0
        })
    }
}

/// There are no other lines.
pub proof fn lines_are_rows_and_activities(kinds: Seq<ChannelKind>, recipients: Seq<Option<RecipientActivity>>, n: int)
    requires
        0 <= n,
    ensures
        pane_rows(kinds, recipients, n).len() == n + activity_count(kinds, recipients, n),
    decreases n,
{
    if n > 0 {
        lines_are_rows_and_activities(kinds, recipients, n - 1);
    }
}

// ---- The newest message ----

/// Switching following on selects the newest item, and keeps it visible. Switching it off leaves the
/// cursor where it is. Switching twice restores the switch, and outside the message pane nothing
/// happens.
pub proof fn following_is_switched(d: DashboardState, c: PaneContent)
    requires
        c.items() <= usize::MAX,
    ensures
        d.focus != FocusPane::Messages ==> d.follow_toggled(c) == d,
        d.focus == FocusPane::Messages ==> ({
            let v = d.navigation.viewport;
            let w = d.follow_toggled(c).navigation.viewport;
            &&& w.message_auto_follow == !v.message_auto_follow
            &&& w.message_auto_follow && c.items() > 0 ==> w.selected_message == c.items() - 1
                && w.message_keep_selection_visible
            &&& !w.message_auto_follow && v.selected_message < c.items() ==> w.selected_message == v.selected_message
            &&& d.follow_toggled(c).follow_toggled(c).navigation.viewport.message_auto_follow == v.message_auto_follow
            &&& d.follow_toggled(c).focus == d.focus
        }),
{
}

// ---- Names ----

/// The label of a channel ends with its name, and its first sign tells what it is: an at sign for a
/// conversation between two, none for a group or a category, a number sign for all others.
pub proof fn labels_tell_the_name(c: NamedChannel, id: ChannelId)
    ensures
        label_of(Some(c), id).len() == c.name@.len() + (if c.kind is GroupDirectMessage || c.kind is Category {
            0int
        } else {
            1
        }),
        label_of(Some(c), id).skip(label_of(Some(c), id).len() - c.name@.len()) == c.name@,
        c.kind is DirectMessage ==> label_of(Some(c), id)[0] == '@',
        !(c.kind is DirectMessage || c.kind is GroupDirectMessage || c.kind is Category) ==> label_of(Some(c), id)[0]
            == '#',
        label_of(None, id)[0] == '#',
{
    reveal_strlit("@");
    reveal_strlit("#");
    reveal_strlit("#channel-");
    assert(label_of(Some(c), id).skip(label_of(Some(c), id).len() - c.name@.len()) =~= c.name@);
}

/// The title of the message pane holds the label of its channel, and tells whether the pinned messages
/// or the threads are shown.
pub proof fn titles_hold_the_label(source: MessagePaneSource, label: Seq<char>)
    ensures
        source is PinnedMessages ==> label.is_prefix_of(pane_title(Some(source), label)) && pane_title(
            Some(source),
            label,
        ).len() > label.len(),
        source is ChannelThreads ==> pane_title(Some(source), label).skip(
            pane_title(Some(source), label).len() - label.len(),
        ) == label && pane_title(Some(source), label).len() > label.len(),
        !(source is PinnedMessages) && !(source is ChannelThreads) ==> pane_title(Some(source), label) == label,
{
    reveal_strlit(" pinned messages");
    reveal_strlit("Threads · ");
    let title = pane_title(Some(source), label);
    if source is PinnedMessages {
        assert(title.take(label.len() as int) =~= label);
    }
    if source is ChannelThreads {
        assert(title.skip(title.len() - label.len()) =~= label);
    }
}

// ---- Emojis that are offered first ----

/// Each text that stands for an emoji is offered as one, and those that stand for none are left out.
pub proof fn emojis_are_offered(found: Seq<Option<(Seq<char>, Seq<char>)>>, i: int) -> (k: int)
    requires
        0 <= i < found.len(),
        found[i] is Some,
    ensures
        0 <= k < quick_items(found).len(),
        k <= i,
        quick_items(found)[k].text == (found[i]->0).0,
        quick_items(found)[k] == item_of(found[i]->0),
    decreases found.len(),
{
    let rest = found.drop_last();
    if i == found.len() - 1 {
        lemma_at_most(rest);
        quick_items(rest).len() as int
    } else {
        let k = emojis_are_offered(rest, i);
        assert(quick_items(found)[k] == quick_items(rest)[k]);
        k
    }
}

proof fn lemma_at_most(found: Seq<Option<(Seq<char>, Seq<char>)>>)
    ensures
        quick_items(found).len() <= found.len(),
    decreases found.len(),
{
    if found.len() > 0 {
        lemma_at_most(found.drop_last());
    }
}

/// Each emoji that is offered is one that a text stands for.
pub proof fn only_emojis_are_offered(found: Seq<Option<(Seq<char>, Seq<char>)>>, k: int) -> (i: int)
    requires
        0 <= k < quick_items(found).len(),
    ensures
        k <= i < found.len(),
        found[i] is Some,
        quick_items(found)[k].text == (found[i]->0).0,
    decreases found.len(),
{
    let rest = found.drop_last();
    lemma_at_most(rest);
    if k < quick_items(rest).len() {
        let i = only_emojis_are_offered(rest, k);
        assert(rest[i] == found[i]);
        i
    } else {
        found.len() - 1
    }
}

// ---- Animations ----

/// A page back leads to where a page ahead came from. Nothing is turned while a page is loaded, nor
/// behind the last page or before the first.
pub proof fn pages_are_turned_one_by_one(p: GifPickerState, q: GifPickerState)
    ensures
        p.loading ==> turned(p, true) is None && turned(p, false) is None,
        turned(p, true) is Some <==> !p.loading && p.has_next,
        turned(p, false) is Some <==> !p.loading && p.page > 1,
        turned(p, true) == Some(q.page) && 1 <= p.page < u32::MAX && !q.loading ==> turned(q, false) == Some(p.page),
        turned(p, true) matches Some(page) ==> p.page < u32::MAX ==> page == p.page + 1,
        turned(p, false) matches Some(page) ==> page == p.page - 1,
{
}

// ---- Previews of what is sent ----

proof fn lemma_preview_place<P>(previews: Seq<LocalUploadPreviewState<P>>, index: usize, name: Seq<char>)
    ensures
        0 <= place_of_preview(previews, index, name) <= previews.len(),
        place_of_preview(previews, index, name) < previews.len() ==> ({
            let p = previews[place_of_preview(previews, index, name)];
            p.attachment_index == index && p.filename@ == name
        }),
        forall|j: int|
            0 <= j < place_of_preview(previews, index, name) ==> !((#[trigger] previews[j]).attachment_index == index
                && previews[j].filename@ == name),
    decreases previews.len(),
{
    if previews.len() > 0 && !(previews[0].attachment_index == index && previews[0].filename@ == name) {
        let rest = previews.drop_first();
        lemma_preview_place(rest, index, name);
        assert forall|j: int| 0 <= j < place_of_preview(previews, index, name) implies !((
        #[trigger] previews[j]).attachment_index == index && previews[j].filename@ == name) by {
            if j > 0 {
                assert(rest[j - 1] == previews[j]);
            }
        }
    }
}

/// Whether a preview is that of one of the first files: an image, under its own name.
pub open spec fn is_preview_of<P>(names: Seq<String>, k: int, p: LocalUploadPreviewState<P>) -> bool {
    &&& p.attachment_index < k
    &&& p.filename@ == names[p.attachment_index as int]@
    &&& is_candidate(p.filename@)
}

/// Whether a file has a preview.
pub open spec fn has_preview<P>(previews: Seq<LocalUploadPreviewState<P>>, i: int) -> bool {
    exists|j: int| 0 <= j < previews.len() && (#[trigger] previews[j]).attachment_index == i
}

proof fn lemma_synced<P>(names: Seq<String>, previous: Seq<LocalUploadPreviewState<P>>, generation: u64, k: int)
    requires
        0 <= k <= names.len() <= usize::MAX,
    ensures
        ({
            let s = synced(names, previous, generation, k);
            &&& forall|j: int| 0 <= j < s.previews.len() ==> is_preview_of(names, k, #[trigger] s.previews[j])
            &&& forall|i: int| 0 <= i < k && is_candidate(#[trigger] names[i]@) ==> has_preview(s.previews, i)
            &&& forall|a: int, b: int|
                0 <= a < b < s.previews.len() ==> (#[trigger] s.previews[a]).attachment_index < (
                #[trigger] s.previews[b]).attachment_index
            &&& forall|j: int|
                0 <= j < s.previews.len() ==> (#[trigger] s.previews[j]).state is Pending || previous.contains(
                    s.previews[j],
                )
            &&& forall|j: int| 0 <= j < s.previous.len() ==> previous.contains(#[trigger] s.previous[j])
        }),
    decreases k,
{
    if k <= 0 {
        assert forall|j: int| 0 <= j < previous.len() implies previous.contains(#[trigger] previous[j]) by {}
    } else {
        lemma_synced(names, previous, generation, k - 1);
        let s = synced(names, previous, generation, k - 1);
        let t = synced(names, previous, generation, k);
        let name = names[k - 1];
        let at = place_of_preview(s.previous, (k - 1) as usize, name@);
        lemma_preview_place(s.previous, (k - 1) as usize, name@);
        assert forall|j: int| 0 <= j < t.previews.len() implies is_preview_of(names, k, #[trigger] t.previews[j]) by {
            if j < s.previews.len() {
                assert(is_preview_of(names, k - 1, s.previews[j]));
            }
        }
        assert forall|i: int| 0 <= i < k && is_candidate(#[trigger] names[i]@) implies has_preview(t.previews, i) by {
            if i < k - 1 {
                assert(has_preview(s.previews, i));
                let j = choose|j: int| 0 <= j < s.previews.len() && (#[trigger] s.previews[j]).attachment_index == i;
                assert(t.previews[j].attachment_index == i);
            } else {
                assert(t.previews[t.previews.len() - 1].attachment_index == i);
            }
        }
        assert forall|a: int, b: int| 0 <= a < b < t.previews.len() implies (
        #[trigger] t.previews[a]).attachment_index < (#[trigger] t.previews[b]).attachment_index by {
            assert(t.previews[a] == s.previews[a]);
            assert(is_preview_of(names, k - 1, s.previews[a]));
            if b < s.previews.len() {
                assert(t.previews[b] == s.previews[b]);
            }
        }
        assert forall|j: int| 0 <= j < t.previous.len() implies previous.contains(#[trigger] t.previous[j]) by {
            if t.previous != s.previous {
                if j < at {
                    assert(t.previous[j] == s.previous[j]);
                } else {
                    assert(t.previous[j] == s.previous[j + 1]);
                }
            }
        }
    }
}

/// Each image among the files to send has one preview, in the order of the files, and no other file has
/// one. A preview waits to be made, or is one that was there before.
pub proof fn every_image_to_send_has_a_preview<P>(
    names: Seq<String>,
    previous: Seq<LocalUploadPreviewState<P>>,
    generation: u64,
    i: int,
    a: int,
    b: int,
)
    requires
        names.len() <= usize::MAX,
    ensures
        ({
            let previews = synced(names, previous, generation, names.len() as int).previews;
            &&& 0 <= i < names.len() && is_candidate(names[i]@) ==> has_preview(previews, i)
            &&& 0 <= a < previews.len() ==> is_preview_of(names, names.len() as int, previews[a]) && (
            previews[a].state is Pending || previous.contains(previews[a]))
            &&& 0 <= a < b < previews.len() ==> previews[a].attachment_index < previews[b].attachment_index
        }),
{
    lemma_synced(names, previous, generation, names.len() as int);
}

proof fn lemma_kept<P>(
    names: Seq<String>,
    previous: Seq<LocalUploadPreviewState<P>>,
    generation: u64,
    p: LocalUploadPreviewState<P>,
    k: int,
)
    requires
        0 <= k <= names.len() <= usize::MAX,
        previous.contains(p),
        forall|a: int, b: int|
            0 <= a < previous.len() && 0 <= b < previous.len() && a != b ==> (
            #[trigger] previous[a]).attachment_index != (#[trigger] previous[b]).attachment_index,
        p.attachment_index < names.len(),
        p.filename@ == names[p.attachment_index as int]@,
        is_candidate(p.filename@),
    ensures
        k <= p.attachment_index ==> synced(names, previous, generation, k).previous.contains(p),
        k > p.attachment_index ==> synced(names, previous, generation, k).previews.contains(p),
    decreases k,
{
    if k > 0 {
        lemma_kept(names, previous, generation, p, k - 1);
        lemma_synced(names, previous, generation, k - 1);
        let s = synced(names, previous, generation, k - 1);
        let t = synced(names, previous, generation, k);
        let name = names[k - 1];
        let at = place_of_preview(s.previous, (k - 1) as usize, name@);
        lemma_preview_place(s.previous, (k - 1) as usize, name@);
        if k <= p.attachment_index {
            let j = choose|j: int| 0 <= j < s.previous.len() && s.previous[j] == p;
            if t.previous != s.previous {
                if j < at {
                    assert(t.previous[j] == p);
                } else {
                    assert(j != at);
                    assert(t.previous[j - 1] == p);
                }
            }
        } else if k - 1 == p.attachment_index {
            let j = choose|j: int| 0 <= j < s.previous.len() && s.previous[j] == p;
            assert(at < s.previous.len());
            let x = s.previous[at];
            assert(previous.contains(x));
            let a = choose|a: int| 0 <= a < previous.len() && previous[a] == x;
            let b = choose|b: int| 0 <= b < previous.len() && previous[b] == p;
            assert(x == p) by {
                if a != b {
                    assert(previous[a].attachment_index != previous[b].attachment_index);
                }
            }
            assert(t.previews[t.previews.len() - 1] == p);
        } else {
            let j = choose|j: int| 0 <= j < s.previews.len() && s.previews[j] == p;
            assert(t.previews[j] == p);
        }
    }
}

/// A preview stays while its file stays at its place.
pub proof fn previews_stay_with_their_file<P>(
    names: Seq<String>,
    previous: Seq<LocalUploadPreviewState<P>>,
    generation: u64,
    p: LocalUploadPreviewState<P>,
)
    requires
        names.len() <= usize::MAX,
        previous.contains(p),
        forall|a: int, b: int|
            0 <= a < previous.len() && 0 <= b < previous.len() && a != b ==> (
            #[trigger] previous[a]).attachment_index != (#[trigger] previous[b]).attachment_index,
        p.attachment_index < names.len(),
        p.filename@ == names[p.attachment_index as int]@,
        is_candidate(p.filename@),
    ensures
        synced(names, previous, generation, names.len() as int).previews.contains(p),
{
    lemma_kept(names, previous, generation, p, names.len() as int);
}

/// The first preview that waits is taken up first.
pub proof fn the_first_that_waits_is_taken<P>(previews: Seq<LocalUploadPreviewState<P>>, j: int)
    ensures
        0 <= first_pending(previews) <= previews.len(),
        first_pending(previews) < previews.len() ==> previews[first_pending(previews)].state is Pending,
        0 <= j < first_pending(previews) ==> !(previews[j].state is Pending),
    decreases previews.len(),
{
    if previews.len() > 0 && !(previews[0].state is Pending) {
        let rest = previews.drop_first();
        the_first_that_waits_is_taken(rest, j - 1);
        if 0 < j < first_pending(previews) {
            assert(rest[j - 1] == previews[j]);
        }
    }
}

/// A result goes to the preview that it was made for, and to no other.
pub proof fn results_go_to_their_preview<P>(
    previews: Seq<LocalUploadPreviewState<P>>,
    index: usize,
    generation: u64,
    j: int,
)
    ensures
        0 <= place_of_result(previews, index, generation) <= previews.len(),
        place_of_result(previews, index, generation) < previews.len() ==> ({
            let p = previews[place_of_result(previews, index, generation)];
            p.attachment_index == index && p.generation == generation
        }),
        0 <= j < previews.len() && previews[j].attachment_index == index && previews[j].generation == generation
            ==> place_of_result(previews, index, generation) <= j,
    decreases previews.len(),
{
    if previews.len() > 0 && !(previews[0].attachment_index == index && previews[0].generation == generation) {
        let rest = previews.drop_first();
        results_go_to_their_preview(rest, index, generation, j - 1);
        if 0 < j < previews.len() {
            assert(rest[j - 1] == previews[j]);
        }
    }
}

// ---- Menus ----

/// What is chosen in a menu is one of its actions, and the one that is selected where there is such.
pub proof fn chosen_actions_are_offered(menu: MessageActionMenuState, count: int)
    requires
        count > 0,
    ensures
        0 <= chosen(menu, count) < count,
        menu.selected < count ==> chosen(menu, count) == menu.selected,
        menu.selected >= count ==> chosen(menu, count) == count - 1,
{
}

} // verus!
