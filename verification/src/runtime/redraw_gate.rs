//! A fingerprint of what the dashboard shows, by which an event that changes nothing visible needs no
//! frame.
//!
//! What only a key or the mouse changes is left out: that draws a frame in any case.

use std::collections::hash_map::DefaultHasher;
use std::hash::Hasher;
use vstd::bytes::{lemma_auto_spec_u64_to_from_le_bytes, spec_u64_from_le_bytes, spec_u64_to_le_bytes, u64_to_le_bytes};
use vstd::prelude::*;
use vstd::std_specs::hash::DefaultHasherAdditionalSpecFns;
use vstd::string::*;
use vstd::utf8::*;

verus! {

/// A row of the guild list: the entry, and its unread badge where it is a guild.
pub struct GuildRowParts {
    pub entry: String,
    pub unread: Option<String>,
}

/// The unread badge of a channel and how many messages are unread.
pub struct ChannelUnreadParts {
    pub badge: String,
    pub messages: u64,
}

/// A row of the channel list.
pub enum ChannelRowParts {
    Entry { entry: String, unread: Option<ChannelUnreadParts> },
    Activity { activity: String },
}

/// The tabs of the inbox.
#[derive(Clone, Copy, Debug, PartialEq, Eq, Structural)]
pub enum NotificationInboxTab {
    Mentions,
    Unread,
}

/// The open inbox.
pub struct InboxParts {
    pub tab: NotificationInboxTab,
    pub items: String,
    pub mentions_status: String,
    pub unread_mentions: u64,
    pub loading: bool,
}

/// A row of the member list.
pub struct MemberParts {
    pub user_id: u64,
    pub display_name: String,
    pub username: Option<String>,
    pub is_bot: bool,
    pub status: String,
}

/// What the view is about, and the notice that lies over it.
pub struct SelectionParts {
    pub message_pane_source: String,
    pub selected_guild: String,
    pub selected_channel: String,
    pub active_popup: String,
    pub toast: String,
}

/// The header.
pub struct HeaderParts {
    pub current_user: String,
    pub voice_self_status: String,
    pub voice_connection_label: String,
    pub update_version: String,
    pub stream_info: String,
}

/// The messages with what stands below them.
pub struct MessagePaneParts {
    pub visible_messages: String,
    pub selected_message: String,
    pub thread_cards: String,
    pub typing_footer: String,
    pub composer_lock: String,
    pub new_messages: u64,
}

/// The popups that are filled from the background.
pub struct PopupParts {
    pub attachment_viewer: String,
    pub profile: String,
    pub profile_status: String,
    pub profile_load_error: String,
    pub profile_avatar_url: String,
    pub profile_activities: String,
    pub profile_activity_rows: String,
    pub attachment_downloads: String,
    pub reaction_users: String,
    pub existing_reactions: String,
    pub own_reactions: String,
    pub reaction_items: String,
    pub poll_items: String,
    pub mention_candidates: String,
    pub emoji_candidates: String,
    pub command_candidates: String,
}

/// What an event in the background can change on the screen, each part as a text.
pub struct ViewParts {
    pub selection: SelectionParts,
    pub header: HeaderParts,
    pub messages: MessagePaneParts,
    pub direct_message_unread: u64,
    pub guilds: Vec<GuildRowParts>,
    pub channels: Vec<ChannelRowParts>,
    pub members: Vec<MemberParts>,
    pub member_scroll: usize,
    pub member_height: usize,
    pub popups: PopupParts,
    pub options_open: bool,
    pub option_items: String,
    pub search: String,
    pub forum_loading: bool,
    pub inbox: Option<InboxParts>,
}

// ---- Parts ----

/// Something that goes into the fingerprint.
pub enum Part {
    Text(Seq<char>),
    Number(u64),
    Flag(bool),
}

/// The byte that ends a text; no text holds it.
pub const TEXT_END: u8 = 0xff;

/// The bytes of a part. The first tells what it is.
pub open spec fn part_bytes(p: Part) -> Seq<u8> {
    match p {
        Part::Text(text) => seq![0u8] + encode_utf8(text) + seq![TEXT_END],
        Part::Number(n) => seq![1u8] + spec_u64_to_le_bytes(n),
        Part::Flag(b) => seq![2u8, if b { 1u8 } else { 0u8 }],
    }
}

pub open spec fn all_bytes(parts: Seq<Part>) -> Seq<u8>
    decreases parts.len(),
{
    if parts.len() == 0 {
        Seq::empty()
    } else {
        all_bytes(parts.drop_last()) + part_bytes(parts.last())
    }
}

pub open spec fn text_part(text: Seq<char>) -> Seq<Part> {
    seq![Part::Text(text)]
}

pub open spec fn number_part(n: u64) -> Seq<Part> {
    seq![Part::Number(n)]
}

pub open spec fn flag_part(b: bool) -> Seq<Part> {
    seq![Part::Flag(b)]
}

pub open spec fn optional_part(s: Option<String>) -> Seq<Part> {
    match s {
        Some(s) => seq![Part::Flag(true), Part::Text(s@)],
        None => seq![Part::Flag(false)],
    }
}

/// What the view is about, the header, the messages, and how many private conversations are unread.
pub open spec fn head_parts(v: ViewParts) -> Seq<Part> {
    seq![
        Part::Text(v.selection.message_pane_source@),
        Part::Text(v.selection.selected_guild@),
        Part::Text(v.selection.selected_channel@),
        Part::Text(v.selection.active_popup@),
        Part::Text(v.selection.toast@),
        Part::Text(v.header.current_user@),
        Part::Text(v.header.voice_self_status@),
        Part::Text(v.header.voice_connection_label@),
        Part::Text(v.header.update_version@),
        Part::Text(v.header.stream_info@),
        Part::Text(v.messages.visible_messages@),
        Part::Text(v.messages.selected_message@),
        Part::Text(v.messages.thread_cards@),
        Part::Text(v.messages.typing_footer@),
        Part::Text(v.messages.composer_lock@),
        Part::Number(v.messages.new_messages),
        Part::Number(v.direct_message_unread),
    ]
}

pub open spec fn popup_parts(p: PopupParts) -> Seq<Part> {
    seq![
        Part::Text(p.attachment_viewer@),
        Part::Text(p.profile@),
        Part::Text(p.profile_status@),
        Part::Text(p.profile_load_error@),
        Part::Text(p.profile_avatar_url@),
        Part::Text(p.profile_activities@),
        Part::Text(p.profile_activity_rows@),
        Part::Text(p.attachment_downloads@),
        Part::Text(p.reaction_users@),
        Part::Text(p.existing_reactions@),
        Part::Text(p.own_reactions@),
        Part::Text(p.reaction_items@),
        Part::Text(p.poll_items@),
        Part::Text(p.mention_candidates@),
        Part::Text(p.emoji_candidates@),
        Part::Text(p.command_candidates@),
    ]
}

pub open spec fn guild_row(row: GuildRowParts) -> Seq<Part> {
    text_part(row.entry@) + optional_part(row.unread)
}

/// The rows of the guild list. A flag before each says that it comes, and one behind them that none does.
pub open spec fn guild_parts(v: Seq<GuildRowParts>) -> Seq<Part>
    decreases v.len(),
{
    if v.len() == 0 {
        flag_part(false)
    } else {
        flag_part(true) + (guild_row(v[0]) + guild_parts(v.drop_first()))
    }
}

pub open spec fn channel_row(row: ChannelRowParts) -> Seq<Part> {
    match row {
        ChannelRowParts::Entry { entry, unread } => match unread {
            Some(u) => seq![
                Part::Flag(true),
                Part::Flag(true),
                Part::Text(entry@),
                Part::Text(u.badge@),
                Part::Number(u.messages),
            ],
            None => seq![Part::Flag(true), Part::Flag(false), Part::Text(entry@)],
        },
        ChannelRowParts::Activity { activity } => seq![Part::Flag(false), Part::Text(activity@)],
    }
}

pub open spec fn channel_parts(v: Seq<ChannelRowParts>) -> Seq<Part>
    decreases v.len(),
{
    if v.len() == 0 {
        flag_part(false)
    } else {
        flag_part(true) + (channel_row(v[0]) + channel_parts(v.drop_first()))
    }
}

/// The members that are on the screen.
pub open spec fn visible_members(v: Seq<MemberParts>, scroll: usize, height: usize) -> Seq<MemberParts> {
    let from = if scroll <= v.len() { scroll as int } else { v.len() as int };
    let to = if from + height <= v.len() { from + height } else { v.len() as int };
    v.subrange(from, to)
}

pub open spec fn member_row(m: MemberParts) -> Seq<Part> {
    seq![Part::Number(m.user_id), Part::Text(m.display_name@), Part::Flag(m.is_bot), Part::Text(m.status@)]
        + optional_part(m.username)
}

pub open spec fn member_parts(v: Seq<MemberParts>) -> Seq<Part>
    decreases v.len(),
{
    if v.len() == 0 {
        flag_part(false)
    } else {
        flag_part(true) + (member_row(v[0]) + member_parts(v.drop_first()))
    }
}

/// The inbox counts while it is open, and how its mentions stand only on their tab.
pub open spec fn inbox_parts(inbox: Option<InboxParts>) -> Seq<Part> {
    match inbox {
        None => flag_part(false),
        Some(i) => flag_part(true) + text_part(i.items@) + (if i.tab == NotificationInboxTab::Mentions {
            seq![Part::Flag(true), Part::Text(i.mentions_status@)]
        } else {
            flag_part(false)
        }) + number_part(i.unread_mentions) + flag_part(i.loading),
    }
}

pub open spec fn option_parts(v: ViewParts) -> Seq<Part> {
    if v.options_open {
        seq![Part::Flag(true), Part::Text(v.option_items@)]
    } else {
        flag_part(false)
    }
}

/// The popups, the options while they are open, the search, the forum and the inbox.
pub open spec fn tail_parts(v: ViewParts) -> Seq<Part> {
    popup_parts(v.popups) + text_part(v.search@) + flag_part(v.forum_loading) + option_parts(v) + inbox_parts(v.inbox)
}

/// Everything that goes into the fingerprint, in order.
pub open spec fn signature_parts(v: ViewParts) -> Seq<Part> {
    head_parts(v) + (guild_parts(v.guilds@) + (channel_parts(v.channels@) + (member_parts(
        visible_members(v.members@, v.member_scroll, v.member_height),
    ) + tail_parts(v))))
}

/// The bytes whose hash is the fingerprint.
pub open spec fn signature_bytes(v: ViewParts) -> Seq<u8> {
    all_bytes(signature_parts(v))
}

// ---- Writing the parts ----

/// The bytes of the parts so far.
struct Parts {
    bytes: Vec<u8>,
    parts: Ghost<Seq<Part>>,
}

impl View for Parts {
    type V = Seq<Part>;

    closed spec fn view(&self) -> Seq<Part> {
        self.parts@
    }
}

impl Parts {
    spec fn wf(self) -> bool {
        self.bytes@ == all_bytes(self@)
    }

    fn new() -> (r: Parts)
        ensures
            r.wf(),
            r@ == Seq::<Part>::empty(),
    {
        let r = Parts { bytes: Vec::new(), parts: Ghost(Seq::empty()) };
        assert(r.bytes@ =~= all_bytes(r@));
        r
    }

    fn text(&mut self, text: &str)
        requires
            old(self).wf(),
        ensures
            final(self).wf(),
            final(self)@ == old(self)@.push(Part::Text(text@)),
    {
        self.bytes.push(0);
        self.bytes.extend_from_slice(text.as_bytes());
        self.bytes.push(TEXT_END);
        self.parts = Ghost(self.parts@.push(Part::Text(text@)));
        proof {
            assert(self@.drop_last() =~= old(self)@);
            assert(self.bytes@ =~= all_bytes(old(self)@) + part_bytes(Part::Text(text@)));
        }
    }

    fn number(&mut self, n: u64)
        requires
            old(self).wf(),
        ensures
            final(self).wf(),
            final(self)@ == old(self)@.push(Part::Number(n)),
    {
        let digits = u64_to_le_bytes(n);
        self.bytes.push(1);
        self.bytes.extend_from_slice(digits.as_slice());
        self.parts = Ghost(self.parts@.push(Part::Number(n)));
        proof {
            assert(self@.drop_last() =~= old(self)@);
            assert(self.bytes@ =~= all_bytes(old(self)@) + part_bytes(Part::Number(n)));
        }
    }

    fn flag(&mut self, b: bool)
        requires
            old(self).wf(),
        ensures
            final(self).wf(),
            final(self)@ == old(self)@.push(Part::Flag(b)),
    {
        self.bytes.push(2);
        self.bytes.push(if b { 1u8 } else { 0u8 });
        self.parts = Ghost(self.parts@.push(Part::Flag(b)));
        proof {
            assert(self@.drop_last() =~= old(self)@);
            assert(self.bytes@ =~= all_bytes(old(self)@) + part_bytes(Part::Flag(b)));
        }
    }

    fn optional(&mut self, text: &Option<String>)
        requires
            old(self).wf(),
        ensures
            final(self).wf(),
            final(self)@ == old(self)@ + optional_part(*text),
    {
        match text {
            Some(text) => {
                self.flag(true);
                self.text(text.as_str());
            },
            None => {
                self.flag(false);
            },
        }
        assert(self@ =~= old(self)@ + optional_part(*text));
    }

    fn head(&mut self, v: &ViewParts)
        requires
            old(self).wf(),
        ensures
            final(self).wf(),
            final(self)@ == old(self)@ + head_parts(*v),
    {
        self.text(v.selection.message_pane_source.as_str());
        self.text(v.selection.selected_guild.as_str());
        self.text(v.selection.selected_channel.as_str());
        self.text(v.selection.active_popup.as_str());
        self.text(v.selection.toast.as_str());
        self.text(v.header.current_user.as_str());
        self.text(v.header.voice_self_status.as_str());
        self.text(v.header.voice_connection_label.as_str());
        self.text(v.header.update_version.as_str());
        self.text(v.header.stream_info.as_str());
        self.text(v.messages.visible_messages.as_str());
        self.text(v.messages.selected_message.as_str());
        self.text(v.messages.thread_cards.as_str());
        self.text(v.messages.typing_footer.as_str());
        self.text(v.messages.composer_lock.as_str());
        self.number(v.messages.new_messages);
        self.number(v.direct_message_unread);
        assert(self@ =~= old(self)@ + head_parts(*v));
    }

    fn guilds(&mut self, v: &Vec<GuildRowParts>)
        requires
            old(self).wf(),
        ensures
            final(self).wf(),
            final(self)@ == old(self)@ + guild_parts(v@),
    {
        let mut i: usize = 0;
        assert(v@.skip(0) =~= v@);
        while i < v.len()
            invariant
                i <= v@.len(),
                self.wf(),
                self@ + guild_parts(v@.skip(i as int)) == old(self)@ + guild_parts(v@),
            decreases v@.len() - i,
        {
            let ghost before = self@;
            self.flag(true);
            self.text(v[i].entry.as_str());
            self.optional(&v[i].unread);
            assert(v@.skip(i as int).drop_first() =~= v@.skip(i + 1));
            assert(v@.skip(i as int)[0] == v@[i as int]);
            assert(self@ + guild_parts(v@.skip(i + 1)) =~= before + guild_parts(v@.skip(i as int)));
            i += 1;
        }
        let ghost before = self@;
        self.flag(false);
        assert(self@ =~= before + guild_parts(v@.skip(i as int)));
    }

    fn channel(&mut self, row: &ChannelRowParts)
        requires
            old(self).wf(),
        ensures
            final(self).wf(),
            final(self)@ == old(self)@ + channel_row(*row),
    {
        match row {
            ChannelRowParts::Entry { entry, unread } => {
                self.flag(true);
                self.flag(unread.is_some());
                self.text(entry.as_str());
                if let Some(u) = unread {
                    self.text(u.badge.as_str());
                    self.number(u.messages);
                }
            },
            ChannelRowParts::Activity { activity } => {
                self.flag(false);
                self.text(activity.as_str());
            },
        }
        assert(self@ =~= old(self)@ + channel_row(*row));
    }

    fn channels(&mut self, v: &Vec<ChannelRowParts>)
        requires
            old(self).wf(),
        ensures
            final(self).wf(),
            final(self)@ == old(self)@ + channel_parts(v@),
    {
        let mut i: usize = 0;
        assert(v@.skip(0) =~= v@);
        while i < v.len()
            invariant
                i <= v@.len(),
                self.wf(),
                self@ + channel_parts(v@.skip(i as int)) == old(self)@ + channel_parts(v@),
            decreases v@.len() - i,
        {
            let ghost before = self@;
            self.flag(true);
            self.channel(&v[i]);
            assert(v@.skip(i as int).drop_first() =~= v@.skip(i + 1));
            assert(v@.skip(i as int)[0] == v@[i as int]);
            assert(self@ + channel_parts(v@.skip(i + 1)) =~= before + channel_parts(v@.skip(i as int)));
            i += 1;
        }
        let ghost before = self@;
        self.flag(false);
        assert(self@ =~= before + channel_parts(v@.skip(i as int)));
    }

    fn members(&mut self, v: &Vec<MemberParts>, from: usize, to: usize)
        requires
            old(self).wf(),
            from <= to <= v@.len(),
        ensures
            final(self).wf(),
            final(self)@ == old(self)@ + member_parts(v@.subrange(from as int, to as int)),
    {
        let mut i: usize = from;
        while i < to
            invariant
                from <= i <= to <= v@.len(),
                self.wf(),
                self@ + member_parts(v@.subrange(i as int, to as int)) == old(self)@ + member_parts(
                    v@.subrange(from as int, to as int),
                ),
            decreases to - i,
        {
            let ghost before = self@;
            let m = &v[i];
            self.flag(true);
            self.number(m.user_id);
            self.text(m.display_name.as_str());
            self.flag(m.is_bot);
            self.text(m.status.as_str());
            self.optional(&m.username);
            assert(v@.subrange(i as int, to as int).drop_first() =~= v@.subrange(i + 1, to as int));
            assert(v@.subrange(i as int, to as int)[0] == *m);
            assert(self@ + member_parts(v@.subrange(i + 1, to as int)) =~= before + member_parts(
                v@.subrange(i as int, to as int),
            ));
            i += 1;
        }
        let ghost before = self@;
        self.flag(false);
        assert(self@ =~= before + member_parts(v@.subrange(i as int, to as int)));
    }

    fn popups(&mut self, p: &PopupParts)
        requires
            old(self).wf(),
        ensures
            final(self).wf(),
            final(self)@ == old(self)@ + popup_parts(*p),
    {
        self.text(p.attachment_viewer.as_str());
        self.text(p.profile.as_str());
        self.text(p.profile_status.as_str());
        self.text(p.profile_load_error.as_str());
        self.text(p.profile_avatar_url.as_str());
        self.text(p.profile_activities.as_str());
        self.text(p.profile_activity_rows.as_str());
        self.text(p.attachment_downloads.as_str());
        self.text(p.reaction_users.as_str());
        self.text(p.existing_reactions.as_str());
        self.text(p.own_reactions.as_str());
        self.text(p.reaction_items.as_str());
        self.text(p.poll_items.as_str());
        self.text(p.mention_candidates.as_str());
        self.text(p.emoji_candidates.as_str());
        self.text(p.command_candidates.as_str());
        assert(self@ =~= old(self)@ + popup_parts(*p));
    }

    fn inbox(&mut self, inbox: &Option<InboxParts>)
        requires
            old(self).wf(),
        ensures
            final(self).wf(),
            final(self)@ == old(self)@ + inbox_parts(*inbox),
    {
        match inbox {
            None => {
                self.flag(false);
            },
            Some(inbox) => {
                self.flag(true);
                self.text(inbox.items.as_str());
                if inbox.tab == NotificationInboxTab::Mentions {
                    self.flag(true);
                    self.text(inbox.mentions_status.as_str());
                } else {
                    self.flag(false);
                }
                self.number(inbox.unread_mentions);
                self.flag(inbox.loading);
            },
        }
        assert(self@ =~= old(self)@ + inbox_parts(*inbox));
    }

    fn tail(&mut self, v: &ViewParts)
        requires
            old(self).wf(),
        ensures
            final(self).wf(),
            final(self)@ == old(self)@ + tail_parts(*v),
    {
        self.popups(&v.popups);
        self.text(v.search.as_str());
        self.flag(v.forum_loading);
        if v.options_open {
            self.flag(true);
            self.text(v.option_items.as_str());
        } else {
            self.flag(false);
        }
        self.inbox(&v.inbox);
        assert(self@ =~= old(self)@ + tail_parts(*v));
    }
}

proof fn lemma_joined(a: Seq<Part>, b: Seq<Part>, c: Seq<Part>, d: Seq<Part>, e: Seq<Part>)
    ensures
        Seq::<Part>::empty() + a + b + c + d + e == a + (b + (c + (d + e))),
{
    assert(Seq::<Part>::empty() + a + b + c + d + e =~= a + (b + (c + (d + e))));
}

/// The fingerprint of a view.
pub fn view_signature(view: &ViewParts) -> (r: u64)
    ensures
        r == DefaultHasher::spec_finish(seq![signature_bytes(*view)]),
{
    let mut parts = Parts::new();
    parts.head(view);
    parts.guilds(&view.guilds);
    parts.channels(&view.channels);
    let count: usize = view.members.len();
    let from: usize = if view.member_scroll <= count { view.member_scroll } else { count };
    let to: usize = if view.member_height <= count - from { from + view.member_height } else { count };
    parts.members(&view.members, from, to);
    parts.tail(view);
    proof {
        lemma_joined(
            head_parts(*view),
            guild_parts(view.guilds@),
            channel_parts(view.channels@),
            member_parts(visible_members(view.members@, view.member_scroll, view.member_height)),
            tail_parts(*view),
        );
    }
    let mut hasher = DefaultHasher::new();
    hasher.write(parts.bytes.as_slice());
    assert(hasher@ =~= seq![signature_bytes(*view)]);
    hasher.finish()
}

/// A change among members that are not on the screen leaves the fingerprint as it is.
pub proof fn members_off_screen_do_not_matter(before: ViewParts, after: ViewParts)
    requires
        after == (ViewParts { members: after.members, ..before }),
        visible_members(after.members@, after.member_scroll, after.member_height) == visible_members(
            before.members@,
            before.member_scroll,
            before.member_height,
        ),
    ensures
        signature_bytes(after) == signature_bytes(before),
{
}

// ---- The bytes tell the parts apart ----

/// No text holds the byte that ends it.
proof fn lemma_no_end(text: Seq<char>)
    ensures
        forall|i: int| 0 <= i < encode_utf8(text).len() ==> #[trigger] encode_utf8(text)[i] != TEXT_END,
    decreases text.len(),
{
    if text.len() > 0 {
        lemma_no_end(text.drop_first());
        let scalar = text[0] as u32;
        assert((scalar & 0x7F) as u8 != 0xff) by (bit_vector);
        assert(0xC0u8 | ((scalar >> 6) & 0x1F) as u8 != 0xff) by (bit_vector);
        assert(0xE0u8 | ((scalar >> 12) & 0x0F) as u8 != 0xff) by (bit_vector);
        assert(0xF0u8 | ((scalar >> 18) & 0x7) as u8 != 0xff) by (bit_vector);
        assert(0x80u8 | (scalar & 0x3F) as u8 != 0xff) by (bit_vector);
        assert(0x80u8 | ((scalar >> 6) & 0x3F) as u8 != 0xff) by (bit_vector);
        assert(0x80u8 | ((scalar >> 12) & 0x3F) as u8 != 0xff) by (bit_vector);
        let (first, rest) = (encode_scalar(scalar), encode_utf8(text.drop_first()));
        assert(forall|i: int| 0 <= i < first.len() ==> #[trigger] first[i] != TEXT_END);
        assert forall|i: int| 0 <= i < encode_utf8(text).len() implies #[trigger] encode_utf8(text)[i] != TEXT_END by {
            if i < first.len() {
                assert(encode_utf8(text)[i] == first[i]);
            } else {
                assert(encode_utf8(text)[i] == rest[i - first.len()]);
            }
        }
    }
}

/// Where bytes begin with the bytes of a part, no other part has bytes that they begin with.
proof fn lemma_part_first(p: Part, q: Part, r: Seq<u8>, t: Seq<u8>)
    requires
        part_bytes(p) + r == part_bytes(q) + t,
    ensures
        p == q,
        r == t,
{
    let b = part_bytes(p) + r;
    assert(b[0] == part_bytes(p)[0] && b[0] == part_bytes(q)[0]);
    match (p, q) {
        (Part::Text(x), Part::Text(y)) => {
            lemma_no_end(x);
            lemma_no_end(y);
            let (m, n) = (encode_utf8(x).len() as int, encode_utf8(y).len() as int);
            assert(b[1 + m] == TEXT_END && b[1 + n] == TEXT_END);
            if m < n {
                assert(b[1 + m] == encode_utf8(y)[m]);
            }
            if n < m {
                assert(b[1 + n] == encode_utf8(x)[n]);
            }
            assert(b.subrange(1, 1 + m) =~= encode_utf8(x));
            assert(b.subrange(1, 1 + n) =~= encode_utf8(y));
            encode_utf8_decode_utf8(x);
            encode_utf8_decode_utf8(y);
        },
        (Part::Number(x), Part::Number(y)) => {
            lemma_auto_spec_u64_to_from_le_bytes();
            assert(b.subrange(1, 9) =~= spec_u64_to_le_bytes(x));
            assert(b.subrange(1, 9) =~= spec_u64_to_le_bytes(y));
            assert(spec_u64_from_le_bytes(spec_u64_to_le_bytes(x)) == x);
            assert(spec_u64_from_le_bytes(spec_u64_to_le_bytes(y)) == y);
        },
        (Part::Flag(x), Part::Flag(y)) => {
            assert(b[1] == part_bytes(p)[1] && b[1] == part_bytes(q)[1]);
        },
        _ => {},
    }
    assert(b.skip(part_bytes(p).len() as int) =~= r);
    assert(b.skip(part_bytes(q).len() as int) =~= t);
}

proof fn lemma_first_bytes(parts: Seq<Part>)
    requires
        parts.len() > 0,
    ensures
        all_bytes(parts) == part_bytes(parts[0]) + all_bytes(parts.drop_first()),
    decreases parts.len(),
{
    if parts.len() == 1 {
        assert(parts.drop_last() =~= Seq::<Part>::empty());
        assert(parts.drop_first() =~= Seq::<Part>::empty());
        assert(all_bytes(parts) =~= part_bytes(parts[0]) + all_bytes(parts.drop_first()));
    } else {
        lemma_first_bytes(parts.drop_last());
        assert(parts.drop_last().drop_first() =~= parts.drop_first().drop_last());
        assert(all_bytes(parts) =~= part_bytes(parts[0]) + all_bytes(parts.drop_first()));
    }
}

proof fn lemma_bytes_tell_parts(a: Seq<Part>, b: Seq<Part>)
    requires
        all_bytes(a) == all_bytes(b),
    ensures
        a == b,
    decreases a.len(),
{
    if a.len() > 0 {
        lemma_first_bytes(a);
        assert(part_bytes(a[0]).len() > 0);
    }
    if b.len() > 0 {
        lemma_first_bytes(b);
        assert(part_bytes(b[0]).len() > 0);
    }
    if a.len() > 0 && b.len() > 0 {
        lemma_part_first(a[0], b[0], all_bytes(a.drop_first()), all_bytes(b.drop_first()));
        lemma_bytes_tell_parts(a.drop_first(), b.drop_first());
        assert(a =~= seq![a[0]] + a.drop_first());
        assert(b =~= seq![b[0]] + b.drop_first());
    } else {
        assert(a.len() == 0 ==> all_bytes(a).len() == 0);
        assert(b.len() == 0 ==> all_bytes(b).len() == 0);
        assert(a.len() == 0 && b.len() == 0);
        assert(a =~= b);
    }
}

proof fn lemma_same_front(a: Seq<Part>, b: Seq<Part>, r: Seq<Part>, t: Seq<Part>)
    requires
        a + r == b + t,
        a.len() == b.len(),
    ensures
        a == b,
        r == t,
{
    assert((a + r).take(a.len() as int) =~= a);
    assert((b + t).take(b.len() as int) =~= b);
    assert((a + r).skip(a.len() as int) =~= r);
    assert((b + t).skip(b.len() as int) =~= t);
}

proof fn lemma_guilds_end(a: Seq<GuildRowParts>, b: Seq<GuildRowParts>, r: Seq<Part>, t: Seq<Part>)
    requires
        guild_parts(a) + r == guild_parts(b) + t,
    ensures
        guild_parts(a) == guild_parts(b),
        r == t,
    decreases a.len(),
{
    let all = guild_parts(a) + r;
    assert(all[0] == guild_parts(a)[0] && all[0] == guild_parts(b)[0]);
    if a.len() > 0 {
        let (x, y) = (guild_row(a[0]), guild_row(b[0]));
        let (c, d) = (a.drop_first(), b.drop_first());
        assert(all[2] == x[1] && all[2] == y[1]);
        assert(x.len() == y.len());
        assert(all.skip(1) =~= x + (guild_parts(c) + r));
        assert(all.skip(1) =~= y + (guild_parts(d) + t));
        lemma_same_front(x, y, guild_parts(c) + r, guild_parts(d) + t);
        lemma_guilds_end(c, d, r, t);
    } else {
        lemma_same_front(guild_parts(a), guild_parts(b), r, t);
    }
}

proof fn lemma_channels_end(a: Seq<ChannelRowParts>, b: Seq<ChannelRowParts>, r: Seq<Part>, t: Seq<Part>)
    requires
        channel_parts(a) + r == channel_parts(b) + t,
    ensures
        channel_parts(a) == channel_parts(b),
        r == t,
    decreases a.len(),
{
    let all = channel_parts(a) + r;
    assert(all[0] == channel_parts(a)[0] && all[0] == channel_parts(b)[0]);
    if a.len() > 0 {
        let (x, y) = (channel_row(a[0]), channel_row(b[0]));
        let (c, d) = (a.drop_first(), b.drop_first());
        assert(all[1] == x[0] && all[1] == y[0]);
        assert(all[2] == x[1] && all[2] == y[1]);
        assert(x.len() == y.len());
        assert(all.skip(1) =~= x + (channel_parts(c) + r));
        assert(all.skip(1) =~= y + (channel_parts(d) + t));
        lemma_same_front(x, y, channel_parts(c) + r, channel_parts(d) + t);
        lemma_channels_end(c, d, r, t);
    } else {
        lemma_same_front(channel_parts(a), channel_parts(b), r, t);
    }
}

proof fn lemma_members_end(a: Seq<MemberParts>, b: Seq<MemberParts>, r: Seq<Part>, t: Seq<Part>)
    requires
        member_parts(a) + r == member_parts(b) + t,
    ensures
        member_parts(a) == member_parts(b),
        r == t,
    decreases a.len(),
{
    let all = member_parts(a) + r;
    assert(all[0] == member_parts(a)[0] && all[0] == member_parts(b)[0]);
    if a.len() > 0 {
        let (x, y) = (member_row(a[0]), member_row(b[0]));
        let (c, d) = (a.drop_first(), b.drop_first());
        assert(all[5] == x[4] && all[5] == y[4]);
        assert(x.len() == y.len());
        assert(all.skip(1) =~= x + (member_parts(c) + r));
        assert(all.skip(1) =~= y + (member_parts(d) + t));
        lemma_same_front(x, y, member_parts(c) + r, member_parts(d) + t);
        lemma_members_end(c, d, r, t);
    } else {
        lemma_same_front(member_parts(a), member_parts(b), r, t);
    }
}

/// Views with the same bytes below their fingerprints look the same: every text, number and flag of what is
/// shown is, part for part.
pub proof fn same_bytes_show_the_same(a: ViewParts, b: ViewParts)
    requires
        signature_bytes(a) == signature_bytes(b),
    ensures
        head_parts(a) == head_parts(b),
        guild_parts(a.guilds@) == guild_parts(b.guilds@),
        channel_parts(a.channels@) == channel_parts(b.channels@),
        member_parts(visible_members(a.members@, a.member_scroll, a.member_height)) == member_parts(
            visible_members(b.members@, b.member_scroll, b.member_height),
        ),
        tail_parts(a) == tail_parts(b),
{
    lemma_bytes_tell_parts(signature_parts(a), signature_parts(b));
    let (m, n) = (
        visible_members(a.members@, a.member_scroll, a.member_height),
        visible_members(b.members@, b.member_scroll, b.member_height),
    );
    let (member_rest_a, member_rest_b) = (member_parts(m) + tail_parts(a), member_parts(n) + tail_parts(b));
    let (channel_rest_a, channel_rest_b) = (
        channel_parts(a.channels@) + member_rest_a,
        channel_parts(b.channels@) + member_rest_b,
    );
    lemma_same_front(
        head_parts(a),
        head_parts(b),
        guild_parts(a.guilds@) + channel_rest_a,
        guild_parts(b.guilds@) + channel_rest_b,
    );
    lemma_guilds_end(a.guilds@, b.guilds@, channel_rest_a, channel_rest_b);
    lemma_channels_end(a.channels@, b.channels@, member_rest_a, member_rest_b);
    lemma_members_end(m, n, tail_parts(a), tail_parts(b));
}

// ---- What the fingerprint tells ----

pub open spec fn same_text(a: Option<String>, b: Option<String>) -> bool {
    match (a, b) {
        (Some(a), Some(b)) => a@ == b@,
        (None, None) => true,
        _ => false,
    }
}

pub open spec fn same_guild_row(a: GuildRowParts, b: GuildRowParts) -> bool {
    a.entry@ == b.entry@ && same_text(a.unread, b.unread)
}

pub open spec fn same_channel_row(a: ChannelRowParts, b: ChannelRowParts) -> bool {
    match (a, b) {
        (ChannelRowParts::Entry { entry, unread }, ChannelRowParts::Entry { entry: entry2, unread: unread2 }) => {
            &&& entry@ == entry2@
            &&& match (unread, unread2) {
                (Some(u), Some(w)) => u.badge@ == w.badge@ && u.messages == w.messages,
                (None, None) => true,
                _ => false,
            }
        },
        (ChannelRowParts::Activity { activity }, ChannelRowParts::Activity { activity: activity2 }) => activity@
            == activity2@,
        _ => false,
    }
}

pub open spec fn same_member(a: MemberParts, b: MemberParts) -> bool {
    &&& a.user_id == b.user_id
    &&& a.display_name@ == b.display_name@
    &&& same_text(a.username, b.username)
    &&& a.is_bot == b.is_bot
    &&& a.status@ == b.status@
}

/// Whether row `k` of the member pane shows a member.
pub open spec fn shows_member(v: ViewParts, k: int) -> bool {
    0 <= k < v.member_height && v.member_scroll + k < v.members@.len()
}

proof fn lemma_guild_fields(a: Seq<GuildRowParts>, b: Seq<GuildRowParts>, i: int)
    requires
        guild_parts(a) == guild_parts(b),
    ensures
        a.len() == b.len(),
        0 <= i < a.len() ==> same_guild_row(a[i], b[i]),
    decreases a.len(),
{
    let (p, q) = (guild_parts(a), guild_parts(b));
    assert(p[0] == q[0]);
    if a.len() > 0 {
        let (x, y) = (guild_row(a[0]), guild_row(b[0]));
        let (c, d) = (a.drop_first(), b.drop_first());
        assert(p[1] == x[0] && q[1] == y[0]);
        assert(p[2] == x[1] && q[2] == y[1]);
        if a[0].unread is Some {
            assert(p[3] == x[2] && q[3] == y[2]);
        }
        assert(p.skip(1) =~= x + guild_parts(c));
        assert(q.skip(1) =~= y + guild_parts(d));
        lemma_same_front(x, y, guild_parts(c), guild_parts(d));
        lemma_guild_fields(c, d, i - 1);
        if 0 < i < a.len() {
            assert(c[i - 1] == a[i] && d[i - 1] == b[i]);
        }
    }
}

proof fn lemma_channel_fields(a: Seq<ChannelRowParts>, b: Seq<ChannelRowParts>, i: int)
    requires
        channel_parts(a) == channel_parts(b),
    ensures
        a.len() == b.len(),
        0 <= i < a.len() ==> same_channel_row(a[i], b[i]),
    decreases a.len(),
{
    let (p, q) = (channel_parts(a), channel_parts(b));
    assert(p[0] == q[0]);
    if a.len() > 0 {
        let (x, y) = (channel_row(a[0]), channel_row(b[0]));
        let (c, d) = (a.drop_first(), b.drop_first());
        assert(p[1] == x[0] && q[1] == y[0]);
        assert(p[2] == x[1] && q[2] == y[1]);
        if x[0] == Part::Flag(true) {
            assert(p[3] == x[2] && q[3] == y[2]);
            if x[1] == Part::Flag(true) {
                assert(p[4] == x[3] && q[4] == y[3]);
                assert(p[5] == x[4] && q[5] == y[4]);
            }
        }
        assert(p.skip(1) =~= x + channel_parts(c));
        assert(q.skip(1) =~= y + channel_parts(d));
        lemma_same_front(x, y, channel_parts(c), channel_parts(d));
        lemma_channel_fields(c, d, i - 1);
        if 0 < i < a.len() {
            assert(c[i - 1] == a[i] && d[i - 1] == b[i]);
        }
    }
}

proof fn lemma_member_fields(a: Seq<MemberParts>, b: Seq<MemberParts>, i: int)
    requires
        member_parts(a) == member_parts(b),
    ensures
        a.len() == b.len(),
        0 <= i < a.len() ==> same_member(a[i], b[i]),
    decreases a.len(),
{
    let (p, q) = (member_parts(a), member_parts(b));
    assert(p[0] == q[0]);
    if a.len() > 0 {
        let (x, y) = (member_row(a[0]), member_row(b[0]));
        let (c, d) = (a.drop_first(), b.drop_first());
        assert(p[1] == x[0] && q[1] == y[0]);
        assert(p[2] == x[1] && q[2] == y[1]);
        assert(p[3] == x[2] && q[3] == y[2]);
        assert(p[4] == x[3] && q[4] == y[3]);
        assert(p[5] == x[4] && q[5] == y[4]);
        if a[0].username is Some {
            assert(p[6] == x[5] && q[6] == y[5]);
        }
        assert(p.skip(1) =~= x + member_parts(c));
        assert(q.skip(1) =~= y + member_parts(d));
        lemma_same_front(x, y, member_parts(c), member_parts(d));
        lemma_member_fields(c, d, i - 1);
        if 0 < i < a.len() {
            assert(c[i - 1] == a[i] && d[i - 1] == b[i]);
        }
    }
}

/// Views with the same bytes below their fingerprints have the same selection, header and messages.
pub proof fn equal_fingerprints_show_equal_messages(a: ViewParts, b: ViewParts)
    requires
        signature_bytes(a) == signature_bytes(b),
    ensures
        a.selection.message_pane_source@ == b.selection.message_pane_source@,
        a.selection.selected_guild@ == b.selection.selected_guild@,
        a.selection.selected_channel@ == b.selection.selected_channel@,
        a.selection.active_popup@ == b.selection.active_popup@,
        a.selection.toast@ == b.selection.toast@,
        a.header.current_user@ == b.header.current_user@,
        a.header.voice_self_status@ == b.header.voice_self_status@,
        a.header.voice_connection_label@ == b.header.voice_connection_label@,
        a.header.update_version@ == b.header.update_version@,
        a.header.stream_info@ == b.header.stream_info@,
        a.messages.visible_messages@ == b.messages.visible_messages@,
        a.messages.selected_message@ == b.messages.selected_message@,
        a.messages.thread_cards@ == b.messages.thread_cards@,
        a.messages.typing_footer@ == b.messages.typing_footer@,
        a.messages.composer_lock@ == b.messages.composer_lock@,
        a.messages.new_messages == b.messages.new_messages,
        a.direct_message_unread == b.direct_message_unread,
{
    same_bytes_show_the_same(a, b);
    let (p, q) = (head_parts(a), head_parts(b));
    assert(forall|i: int| 0 <= i < p.len() ==> #[trigger] p[i] == q[i]);
    assert(p[0] == q[0] && p[1] == q[1] && p[2] == q[2] && p[3] == q[3] && p[4] == q[4] && p[5] == q[5]);
    assert(p[6] == q[6] && p[7] == q[7] && p[8] == q[8] && p[9] == q[9] && p[10] == q[10] && p[11] == q[11]);
    assert(p[12] == q[12] && p[13] == q[13] && p[14] == q[14] && p[15] == q[15] && p[16] == q[16]);
}

/// They have the same rows in the lists of guilds and of channels, and the same members on the screen.
pub proof fn equal_fingerprints_show_equal_lists(a: ViewParts, b: ViewParts, k: int)
    requires
        signature_bytes(a) == signature_bytes(b),
    ensures
        a.guilds@.len() == b.guilds@.len(),
        0 <= k < a.guilds@.len() ==> same_guild_row(a.guilds@[k], b.guilds@[k]),
        a.channels@.len() == b.channels@.len(),
        0 <= k < a.channels@.len() ==> same_channel_row(a.channels@[k], b.channels@[k]),
        shows_member(a, k) == shows_member(b, k),
        shows_member(a, k) ==> same_member(a.members@[a.member_scroll + k], b.members@[b.member_scroll + k]),
{
    same_bytes_show_the_same(a, b);
    lemma_guild_fields(a.guilds@, b.guilds@, k);
    lemma_channel_fields(a.channels@, b.channels@, k);
    let m = visible_members(a.members@, a.member_scroll, a.member_height);
    let n = visible_members(b.members@, b.member_scroll, b.member_height);
    lemma_member_fields(m, n, k);
    if shows_member(a, k) {
        assert(m[k] == a.members@[a.member_scroll + k]);
    }
    if shows_member(b, k) {
        assert(n[k] == b.members@[b.member_scroll + k]);
    }
}

proof fn lemma_popup_fields(a: PopupParts, b: PopupParts)
    requires
        popup_parts(a) == popup_parts(b),
    ensures
        same_popups(a, b),
{
    let (p, q) = (popup_parts(a), popup_parts(b));
    assert(p[0] == q[0] && p[1] == q[1] && p[2] == q[2] && p[3] == q[3] && p[4] == q[4] && p[5] == q[5]);
    assert(p[6] == q[6] && p[7] == q[7] && p[8] == q[8] && p[9] == q[9] && p[10] == q[10] && p[11] == q[11]);
    assert(p[12] == q[12] && p[13] == q[13] && p[14] == q[14] && p[15] == q[15]);
}

proof fn lemma_inbox_fields(a: Option<InboxParts>, b: Option<InboxParts>)
    requires
        inbox_parts(a) == inbox_parts(b),
    ensures
        same_inbox(a, b),
{
    let (x, y) = (inbox_parts(a), inbox_parts(b));
    assert(x[0] == y[0]);
    if a is Some {
        assert(x[1] == y[1]);
        assert(x[2] == y[2]);
        assert(x[3] == y[3]);
        assert(x[4] == y[4]);
        if (a->0).tab is Mentions {
            assert(x[5] == y[5]);
        }
    }
}

/// Whether the popups show the same.
pub open spec fn same_popups(a: PopupParts, b: PopupParts) -> bool {
    &&& a.attachment_viewer@ == b.attachment_viewer@
    &&& a.profile@ == b.profile@
    &&& a.profile_status@ == b.profile_status@
    &&& a.profile_load_error@ == b.profile_load_error@
    &&& a.profile_avatar_url@ == b.profile_avatar_url@
    &&& a.profile_activities@ == b.profile_activities@
    &&& a.profile_activity_rows@ == b.profile_activity_rows@
    &&& a.attachment_downloads@ == b.attachment_downloads@
    &&& a.reaction_users@ == b.reaction_users@
    &&& a.existing_reactions@ == b.existing_reactions@
    &&& a.own_reactions@ == b.own_reactions@
    &&& a.reaction_items@ == b.reaction_items@
    &&& a.poll_items@ == b.poll_items@
    &&& a.mention_candidates@ == b.mention_candidates@
    &&& a.emoji_candidates@ == b.emoji_candidates@
    &&& a.command_candidates@ == b.command_candidates@
}

/// Whether the inbox shows the same. How the mentions stand is shown on their tab only.
pub open spec fn same_inbox(a: Option<InboxParts>, b: Option<InboxParts>) -> bool {
    match (a, b) {
        (None, None) => true,
        (Some(x), Some(y)) => {
            &&& x.items@ == y.items@
            &&& x.tab is Mentions == y.tab is Mentions
            &&& x.tab is Mentions ==> x.mentions_status@ == y.mentions_status@
            &&& x.unread_mentions == y.unread_mentions
            &&& x.loading == y.loading
        },
        _ => false,
    }
}

/// They have the same popups, search, options and inbox.
pub proof fn equal_fingerprints_show_equal_popups(a: ViewParts, b: ViewParts)
    requires
        signature_bytes(a) == signature_bytes(b),
    ensures
        same_popups(a.popups, b.popups),
        a.search@ == b.search@,
        a.forum_loading == b.forum_loading,
        a.options_open == b.options_open,
        a.options_open ==> a.option_items@ == b.option_items@,
        same_inbox(a.inbox, b.inbox),
{
    same_bytes_show_the_same(a, b);
    lemma_popup_count(a.popups);
    lemma_popup_count(b.popups);
    lemma_tail_fields(
        popup_parts(a.popups),
        popup_parts(b.popups),
        a.search@,
        b.search@,
        a.forum_loading,
        b.forum_loading,
        option_parts(a),
        option_parts(b),
        inbox_parts(a.inbox),
        inbox_parts(b.inbox),
    );
    assert(option_parts(a)[0] == Part::Flag(a.options_open) && option_parts(b)[0] == Part::Flag(b.options_open));
    assert(a.options_open ==> option_parts(a)[1] == option_parts(b)[1]);
    lemma_popup_fields(a.popups, b.popups);
    lemma_inbox_fields(a.inbox, b.inbox);
}

proof fn lemma_popup_count(p: PopupParts)
    ensures
        popup_parts(p).len() == 16,
{
}

proof fn lemma_tail_fields(
    p: Seq<Part>,
    q: Seq<Part>,
    search: Seq<char>,
    search2: Seq<char>,
    loading: bool,
    loading2: bool,
    options: Seq<Part>,
    options2: Seq<Part>,
    x: Seq<Part>,
    y: Seq<Part>,
)
    requires
        p + text_part(search) + flag_part(loading) + options + x == q + text_part(search2) + flag_part(loading2)
            + options2 + y,
        p.len() == q.len(),
        options.len() > 0,
        options2.len() > 0,
        options[0] == options2[0] ==> options.len() == options2.len(),
    ensures
        p == q,
        search == search2,
        loading == loading2,
        options == options2,
        x == y,
{
    let c = text_part(search) + (flag_part(loading) + (options + x));
    let d = text_part(search2) + (flag_part(loading2) + (options2 + y));
    assert(p + text_part(search) + flag_part(loading) + options + x =~= p + c);
    assert(q + text_part(search2) + flag_part(loading2) + options2 + y =~= q + d);
    lemma_same_front(p, q, c, d);
    lemma_same_front(
        text_part(search),
        text_part(search2),
        flag_part(loading) + (options + x),
        flag_part(loading2) + (options2 + y),
    );
    lemma_same_front(flag_part(loading), flag_part(loading2), options + x, options2 + y);
    assert(text_part(search)[0] == text_part(search2)[0]);
    assert(flag_part(loading)[0] == flag_part(loading2)[0]);
    assert((options + x)[0] == options[0] && (options2 + y)[0] == options2[0]);
    lemma_same_front(options, options2, x, y);
}

} // verus!
