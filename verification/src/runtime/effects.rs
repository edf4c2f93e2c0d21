//! What events do besides changing the dashboard, and when they are taken up.

use crate::discord::{AppCommand, AppEvent, MessageInfo, VoiceSoundKind};
use crate::ids::{ChannelId, GuildId, UserId};
use crate::text::{opt_text, str_eq};
use std::collections::VecDeque;
use vstd::prelude::*;

verus! {

/// How many events are taken up at once.
pub const MAX_DRAINED_EFFECT_EVENTS: usize = 1024;

/// What became of some events.
#[derive(Clone, Copy, Debug, PartialEq, Eq, Structural)]
pub struct EffectProcessingOutcome {
    pub processed_event: bool,
    pub force_redraw: bool,
}

impl Default for EffectProcessingOutcome {
    fn default() -> (r: EffectProcessingOutcome)
        ensures
            r == (EffectProcessingOutcome { processed_event: false, force_redraw: false }),
    {
        EffectProcessingOutcome { processed_event: false, force_redraw: false }
    }
}

/// Whether an event changes what is drawn without changing what the dashboard shows.
pub open spec fn forces_redraw(event: AppEvent) -> bool {
    match event {
        AppEvent::AttachmentPreviewLoaded { .. } => true,
        AppEvent::AttachmentPreviewLoadFailed { .. } => true,
        AppEvent::AttachmentDownloadStarted { .. } => true,
        AppEvent::AttachmentDownloadProgress { .. } => true,
        AppEvent::AttachmentDownloadCompleted { .. } => true,
        AppEvent::AttachmentDownloadFailed { .. } => true,
        AppEvent::GatewayError { .. } => true,
        AppEvent::MediaPlaybackWindowReady { .. } => true,
        AppEvent::GatewayResumed => true,
        AppEvent::GatewayReidentified => true,
        AppEvent::SignedOut => true,
        AppEvent::GatewayClosed => true,
        _ => false,
    }
}

pub fn effect_forces_redraw(event: &AppEvent) -> (r: bool)
    ensures
        r == forces_redraw(*event),
{
    match event {
        AppEvent::AttachmentPreviewLoaded { .. } => true,
        AppEvent::AttachmentPreviewLoadFailed { .. } => true,
        AppEvent::AttachmentDownloadStarted { .. } => true,
        AppEvent::AttachmentDownloadProgress { .. } => true,
        AppEvent::AttachmentDownloadCompleted { .. } => true,
        AppEvent::AttachmentDownloadFailed { .. } => true,
        AppEvent::GatewayError { .. } => true,
        AppEvent::MediaPlaybackWindowReady { .. } => true,
        AppEvent::GatewayResumed => true,
        AppEvent::GatewayReidentified => true,
        AppEvent::SignedOut => true,
        AppEvent::GatewayClosed => true,
        _ => false,
    }
}

impl EffectProcessingOutcome {
    pub fn processed(event: &AppEvent) -> (r: EffectProcessingOutcome)
        ensures
            r == (EffectProcessingOutcome { processed_event: true, force_redraw: forces_redraw(*event) }),
    {
        EffectProcessingOutcome { processed_event: true, force_redraw: effect_forces_redraw(event) }
    }

    pub fn combine(&mut self, other: EffectProcessingOutcome)
        ensures
            *final(self) == (EffectProcessingOutcome {
                processed_event: old(self).processed_event || other.processed_event,
                force_redraw: old(self).force_redraw || other.force_redraw,
            }),
    {
        self.processed_event = self.processed_event || other.processed_event;
        self.force_redraw = self.force_redraw || other.force_redraw;
    }
}

/// The messages that an event brings, if it is of a kind that brings some.
pub open spec fn brought_messages(event: AppEvent) -> Option<Seq<MessageInfo>> {
    match event {
        AppEvent::MessageCreate { message } => Some(seq![message]),
        AppEvent::MessageHistoryLoaded { messages, .. } => Some(messages@),
        AppEvent::MessageHistoryRefreshed { messages, .. } => Some(messages@),
        AppEvent::MessageHistoryAfterLoaded { messages, .. } => Some(messages@),
        AppEvent::MessageHistoryAroundLoaded { messages, .. } => Some(messages@),
        AppEvent::InboxMentionsLoaded { messages, .. } => Some(messages@),
        AppEvent::InboxChannelMessagesLoaded { messages, .. } => Some(messages@),
        AppEvent::MessageSearchLoaded { messages } => Some(messages@),
        AppEvent::PinnedMessagesLoaded { messages, .. } => Some(messages@),
        _ => None,
    }
}

/// The author of each message, with the guild and the channel that it was written in.
#[derive(Clone, Copy, Debug, PartialEq, Eq, Structural)]
pub struct SurfacedUser {
    pub guild_id: Option<GuildId>,
    pub channel_id: ChannelId,
    pub user_id: UserId,
}

pub open spec fn author_of(m: MessageInfo) -> SurfacedUser {
    SurfacedUser { guild_id: m.guild_id, channel_id: m.channel_id, user_id: m.author_id }
}

/// Everyone whom an event makes visible, in order: the authors of messages, who is mentioned in a
/// changed message, who reacted.
pub open spec fn surfaced_by(event: AppEvent) -> Seq<SurfacedUser> {
    match brought_messages(event) {
        Some(messages) => messages.map_values(|m: MessageInfo| author_of(m)),
        None => match event {
            AppEvent::MessageUpdateDispatch { channel_id, guild_id, mentions: Some(users) } => users@.map_values(
                |user_id: UserId| SurfacedUser { guild_id, channel_id, user_id },
            ),
            AppEvent::ReactionUsersLoaded { channel_id, users, .. } => users@.map_values(
                |u: crate::discord::ReactionUserInfo| SurfacedUser { guild_id: None, channel_id, user_id: u.user_id },
            ),
            _ => Seq::empty(),
        },
    }
}

fn push_authors(messages: &Vec<MessageInfo>) -> (r: Vec<SurfacedUser>)
    ensures
        r@ == messages@.map_values(|m: MessageInfo| author_of(m)),
{
    let mut out: Vec<SurfacedUser> = Vec::new();
    let mut i: usize = 0;
    while i < messages.len()
        invariant
            i <= messages@.len(),
            out@.len() == i,
            forall|k: int| 0 <= k < i ==> #[trigger] out@[k] == author_of(messages@[k]),
        decreases messages@.len() - i,
    {
        let m = &messages[i];
        out.push(SurfacedUser { guild_id: m.guild_id, channel_id: m.channel_id, user_id: m.author_id });
        i += 1;
    }
    assert(out@ =~= messages@.map_values(|m: MessageInfo| author_of(m)));
    out
}

/// Everyone whom an event makes visible.
pub fn users_surfaced_by(event: &AppEvent) -> (r: Vec<SurfacedUser>)
    ensures
        r@ == surfaced_by(*event),
{
    match event {
        AppEvent::MessageCreate { message } => {
            let mut out: Vec<SurfacedUser> = Vec::new();
            out.push(
                SurfacedUser { guild_id: message.guild_id, channel_id: message.channel_id, user_id: message.author_id },
            );
            assert(out@ =~= seq![*message].map_values(|m: MessageInfo| author_of(m)));
            out
        },
        AppEvent::MessageHistoryLoaded { messages, .. } => push_authors(messages),
        AppEvent::MessageHistoryRefreshed { messages, .. } => push_authors(messages),
        AppEvent::MessageHistoryAfterLoaded { messages, .. } => push_authors(messages),
        AppEvent::MessageHistoryAroundLoaded { messages, .. } => push_authors(messages),
        AppEvent::InboxMentionsLoaded { messages, .. } => push_authors(messages),
        AppEvent::InboxChannelMessagesLoaded { messages, .. } => push_authors(messages),
        AppEvent::MessageSearchLoaded { messages } => push_authors(messages),
        AppEvent::PinnedMessagesLoaded { messages, .. } => push_authors(messages),
        AppEvent::MessageUpdateDispatch { channel_id, guild_id, mentions: Some(users) } => {
            let mut out: Vec<SurfacedUser> = Vec::new();
            let mut i: usize = 0;
            while i < users.len()
                invariant
                    i <= users@.len(),
                    out@.len() == i,
                    forall|k: int|
                        0 <= k < i ==> #[trigger] out@[k] == (SurfacedUser {
                            guild_id: *guild_id,
                            channel_id: *channel_id,
                            user_id: users@[k],
                        }),
                decreases users@.len() - i,
            {
                out.push(SurfacedUser { guild_id: *guild_id, channel_id: *channel_id, user_id: users[i] });
                i += 1;
            }
            assert(out@ =~= surfaced_by(*event));
            out
        },
        AppEvent::ReactionUsersLoaded { channel_id, users, .. } => {
            let mut out: Vec<SurfacedUser> = Vec::new();
            let mut i: usize = 0;
            while i < users.len()
                invariant
                    i <= users@.len(),
                    out@.len() == i,
                    forall|k: int|
                        0 <= k < i ==> #[trigger] out@[k] == (SurfacedUser {
                            guild_id: None,
                            channel_id: *channel_id,
                            user_id: users@[k].user_id,
                        }),
                decreases users@.len() - i,
            {
                out.push(SurfacedUser { guild_id: None, channel_id: *channel_id, user_id: users[i].user_id });
                i += 1;
            }
            assert(out@ =~= surfaced_by(*event));
            out
        },
        _ => {
            let out: Vec<SurfacedUser> = Vec::new();
            assert(out@ =~= surfaced_by(*event));
            out
        },
    }
}

/// Members of a guild that are to be loaded.
#[derive(Debug, PartialEq, Eq)]
pub struct MemberRequest {
    pub guild_id: GuildId,
    pub user_ids: Vec<UserId>,
}

/// What is asked for after an event: first whom the event made visible, then what waits in the
/// background.
pub fn missing_members_for_effect(surfaced: Vec<MemberRequest>, observed: Vec<MemberRequest>) -> (r: Vec<MemberRequest>)
    ensures
        r@ == surfaced@ + observed@,
{
    let mut all = surfaced;
    let mut rest = observed;
    all.append(&mut rest);
    all
}

/// What the dashboard does with an event.
#[derive(Debug, PartialEq, Eq)]
pub enum DashboardEffect {
    SetRichPresence { activities: Vec<String> },
    /// The event is pushed, and the dashboard ends.
    Close,
    SignOut,
    Push { event: AppEvent },
}

/// The commands that are queued first, and what is done then.
#[derive(Debug, PartialEq, Eq)]
pub struct DashboardEffects {
    pub commands: Vec<AppCommand>,
    pub effect: DashboardEffect,
}

pub open spec fn opt_seq<A>(a: Option<A>) -> Seq<A> {
    match a {
        Some(a) => seq![a],
        None => Seq::empty(),
    }
}

/// After a reconnection the selected channel is subscribed again, where the session is new, and its
/// newest messages are caught up with.
pub open spec fn reconnect_commands(event: AppEvent, subscription: Option<AppCommand>, catch_up: Option<AppCommand>) -> Seq<
    AppCommand,
> {
    match event {
        AppEvent::GatewayResumed => opt_seq(catch_up),
        AppEvent::GatewayReidentified => opt_seq(subscription) + opt_seq(catch_up),
        _ => Seq::empty(),
    }
}

pub open spec fn dashboard_effect(event: AppEvent) -> DashboardEffect {
    match event {
        AppEvent::RichPresenceDetected { activities } => DashboardEffect::SetRichPresence { activities },
        AppEvent::GatewayClosed => DashboardEffect::Close,
        AppEvent::SignedOut => DashboardEffect::SignOut,
        event => DashboardEffect::Push { event },
    }
}

/// What is done about an event. `subscription` and `catch_up` are the commands that subscribe the
/// selected channel and that load its newer messages.
pub fn push_dashboard_effect(event: AppEvent, subscription: Option<AppCommand>, catch_up: Option<AppCommand>) -> (r:
    DashboardEffects)
    ensures
        r.commands@ == reconnect_commands(event, subscription, catch_up),
        r.effect == dashboard_effect(event),
{
    let mut commands: Vec<AppCommand> = Vec::new();
    match event {
        AppEvent::RichPresenceDetected { activities } => {
            return DashboardEffects { commands, effect: DashboardEffect::SetRichPresence { activities } };
        },
        AppEvent::GatewayClosed => {
            return DashboardEffects { commands, effect: DashboardEffect::Close };
        },
        AppEvent::SignedOut => {
            return DashboardEffects { commands, effect: DashboardEffect::SignOut };
        },
        _ => {},
    }
    let resumed = matches!(event, AppEvent::GatewayResumed);
    let reidentified = matches!(event, AppEvent::GatewayReidentified);
    if reidentified {
        if let Some(command) = subscription {
            commands.push(command);
        }
    }
    if resumed || reidentified {
        if let Some(command) = catch_up {
            commands.push(command);
        }
    }
    assert(commands@ =~= reconnect_commands(event, subscription, catch_up));
    DashboardEffects { commands, effect: DashboardEffect::Push { event } }
}

/// The sound files that the user chose.
#[derive(Debug, PartialEq, Eq)]
pub struct NotificationSounds {
    pub voice_join_sound: Option<String>,
    pub voice_leave_sound: Option<String>,
    pub notification_sound: Option<String>,
}

pub open spec fn chosen_sound(kind: VoiceSoundKind, sounds: NotificationSounds) -> Option<Seq<char>> {
    match kind {
        VoiceSoundKind::Join => opt_text(sounds.voice_join_sound),
        VoiceSoundKind::Leave => opt_text(sounds.voice_leave_sound),
        _ => None,
    }
}

/// The file that is played for a sound, where the user chose one.
pub fn voice_sound_path(kind: VoiceSoundKind, sounds: &NotificationSounds) -> (r: Option<String>)
    ensures
        opt_text(r) == chosen_sound(kind, *sounds),
{
    let chosen = match kind {
        VoiceSoundKind::Join => &sounds.voice_join_sound,
        VoiceSoundKind::Leave => &sounds.voice_leave_sound,
        _ => {
            return None;
        },
    };
    match chosen {
        Some(path) => Some(path.clone()),
        None => None,
    }
}

pub open spec fn terminal_app(term_program: Seq<char>) -> Option<Seq<char>> {
    if term_program == "Apple_Terminal"@ {
        Some("Terminal"@)
    } else if term_program == "iTerm.app"@ {
        Some("iTerm"@)
    } else if term_program == "WezTerm"@ {
        Some("WezTerm"@)
    } else if term_program == "WarpTerminal"@ {
        Some("Warp"@)
    } else {
        None
    }
}

/// The application that a terminal is known by.
pub fn macos_terminal_app_name(term_program: &str) -> (r: Option<&'static str>)
    ensures
        match r {
            Some(name) => terminal_app(term_program@) == Some(name@),
            None => terminal_app(term_program@) is None,
        },
{
    if str_eq(term_program, "Apple_Terminal") {
        Some("Terminal")
    } else if str_eq(term_program, "iTerm.app") {
        Some("iTerm")
    } else if str_eq(term_program, "WezTerm") {
        Some("WezTerm")
    } else if str_eq(term_program, "WarpTerminal") {
        Some("Warp")
    } else {
        None
    }
}

/// An event and the revision of the snapshot that it belongs to.
#[derive(Debug, PartialEq, Eq)]
pub struct SequencedAppEvent {
    pub revision: u64,
    pub event: AppEvent,
}

/// The events of the entries that a snapshot covers.
pub open spec fn ready(entries: Seq<SequencedAppEvent>, revision: u64) -> Seq<AppEvent>
    decreases entries.len(),
{
    if entries.len() == 0 {
        Seq::empty()
    } else if entries.last().revision <= revision {
        ready(entries.drop_last(), revision).push(entries.last().event)
    } else {
        ready(entries.drop_last(), revision)
    }
}

/// The entries that a snapshot does not cover yet.
pub open spec fn waiting(entries: Seq<SequencedAppEvent>, revision: u64) -> Seq<SequencedAppEvent>
    decreases entries.len(),
{
    if entries.len() == 0 {
        Seq::empty()
    } else if entries.last().revision <= revision {
        waiting(entries.drop_last(), revision)
    } else {
        waiting(entries.drop_last(), revision).push(entries.last())
    }
}

/// Takes an event up, or puts it off until the snapshot that it belongs to is there.
pub fn process_sequenced_effect(event: SequencedAppEvent, revision: u64, deferred: &mut VecDeque<SequencedAppEvent>) -> (r:
    Option<AppEvent>)
    ensures
        event.revision <= revision ==> r == Some(event.event) && final(deferred)@ == old(deferred)@,
        event.revision > revision ==> r is None && final(deferred)@ == old(deferred)@.push(event),
{
    if event.revision > revision {
        deferred.push_back(event);
        return None;
    }
    Some(event.event)
}

/// Takes up the events that were put off and whose snapshot is there.
pub fn process_deferred_effects(revision: u64, deferred: &mut VecDeque<SequencedAppEvent>) -> (r: Vec<AppEvent>)
    ensures
        r@ == ready(old(deferred)@, revision),
        final(deferred)@ == waiting(old(deferred)@, revision),
{
    let ghost all = deferred@;
    let mut out: Vec<AppEvent> = Vec::new();
    let n: usize = deferred.len();
    let mut i: usize = 0;
    assert(all.take(0) =~= Seq::<SequencedAppEvent>::empty());
    assert(deferred@ =~= all.skip(0) + waiting(all.take(0), revision));
    while i < n
        invariant
            i <= n,
            n == all.len(),
            out@ == ready(all.take(i as int), revision),
            deferred@ == all.skip(i as int) + waiting(all.take(i as int), revision),
        decreases n - i,
    {
        let ghost before = deferred@;
        assert(all.take(i + 1).drop_last() =~= all.take(i as int));
        assert(before[0] == all[i as int]);
        match deferred.pop_front() {
            None => {},
            Some(event) => {
                assert(deferred@ =~= all.skip(i + 1) + waiting(all.take(i as int), revision));
                if let Some(event) = process_sequenced_effect(event, revision, deferred) {
                    out.push(event);
                }
                assert(deferred@ =~= all.skip(i + 1) + waiting(all.take(i + 1), revision));
            },
        }
        i += 1;
    }
    assert(all.take(n as int) =~= all);
    assert(deferred@ =~= waiting(all, revision));
    out
}

/// What became of some events that were taken up.
pub open spec fn outcome_of(events: Seq<AppEvent>) -> EffectProcessingOutcome {
    EffectProcessingOutcome {
        processed_event: events.len() > 0,
        force_redraw: exists|i: int| 0 <= i < events.len() && forces_redraw(#[trigger] events[i]),
    }
}

pub fn processed_outcome(events: &Vec<AppEvent>) -> (r: EffectProcessingOutcome)
    ensures
        r == outcome_of(events@),
{
    let mut outcome = EffectProcessingOutcome::default();
    let mut i: usize = 0;
    while i < events.len()
        invariant
            i <= events@.len(),
            outcome.processed_event == (i > 0),
            outcome.force_redraw <==> exists|k: int| 0 <= k < i && forces_redraw(#[trigger] events@[k]),
        decreases events@.len() - i,
    {
        outcome.combine(EffectProcessingOutcome::processed(&events[i]));
        i += 1;
    }
    outcome
}

/// No event that was put off gets lost: each is either taken up or still waits, and each that waits
/// belongs to a later snapshot.
pub proof fn deferred_events_are_kept(entries: Seq<SequencedAppEvent>, revision: u64)
    ensures
        ready(entries, revision).len() + waiting(entries, revision).len() == entries.len(),
        forall|i: int| 0 <= i < waiting(entries, revision).len() ==> (#[trigger] waiting(entries, revision)[i]).revision > revision,
        forall|i: int|
            0 <= i < entries.len() ==> if (#[trigger] entries[i]).revision <= revision {
                ready(entries, revision).contains(entries[i].event)
            } else {
                waiting(entries, revision).contains(entries[i])
            },
    decreases entries.len(),
{
    if entries.len() > 0 {
        let rest = entries.drop_last();
        deferred_events_are_kept(rest, revision);
        let up = ready(entries, revision);
        let left = waiting(entries, revision);
        assert forall|i: int| 0 <= i < entries.len() implies if (#[trigger] entries[i]).revision <= revision {
            up.contains(entries[i].event)
        } else {
            left.contains(entries[i])
        } by {
            if i < rest.len() {
                assert(rest[i] == entries[i]);
                if entries[i].revision <= revision {
                    let k = choose|k: int| 0 <= k < ready(rest, revision).len() && ready(rest, revision)[k] == entries[i].event;
                    assert(up[k] == entries[i].event);
                } else {
                    let k = choose|k: int| 0 <= k < waiting(rest, revision).len() && waiting(rest, revision)[k] == entries[i];
                    assert(left[k] == entries[i]);
                }
            } else if entries[i].revision <= revision {
                assert(up[up.len() - 1] == entries[i].event);
            } else {
                assert(left[left.len() - 1] == entries[i]);
            }
        }
    }
}

/// Once the snapshot of every event is there, none waits.
pub proof fn caught_up_queues_are_empty(entries: Seq<SequencedAppEvent>, revision: u64)
    requires
        forall|i: int| 0 <= i < entries.len() ==> (#[trigger] entries[i]).revision <= revision,
    ensures
        waiting(entries, revision).len() == 0,
        ready(entries, revision) == entries.map_values(|e: SequencedAppEvent| e.event),
    decreases entries.len(),
{
    let all = entries.map_values(|e: SequencedAppEvent| e.event);
    if entries.len() > 0 {
        let rest = entries.drop_last();
        assert forall|i: int| 0 <= i < rest.len() implies (#[trigger] rest[i]).revision <= revision by {
            assert(rest[i] == entries[i]);
        }
        caught_up_queues_are_empty(rest, revision);
        assert(entries[entries.len() - 1].revision <= revision);
        assert(all =~= rest.map_values(|e: SequencedAppEvent| e.event).push(entries.last().event));
    } else {
        assert(all =~= Seq::<AppEvent>::empty());
    }
}

} // verus!
