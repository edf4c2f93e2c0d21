use chrono::{DateTime, Datelike, Local};
use concord::message::attachments::{format_attachment, format_attachment_summary};
use concord::message::components::{
    component_button_label, component_media_kind, component_select_kind_label, format_component,
    format_component_lines,
    format_dimensions, section_thumbnail_slot, AttachmentInfo, AttachmentMediaType, ComponentFormatContext,
    ComponentMediaInfo, ComponentSelectKind, MessageComponentInfo, RenderedBlock,
};
use concord::message::embed::{
    embed_footer_time, embed_label_with_url, format_embed, format_embed_footer, format_embed_lines,
    is_low_value_embed_link_url,
    plain_embed_text, prepare_embed_text, strip_embed_markdown_emphasis, unescape_embed_markdown, EmbedField,
    EmbedFormatContext, EmbedInfo, PreparedText,
};
use concord::message::emoji::{
    append_edited_marker, format_standalone_emoji_lines, push_standalone_unicode_emojis,
    standalone_emoji_fallback_cell, standalone_emojis, EmojiUrl,
};
use concord::message::line::MessageContentLine;
use concord::message::options::FormatOptions;
use concord::message::placeholder::rendered_text_with_loaded_custom_emoji_placeholders;
use concord::message::poll::{
    format_poll_answer, format_poll_footer, format_poll_lines, format_poll_result_lines, PollAnswerInfo, PollInfo,
};
use concord::message::reactions::{
    build_reaction_chip, format_reaction_lines, lay_out_reaction_chips, ReactionEmoji, ReactionInfo,
};
use concord::message::rendered::{InlineEmojiSlot, RenderedText, TextHighlight, TextHighlightKind};
use concord::message::rich::{
    prefix_message_content_line, prepend_rendered_text, rendered_text_slice, rendered_text_with_url_highlights,
    rendered_text_without_prefix, truncate_rendered_text,
};
use concord::message::sections::{
    display_text_with_stickers, format_message_content_sections_with_loaded_custom_emoji_urls, format_parts_lines,
    format_reply_line, reply_content, MessageBody,
    MessageParts,
};
use concord::message::styled::{wrap_plain_text_at_words, wrap_rendered_text_lines, wrap_text_line_with_styles};
use concord::message::system::{
    format_forwarded_snapshot, format_message_kind_line, format_system_message_lines, format_thread_summary_line,
    MessageKind, MessageSnapshotInfo, SystemMessage,
};
use concord::message::time::{
    format_local_date_time, format_message_local_time, format_rfc3339_local_time, message_local_date,
    message_starts_new_day, test_message_id_for_unix_millis, TimeFormat, DISCORD_EPOCH_MILLIS,
};
use concord::message::whole::{
    format_message_content_lines, ForwardedInfo, MessageState, MessageTexts, ReplyInfo,
};
use concord::state::message_viewport::{days_started, message_extra_top_lines, message_starts_new_day_at};
use concord::state::model::ThreadSummary;
use concord::style::{embed_color, Color, Style, Theme, BOLD};

fn rendered(text: &str) -> RenderedText {
    RenderedText { text: text.to_owned(), highlights: Vec::new(), emoji_slots: Vec::new() }
}

fn texts(lines: &[MessageContentLine]) -> Vec<&str> {
    lines.iter().map(|line| line.text.as_str()).collect()
}

#[test]
fn emoji_images_have_their_usual_sizes() {
    let options = options();
    assert_eq!(options.compact_emoji_width, 2);
    assert_eq!((options.standalone_emoji_width, options.standalone_emoji_height), (4, 2));
}

fn options() -> FormatOptions {
    FormatOptions::default()
}

fn no_parts() -> MessageParts {
    MessageParts {
        content_known: true,
        edited: false,
        is_components_v2: false,
        system_lines: None,
        command_line: None,
        reply_line: None,
        poll_lines: None,
        kind_line: None,
        body: None,
        content: None,
        embeds: Vec::new(),
        markup: Vec::new(),
        components: Vec::new(),
        component_texts: Vec::new(),
        attachments: Vec::new(),
        attachment_summaries: Vec::new(),
        forwarded_lines: None,
        reaction_lines: Vec::new(),
    }
}

fn body(text: &str) -> Option<MessageBody> {
    Some(MessageBody {
        rendered: rendered(text),
        markdown_lines: vec![MessageContentLine::plain(text.to_owned())],
    })
}

// ---- Sections ----

fn message() -> MessageState {
    MessageState {
        author: "neo".to_owned(),
        kind: MessageKind { code: 0, regular: true, known_label: None },
        content: None,
        stickers: Vec::new(),
        edited: false,
        is_components_v2: false,
        command_line: None,
        reply: None,
        poll: None,
        thread: None,
        embeds: Vec::new(),
        components: Vec::new(),
        attachments: Vec::new(),
        forwarded: None,
        reactions: Vec::new(),
    }
}

fn time() -> TimeFormat {
    TimeFormat { hour_format_24: true, now: 10_000 }
}

fn message_lines(message: MessageState, width: usize) -> Vec<MessageContentLine> {
    let texts = MessageTexts { prepared: Vec::new(), markup: Vec::new(), blocks: Vec::new() };
    format_message_content_lines(message, texts, &options(), &[], &[], time(), width)
}

#[test]
fn sticker_only_message_renders_sticker_label() {
    let message = MessageState { stickers: vec!["Laugh".to_owned()], ..message() };
    let lines = message_lines(message, 80);
    assert_eq!(texts(&lines), vec!["[Sticker: Laugh]"]);
}

#[test]
fn messages_are_made_of_their_parts() {
    let lines = message_lines(
        MessageState {
            content: Some("hello".to_owned()),
            stickers: vec!["Wave".to_owned()],
            reply: Some(ReplyInfo { author: "ann".to_owned(), content: None, stickers: vec!["Hi".to_owned()] }),
            attachments: vec![AttachmentInfo {
                filename: "cat.png".to_owned(),
                media_type: Some(AttachmentMediaType::Image),
                width: Some(640),
                height: Some(480),
                size: 1,
            }],
            forwarded: Some(ForwardedInfo {
                content: Some("from afar".to_owned()),
                attachments: Vec::new(),
                embeds: Vec::new(),
                source_channel: None,
                timestamp: None,
            }),
            ..message()
        },
        80,
    );
    assert_eq!(
        texts(&lines),
        vec![
            "╭─ ann : [Sticker: Hi]",
            "hello",
            "[Sticker: Wave]",
            "[image: cat.png] 640x480",
            "↱ Forwarded",
            "│ from afar",
        ]
    );
    assert_eq!(texts(&message_lines(message(), 80)), vec!["<message content unavailable>"]);
    let boosted = MessageState { kind: MessageKind { code: 8, regular: false, known_label: None }, ..message() };
    assert_eq!(texts(&message_lines(boosted, 80)), vec!["neo boosted the server"]);
}

#[test]
fn texts_of_embeds_are_prepared() {
    let made = EmbedInfo { title: Some("made <t:9940:R>".to_owned()), ..embed() };
    let lines = message_lines(MessageState { embeds: vec![made], ..message() }, 80);
    assert!(texts(&lines).iter().any(|line| line.ends_with("made 1 minute ago")));
    let markup = [PreparedText {
        source: "1 minute ago".to_owned(),
        rendered: rendered("a while ago"),
        links: vec![(0, 1)],
    }];
    let options = options();
    let context = EmbedFormatContext { markup: &markup, loaded: &[], options: &options, time: time() };
    let (text, links) = prepare_embed_text("<t:9940:R>", &context);
    assert_eq!(text.text, "a while ago");
    assert_eq!(links, vec![(0, 1)]);

    let timed = EmbedInfo {
        title: Some("<t:0:R>".to_owned()),
        description: Some("<t:9940:R>".to_owned()),
        fields: Vec::new(),
        ..embed()
    };
    let lines = format_embed(&timed, &None, &context, 80);
    assert_eq!(texts(&lines), vec!["  ▎ 2 hours ago", "  ▎ a while ago", "  ▎ foot"]);
}

#[test]
fn every_message_has_a_line() {
    let lines = format_parts_lines(no_parts(), &options(), &[], &[], time(), 80);
    assert!(!lines.is_empty());
    let unknown = MessageParts { content_known: false, ..no_parts() };
    assert!(!format_parts_lines(unknown, &options(), &[], &[], time(), 80).is_empty());
}

#[test]
fn sections_stand_in_order() {
    let parts = MessageParts {
        reply_line: Some(MessageContentLine::plain("reply".to_owned())),
        body: body("text"),
        content: Some("text".to_owned()),
        reaction_lines: vec![MessageContentLine::plain("[👍 1]".to_owned())],
        ..no_parts()
    };
    let (above, below) =
        format_message_content_sections_with_loaded_custom_emoji_urls(parts, &options(), &[], &[], time(), 80);
    assert_eq!(texts(&above)[0], "reply");
    assert!(texts(&above).contains(&"text") || texts(&below).contains(&"text"));
    assert_eq!(texts(&below).last(), Some(&"[👍 1]"));
}

#[test]
fn edited_messages_say_so() {
    let theme = Theme::default();
    let lines = append_edited_marker(vec![MessageContentLine::plain("text".to_owned())], 80, &theme);
    assert!(lines.last().expect("a line is there").text.contains("edited"));
    let narrow = append_edited_marker(vec![MessageContentLine::plain("text".to_owned())], 5, &theme);
    assert_eq!(narrow[0].text, "text");
    assert_eq!(narrow.len(), 2);
}

#[test]
fn replies_show_what_they_answer() {
    let line = format_reply_line("ann", rendered("hello"), 80, &Theme::default());
    assert!(line.text.contains("ann"));
    assert!(line.text.ends_with("hello"));
    assert_eq!(reply_content(&Some("x".to_owned()), &Vec::new()), "x");
    assert_eq!(display_text_with_stickers(&None, &Vec::new()), None);
}

// ---- Texts ----

#[test]
fn texts_are_cut_and_joined() {
    let text = RenderedText {
        text: "see https://x.y now".to_owned(),
        highlights: vec![TextHighlight { start: 4, end: 15, kind: TextHighlightKind::Url }],
        emoji_slots: Vec::new(),
    };
    let longer = prepend_rendered_text("> ", text);
    assert_eq!(longer.text, "> see https://x.y now");
    assert_eq!((longer.highlights[0].start, longer.highlights[0].end), (6, 17));
    let back = rendered_text_without_prefix(longer, 2);
    assert_eq!((back.highlights[0].start, back.highlights[0].end), (4, 15));
    let slice = rendered_text_slice(&back, 4, 9);
    assert_eq!(slice.text, "https");
    assert_eq!((slice.highlights[0].start, slice.highlights[0].end), (0, 5));
    let cut = truncate_rendered_text(slice, 3);
    assert_eq!(cut.text, "htt...");
    assert_eq!((cut.highlights[0].start, cut.highlights[0].end), (0, 3));
    let linked = rendered_text_with_url_highlights(rendered("go x.y"), &[(3, 6)]);
    assert_eq!(linked.highlights, vec![TextHighlight { start: 3, end: 6, kind: TextHighlightKind::Url }]);
    let line = prefix_message_content_line("| ", MessageContentLine::plain("x".to_owned()));
    assert_eq!(line.text, "| x");
}

#[test]
fn lines_are_wrapped_at_words() {
    assert_eq!(wrap_plain_text_at_words("hello world again", 11), vec!["hello world", "again"]);
    let lines = wrap_rendered_text_lines(rendered("a b"), &[], 1, Style::plain());
    assert_eq!(texts(&lines), vec!["a", "b"]);
    let bold = Style::plain().add_modifier(BOLD);
    let regions = vec![(bold, "ab".to_owned()), (Style::plain(), "cd".to_owned())];
    let wrapped = wrap_text_line_with_styles(&regions, 3);
    assert_eq!(wrapped.len(), 2);
    assert_eq!(wrapped[0][0], (bold, "ab".to_owned()));
    assert_eq!(wrapped[1], vec![(Style::plain(), "d".to_owned())]);
}

#[test]
fn loaded_emojis_leave_room() {
    let text = RenderedText {
        text: "a:blob:b".to_owned(),
        highlights: vec![TextHighlight { start: 7, end: 8, kind: TextHighlightKind::Url }],
        emoji_slots: vec![InlineEmojiSlot { byte_start: 1, byte_len: 6, display_width: 6, url: "u".to_owned() }],
    };
    let placed = rendered_text_with_loaded_custom_emoji_placeholders(text, &["u".to_owned()], 2);
    assert_eq!(placed.text, "a  b");
    assert_eq!((placed.highlights[0].start, placed.highlights[0].end), (3, 4));
    assert_eq!((placed.emoji_slots[0].byte_start, placed.emoji_slots[0].byte_len), (1, 2));
    let unloaded = RenderedText {
        text: ":blob:".to_owned(),
        highlights: Vec::new(),
        emoji_slots: vec![InlineEmojiSlot { byte_start: 0, byte_len: 6, display_width: 6, url: "u".to_owned() }],
    };
    assert_eq!(rendered_text_with_loaded_custom_emoji_placeholders(unloaded, &[], 2).text, ":blob:");
}

#[test]
fn emojis_alone_are_large() {
    let table = [EmojiUrl { emoji: "😀".to_owned(), url: "u/1".to_owned() }];
    let found = standalone_emojis(&rendered("😀 😀"), &table).expect("only emojis");
    assert_eq!(found.len(), 2);
    assert_eq!(found[0].url, "u/1");
    assert!(standalone_emojis(&rendered("😀 x"), &table).is_none());
    let mut output = Vec::new();
    assert!(push_standalone_unicode_emojis("😀", &mut output, &table));
    assert!(!push_standalone_unicode_emojis("x", &mut output, &table));
    assert_eq!(standalone_emoji_fallback_cell("😀", 4).chars().count(), 3);
    let lines = format_standalone_emoji_lines(&found, 80, Style::plain(), &[], &options());
    assert!(!lines.is_empty());
}

// ---- Embeds ----

fn embed() -> EmbedInfo {
    EmbedInfo {
        color: Some(0x00ff00),
        provider_name: None,
        provider_url: None,
        author_name: None,
        author_url: None,
        title: Some("Title".to_owned()),
        description: None,
        fields: vec![EmbedField { name: "Name".to_owned(), value: "Value".to_owned(), inline: false }],
        thumbnail_description: None,
        image_description: None,
        video_description: None,
        footer_text: Some("foot".to_owned()),
        timestamp: None,
        url: None,
    }
}

#[test]
fn embeds_have_a_gutter() {
    let options = options();
    let context = EmbedFormatContext { markup: &[], loaded: &[], options: &options, time: time() };
    let lines = format_embed_lines(&vec![embed()], &None, &context, 40);
    let shown = texts(&lines);
    assert!(shown.iter().any(|line| line.contains("Title")));
    assert!(shown.iter().any(|line| line.contains("Value")));
    assert!(shown.iter().any(|line| line.contains("foot")));
    assert_eq!(embed_color(0x010203), Color::Rgb(1, 2, 3));
}

#[test]
fn embed_texts_are_plain() {
    assert_eq!(strip_embed_markdown_emphasis("**bold** text"), "bold text");
    assert_eq!(unescape_embed_markdown("a\\*b"), "a*b");
    assert!(plain_embed_text("[label](https://example.com)").contains("label"));
    assert_eq!(embed_label_with_url(&None, &None), None);
    assert_eq!(format_embed_footer(&Some("a".to_owned()), &None).as_deref(), Some("a"));
    assert!(!is_low_value_embed_link_url("https://example.com"));
}

#[test]
fn times_of_embeds_are_local() {
    let stamp = "2025-01-01T12:30:00Z";
    let mut timed = embed();
    timed.timestamp = Some(stamp.to_owned());
    assert_eq!(embed_footer_time(&timed, true), format_rfc3339_local_time(stamp, true));
    assert_eq!(embed_footer_time(&embed(), true), None);
    let local = DateTime::parse_from_rfc3339(stamp).expect("static timestamp is valid").with_timezone(&Local);
    assert_eq!(format_rfc3339_local_time(stamp, true), Some(local.format("%H:%M").to_string()));
    assert_eq!(format_rfc3339_local_time("yesterday", true), None);
    assert!(format_local_date_time(local.timestamp(), true).is_some());
}

#[test]
fn dates_of_messages_are_local() {
    let millis = DISCORD_EPOCH_MILLIS + 86_400_000 * 100;
    let id = test_message_id_for_unix_millis(millis);
    let local = DateTime::from_timestamp_millis(millis as i64).expect("valid").with_timezone(&Local);
    let date = message_local_date(id);
    assert_eq!((date.year, date.month, date.day), (local.year(), local.month(), local.day()));
    assert_eq!(format_message_local_time(id, true), local.format("%H:%M").to_string());
    assert!(message_starts_new_day(id, None));
    assert!(!message_starts_new_day(id, Some(id)));
    let later = test_message_id_for_unix_millis(millis + 86_400_000 * 2);
    assert!(message_starts_new_day(later, Some(id)));

    // The first message that is loaded has no line with the date above it.
    let ids = vec![id, id + 1, later];
    assert_eq!(days_started(&ids), vec![false, false, true]);
    assert!(!message_starts_new_day_at(&ids, 3));
    assert_eq!(message_extra_top_lines(&ids, 2), 1);
    assert_eq!(message_extra_top_lines(&ids, 0), 0);
}

// ---- Components ----

fn media(media_type: Option<AttachmentMediaType>) -> ComponentMediaInfo {
    ComponentMediaInfo {
        attachment_filename: None,
        display_filename: "cat.png".to_owned(),
        media_type,
        width: Some(640),
        height: Some(480),
    }
}

#[test]
fn components_are_shown_as_text() {
    let options = options();
    let attachments = Vec::new();
    let table = vec![RenderedBlock {
        text: "Welcome".to_owned(),
        width: 40,
        lines: vec![MessageContentLine::plain("Welcome".to_owned())],
    }];
    let context = ComponentFormatContext { attachments: &attachments, table: &table, options: &options, time: time() };
    let components = vec![
        MessageComponentInfo::TextDisplay { content: "Welcome".to_owned() },
        MessageComponentInfo::ActionRow {
            components: vec![MessageComponentInfo::Button {
                label: Some("Join".to_owned()),
                emoji: None,
                url: None,
                disabled: false,
            }],
        },
        MessageComponentInfo::Separator { divider: true, spacing: 1 },
        MessageComponentInfo::MediaGallery { items: Vec::new() },
        MessageComponentInfo::Unknown,
    ];
    let mut next = 0;
    let lines = format_component_lines(&components, &context, 40, &mut next);
    assert_eq!(lines[0].text, "Welcome");
    assert!(lines.iter().any(|line| line.text.contains("Join")));
    assert_eq!(next, 0);
}

fn text_display(content: &str) -> MessageComponentInfo {
    MessageComponentInfo::TextDisplay { content: content.to_owned() }
}

#[test]
fn times_in_components_are_told() {
    let options = options();
    let attachments = Vec::new();
    let table = Vec::new();
    let context = ComponentFormatContext { attachments: &attachments, table: &table, options: &options, time: time() };
    let mut next = 0;
    let lines = format_component(&text_display("made <t:9940:R>, `<t:9940:R>`"), &context, 80, &mut next);
    assert_eq!(texts(&lines), vec!["made 1 minute ago, `<t:9940:R>`"]);
    let lines = format_component(&text_display("<t:0:R>"), &context, 80, &mut next);
    assert_eq!(texts(&lines), vec!["2 hours ago"]);

    // Times are told in whatever holds the text, and in texts only.
    let components = vec![
        MessageComponentInfo::Container {
            components: vec![MessageComponentInfo::Section {
                components: vec![text_display("a <t:9940:R>")],
                accessory: Some(Box::new(text_display("b <t:10060:R>"))),
            }],
            accent_color: None,
        },
        MessageComponentInfo::ActionRow {
            components: vec![MessageComponentInfo::Button {
                label: Some("<t:9940:R>".to_owned()),
                emoji: None,
                url: None,
                disabled: true,
            }],
        },
    ];
    let lines = format_component_lines(&components, &context, 80, &mut next);
    assert_eq!(
        texts(&lines),
        vec!["  ▎ a 1 minute ago", "  ▎ b in 1 minute", "[<t:9940:R>] (disabled)"]
    );

    let message = MessageState {
        is_components_v2: true,
        components: vec![text_display("since <t:9940:R>")],
        ..message()
    };
    assert_eq!(texts(&message_lines(message, 80)), vec!["since 1 minute ago"]);

    // What was rendered elsewhere is looked up with the times told.
    let table = vec![RenderedBlock {
        text: "1 minute ago".to_owned(),
        width: 80,
        lines: vec![MessageContentLine::plain("a while ago".to_owned())],
    }];
    let context = ComponentFormatContext { attachments: &attachments, table: &table, options: &options, time: time() };
    let lines = format_component(&text_display("<t:9940:R>"), &context, 80, &mut next);
    assert_eq!(texts(&lines), vec!["a while ago"]);
}

#[test]
fn loaded_images_have_room_in_polls_and_forwarded_texts() {
    let emoji = || PreparedText {
        source: "hi <:e:1>".to_owned(),
        rendered: RenderedText {
            text: "hi :e:".to_owned(),
            highlights: Vec::new(),
            emoji_slots: vec![InlineEmojiSlot {
                byte_start: 3,
                byte_len: 3,
                display_width: 3,
                url: "u/e".to_owned(),
            }],
        },
        links: Vec::new(),
    };
    let lines = |message: MessageState, loaded: &[String]| {
        let prepared = MessageTexts { prepared: vec![emoji()], markup: Vec::new(), blocks: Vec::new() };
        format_message_content_lines(message, prepared, &options(), &[], loaded, time(), 80)
    };
    let forwarded = || MessageState {
        forwarded: Some(ForwardedInfo {
            content: Some("hi <:e:1>".to_owned()),
            attachments: Vec::new(),
            embeds: Vec::new(),
            source_channel: None,
            timestamp: None,
        }),
        ..message()
    };
    let poll = || MessageState {
        content: Some("hi <:e:1>".to_owned()),
        poll: Some(PollInfo {
            question: "which".to_owned(),
            answers: Vec::new(),
            allow_multiselect: false,
            results_finalized: None,
            total_votes: None,
        }),
        ..message()
    };
    let url = ["u/e".to_owned()];
    for build in [&forwarded as &dyn Fn() -> MessageState, &poll] {
        let before = lines(build(), &[]);
        assert!(before.iter().any(|line| line.text.contains("hi :e:")));
        let after = lines(build(), &url);
        assert!(!after.iter().any(|line| line.text.contains(":e:")));
        let line = after.iter().find(|line| line.text.contains("hi ")).expect("the text is shown");
        assert_eq!(line.image_slots.len(), 1);
        assert_eq!(line.image_slots[0].byte_len, 2);
    }
}

#[test]
fn thumbnails_stand_beside_the_text() {
    let slot = section_thumbnail_slot(3, &media(Some(AttachmentMediaType::Image)), &[], true, 60);
    let (text_width, slot) = slot.expect("there is room");
    assert_eq!(slot.section_thumbnail_index, 3);
    assert!(text_width < usize::from(slot.col));
    assert!(usize::from(slot.col) + usize::from(slot.width) <= 60);
    assert!(section_thumbnail_slot(3, &media(Some(AttachmentMediaType::Image)), &[], false, 60).is_none());
    assert!(section_thumbnail_slot(3, &media(Some(AttachmentMediaType::Image)), &[], true, 10).is_none());
}

#[test]
fn parts_of_components_have_labels() {
    assert_eq!(component_button_label(&Some("Go".to_owned()), &Some("🚀".to_owned())), "🚀 Go");
    assert_eq!(component_select_kind_label(ComponentSelectKind::Role), "role");
    assert_eq!(component_media_kind(Some(AttachmentMediaType::Image)), "image");
    assert!(format_dimensions(Some(640), Some(480)).contains("640"));
    assert_eq!(format_dimensions(None, Some(480)), "");
}

#[test]
fn attachments_are_named() {
    let file = |filename: &str, media_type| AttachmentInfo {
        filename: filename.to_owned(),
        media_type,
        width: Some(640),
        height: Some(480),
        size: 2_048,
    };
    let image = file("cat.png", Some(AttachmentMediaType::Image));
    assert_eq!(format_attachment(&image), "[image: cat.png] 640x480");
    let summary = format_attachment_summary(&vec![image, file("notes.txt", None)]);
    assert_eq!(summary, "[image: cat.png] 640x480 | [file: notes.txt] 640x480");
}

// ---- Polls and reactions ----

fn poll(finalized: Option<bool>) -> PollInfo {
    PollInfo {
        question: "Lunch?".to_owned(),
        answers: vec![
            PollAnswerInfo { answer_id: 1, text: "yes".to_owned(), vote_count: Some(3), me_voted: true },
            PollAnswerInfo { answer_id: 2, text: "no".to_owned(), vote_count: Some(1), me_voted: false },
        ],
        allow_multiselect: false,
        results_finalized: finalized,
        total_votes: Some(4),
    }
}

#[test]
fn polls_stand_in_a_box() {
    let theme = Theme::default();
    let lines = format_poll_lines(&poll(None), None, 40, &theme);
    assert!(lines.iter().any(|line| line.text.contains("Lunch?")));
    assert!(lines.iter().any(|line| line.text.contains("yes") && line.text.contains("75%")));
    assert!(lines.iter().any(|line| line.text.contains("25%")));
    assert!(format_poll_answer(0, &poll(None).answers[1], 0).contains("0%"));
    assert_eq!(format_poll_footer(None, 4), "Results not available yet");
    assert_eq!(format_poll_footer(Some(true), 1), "1 vote · Final results");
    assert_eq!(format_poll_footer(Some(false), 4), "4 votes · Results may still change");
    assert_eq!(format_poll_answer(0, &poll(None).answers[0], 4), "  ◉ 1. yes  3 votes  75%");
    let result = format_poll_result_lines(&Some(poll(Some(true))), 40, &theme);
    assert!(!result.is_empty());
}

#[test]
fn reactions_are_chips() {
    let unicode = ReactionInfo { emoji: ReactionEmoji::Unicode("👍".to_owned()), count: 2, me: true };
    assert_eq!(build_reaction_chip(&unicode).0, "[● 👍 2]");
    let custom = ReactionInfo {
        emoji: ReactionEmoji::Custom {
            id: 1,
            name: Some("blob".to_owned()),
            animated: false,
            image_url: Some("u".to_owned()),
        },
        count: 1,
        me: false,
    };
    let (text, offset, url) = build_reaction_chip(&custom);
    assert_eq!(text, "[   1]");
    assert_eq!((offset, url.as_deref()), (Some(1), Some("u")));
    let layout = lay_out_reaction_chips(&[unicode, custom], 8);
    assert_eq!(layout.lines.len(), 2);
    assert_eq!((layout.slots[0].line, layout.slots[0].col), (1, 1));
    assert!(format_reaction_lines(&[], 20, &Theme::default()).is_empty());
}

// ---- Messages of the service ----

#[test]
fn unusual_messages_are_told() {
    let theme = Theme::default();
    let kind = |code, regular| MessageKind { code, regular, known_label: None };
    assert!(format_message_kind_line(&kind(0, true), &theme).is_none());
    assert_eq!(
        format_message_kind_line(&kind(7, false), &theme).map(|line| line.text).as_deref(),
        Some("joined the server")
    );
    assert_eq!(
        format_message_kind_line(&kind(99, false), &theme).map(|line| line.text).as_deref(),
        Some("<unsupported message type>")
    );
    let message = |code| SystemMessage {
        code,
        author: "ann".to_owned(),
        content: Some("plans".to_owned()),
        thread: None,
        reply_line: None,
        poll: None,
    };
    assert!(format_system_message_lines(message(0), 80, &theme).is_none());
    let created = format_system_message_lines(message(18), 80, &theme).expect("a thread was begun");
    assert!(created.iter().any(|line| line.text.contains("plans")));
    let summary = ThreadSummary {
        channel_id: 1,
        name: "plans".to_owned(),
        message_count: Some(3),
        total_message_sent: None,
        archived: Some(true),
        locked: None,
        latest_message_id: None,
        latest_message_preview: None,
    };
    assert_eq!(
        format_thread_summary_line(&summary, 80, &theme).text,
        "3 messages · archived · Open thread to view messages"
    );
}

#[test]
fn forwarded_messages_tell_where_they_come_from() {
    let snapshot = MessageSnapshotInfo {
        content: Some("hello".to_owned()),
        rendered: Some(rendered("hello")),
        links: Vec::new(),
        attachments: Vec::new(),
        embeds: Vec::new(),
        source_channel: Some("#general".to_owned()),
        timestamp: None,
    };
    let options = options();
    let context = EmbedFormatContext { markup: &[], loaded: &[], options: &options, time: time() };
    let lines = format_forwarded_snapshot(snapshot, &context, 80);
    assert!(lines.iter().any(|line| line.text.contains("hello")));
    assert!(lines.iter().any(|line| line.text.contains("#general")));
}
