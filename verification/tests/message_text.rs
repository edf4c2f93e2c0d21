use chrono::{DateTime, Local};
use concord::message::line::{mention_highlight_style, MessageContentLine, StyledPrefix};
use concord::message::rendered::{InlineEmojiSlot, TextHighlight, TextHighlightKind};
use concord::message::time::{
    format_discord_relative, message_unix_millis, relative_quantity,
    render_discord_timestamps_at, split_timestamps, starts_new_day, test_message_id_for_unix_millis, time_format,
    LocalDate, TimestampStyle, TimestampToken, DISCORD_EPOCH_MILLIS,
};
use concord::message::wrap::{wrap_text_lines, wrap_text_with_extras};
use concord::state::fuzzy::fuzzy_text_score;
use concord::style::{Color, Style, Theme, UNDERLINED};

#[test]
fn message_content_line_spans_combine_prefix_and_mention_styles() {
    let theme = Theme::default();
    let mention_start = ">> hello ".len();
    let line = MessageContentLine {
        text: ">> hello @alice".to_owned(),
        style: Style::plain().add_modifier(UNDERLINED),
        mention_highlights: vec![TextHighlight {
            start: mention_start,
            end: mention_start + "@alice".len(),
            kind: TextHighlightKind::SelfMention,
        }],
        styled_prefixes: vec![StyledPrefix {
            start: 0,
            len: ">> ".len(),
            style: Style::plain().fg(Color::Red),
            patch_base: false,
        }],
        image_slots: Vec::new(),
        preview_slots: Vec::new(),
    };

    let spans = line.spans(&theme);

    assert_eq!(spans[0].content.as_str(), ">> ");
    assert_eq!(spans[0].style.fg, Some(Color::Red));
    assert!(spans[0].style.add_modifier & UNDERLINED == 0);
    assert_eq!(spans[1].content.as_str(), "hello ");
    assert!(spans[1].style.add_modifier & UNDERLINED != 0);
    assert_eq!(spans[2].content.as_str(), "@alice");
    assert!(spans[2].style.add_modifier & UNDERLINED != 0);
    assert_eq!(
        spans[2].style.bg,
        mention_highlight_style(TextHighlightKind::SelfMention, &theme).bg
    );
}

#[test]
fn wrap_distributes_emoji_slots_per_line_with_correct_columns() {
    let text = "ab:e:cd:e:";
    let slots = vec![
        InlineEmojiSlot { byte_start: 2, byte_len: 3, display_width: 3, url: "u-first".to_owned() },
        InlineEmojiSlot { byte_start: 7, byte_len: 3, display_width: 3, url: "u-second".to_owned() },
    ];

    let lines = wrap_text_with_extras(text, &[], &slots, 7);

    assert_eq!(lines.len(), 2);
    assert_eq!(lines[0].0, "ab:e:cd");
    assert_eq!(lines[0].2.len(), 1);
    assert_eq!(lines[0].2[0].col, 2);
    assert_eq!(lines[0].2[0].byte_start, 2);
    assert_eq!(lines[0].2[0].byte_len, 3);
    assert_eq!(lines[0].2[0].url, "u-first");
    assert_eq!(lines[1].0, ":e:");
    assert_eq!(lines[1].2.len(), 1);
    assert_eq!(lines[1].2[0].col, 0);
    assert_eq!(lines[1].2[0].byte_start, 0);
    assert_eq!(lines[1].2[0].url, "u-second");
}

#[test]
fn wrap_keeps_emoji_text_fallback_atomic_at_line_edge() {
    let text = "ab:e:";
    let slots = vec![InlineEmojiSlot { byte_start: 2, byte_len: 3, display_width: 3, url: "u".to_owned() }];
    let lines = wrap_text_with_extras(text, &[], &slots, 4);
    assert_eq!(lines.len(), 2);
    assert_eq!(lines[0].0, "ab");
    assert_eq!(lines[0].2.len(), 0);
    assert_eq!(lines[1].0, ":e:");
    assert_eq!(lines[1].2.len(), 1);
    assert_eq!(lines[1].2[0].col, 0);
    assert_eq!(lines[1].2[0].byte_start, 0);
}

#[test]
fn wrap_prefers_word_boundaries_when_possible() {
    let cases = [
        (
            "this is a line where the last word spills",
            37,
            vec!["this is a line where the last word ", "spills"],
        ),
        ("hello world again", 11, vec!["hello world", "again"]),
        ("supercalifragilistic", 6, vec!["superc", "alifra", "gilist", "ic"]),
    ];

    for (text, width, expected) in cases {
        let lines = wrap_text_with_extras(text, &[], &[], width)
            .into_iter()
            .map(|line| line.0)
            .collect::<Vec<_>>();

        assert_eq!(lines, expected);
    }
}

#[test]
fn emojis_behind_a_word_stay_whole() {
    let slots = vec![InlineEmojiSlot { byte_start: 7, byte_len: 6, display_width: 6, url: "u".to_owned() }];
    let lines = wrap_text_with_extras("ab cdef:blob:", &[], &slots, 8);
    let texts: Vec<&str> = lines.iter().map(|line| line.0.as_str()).collect();
    assert_eq!(texts, vec!["ab ", "cdef", ":blob:"]);
    assert_eq!((lines[2].2[0].col, lines[2].2[0].byte_start), (0, 0));
    let roomy = wrap_text_with_extras("ab cdef:blob:", &[], &slots, 10);
    let texts: Vec<&str> = roomy.iter().map(|line| line.0.as_str()).collect();
    assert_eq!(texts, vec!["ab ", "cdef:blob:"]);
    assert_eq!((roomy[1].2[0].col, roomy[1].2[0].byte_start), (4, 4));
}

#[test]
fn wrapped_lines_fit_into_their_width() {
    for width in 2..12 {
        for line in wrap_text_with_extras("the quick 日本語 fox jumps", &[], &[], width) {
            let columns: usize = line.0.chars().map(|c| if c.is_ascii() { 1 } else { 2 }).sum();
            assert!(columns <= width);
        }
    }
}

#[test]
fn wide_characters_count_twice() {
    assert_eq!(wrap_text_lines("日本語", 4), vec!["日本", "語"]);
    assert_eq!(wrap_text_lines("", 4), Vec::<String>::new());
    assert_eq!(wrap_text_lines("a\n\nb", 4), vec!["a", "", "b"]);
}

#[test]
fn clusters_stay_whole() {
    // A letter and the accent behind it are one cluster of one column.
    assert_eq!(wrap_text_lines("e\u{301}e\u{301}", 1), vec!["e\u{301}", "e\u{301}"]);
}

const TIMESTAMP: i64 = 1_735_689_600;

#[test]
fn discord_timestamp_markup_renders_supported_absolute_styles() {
    let local = DateTime::from_timestamp(TIMESTAMP, 0)
        .expect("static timestamp is valid")
        .with_timezone(&Local);

    for (hour_format_24, style, format) in [
        (true, "", "%B %d, %Y %H:%M"),
        (true, "t", "%H:%M"),
        (true, "T", "%H:%M:%S"),
        (true, "d", "%m/%d/%Y"),
        (true, "D", "%B %d, %Y"),
        (true, "f", "%B %d, %Y %H:%M"),
        (true, "F", "%A, %B %d, %Y %H:%M"),
        (true, "s", "%m/%d/%Y, %H:%M"),
        (true, "S", "%m/%d/%Y, %H:%M:%S"),
        (false, "t", "%I:%M %p"),
        (false, "T", "%I:%M:%S %p"),
        (false, "f", "%B %d, %Y %I:%M %p"),
        (false, "F", "%A, %B %d, %Y %I:%M %p"),
        (false, "s", "%m/%d/%Y, %I:%M %p"),
        (false, "S", "%m/%d/%Y, %I:%M:%S %p"),
    ] {
        let markup = if style.is_empty() {
            format!("<t:{TIMESTAMP}>")
        } else {
            format!("<t:{TIMESTAMP}:{style}>")
        };

        assert_eq!(
            render_discord_timestamps_at(&markup, hour_format_24, TIMESTAMP),
            local.format(format).to_string(),
            "{markup}"
        );
    }
}

#[test]
fn discord_relative_timestamp_markup_uses_expected_boundaries() {
    let now = 10_000;
    for (timestamp, expected) in [
        (now - 59, "just now"),
        (now, "just now"),
        (now + 59, "in less than a minute"),
        (now - 60, "1 minute ago"),
        (now + 60, "in 1 minute"),
        (now - 2 * 60 * 60, "2 hours ago"),
        (now + 2 * 24 * 60 * 60, "in 2 days"),
    ] {
        let markup = format!("<t:{timestamp}:R>");
        assert_eq!(render_discord_timestamps_at(&markup, true, now), expected, "{markup}");
    }
}

#[test]
fn discord_timestamp_markup_preserves_code_and_malformed_input() {
    let input = "plain <t:9940:R>\ninline `<t:9940:R>`\n```text\n<t:9940:R>\n```\nbad <t:> <t:9940:x> <t:9940:R <t:999999999999999999999:R>";

    assert_eq!(
        render_discord_timestamps_at(input, true, 10_000),
        "plain 1 minute ago\ninline `<t:9940:R>`\n```text\n<t:9940:R>\n```\nbad <t:> <t:9940:x> <t:9940:R <t:999999999999999999999:R>"
    );
}

#[test]
fn stamps_are_told_from_text() {
    let mut text = String::new();
    let mut stamps = Vec::new();
    for token in split_timestamps("at <t:5:t>!") {
        match token {
            TimestampToken::Text(part) => text.push_str(&part),
            TimestampToken::Stamp { seconds, style, markup } => {
                text.push_str(&markup);
                stamps.push((seconds, style));
            }
        }
    }
    assert_eq!(text, "at <t:5:t>!");
    assert_eq!(stamps, vec![(5, TimestampStyle::ShortTime)]);
}

#[test]
fn quantities_have_a_plural() {
    assert_eq!(relative_quantity(1, "day"), "1 day");
    assert_eq!(relative_quantity(3, "day"), "3 days");
    assert_eq!(format_discord_relative(0, 3_600), "1 hour ago");
}

#[test]
fn identifiers_tell_the_time() {
    let id = test_message_id_for_unix_millis(DISCORD_EPOCH_MILLIS + 5_000);
    assert_eq!(message_unix_millis(id), DISCORD_EPOCH_MILLIS + 5_000);
    assert_eq!(time_format(true), "%H:%M");
    assert_eq!(time_format(false), "%I:%M %p");
}

#[test]
fn days_begin_where_the_date_changes() {
    let day = LocalDate { year: 2025, month: 1, day: 2 };
    assert!(!starts_new_day(day, Some(day)));
    assert!(starts_new_day(day, Some(LocalDate { year: 2025, month: 1, day: 1 })));
}

#[test]
fn fuzzy_text_score_matches_subsequences() {
    assert!(fuzzy_text_score("general", "gnrl").is_some());
    assert_eq!(fuzzy_text_score("general", "xyz"), None);
}

#[test]
fn fuzzy_text_score_prefers_exact_prefix_and_contiguous_matches() {
    let exact = fuzzy_text_score("general", "general").expect("exact match");
    let prefix = fuzzy_text_score("general", "gen").expect("prefix match");
    let contiguous = fuzzy_text_score("neo-general", "gen").expect("contiguous match");
    let spread = fuzzy_text_score("g-e-n", "gen").expect("spread match");

    assert!(exact < prefix);
    assert!(prefix < contiguous);
    assert!(contiguous < spread);
}

#[test]
fn rendering_twice_is_rendering_once() {
    let values = [
        "at <t:1735689600> and <t:1735689600:R>",
        "`<t:5>` <t:9223372036854775807>",
        "```\n<t:5>\n``` <t:5>\nx",
        "<t:<t:1735689600:t>>",
        "``<t:1735689600>`",
    ];
    for value in values {
        let once = render_discord_timestamps_at(value, true, 10_000);
        assert_eq!(render_discord_timestamps_at(&once, true, 20_000), once);
        let count = |text: &str, c: char| text.chars().filter(|found| *found == c).count();
        assert_eq!(count(&once, '`'), count(value, '`'));
        assert_eq!(count(&once, '\n'), count(value, '\n'));
    }
    assert_eq!(render_discord_timestamps_at("<t:9223372036854775807>", true, 0), "<invalid time>");
}

#[test]
fn scores_ignore_case_and_padding() {
    for (value, query) in [("General Chat", "gnrl"), ("random", "RND"), ("xyz", "abc")] {
        let score = fuzzy_text_score(value, query);
        assert_eq!(fuzzy_text_score(&value.to_ascii_uppercase(), query), score);
        assert_eq!(fuzzy_text_score(value, &query.to_ascii_uppercase()), score);
        assert_eq!(fuzzy_text_score(value, &format!("  {query}\t ")), score);
    }
}

#[test]
fn words_that_fit_stay_whole() {
    let lines: Vec<String> = wrap_text_with_extras("to be or not to be that is", &[], &[], 7)
        .into_iter()
        .map(|line| line.0)
        .collect();
    assert_eq!(lines, vec!["to be ", "or not ", "to be ", "that is"]);

    // Also behind a word that does not fit.
    let lines: Vec<String> = wrap_text_with_extras("abcdefghij klmno pq", &[], &[], 6)
        .into_iter()
        .map(|line| line.0)
        .collect();
    assert_eq!(lines, vec!["abcdef", "ghij ", "klmno ", "pq"]);
}
