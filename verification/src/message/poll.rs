//! Polls: the card of a poll and the lines of its results.

use crate::message::line::{lemma_line_views_push, line_views, styled_line, LineView, MessageContentLine};
use crate::message::rendered::RenderedText;
use crate::message::rich::{prefix_message_content_line, prefixed_line};
use crate::message::styled::{content_lines, wrap_rendered_text_lines};
use crate::style::{Style, Theme};
use crate::text::{decimal, decimal_string, repeat_char, repeated, truncate_text, truncated};
use crate::unicode::{display_width, fitting, graphemes, str_width, truncate_display_width};
use vstd::prelude::*;
use vstd::string::*;

verus! {

#[derive(Debug, PartialEq, Eq)]
pub struct PollAnswerInfo {
    pub answer_id: u8,
    pub text: String,
    pub vote_count: Option<u64>,
    pub me_voted: bool,
}

#[derive(Debug, PartialEq, Eq)]
pub struct PollInfo {
    pub question: String,
    pub answers: Vec<PollAnswerInfo>,
    pub allow_multiselect: bool,
    pub results_finalized: Option<bool>,
    pub total_votes: Option<u64>,
}

// ---- Votes ----

/// The votes that were counted for answers.
pub open spec fn counted_votes(answers: Seq<PollAnswerInfo>) -> nat
    decreases answers.len(),
{
    if answers.len() == 0 {
        0
    } else {
        counted_votes(answers.drop_last()) + (match answers.last().vote_count {
            Some(n) => n as nat,
            None => 0,
        })
    }
}

proof fn lemma_counted_grows(answers: Seq<PollAnswerInfo>, k: int)
    requires
        0 <= k <= answers.len(),
    ensures
        counted_votes(answers.take(k)) <= counted_votes(answers),
    decreases answers.len() - k,
{
    if k < answers.len() {
        lemma_counted_grows(answers, k + 1);
        assert(answers.take(k + 1).drop_last() =~= answers.take(k));
    } else {
        assert(answers.take(k) =~= answers);
    }
}

fn count_votes(answers: &Vec<PollAnswerInfo>) -> (r: u64)
    requires
        counted_votes(answers@) <= u64::MAX,
    ensures
        r == counted_votes(answers@),
{
    let mut total: u64 = 0;
    let mut i: usize = 0;
    assert(answers@.take(0) =~= Seq::<PollAnswerInfo>::empty());
    while i < answers.len()
        invariant
            counted_votes(answers@) <= u64::MAX,
            i <= answers@.len(),
            total == counted_votes(answers@.take(i as int)),
        decreases answers@.len() - i,
    {
        proof {
            assert(answers@.take(i + 1).drop_last() =~= answers@.take(i as int));
            lemma_counted_grows(answers@, i + 1);
        }
        if let Some(n) = answers[i].vote_count {
            total = total + n;
        }
        i += 1;
    }
    assert(answers@.take(i as int) =~= answers@);
    total
}

/// The total that a poll reports, or the votes that were counted.
pub open spec fn total_votes(poll: PollInfo) -> nat {
    match poll.total_votes {
        Some(n) => n as nat,
        None => counted_votes(poll.answers@),
    }
}

/// The share of an answer in percent, rounded down; without votes it is zero.
pub open spec fn percent(count: u64, total: u64) -> nat {
    let hundredfold = if count * 100 > u64::MAX { u64::MAX as int } else { count * 100 };
    if total == 0 {
        0
    } else {
        (hundredfold / total as int) as nat
    }
}

fn vote_percent(count: u64, total: u64) -> (r: u64)
    ensures
        r == percent(count, total),
{
    let hundredfold: u128 = count as u128 * 100;
    let hundredfold: u64 = if hundredfold > u64::MAX as u128 { u64::MAX } else { hundredfold as u64 };
    if total == 0 {
        0
    } else {
        hundredfold / total
    }
}

/// The share of an answer that has no more votes than there are is at most a hundred percent.
pub proof fn shares_are_at_most_a_hundred(count: u64, total: u64)
    requires
        count <= total,
    ensures
        percent(count, total) <= 100,
{
    if total > 0 {
        let hundredfold = if count * 100 > u64::MAX { u64::MAX as int } else { count * 100 };
        assert(hundredfold <= 100 * total);
        assert(hundredfold / total as int <= 100) by (nonlinear_arith)
            requires
                hundredfold <= 100 * total,
                total > 0,
        ;
    }
}

/// An answer with its number, and its votes where they are known.
pub open spec fn answer_text(index: int, answer: PollAnswerInfo, total: u64) -> Seq<char> {
    let marker = if answer.me_voted { "◉"@ } else { "◯"@ };
    let votes = match answer.vote_count {
        Some(count) => "  "@ + decimal(count as nat) + " votes  "@ + decimal(percent(count, total)) + "%"@,
        None => ""@,
    };
    "  "@ + marker + " "@ + decimal((index + 1) as nat) + ". "@ + answer.text@ + votes
}

pub fn format_poll_answer(index: usize, answer: &PollAnswerInfo, total_votes: u64) -> (r: String)
    requires
        index < usize::MAX,
    ensures
        r@ == answer_text(index as int, *answer, total_votes),
{
    let mut text = "  ".to_owned();
    text.append(
        if answer.me_voted {
            "◉"
        } else {
            "◯"
        },
    );
    text.append(" ");
    let number = decimal_string((index + 1) as u64);
    text.append(number.as_str());
    text.append(". ");
    text.append(answer.text.as_str());
    let mut votes = "".to_owned();
    if let Some(count) = answer.vote_count {
        let mut note = "  ".to_owned();
        let shown = decimal_string(count);
        note.append(shown.as_str());
        note.append(" votes  ");
        let share = decimal_string(vote_percent(count, total_votes));
        note.append(share.as_str());
        note.append("%");
        votes = note;
    }
    text.append(votes.as_str());
    text
}

pub open spec fn vote_label(total: nat) -> Seq<char> {
    if total == 1 {
        "vote"@
    } else {
        "votes"@
    }
}

/// The last line of a poll card.
pub open spec fn footer_text(finalized: Option<bool>, total: nat) -> Seq<char> {
    match finalized {
        Some(true) => decimal(total) + " "@ + vote_label(total) + " · Final results"@,
        Some(false) => decimal(total) + " "@ + vote_label(total) + " · Results may still change"@,
        None => "Results not available yet"@,
    }
}

pub fn format_poll_footer(finalized: Option<bool>, total_votes: u64) -> (r: String)
    ensures
        r@ == footer_text(finalized, total_votes as nat),
{
    match finalized {
        None => "Results not available yet".to_owned(),
        Some(finalized) => {
            let mut text = decimal_string(total_votes);
            text.append(" ");
            text.append(
                if total_votes == 1 {
                    "vote"
                } else {
                    "votes"
                },
            );
            text.append(
                if finalized {
                    " · Final results"
                } else {
                    " · Results may still change"
                },
            );
            text
        },
    }
}

// ---- The card ----

/// The width of the card: from 4 to 72 columns.
pub open spec fn box_width(width: usize) -> int {
    if width < 4 {
        4
    } else if width > 72 {
        72
    } else {
        width as int
    }
}

pub fn poll_box_width(width: usize) -> (r: usize)
    ensures
        r == box_width(width),
{
    if width < 4 {
        4
    } else if width > 72 {
        72
    } else {
        width
    }
}

/// The width inside the card: at least one column.
pub open spec fn card_inner_width(width: usize) -> int {
    if box_width(width) > 4 {
        box_width(width) - 4
    } else {
        1
    }
}

pub fn poll_card_inner_width(width: usize) -> (r: usize)
    ensures
        r == card_inner_width(width),
{
    let outer: usize = poll_box_width(width);
    if outer > 4 {
        outer - 4
    } else {
        1
    }
}

/// The upper or lower border of the card, between its corners.
pub open spec fn border(left: Seq<char>, right: Seq<char>, width: usize) -> Seq<char> {
    left + repeated('─', (box_width(width) - 2) as nat) + right
}

pub fn poll_box_border(left: &str, right: &str, width: usize) -> (r: String)
    ensures
        r@ == border(left@, right@, width),
{
    let mut text = left.to_owned();
    let rule = repeat_char('─', poll_box_width(width) - 2);
    text.append(rule.as_str());
    text.append(right);
    text
}

/// A line between the sides of the card, filled up with blanks.
pub open spec fn boxed(line: LineView, inner_width: usize) -> LineView {
    let padding = if inner_width > display_width(line.text) { inner_width - display_width(line.text) } else { 0 };
    let moved = prefixed_line("│ "@, line);
    LineView { text: moved.text + repeated(' ', padding as nat) + " │"@, ..moved }
}

pub fn poll_box_line(line: MessageContentLine, inner_width: usize) -> (r: MessageContentLine)
    ensures
        r@ == boxed(line@, inner_width),
{
    let padding: usize = inner_width.saturating_sub(str_width(line.text.as_str()));
    let mut line = prefix_message_content_line("│ ", line);
    let blanks = repeat_char(' ', padding);
    line.text.append(blanks.as_str());
    line.text.append(" │");
    line
}

pub open spec fn boxed_text(text: Seq<char>, style: Style, inner_width: usize) -> LineView {
    boxed(styled_line(fitting(graphemes(text), inner_width, 0), style, seq![]), inner_width)
}

fn box_text(text: &str, style: Style, inner_width: usize) -> (r: MessageContentLine)
    ensures
        r@ == boxed_text(text@, style, inner_width),
{
    let line = MessageContentLine::styled_text(truncate_display_width(text, inner_width), style, Vec::new());
    poll_box_line(line, inner_width)
}

pub open spec fn helper_text(allow_multiselect: bool) -> Seq<char> {
    if allow_multiselect {
        "Select one or more answers"@
    } else {
        "Select one answer"@
    }
}

/// What the message says beside its poll, with the links detected in it.
pub struct PollContent {
    pub rendered: RenderedText,
    pub links: Vec<(usize, usize)>,
}

pub open spec fn content_part(content: Option<PollContent>, inner_width: usize) -> Seq<LineView> {
    match content {
        Some(c) => content_lines(c.rendered@, c.links@, inner_width, Style::none(), seq![]).map_values(
            |l: LineView| boxed(l, inner_width),
        ),
        None => seq![],
    }
}

pub open spec fn answer_lines(answers: Seq<PollAnswerInfo>, total: u64, inner_width: usize) -> Seq<LineView> {
    Seq::new(
        answers.len(),
        |i: int| boxed_text(answer_text(i, answers[i], total), Style::none(), inner_width),
    )
}

/// The card of a poll.
pub open spec fn poll_lines(poll: PollInfo, content: Option<PollContent>, width: usize, theme: Theme) -> Seq<LineView> {
    let inner = card_inner_width(width) as usize;
    let total = total_votes(poll) as u64;
    seq![
        styled_line(border("╭"@, "╮"@, width), theme.accent, seq![]),
        boxed_text(poll.question@, Style::none(), inner),
    ] + content_part(content, inner) + seq![boxed_text(helper_text(poll.allow_multiselect), theme.message_secondary, inner)]
        + answer_lines(poll.answers@, total, inner) + seq![
        boxed_text(footer_text(poll.results_finalized, total as nat), theme.message_secondary, inner),
        styled_line(border("╰"@, "╯"@, width), theme.accent, seq![]),
    ]
}

fn push_line(lines: &mut Vec<MessageContentLine>, line: MessageContentLine)
    ensures
        line_views(final(lines)@) == line_views(old(lines)@).push(line@),
{
    proof {
        lemma_line_views_push(lines@, line);
    }
    lines.push(line);
}

/// Formats the card of a poll.
pub fn format_poll_lines(poll: &PollInfo, content: Option<PollContent>, width: usize, theme: &Theme) -> (r: Vec<
    MessageContentLine,
>)
    requires
        counted_votes(poll.answers@) <= u64::MAX,
    ensures
        line_views(r@) == poll_lines(*poll, content, width, *theme),
{
    let inner: usize = poll_card_inner_width(width);
    let mut lines: Vec<MessageContentLine> = Vec::new();
    assert(line_views(lines@) =~= Seq::<LineView>::empty());
    push_line(&mut lines, MessageContentLine::accent(poll_box_border("╭", "╮", width), theme));
    push_line(&mut lines, box_text(poll.question.as_str(), Style::plain(), inner));
    let ghost head = line_views(lines@);
    assert(head =~= seq![
        styled_line(border("╭"@, "╮"@, width), theme.accent, seq![]),
        boxed_text(poll.question@, Style::none(), inner),
    ]);
    let ghost middle = content_part(content, inner);
    assert(head + Seq::<LineView>::empty() =~= head);
    if let Some(content) = content {
        let wrapped = wrap_rendered_text_lines(content.rendered, content.links.as_slice(), inner, Style::plain());
        let ghost all = wrapped@;
        assert(line_views(lines@) =~= head + middle.take(0));
        for line in it: wrapped
            invariant
                it.seq() == all,
                middle == line_views(all).map_values(|l: LineView| boxed(l, inner)),
                line_views(lines@) == head + middle.take(it.index()),
        {
            let line_in_box = poll_box_line(line, inner);
            proof {
                assert(line_views(all)[it.index()] == line@);
                assert(middle[it.index()] == line_in_box@);
                assert((head + middle.take(it.index())).push(line_in_box@) =~= head + middle.take(it.index() + 1));
            }
            push_line(&mut lines, line_in_box);
        }
        assert(middle.take(all.len() as int) =~= middle);
    }
    let helper = if poll.allow_multiselect {
        "Select one or more answers"
    } else {
        "Select one answer"
    };
    push_line(&mut lines, box_text(helper, theme.message_secondary, inner));
    let ghost upper = line_views(lines@);
    assert(upper =~= head + middle + seq![boxed_text(helper@, theme.message_secondary, inner)]);
    let counted: u64 = count_votes(&poll.answers);
    let total: u64 = match poll.total_votes {
        Some(n) => n,
        None => counted,
    };
    let ghost expected = answer_lines(poll.answers@, total, inner);
    let mut i: usize = 0;
    assert(upper + expected.take(0) =~= upper);
    while i < poll.answers.len()
        invariant
            expected == answer_lines(poll.answers@, total, inner),
            i <= poll.answers@.len(),
            line_views(lines@) == upper + expected.take(i as int),
        decreases poll.answers@.len() - i,
    {
        let text = format_poll_answer(i, &poll.answers[i], total);
        let line = box_text(text.as_str(), Style::plain(), inner);
        proof {
            assert(expected[i as int] == line@);
            assert((upper + expected.take(i as int)).push(line@) =~= upper + expected.take(i + 1));
        }
        push_line(&mut lines, line);
        i += 1;
    }
    assert(expected.take(i as int) =~= expected);
    let footer = format_poll_footer(poll.results_finalized, total);
    push_line(&mut lines, box_text(footer.as_str(), theme.message_secondary, inner));
    push_line(&mut lines, MessageContentLine::accent(poll_box_border("╰", "╯", width), theme));
    assert(line_views(lines@) =~= poll_lines(*poll, content, width, *theme));
    lines
}

// ---- Results ----

pub open spec fn line_in(text: Seq<char>, width: usize, style: Style) -> LineView {
    styled_line(truncated(text, width as int), style, seq![])
}

/// What is said of the first answer.
pub open spec fn winner_line(answers: Seq<PollAnswerInfo>, width: usize, theme: Theme) -> LineView {
    if answers.len() == 0 {
        line_in("No winning answer recorded"@, width, theme.message_secondary)
    } else {
        line_in("Winner: "@ + answers[0].text@ + (match answers[0].vote_count {
            Some(count) => " with "@ + decimal(count as nat) + " votes"@,
            None => ""@,
        }), width, Style::none())
    }
}

/// The total, where it is reported or something was counted.
pub open spec fn total_line(poll: PollInfo, width: usize, theme: Theme) -> Seq<LineView> {
    if poll.total_votes is Some || counted_votes(poll.answers@) > 0 {
        seq![
            line_in(
                decimal(total_votes(poll)) + " total "@ + vote_label(total_votes(poll)) + " · Final results"@,
                width,
                theme.message_secondary,
            ),
        ]
    } else {
        seq![]
    }
}

/// The lines of a message that tells the results of a poll.
pub open spec fn result_lines(poll: Option<PollInfo>, width: usize, theme: Theme) -> Seq<LineView> {
    let title = line_in("Poll results"@, width, theme.accent);
    match poll {
        None => seq![title, line_in("Result details unavailable"@, width, theme.message_secondary)],
        Some(poll) => seq![
            title,
            line_in(poll.question@, width, Style::none()),
            winner_line(poll.answers@, width, theme),
        ] + total_line(poll, width, theme),
    }
}

fn truncated_line(text: &str, width: usize, style: Style) -> (r: MessageContentLine)
    ensures
        r@ == line_in(text@, width, style),
{
    MessageContentLine::styled_text(truncate_text(text, width), style, Vec::new())
}

pub fn format_poll_result_lines(poll: &Option<PollInfo>, width: usize, theme: &Theme) -> (r: Vec<MessageContentLine>)
    requires
        poll matches Some(p) ==> counted_votes(p.answers@) <= u64::MAX,
    ensures
        line_views(r@) == result_lines(*poll, width, *theme),
{
    let mut lines: Vec<MessageContentLine> = Vec::new();
    assert(line_views(lines@) =~= Seq::<LineView>::empty());
    push_line(&mut lines, truncated_line("Poll results", width, theme.accent));
    match poll {
        None => {
            push_line(&mut lines, truncated_line("Result details unavailable", width, theme.message_secondary));
        },
        Some(poll) => {
            push_line(&mut lines, truncated_line(poll.question.as_str(), width, Style::plain()));
            if poll.answers.len() > 0 {
                let mut text = "Winner: ".to_owned();
                text.append(poll.answers[0].text.as_str());
                let mut votes = "".to_owned();
                if let Some(count) = poll.answers[0].vote_count {
                    let mut note = " with ".to_owned();
                    let shown = decimal_string(count);
                    note.append(shown.as_str());
                    note.append(" votes");
                    votes = note;
                }
                text.append(votes.as_str());
                push_line(&mut lines, truncated_line(text.as_str(), width, Style::plain()));
            } else {
                push_line(&mut lines, truncated_line("No winning answer recorded", width, theme.message_secondary));
            }
            let counted: u64 = count_votes(&poll.answers);
            let total: Option<u64> = match poll.total_votes {
                Some(n) => Some(n),
                None => if counted > 0 {
                    Some(counted)
                } else {
                    None
                },
            };
            if let Some(total) = total {
                let mut text = decimal_string(total);
                text.append(" total ");
                text.append(
                    if total == 1 {
                        "vote"
                    } else {
                        "votes"
                    },
                );
                text.append(" · Final results");
                push_line(&mut lines, truncated_line(text.as_str(), width, theme.message_secondary));
            }
        },
    }
    assert(line_views(lines@) =~= result_lines(*poll, width, *theme));
    lines
}

} // verus!
