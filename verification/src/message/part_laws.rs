//! What polls, reactions, attachments and forwarded messages show.

use crate::message::attachments::{attachment_summary, attachment_text};
use crate::message::components::{AttachmentInfo, AttachmentMediaType};
use crate::message::embed_laws::lemma_join_contains;
use crate::message::line::LineView;
use crate::message::poll::{
    answer_lines, boxed, boxed_text, card_inner_width, content_part, counted_votes, percent, poll_lines, result_lines,
    total_votes, PollAnswerInfo, PollContent, PollInfo,
};
use crate::message::reactions::{
    break_row, chip_of, lay_out, put_chip, reaction_rows, reaction_slots, ChipState, ReactionEmoji, ReactionInfo,
};
use crate::message::styled::content_lines;
use crate::message::system::{
    forwarded_width, snapshot_attachments, snapshot_content, snapshot_lines, with_bar, MessageSnapshotInfo,
};
use crate::message::wrap::{sat_add, to_col};
use crate::style::{Style, Theme};
use crate::text::{concat, contains_text, decimal, digit, repeated};
use crate::unicode::{display_width, fitting, graphemes, is_plain};
use vstd::prelude::*;
use vstd::string::*;

verus! {

// ---- Numbers ----

/// The number that decimal digits tell.
pub open spec fn number(s: Seq<char>) -> int
    decreases s.len(),
{
    if s.len() == 0 {
        0
    } else {
        10 * number(s.drop_last()) + (s.last() as int - '0' as int)
    }
}

/// A number in decimal tells the number, without a zero in front.
pub proof fn decimals_tell_the_number(n: nat)
    ensures
        number(decimal(n)) == n,
        forall|i: int| 0 <= i < decimal(n).len() ==> '0' <= #[trigger] decimal(n)[i] <= '9',
        decimal(n).len() > 0,
        n > 0 ==> decimal(n)[0] != '0',
    decreases n,
{
    assert(forall|d: int| 0 <= d < 10 ==> #[trigger] digit(d) as int == '0' as int + d);
    if n < 10 {
        let s = decimal(n);
        assert(s.drop_last() =~= Seq::<char>::empty());
        assert(number(s.drop_last()) == 0);
    } else {
        decimals_tell_the_number(n / 10);
        let s = decimal(n);
        assert(s.drop_last() =~= decimal(n / 10));
        assert(s[0] == decimal(n / 10)[0]);
        assert forall|i: int| 0 <= i < s.len() implies '0' <= #[trigger] s[i] <= '9' by {
            if i < s.len() - 1 {
                assert(s[i] == decimal(n / 10)[i]);
            }
        }
    }
}

// ---- Texts that fit ----

/// The columns that clusters take together.
pub open spec fn columns(clusters: Seq<Seq<char>>) -> int
    decreases clusters.len(),
{
    if clusters.len() == 0 {
        0
    } else {
        display_width(clusters[0]) + columns(clusters.drop_first())
    }
}

/// Whether a text fits into a width, cluster by cluster.
pub open spec fn fits(text: Seq<char>, width: int) -> bool {
    concat(graphemes(text)) == text && columns(graphemes(text)) <= width
}

pub(crate) proof fn lemma_concat_first(parts: Seq<Seq<char>>)
    requires
        parts.len() > 0,
    ensures
        concat(parts) == parts[0] + concat(parts.drop_first()),
    decreases parts.len(),
{
    let rest = parts.drop_first();
    if parts.len() == 1 {
        assert(parts.drop_last() =~= Seq::<Seq<char>>::empty());
        assert(concat(parts.drop_last()) =~= Seq::<char>::empty());
        assert(concat(rest) =~= Seq::<char>::empty());
        assert(concat(parts) =~= parts[0] + concat(rest));
    } else {
        lemma_concat_first(parts.drop_last());
        assert(parts.drop_last().drop_first() =~= rest.drop_last());
        assert(parts[0] + concat(rest.drop_last()) + rest.last() =~= parts[0] + (concat(rest.drop_last()) + rest.last()));
    }
}

proof fn lemma_fits(clusters: Seq<Seq<char>>, limit: usize, used: usize)
    requires
        used + columns(clusters) <= limit,
    ensures
        fitting(clusters, limit, used) == concat(clusters),
    decreases clusters.len(),
{
    if clusters.len() > 0 {
        lemma_columns(clusters.drop_first());
        lemma_concat_first(clusters);
        lemma_fits(clusters.drop_first(), limit, (used + display_width(clusters[0])) as usize);
    }
}

proof fn lemma_columns(clusters: Seq<Seq<char>>)
    ensures
        columns(clusters) >= 0,
    decreases clusters.len(),
{
    if clusters.len() > 0 {
        lemma_columns(clusters.drop_first());
    }
}

// ---- Polls ----

/// Whether a line shows a text in a card, filled up with blanks.
pub open spec fn is_in_card(line: LineView, text: Seq<char>, style: Style, inside: int) -> bool {
    let blanks = if display_width(text) < inside { inside - display_width(text) } else { 0 };
    line.text == "│ "@ + text + repeated(' ', blanks as nat) + " │"@ && line.style == style
}

/// An answer in words: whether one voted for it, its number, its text, and its votes with their share, as far as they
/// are known.
pub open spec fn is_answer(text: Seq<char>, i: int, answer: PollAnswerInfo, total: nat) -> bool {
    let front = (if answer.me_voted {
        "  ◉ "@
    } else {
        "  ◯ "@
    }) + decimal((i + 1) as nat) + ". "@ + answer.text@;
    match answer.vote_count {
        None => text == front,
        Some(n) => exists|share: nat|
            text == front + "  "@ + decimal(n as nat) + " votes  "@ + #[trigger] decimal(share) + "%"@ && is_share(
                share,
                n,
                total,
            ),
    }
}

/// Whether a share in percent is right, rounded down.
pub open spec fn is_share(share: nat, count: u64, total: nat) -> bool {
    if total == 0 {
        share == 0
    } else {
        count * 100 <= u64::MAX ==> share * total <= count * 100 < (share + 1) * total
    }
}

proof fn lemma_share(count: u64, total: u64)
    ensures
        is_share(percent(count, total), count, total as nat),
{
    if total > 0 && count * 100 <= u64::MAX {
        let (c, t) = (count * 100, total as int);
        let q = c / t;
        assert(q * t <= c < (q + 1) * t && q >= 0) by (nonlinear_arith)
            requires
                t > 0,
                c >= 0,
                q == c / t,
        ;
    }
}

/// The votes of all answers are those of each, put together.
pub proof fn votes_add_up(a: Seq<PollAnswerInfo>, b: Seq<PollAnswerInfo>)
    ensures
        counted_votes(a + b) == counted_votes(a) + counted_votes(b),
        a.len() == 1 ==> counted_votes(a) == (match a[0].vote_count {
            Some(n) => n as nat,
            None => 0,
        }),
        a.len() == 0 ==> counted_votes(a) == 0,
    decreases b.len(),
{
    reveal_with_fuel(counted_votes, 2);
    if b.len() == 0 {
        assert(a + b =~= a);
    } else {
        assert((a + b).drop_last() =~= a + b.drop_last());
        votes_add_up(a, b.drop_last());
    }
}

/// The card of a poll shows, in this order: the question, what the message says beside it, how many answers can be
/// selected, every answer, and the votes. What fits into the card is shown whole.
pub proof fn polls_show_question_and_answers(poll: PollInfo, content: Option<PollContent>, width: usize, theme: Theme) -> (start:
    int)
    requires
        4 < width <= 72,
        poll.total_votes is None ==> counted_votes(poll.answers@) <= u64::MAX,
    ensures
        ({
            let lines = poll_lines(poll, content, width, theme);
            let inside = width - 4;
            let total: nat = if poll.total_votes is Some {
                (poll.total_votes->0) as nat
            } else {
                counted_votes(poll.answers@)
            };
            let footer = match poll.results_finalized {
                None => "Results not available yet"@,
                Some(last) => decimal(total) + (if total == 1 {
                    " vote"@
                } else {
                    " votes"@
                }) + (if last {
                    " · Final results"@
                } else {
                    " · Results may still change"@
                }),
            };
            let said = match content {
                None => seq![],
                Some(c) => content_lines(c.rendered@, c.links@, inside as usize, Style::none(), seq![]),
            };
            &&& start == 3 + said.len()
            &&& lines.len() == start + poll.answers@.len() + 2
            &&& lines[0].text == "╭"@ + repeated('─', (width - 2) as nat) + "╮"@
            &&& lines[lines.len() - 1].text == "╰"@ + repeated('─', (width - 2) as nat) + "╯"@
            &&& fits(poll.question@, inside) ==> is_in_card(lines[1], poll.question@, Style::none(), inside)
            &&& forall|i: int|
                0 <= i < said.len() ==> is_in_card(#[trigger] lines[2 + i], said[i].text, said[i].style, inside)
            &&& poll.allow_multiselect && fits("Select one or more answers"@, inside) ==> is_in_card(
                lines[start - 1],
                "Select one or more answers"@,
                theme.message_secondary,
                inside,
            )
            &&& !poll.allow_multiselect && fits("Select one answer"@, inside) ==> is_in_card(
                lines[start - 1],
                "Select one answer"@,
                theme.message_secondary,
                inside,
            )
            &&& forall|i: int|
                0 <= i < poll.answers@.len() ==> shows_answer(#[trigger] lines[start + i], i, poll.answers@[i], total, inside)
            &&& fits(footer, inside) ==> is_in_card(lines[lines.len() - 2], footer, theme.message_secondary, inside)
        }),
{
    let inner = card_inner_width(width) as usize;
    let total = total_votes(poll) as u64;
    let lines = poll_lines(poll, content, width, theme);
    let part = content_part(content, inner);
    let answers = answer_lines(poll.answers@, total, inner);
    let start = 3 + part.len();
    let said = match content {
        None => seq![],
        Some(c) => content_lines(c.rendered@, c.links@, inner, Style::none(), seq![]),
    };
    assert(inner == width - 4);
    assert(lines[1] == boxed_text(poll.question@, Style::none(), inner));
    lemma_in_card(poll.question@, Style::none(), inner);
    assert forall|i: int| 0 <= i < said.len() implies is_in_card(#[trigger] lines[2 + i], said[i].text, said[i].style, width - 4) by {
        assert(lines[2 + i] == part[i]);
        assert(part[i] == boxed(said[i], inner));
    }
    lemma_in_card("Select one or more answers"@, theme.message_secondary, inner);
    lemma_in_card("Select one answer"@, theme.message_secondary, inner);
    assert forall|i: int| 0 <= i < poll.answers@.len() implies shows_answer(
        #[trigger] lines[start + i],
        i,
        poll.answers@[i],
        total as nat,
        width - 4,
    ) by {
        assert(lines[start + i] == answers[i]);
        lemma_answer(i, poll.answers@[i], total, inner);
    }
    reveal_strlit(" ");
    reveal_strlit("vote");
    reveal_strlit("votes");
    reveal_strlit(" vote");
    reveal_strlit(" votes");
    assert(" "@ + "vote"@ =~= " vote"@);
    assert(" "@ + "votes"@ =~= " votes"@);
    let footer = match poll.results_finalized {
        None => "Results not available yet"@,
        Some(last) => decimal(total as nat) + (if total == 1 {
            " vote"@
        } else {
            " votes"@
        }) + (if last {
            " · Final results"@
        } else {
            " · Results may still change"@
        }),
    };
    assert(crate::message::poll::footer_text(poll.results_finalized, total as nat) =~= footer);
    lemma_in_card(footer, theme.message_secondary, inner);
    start as int
}

/// Whether a line shows an answer, where it fits.
pub open spec fn shows_answer(line: LineView, i: int, answer: PollAnswerInfo, total: nat, inside: int) -> bool {
    exists|text: Seq<char>| #[trigger]
        is_answer(text, i, answer, total) && (fits(text, inside) ==> is_in_card(line, text, Style::none(), inside))
}

proof fn lemma_in_card(text: Seq<char>, style: Style, inner: usize)
    ensures
        fits(text, inner as int) ==> is_in_card(boxed_text(text, style, inner), text, style, inner as int),
{
    if fits(text, inner as int) {
        lemma_fits(graphemes(text), inner, 0);
    }
}

proof fn lemma_answer(i: int, answer: PollAnswerInfo, total: u64, inner: usize)
    requires
        0 <= i,
    ensures
        shows_answer(
            boxed_text(crate::message::poll::answer_text(i, answer, total), Style::none(), inner),
            i,
            answer,
            total as nat,
            inner as int,
        ),
{
    let text = crate::message::poll::answer_text(i, answer, total);
    reveal_strlit("");
    reveal_strlit(" ");
    reveal_strlit("  ");
    reveal_strlit("◉");
    reveal_strlit("◯");
    reveal_strlit("  ◉ ");
    reveal_strlit("  ◯ ");
    assert("  "@ + "◉"@ + " "@ =~= "  ◉ "@);
    assert("  "@ + "◯"@ + " "@ =~= "  ◯ "@);
    let front = (if answer.me_voted {
        "  ◉ "@
    } else {
        "  ◯ "@
    }) + decimal((i + 1) as nat) + ". "@ + answer.text@;
    match answer.vote_count {
        None => {
            assert(text =~= front);
        },
        Some(n) => {
            let share = percent(n, total);
            lemma_share(n, total);
            assert(text =~= front + "  "@ + decimal(n as nat) + " votes  "@ + decimal(share) + "%"@);
        },
    }
    assert(is_answer(text, i, answer, total as nat));
    lemma_in_card(text, Style::none(), inner);
}

/// The results of a poll tell the question, the answer that won with its votes, and the votes together, as far as they
/// are known. What is short enough is shown whole.
pub proof fn results_tell_the_winner(poll: PollInfo, width: usize, theme: Theme)
    ensures
        ({
            let lines = result_lines(Some(poll), width, theme);
            let total: nat = if poll.total_votes is Some {
                (poll.total_votes->0) as nat
            } else {
                counted_votes(poll.answers@)
            };
            let known = poll.total_votes is Some || total > 0;
            let last = decimal(total) + (if total == 1 {
                " total vote · Final results"@
            } else {
                " total votes · Final results"@
            });
            &&& lines.len() == 3 + (if known { 1int } else { 0 })
            &&& poll.question@.len() <= width ==> lines[1].text == poll.question@
            &&& poll.answers@.len() > 0 ==> {
                let winner = poll.answers@[0];
                let text = "Winner: "@ + winner.text@ + (match winner.vote_count {
                    Some(n) => " with "@ + decimal(n as nat) + " votes"@,
                    None => seq![],
                });
                text.len() <= width ==> lines[2].text == text
            }
            &&& known && last.len() <= width ==> lines[3].text == last
        }),
{
    reveal_strlit("");
    reveal_strlit(" total ");
    reveal_strlit("vote");
    reveal_strlit("votes");
    reveal_strlit(" · Final results");
    reveal_strlit(" total vote · Final results");
    reveal_strlit(" total votes · Final results");
    assert(" total "@ + "vote"@ + " · Final results"@ =~= " total vote · Final results"@);
    assert(" total "@ + "votes"@ + " · Final results"@ =~= " total votes · Final results"@);
    let total = total_votes(poll);
    let last = decimal(total) + (if total == 1 {
        " total vote · Final results"@
    } else {
        " total votes · Final results"@
    });
    assert(decimal(total) + " total "@ + crate::message::poll::vote_label(total) + " · Final results"@ =~= last);
    if poll.answers@.len() > 0 {
        let winner = poll.answers@[0];
        assert("Winner: "@ + winner.text@ + ""@ =~= "Winner: "@ + winner.text@ + Seq::<char>::empty());
    }
}

// ---- Reactions ----

/// The text of a chip: a mark for one's own reaction, the emoji or room for its image, and the count.
pub open spec fn chip_text(r: ReactionInfo) -> Seq<char> {
    (if r.me {
        seq!['[', '●', ' ']
    } else {
        seq!['[']
    }) + (match r.emoji {
        ReactionEmoji::Unicode(emoji) => emoji@,
        ReactionEmoji::Custom { .. } => seq![' ', ' '],
    }) + seq![' '] + decimal(r.count as nat) + seq![']']
}

/// Where a chip stands: its row, the character and the column at which it begins, and the number of its image.
pub struct ChipPlace {
    pub row: int,
    pub at: int,
    pub col: usize,
    pub image: int,
}

/// Whether a chip with an image has the image in its place: behind the bracket and the mark.
pub open spec fn has_image(
    slots: Seq<crate::message::reactions::ReactionSlotView>,
    place: ChipPlace,
    r: ReactionInfo,
) -> bool {
    r.emoji matches ReactionEmoji::Custom { image_url, .. } ==> image_url matches Some(url) ==> {
        let front = if r.me { seq!['[', '●', ' '] } else { seq!['['] };
        &&& 0 <= place.image < slots.len()
        &&& slots[place.image].url == url@
        &&& 0 <= place.row <= usize::MAX
        &&& slots[place.image].line == to_col(place.row as usize)
        &&& slots[place.image].col == to_col(sat_add(place.col, display_width(front)))
    }
}

/// Whether a chip stands in its row.
pub open spec fn stands_in(rows: Seq<Seq<char>>, place: ChipPlace, r: ReactionInfo) -> bool {
    &&& 0 <= place.row < rows.len()
    &&& 0 <= place.at
    &&& place.at + chip_text(r).len() <= rows[place.row].len()
    &&& rows[place.row].subrange(place.at, place.at + chip_text(r).len()) == chip_text(r)
    &&& place.at == 0 ==> place.col == 0
}

/// Whether one chip stands before another.
pub open spec fn stands_before(a: ChipPlace, b: ChipPlace, r: ReactionInfo) -> bool {
    a.row < b.row || a.row == b.row && a.at + chip_text(r).len() <= b.at
}

proof fn lemma_chip(r: ReactionInfo)
    ensures
        chip_of(r).text == chip_text(r),
        chip_text(r).len() > 0,
{
    reveal_strlit("[● ");
    reveal_strlit("[");
    reveal_strlit(" ");
    reveal_strlit("]");
    assert("[● "@ =~= seq!['[', '●', ' ']);
    assert("["@ =~= seq!['[']);
    assert(repeated(' ', 2) =~= seq![' ', ' ']);
    assert(chip_of(r).text =~= chip_text(r));
}

spec fn all_rows(st: ChipState) -> Seq<Seq<char>> {
    st.lines.push(st.current)
}

proof fn lemma_chips(reactions: Seq<ReactionInfo>, width: usize) -> (places: Seq<ChipPlace>)
    requires
        reactions.len() <= usize::MAX,
    ensures
        ({
            let st = lay_out(reactions, width);
            &&& places.len() == reactions.len()
            &&& st.lines.len() <= reactions.len()
            &&& st.current.len() == 0 ==> st.lines.len() == 0
            &&& forall|i: int|
                0 <= i < reactions.len() && reactions[i].count > 0 ==> stands_in(all_rows(st), #[trigger] places[i], reactions[i])
                    && has_image(st.slots, places[i], reactions[i])
            &&& forall|i: int, j: int|
                #![trigger places[i], places[j]]
                0 <= i < j < reactions.len() && reactions[i].count > 0 && reactions[j].count > 0 ==> stands_before(
                    places[i],
                    places[j],
                    reactions[i],
                )
        }),
    decreases reactions.len(),
{
    if reactions.len() == 0 {
        seq![]
    } else {
        let front = reactions.drop_last();
        let last = reactions.last();
        let n = front.len() as int;
        let places = lemma_chips(front, width);
        let before = lay_out(front, width);
        assert(forall|i: int| 0 <= i < n ==> #[trigger] front[i] == reactions[i]);
        if last.count == 0 {
            let done = places.push(ChipPlace { row: 0, at: 0, col: 0, image: 0 });
            assert forall|i: int| 0 <= i < reactions.len() && reactions[i].count > 0 implies stands_in(
                all_rows(before),
                #[trigger] done[i],
                reactions[i],
            ) && has_image(before.slots, done[i], reactions[i]) by {
                assert(done[i] == places[i]);
                assert(front[i] == reactions[i]);
            }
            assert forall|i: int, j: int|
                #![trigger done[i], done[j]]
                0 <= i < j < reactions.len() && reactions[i].count > 0 && reactions[j].count > 0 implies stands_before(
                done[i],
                done[j],
                reactions[i],
            ) by {
                assert(done[i] == places[i] && done[j] == places[j]);
                assert(front[i] == reactions[i] && front[j] == reactions[j]);
            }
            done
        } else {
            let chip = chip_of(last);
            lemma_chip(last);
            let mid = break_row(before, chip, width);
            let st = put_chip(mid, chip);
            let start: usize = if mid.width == 0 { 0 } else { sat_add(mid.width, 2) };
            let gap = if mid.width == 0 { mid.current } else { mid.current + "  "@ };
            reveal_strlit("  ");
            let place = ChipPlace {
                row: mid.lines.len() as int,
                at: gap.len() as int,
                col: if gap.len() == 0 { 0 } else { start },
                image: mid.slots.len() as int,
            };
            lemma_start(front, width);
            let done = places.push(place);
            let (old_rows, rows) = (all_rows(before), all_rows(st));
            assert(st.current.subrange(place.at, place.at + chip.text.len()) =~= chip.text);
            reveal_strlit("[● ");
            reveal_strlit("[");
            assert("[● "@ =~= seq!['[', '●', ' ']);
            assert("["@ =~= seq!['[']);
            assert(stands_in(rows, place, last));
            assert(has_image(st.slots, place, last));
            assert forall|i: int| 0 <= i < reactions.len() && reactions[i].count > 0 implies stands_in(
                rows,
                #[trigger] done[i],
                reactions[i],
            ) && has_image(st.slots, done[i], reactions[i]) by {
                if i < n {
                    let p = places[i];
                    let len = chip_text(front[i]).len();
                    lemma_chip(front[i]);
                    assert(done[i] == p);
                    assert(stands_in(old_rows, p, front[i]));
                    assert(has_image(before.slots, p, front[i]));
                    assert(rows[p.row].len() >= old_rows[p.row].len());
                    assert(rows[p.row].subrange(p.at, p.at + len) =~= old_rows[p.row].subrange(p.at, p.at + len));
                }
            }
            assert forall|i: int, j: int|
                #![trigger done[i], done[j]]
                0 <= i < j < reactions.len() && reactions[i].count > 0 && reactions[j].count > 0 implies stands_before(
                done[i],
                done[j],
                reactions[i],
            ) by {
                assert(done[i] == places[i]);
                assert(front[i] == reactions[i]);
                if j < n {
                    assert(done[j] == places[j]);
                    assert(front[j] == reactions[j]);
                } else {
                    assert(stands_in(old_rows, places[i], front[i]));
                }
            }
            done
        }
    }
}

proof fn lemma_start(reactions: Seq<ReactionInfo>, width: usize)
    ensures
        lay_out(reactions, width).current.len() == 0 ==> lay_out(reactions, width).width == 0,
    decreases reactions.len(),
{
    if reactions.len() > 0 {
        lemma_start(reactions.drop_last(), width);
        let last = reactions.last();
        if last.count > 0 {
            lemma_chip(last);
        }
    }
}

/// Every reaction that someone gave has its chip in the rows, whole, with its emoji and its count, in the order of the
/// reactions; one with an image has the image in the chip.
pub proof fn every_reaction_has_its_chip(reactions: Seq<ReactionInfo>, width: usize) -> (places: Seq<ChipPlace>)
    requires
        reactions.len() <= usize::MAX,
    ensures
        ({
            let (rows, slots) = (reaction_rows(reactions, width), reaction_slots(reactions, width));
            &&& places.len() == reactions.len()
            &&& forall|i: int|
                0 <= i < reactions.len() && reactions[i].count > 0 ==> stands_in(rows, #[trigger] places[i], reactions[i])
                    && has_image(slots, places[i], reactions[i])
            &&& forall|i: int, j: int|
                #![trigger places[i], places[j]]
                0 <= i < j < reactions.len() && reactions[i].count > 0 && reactions[j].count > 0 ==> stands_before(
                    places[i],
                    places[j],
                    reactions[i],
                )
        }),
{
    let columns = if width == 0 { 1 } else { width };
    let st = lay_out(reactions, columns);
    let places = lemma_chips(reactions, columns);
    if st.current.len() == 0 {
        assert forall|i: int| 0 <= i < reactions.len() && reactions[i].count > 0 implies stands_in(
            reaction_rows(reactions, width),
            #[trigger] places[i],
            reactions[i],
        ) by {
            lemma_chip(reactions[i]);
            assert(stands_in(all_rows(st), places[i], reactions[i]));
            assert(false);
        }
    }
    places
}

/// Whether the chips of reactions are plain text and none is wider than the rows.
pub open spec fn chips_fit(reactions: Seq<ReactionInfo>, width: usize) -> bool {
    forall|i: int|
        0 <= i < reactions.len() ==> is_plain(chip_text(#[trigger] reactions[i])) && chip_text(reactions[i]).len() <= width
}

proof fn lemma_rows_fit(reactions: Seq<ReactionInfo>, width: usize)
    requires
        chips_fit(reactions, width),
        0 < width < usize::MAX,
    ensures
        ({
            let st = lay_out(reactions, width);
            &&& st.width == st.current.len() <= width
            &&& st.current.len() == 0 ==> st.lines.len() == 0
            &&& forall|k: int| 0 <= k < st.lines.len() ==> (#[trigger] st.lines[k]).len() <= width
        }),
    decreases reactions.len(),
{
    if reactions.len() > 0 {
        let front = reactions.drop_last();
        let last = reactions.last();
        assert(reactions[reactions.len() - 1] == last);
        assert forall|i: int| 0 <= i < front.len() implies is_plain(chip_text(#[trigger] front[i])) && chip_text(
            front[i],
        ).len() <= width by {
            assert(front[i] == reactions[i]);
        }
        lemma_rows_fit(front, width);
        lemma_chip(last);
        reveal(display_width);
        reveal_strlit("  ");
    }
}

/// Rows of chips that fit are not wider than they may be.
pub proof fn rows_of_chips_fit(reactions: Seq<ReactionInfo>, width: usize)
    requires
        chips_fit(reactions, width),
        0 < width < usize::MAX,
    ensures
        forall|k: int|
            0 <= k < reaction_rows(reactions, width).len() ==> (#[trigger] reaction_rows(reactions, width)[k]).len() <= width,
{
    lemma_rows_fit(reactions, width);
}

/// A further reaction leaves the rows before it as they are: its chip stands two blanks behind the last one, if the row
/// has room for it, or else in a row of its own.
pub proof fn chips_fill_the_rows(reactions: Seq<ReactionInfo>, r: ReactionInfo, width: usize)
    requires
        chips_fit(reactions.push(r), width),
        0 < width < usize::MAX,
        r.count > 0,
    ensures
        ({
            let rows = reaction_rows(reactions, width);
            let after = reaction_rows(reactions.push(r), width);
            let n = rows.len() - 1;
            if rows.len() > 0 && rows[n].len() + 2 + chip_text(r).len() <= width {
                after == rows.update(n, rows[n] + seq![' ', ' '] + chip_text(r))
            } else {
                after == rows.push(chip_text(r))
            }
        }),
{
    reveal(display_width);
    reveal_strlit("  ");
    assert("  "@ =~= seq![' ', ' ']);
    assert(reactions.push(r).drop_last() =~= reactions);
    assert forall|i: int| 0 <= i < reactions.len() implies is_plain(chip_text(#[trigger] reactions[i])) && chip_text(
        reactions[i],
    ).len() <= width by {
        assert(reactions.push(r)[i] == reactions[i]);
    }
    assert(reactions.push(r)[reactions.len() as int] == r);
    lemma_rows_fit(reactions, width);
    lemma_chip(r);
    let rows = reaction_rows(reactions, width);
    let n = rows.len() - 1;
    let after = reaction_rows(reactions.push(r), width);
    if rows.len() > 0 && rows[n].len() + 2 + chip_text(r).len() <= width {
        assert(after =~= rows.update(n, rows[n] + seq![' ', ' '] + chip_text(r)));
    } else {
        assert(after =~= rows.push(chip_text(r)));
    }
}

// ---- Attachments ----

/// Every attachment is named in the summary, with its kind and its dimensions.
pub proof fn summaries_name_every_attachment(attachments: Seq<AttachmentInfo>, i: int)
    requires
        0 <= i < attachments.len(),
    ensures
        ({
            let a = attachments[i];
            contains_text(
                attachment_summary(attachments),
                (match a.media_type {
                    Some(AttachmentMediaType::Image) => "[image: "@,
                    Some(AttachmentMediaType::Video) => "[video: "@,
                    _ => "[file: "@,
                }) + a.filename@ + "]"@ + (if a.width is Some && a.height is Some {
                    " "@ + decimal((a.width->0) as nat) + "x"@ + decimal((a.height->0) as nat)
                } else {
                    seq![]
                }),
            )
        }),
{
    let a = attachments[i];
    let all = attachments.map_values(|a: AttachmentInfo| attachment_text(a));
    lemma_join_contains(all, " | "@, i);
    reveal_strlit("");
    reveal_strlit("[");
    reveal_strlit(": ");
    reveal_strlit("image");
    reveal_strlit("video");
    reveal_strlit("file");
    reveal_strlit("[image: ");
    reveal_strlit("[video: ");
    reveal_strlit("[file: ");
    assert("["@ + "image"@ + ": "@ =~= "[image: "@);
    assert("["@ + "video"@ + ": "@ =~= "[video: "@);
    assert("["@ + "file"@ + ": "@ =~= "[file: "@);
    let text = (match a.media_type {
        Some(AttachmentMediaType::Image) => "[image: "@,
        Some(AttachmentMediaType::Video) => "[video: "@,
        _ => "[file: "@,
    }) + a.filename@ + "]"@ + (if a.width is Some && a.height is Some {
        " "@ + decimal((a.width->0) as nat) + "x"@ + decimal((a.height->0) as nat)
    } else {
        seq![]
    });
    assert(all[i] == attachment_text(a));
    assert(attachment_text(a) =~= text);
}

/// Attachments are named in their order, with a bar between each two.
pub proof fn summaries_keep_the_order(a: Seq<AttachmentInfo>, b: AttachmentInfo)
    requires
        a.len() > 0,
    ensures
        attachment_summary(a.push(b)) == attachment_summary(a) + " | "@ + attachment_summary(seq![b]),
{
    let f = |a: AttachmentInfo| attachment_text(a);
    assert(a.push(b).map_values(f).drop_last() =~= a.map_values(f));
    assert(seq![b].map_values(f).len() == 1);
}

// ---- Forwarded messages ----

/// A forwarded message shows, each behind a bar and in this order: its content, its attachments, its embeds, and where
/// and when it was written; or that it is empty.
pub proof fn forwards_show_the_message(s: MessageSnapshotInfo, embeds: Seq<LineView>, width: usize, theme: Theme)
    requires
        s.wf(),
        width > 2,
        s.rendered matches Some(r) ==> content_lines(r@, s.links@, (width - 2) as usize, Style::none(), seq![]).len() > 0,
    ensures
        ({
            let lines = snapshot_lines(s, embeds, width, theme);
            let said = match s.rendered {
                Some(r) => content_lines(r@, s.links@, (width - 2) as usize, Style::none(), seq![]),
                None => seq![],
            };
            let n = said.len() as int;
            let m = if s.attachments@.len() > 0 { n + 1 } else { n };
            let end = if m + embeds.len() == 0 { 1 } else { m + embeds.len() };
            let files = "│ "@ + attachment_summary(s.attachments@);
            &&& lines[0].text == "↱ Forwarded"@
            &&& forall|i: int|
                0 <= i < n ==> (#[trigger] lines[1 + i]).text == "│ "@ + said[i].text && lines[1 + i].style == said[i].style
            &&& s.attachments@.len() > 0 && files.len() <= width ==> lines[1 + n].text == files && lines[1 + n].style
                == theme.accent
            &&& forall|i: int|
                0 <= i < embeds.len() ==> (#[trigger] lines[1 + m + i]).text == "│ "@ + embeds[i].text && lines[1 + m
                    + i].style == embeds[i].style
            &&& (s.content is None || (s.content->0)@.len() == 0) && s.attachments@.len() == 0 && embeds.len() == 0
                ==> lines[1].text == "│ <empty message>"@
            &&& lines.len() == 1 + end + (if s.source_channel is None && s.timestamp is None { 0int } else { 1 })
            &&& s.source_channel matches Some(c) ==> s.timestamp is None && 2 + c@.len() <= width ==> lines[1 + end].text
                == "│ "@ + c@
            &&& s.timestamp matches Some(t) ==> {
                let time = crate::message::system::forwarded_time(t@);
                &&& s.source_channel is None && 2 + time.len() <= width ==> lines[1 + end].text == "│ "@ + time
                &&& s.source_channel matches Some(c) ==> 2 + c@.len() + 3 + time.len() <= width ==> lines[1 + end].text
                    == "│ "@ + c@ + " · "@ + time
            }
        }),
{
    reveal_strlit("│ ");
    reveal_strlit(" · ");
    let said = match s.rendered {
        Some(r) => content_lines(r@, s.links@, (width - 2) as usize, Style::none(), seq![]),
        None => seq![],
    };
    let n = said.len() as int;
    let m = if s.attachments@.len() > 0 { n + 1 } else { n };
    let lines = snapshot_lines(s, embeds, width, theme);
    let content = snapshot_content(s, width);
    let files = snapshot_attachments(s, width, theme);
    let below = with_bar(embeds);
    let inside = content + files + below;
    assert(forwarded_width(width) == width - 2);
    assert(content.len() == n && files.len() == m - n);
    assert forall|i: int| 0 <= i < n implies (#[trigger] lines[1 + i]).text == "│ "@ + said[i].text && lines[1 + i].style
        == said[i].style by {
        assert(lines[1 + i] == inside[i]);
        assert(inside[i] == content[i]);
    }
    if s.attachments@.len() > 0 {
        assert(lines[1 + n] == inside[n]);
        assert(inside[n] == files[0]);
    }
    assert forall|i: int| 0 <= i < embeds.len() implies (#[trigger] lines[1 + m + i]).text == "│ "@ + embeds[i].text
        && lines[1 + m + i].style == embeds[i].style by {
        assert(lines[1 + m + i] == inside[m + i]);
        assert(inside[m + i] == below[i]);
    }
    let origin = crate::message::system::snapshot_origin(s);
    reveal_with_fuel(crate::text::join_with, 3);
    match (s.source_channel, s.timestamp) {
        (Some(c), Some(t)) => {
            let time = crate::message::system::forwarded_time(t@);
            assert(origin =~= seq![c@, time]);
            assert(origin.drop_last() =~= seq![c@]);
            assert(crate::text::join_with(origin, " · "@) =~= c@ + " · "@ + time);
            assert("│ "@ + (c@ + " · "@ + time) =~= "│ "@ + c@ + " · "@ + time);
        },
        (Some(c), None) => {
            assert(origin =~= seq![c@]);
        },
        (None, Some(t)) => {
            assert(origin =~= seq![crate::message::system::forwarded_time(t@)]);
        },
        (None, None) => {
            assert(origin =~= Seq::<Seq<char>>::empty());
        },
    }
}

/// The time of day is told of a timestamp such as `2024-01-02T03:04:05Z`: the five characters behind the `T`.
pub proof fn forwarded_times_are_times_of_day(date: Seq<char>, time: Seq<char>, rest: Seq<char>)
    requires
        is_plain(time),
        time.len() == 5,
        forall|i: int| 0 <= i < date.len() ==> #[trigger] date[i] != 'T',
    ensures
        crate::message::system::forwarded_time(date + seq!['T'] + time + rest) == time,
{
    let all = date + seq!['T'] + time + rest;
    let t = date.len() as int;
    assert forall|k: int| 0 <= k < t implies all[k] != 'T' by {
        assert(all[k] == date[k]);
    }
    assert(all[t] == 'T');
    crate::text::lemma_first_index_is(all, 'T', t);
    assert(all.skip(t + 1) =~= time + rest);
    lemma_plain_bytes(time);
    crate::text::lemma_prefix_is_boundary(time, rest);
    crate::text::lemma_char_index(time + rest, 5);
    crate::text::lemma_char_index(time + rest, 0);
    crate::text::lemma_byte_at_ends(time + rest);
    assert((time + rest).take(5) =~= time);
    assert((time + rest).subrange(0, 5) =~= time);
}

proof fn lemma_plain_bytes(s: Seq<char>)
    requires
        is_plain(s),
    ensures
        crate::text::utf8_len(s) == s.len(),
    decreases s.len(),
{
    if s.len() > 0 {
        let front = s.drop_last();
        assert forall|i: int| 0 <= i < front.len() implies ' ' <= #[trigger] front[i] <= '~' by {
            assert(front[i] == s[i]);
        }
        lemma_plain_bytes(front);
        assert(front.push(s.last()) =~= s);
        crate::text::lemma_utf8_len_push(front, s.last());
        crate::text::lemma_utf8_len_one(s.last());
        assert(' ' <= s[s.len() - 1] <= '~');
    } else {
        crate::text::lemma_utf8_len_bounds(s);
    }
}

} // verus!
