//! The message that is being written, and the names picked into it.
//!
//! A name that was picked stands in the text as the user knows it. Its place is remembered, and when the
//! message is sent the place is filled with the form that the service understands.

use crate::discord::AppCommand;
use crate::ids::{ChannelId, MessageId, UserId};
use crate::text::{
    byte_len, byte_slice, char_index, chars_of, decimal, decimal_string, lemma_boundary_ends, lemma_boundary_order,
    lemma_byte_at_monotonic, lemma_char_index, lemma_utf8_len_concat, on_boundary, opt_text, slice_bytes, string_of,
    utf8_len,
};
use crate::unicode::{is_space, trim_text, trimmed};
use vstd::prelude::*;
use vstd::string::*;

verus! {

/// A picked name: the bytes that it takes, and who it names.
#[derive(Clone, Copy, Debug, PartialEq, Eq, Structural)]
pub struct MentionCompletion {
    pub byte_start: usize,
    pub byte_end: usize,
    pub user_id: UserId,
}

/// Someone who can be picked.
#[derive(Debug, PartialEq, Eq)]
pub struct MentionPickerEntry {
    pub user_id: UserId,
    pub display_name: String,
}

/// Whether picked names lie in a text of some bytes, one behind the other.
pub open spec fn lie_in(cs: Seq<MentionCompletion>, text: Seq<char>) -> bool
    decreases cs.len(),
{
    cs.len() == 0 || {
        let c = cs.last();
        &&& on_boundary(text, c.byte_start as int)
        &&& on_boundary(text, c.byte_end as int)
        &&& c.byte_start <= c.byte_end <= utf8_len(text)
        &&& lie_in(cs.drop_last(), byte_slice(text, 0, c.byte_start as int))
    }
}

/// How the service writes a name.
pub open spec fn wire_name(id: UserId) -> Seq<char> {
    "<@"@ + decimal(id as nat) + ">"@
}

/// A text with the picked names written as the service does.
pub open spec fn expanded(text: Seq<char>, cs: Seq<MentionCompletion>) -> Seq<char>
    decreases cs.len(),
{
    if cs.len() == 0 {
        text
    } else {
        let c = cs.last();
        expanded(byte_slice(text, 0, c.byte_start as int), cs.drop_last()) + wire_name(c.user_id) + byte_slice(
            text,
            c.byte_end as int,
            utf8_len(text) as int,
        )
    }
}

/// Whether an at sign behind a text begins a name: at the beginning of a word.
pub open spec fn starts_mention(text: Seq<char>) -> bool {
    text.len() == 0 || is_space(text.last())
}

pub fn should_start_mention_query(text: &str) -> (r: bool)
    ensures
        r == starts_mention(text@),
{
    let cs = chars_of(text);
    cs.len() == 0 || cs[cs.len() - 1].is_whitespace()
}

/// A longer text has the boundaries and the pieces of the shorter one.
proof fn lemma_extend(s: Seq<char>, t: Seq<char>, b: int)
    requires
        on_boundary(s, b),
    ensures
        on_boundary(s + t, b),
        char_index(s + t, b) == char_index(s, b),
        0 <= char_index(s, b) <= s.len(),
        (s + t).take(char_index(s, b)) == s.take(char_index(s, b)),
        0 <= b <= utf8_len(s) <= utf8_len(s + t),
{
    let k = char_index(s, b);
    assert((s + t).take(k) =~= s.take(k));
    lemma_char_index(s + t, k);
    lemma_byte_at_monotonic(s, k, s.len() as int);
    lemma_utf8_len_concat(s, t);
}

proof fn lemma_prefix_slice(s: Seq<char>, b: int)
    requires
        on_boundary(s, b),
    ensures
        byte_slice(s, 0, b) == s.take(char_index(s, b)),
        byte_slice(s, b, utf8_len(s) as int) == s.skip(char_index(s, b)),
        0 <= char_index(s, b) <= s.len(),
{
    lemma_boundary_ends(s);
    assert(byte_slice(s, 0, b) =~= s.take(char_index(s, b)));
    assert(byte_slice(s, b, utf8_len(s) as int) =~= s.skip(char_index(s, b)));
}

proof fn lemma_lie_in_longer(cs: Seq<MentionCompletion>, s: Seq<char>, t: Seq<char>)
    requires
        lie_in(cs, s),
    ensures
        lie_in(cs, s + t),
{
    if cs.len() > 0 {
        let c = cs.last();
        lemma_extend(s, t, c.byte_start as int);
        lemma_extend(s, t, c.byte_end as int);
        lemma_prefix_slice(s, c.byte_start as int);
        lemma_prefix_slice(s + t, c.byte_start as int);
    }
}

/// A shorter text has those boundaries of the longer one that lie in it.
proof fn lemma_shorten(s: Seq<char>, t: Seq<char>, b: int)
    requires
        on_boundary(s + t, b),
        b <= utf8_len(s),
    ensures
        on_boundary(s, b),
        char_index(s, b) == char_index(s + t, b),
        0 <= char_index(s, b) <= s.len(),
{
    let k = char_index(s + t, b);
    if k > s.len() {
        lemma_byte_at_monotonic(s + t, s.len() as int, k);
        assert((s + t).take(s.len() as int) =~= s);
    }
    assert((s + t).take(k) =~= s.take(k));
    lemma_char_index(s, k);
}

proof fn lemma_lie_in_shorter(cs: Seq<MentionCompletion>, s: Seq<char>, t: Seq<char>)
    requires
        lie_in(cs, s + t),
        cs.len() > 0 ==> cs.last().byte_end <= utf8_len(s),
    ensures
        lie_in(cs, s),
{
    if cs.len() > 0 {
        let c = cs.last();
        lemma_shorten(s, t, c.byte_start as int);
        lemma_shorten(s, t, c.byte_end as int);
        lemma_prefix_slice(s, c.byte_start as int);
        lemma_prefix_slice(s + t, c.byte_start as int);
        assert(s.take(char_index(s, c.byte_start as int)) =~= (s + t).take(char_index(s, c.byte_start as int)));
    }
}

/// The names that end within some bytes.
pub open spec fn within(cs: Seq<MentionCompletion>, bytes: int) -> Seq<MentionCompletion>
    decreases cs.len(),
{
    if cs.len() == 0 {
        Seq::empty()
    } else if cs.last().byte_end <= bytes {
        within(cs.drop_last(), bytes).push(cs.last())
    } else {
        within(cs.drop_last(), bytes)
    }
}

/// Names lie one behind the other, so that what ends within some bytes comes first.
proof fn lemma_within(cs: Seq<MentionCompletion>, s: Seq<char>, bytes: int)
    requires
        lie_in(cs, s),
    ensures
        cs.len() > 0 && cs.last().byte_end <= bytes ==> within(cs, bytes) == cs,
        lie_in(within(cs, bytes), s),
        within(cs, bytes).len() > 0 ==> within(cs, bytes).last().byte_end <= bytes,
    decreases cs.len(),
{
    if cs.len() > 0 {
        let c = cs.last();
        let front = byte_slice(s, 0, c.byte_start as int);
        let rest = cs.drop_last();
        lemma_prefix_slice(s, c.byte_start as int);
        lemma_within(rest, front, bytes);
        let k = char_index(s, c.byte_start as int);
        assert(s =~= front + s.skip(k));
        if c.byte_end <= bytes {
            if rest.len() > 0 {
                reveal_with_fuel(lie_in, 2);
                lemma_boundary_ends(s);
                lemma_boundary_order(s, 0, c.byte_start as int);
                assert(utf8_len(front) == c.byte_start);
                assert(rest.last().byte_end <= bytes);
                assert(within(rest, bytes) == rest);
            }
            assert(within(cs, bytes) =~= cs);
        } else {
            lemma_lie_in_longer(within(rest, bytes), front, s.skip(k));
        }
    }
}

/// The message that is being written.
pub struct ComposerState {
    pub composer_input: String,
    pub composer_active: bool,
    pub reply_target_message_id: Option<MessageId>,
    /// What was typed behind the at sign, while a name is being picked.
    pub composer_mention_query: Option<String>,
    pub composer_mention_selected: usize,
    pub composer_mention_completions: Vec<MentionCompletion>,
}

impl ComposerState {
    /// The text before the name that is being picked.
    pub open spec fn settled(self) -> Seq<char> {
        match self.composer_mention_query {
            Some(q) => self.composer_input@.take(self.composer_input@.len() - 1 - q@.len()),
            None => self.composer_input@,
        }
    }

    /// The picked names lie in the text, and what is being picked stands behind them at its end.
    pub open spec fn wf(self) -> bool {
        &&& match self.composer_mention_query {
            Some(q) => self.composer_input@.len() >= 1 + q@.len() && self.composer_input@ == self.settled() + seq!['@']
                + q@,
            None => true,
        }
        &&& lie_in(self.composer_mention_completions@, self.settled())
    }

    /// The message as it is sent.
    pub open spec fn content(self) -> Seq<char> {
        trimmed(expanded(self.composer_input@, self.composer_mention_completions@))
    }

    pub fn new() -> (r: ComposerState)
        ensures
            r.wf(),
            r.is_clear(),
            !r.composer_active,
            r.reply_target_message_id is None,
    {
        ComposerState {
            composer_input: String::new(),
            composer_active: false,
            reply_target_message_id: None,
            composer_mention_query: None,
            composer_mention_selected: 0,
            composer_mention_completions: Vec::new(),
        }
    }

    /// Nothing is written and nothing is picked.
    pub open spec fn is_clear(self) -> bool {
        &&& self.composer_input@.len() == 0
        &&& self.composer_mention_query is None
        &&& self.composer_mention_selected == 0
        &&& self.composer_mention_completions@.len() == 0
    }

    fn clear(&mut self)
        ensures
            final(self).wf(),
            final(self).is_clear(),
            final(self).composer_active == old(self).composer_active,
            final(self).reply_target_message_id == old(self).reply_target_message_id,
    {
        self.composer_input = String::new();
        self.composer_mention_query = None;
        self.composer_mention_selected = 0;
        self.composer_mention_completions = Vec::new();
    }

    /// Begins a message, unless there is no channel or it cannot be written in.
    pub fn start_composer(&mut self, has_channel: bool, can_send: bool) -> (started: bool)
        requires
            old(self).wf(),
        ensures
            final(self).wf(),
            started == (has_channel && can_send),
            *final(self) == (if started {
                ComposerState { reply_target_message_id: None, composer_active: true, ..*old(self) }
            } else {
                *old(self)
            }),
    {
        if !has_channel || !can_send {
            return false;
        }
        self.reply_target_message_id = None;
        self.composer_active = true;
        true
    }

    /// Begins an answer to a message, unless there is none or the channel cannot be written in. What was
    /// written is dropped.
    pub fn start_reply_composer(&mut self, message_id: Option<MessageId>, can_send: bool) -> (started: bool)
        requires
            old(self).wf(),
        ensures
            final(self).wf(),
            started == (message_id is Some && can_send),
            !started ==> *final(self) == *old(self),
            started ==> final(self).is_clear() && final(self).reply_target_message_id == message_id && final(self).composer_active,
    {
        if message_id.is_none() || !can_send {
            return false;
        }
        self.clear();
        self.reply_target_message_id = message_id;
        self.composer_active = true;
        true
    }

    /// Drops the message.
    pub fn cancel_composer(&mut self)
        ensures
            final(self).wf(),
            final(self).is_clear(),
            !final(self).composer_active,
            final(self).reply_target_message_id is None,
    {
        self.clear();
        self.composer_active = false;
        self.reply_target_message_id = None;
    }

    /// What is picked after a character was typed. An at sign at the beginning of a word begins a name;
    /// a character that no name has ends it.
    pub open spec fn query_after(self, value: char, name_char: bool) -> Option<Seq<char>> {
        if value == '@' {
            if starts_mention(self.composer_input@) {
                Some(Seq::empty())
            } else {
                None
            }
        } else {
            match self.composer_mention_query {
                Some(q) => if name_char {
                    Some(q@.push(value))
                } else {
                    None
                },
                None => None,
            }
        }
    }

    /// Types a character. `name_char` says whether it can be part of a name.
    pub fn push_composer_char(&mut self, value: char, name_char: bool)
        requires
            old(self).wf(),
        ensures
            final(self).wf(),
            final(self).composer_input@ == old(self).composer_input@.push(value),
            opt_text(final(self).composer_mention_query) == old(self).query_after(value, name_char),
            final(self).composer_mention_selected == (if value == '@' || old(self).composer_mention_query is Some {
                0
            } else {
                old(self).composer_mention_selected
            }),
            final(self).composer_mention_completions@ == old(self).composer_mention_completions@,
            final(self).composer_active == old(self).composer_active,
            final(self).reply_target_message_id == old(self).reply_target_message_id,
    {
        let ghost text = self.composer_input@;
        let ghost cs = self.composer_mention_completions@;
        let ghost base = self.settled();
        proof {
            if self.composer_mention_query is Some {
                let q = self.composer_mention_query->0@;
                assert(base + (seq!['@'] + q) =~= text);
                lemma_lie_in_longer(cs, base, seq!['@'] + q);
            }
            assert(lie_in(cs, text));
            lemma_lie_in_longer(cs, text, seq![value]);
            assert(text + seq![value] =~= text.push(value));
        }
        if value == '@' {
            let starts = should_start_mention_query(self.composer_input.as_str());
            self.composer_input.push('@');
            self.composer_mention_query = if starts { Some(String::new()) } else { None };
            self.composer_mention_selected = 0;
            proof {
                if starts {
                    assert(self.settled() =~= text);
                    assert(self.composer_input@ =~= text + seq!['@'] + Seq::<char>::empty());
                }
            }
            return;
        }
        let mut open: Option<String> = None;
        std::mem::swap(&mut open, &mut self.composer_mention_query);
        if let Some(query) = open {
            self.composer_mention_selected = 0;
            if name_char {
                let ghost q = query@;
                let mut longer = query;
                longer.push(value);
                self.composer_mention_query = Some(longer);
                self.composer_input.push(value);
                proof {
                    assert(self.settled() =~= base);
                    assert(self.composer_input@ =~= base + seq!['@'] + q.push(value));
                }
                return;
            }
        }
        self.composer_input.push(value);
    }

    fn drop_last_char(s: &String) -> (r: String)
        ensures
            r@ == (if s@.len() == 0 { s@ } else { s@.drop_last() }),
    {
        let cs = chars_of(s.as_str());
        if cs.len() == 0 {
            return String::new();
        }
        let r = string_of(&cs, 0, cs.len() - 1);
        assert(r@ =~= s@.drop_last());
        r
    }

    /// Deletes the last character. A picked name that loses a character is a name no longer; the at sign
    /// of a name that is being picked ends the picking.
    pub fn pop_composer_char(&mut self)
        requires
            old(self).wf(),
        ensures
            final(self).wf(),
            final(self).composer_input@ == (if old(self).composer_input@.len() == 0 {
                old(self).composer_input@
            } else {
                old(self).composer_input@.drop_last()
            }),
            opt_text(final(self).composer_mention_query) == (match old(self).composer_mention_query {
                Some(q) => if q@.len() > 0 {
                    Some(q@.drop_last())
                } else {
                    None
                },
                None => None,
            }),
            final(self).composer_mention_selected == (if old(self).composer_mention_query is Some {
                0
            } else {
                old(self).composer_mention_selected
            }),
            final(self).composer_mention_completions@ == (if old(self).composer_mention_query is Some {
                old(self).composer_mention_completions@
            } else {
                within(
                    old(self).composer_mention_completions@,
                    utf8_len(final(self).composer_input@) as int,
                )
            }),
            final(self).composer_active == old(self).composer_active,
            final(self).reply_target_message_id == old(self).reply_target_message_id,
    {
        let ghost text = self.composer_input@;
        let ghost base = self.settled();
        let shorter = Self::drop_last_char(&self.composer_input);
        let mut open: Option<String> = None;
        std::mem::swap(&mut open, &mut self.composer_mention_query);
        if let Some(query) = open {
            self.composer_mention_selected = 0;
            self.composer_input = shorter;
            let cs = chars_of(query.as_str());
            if cs.len() > 0 {
                let rest = Self::drop_last_char(&query);
                proof {
                    assert(self.composer_input@ =~= base + seq!['@'] + rest@);
                }
                self.composer_mention_query = Some(rest);
                assert(self.settled() =~= base);
            } else {
                assert(self.composer_input@ =~= base);
            }
            return;
        }
        self.composer_input = shorter;
        let len = byte_len(self.composer_input.as_str());
        let ghost before = self.composer_mention_completions@;
        let mut kept: Vec<MentionCompletion> = Vec::new();
        let mut i: usize = 0;
        assert(before.take(0) =~= Seq::<MentionCompletion>::empty());
        while i < self.composer_mention_completions.len()
            invariant
                before == self.composer_mention_completions@,
                i <= before.len(),
                kept@ == within(before.take(i as int), len as int),
            decreases before.len() - i,
        {
            assert(before.take(i + 1).drop_last() =~= before.take(i as int));
            let c = self.composer_mention_completions[i];
            if c.byte_end <= len {
                kept.push(c);
            }
            i += 1;
        }
        assert(before.take(i as int) =~= before);
        proof {
            lemma_within(before, text, len as int);
            if text.len() > 0 {
                assert(text =~= self.composer_input@ + seq![text.last()]);
                lemma_lie_in_shorter(kept@, self.composer_input@, seq![text.last()]);
            }
        }
        self.composer_mention_completions = kept;
    }

    /// Picks a name: what was typed of it is replaced, and its place is remembered.
    pub fn confirm_composer_mention(&mut self, candidates: &Vec<MentionPickerEntry>) -> (done: bool)
        requires
            old(self).wf(),
            utf8_len(old(self).composer_input@) <= usize::MAX,
            forall|i: int|
                0 <= i < candidates@.len() ==> utf8_len(old(self).composer_input@) + utf8_len(
                    (#[trigger] candidates@[i]).display_name@,
                ) + 2 <= usize::MAX,
        ensures
            final(self).wf(),
            done == (old(self).composer_mention_query is Some && old(self).composer_mention_selected < candidates@.len()),
            !done ==> *final(self) == *old(self),
            done ==> {
                let entry = candidates@[old(self).composer_mention_selected as int];
                let base = old(self).settled();
                &&& final(self).composer_input@ == base + seq!['@'] + entry.display_name@ + seq![' ']
                &&& final(self).composer_mention_completions@ == old(self).composer_mention_completions@.push(
                    MentionCompletion {
                        byte_start: utf8_len(base) as usize,
                        byte_end: (utf8_len(base) + 1 + utf8_len(entry.display_name@)) as usize,
                        user_id: entry.user_id,
                    },
                )
                &&& final(self).composer_mention_query is None
                &&& final(self).composer_mention_selected == 0
                &&& final(self).composer_active == old(self).composer_active
                &&& final(self).reply_target_message_id == old(self).reply_target_message_id
            },
    {
        let query_chars: usize = match &self.composer_mention_query {
            Some(query) => {
                let cs = chars_of(query.as_str());
                cs.len()
            },
            None => {
                return false;
            },
        };
        if self.composer_mention_selected >= candidates.len() {
            return false;
        }
        let entry = &candidates[self.composer_mention_selected];
        let ghost base = self.settled();
        let ghost cs0 = self.composer_mention_completions@;
        let cs = chars_of(self.composer_input.as_str());
        let mut text = string_of(&cs, 0, cs.len() - 1 - query_chars);
        proof {
            assert(text@ =~= base);
            lemma_utf8_len_concat(base, seq!['@'] + self.composer_mention_query->0@);
            assert(self.composer_input@ =~= base + (seq!['@'] + self.composer_mention_query->0@));
        }
        let start = byte_len(text.as_str());
        text.push('@');
        text.append(entry.display_name.as_str());
        let ghost named = base + seq!['@'] + entry.display_name@;
        proof {
            assert(text@ =~= named);
            crate::text::lemma_utf8_len_push(base, '@');
            assert(base.push('@') =~= base + seq!['@']);
            lemma_utf8_len_concat(base + seq!['@'], entry.display_name@);
        }
        let end = byte_len(text.as_str());
        text.push(' ');
        proof {
            let whole = text@;
            assert(whole =~= named + seq![' ']);
            lemma_boundary_ends(named);
            lemma_extend(named, seq![' '], end as int);
            assert(named =~= base + (seq!['@'] + entry.display_name@));
            lemma_boundary_ends(base);
            lemma_extend(base, seq!['@'] + entry.display_name@, start as int);
            lemma_extend(named, seq![' '], start as int);
            lemma_prefix_slice(whole, start as int);
            assert(whole.take(char_index(whole, start as int)) =~= base);
            let c = MentionCompletion { byte_start: start, byte_end: end, user_id: entry.user_id };
            assert(cs0.push(c).drop_last() =~= cs0);
            assert(lie_in(cs0.push(c), whole));
        }
        self.composer_mention_completions.push(
            MentionCompletion { byte_start: start, byte_end: end, user_id: entry.user_id },
        );
        self.composer_input = text;
        self.composer_mention_query = None;
        self.composer_mention_selected = 0;
        true
    }

    /// Ends the picking. What was typed stays.
    pub fn cancel_composer_mention(&mut self)
        requires
            old(self).wf(),
        ensures
            final(self).wf(),
            *final(self) == (ComposerState {
                composer_mention_query: None,
                composer_mention_selected: 0,
                ..*old(self)
            }),
    {
        proof {
            if self.composer_mention_query is Some {
                let q = self.composer_mention_query->0@;
                assert(self.composer_input@ =~= self.settled() + (seq!['@'] + q));
                lemma_lie_in_longer(self.composer_mention_completions@, self.settled(), seq!['@'] + q);
            }
        }
        self.composer_mention_query = None;
        self.composer_mention_selected = 0;
    }

    /// The message as it is sent.
    pub fn expand_mention_completions(&self) -> (r: String)
        requires
            self.wf(),
        ensures
            r@ == expanded(self.composer_input@, self.composer_mention_completions@),
    {
        let ghost text = self.composer_input@;
        let ghost cs = self.composer_mention_completions@;
        proof {
            if self.composer_mention_query is Some {
                let q = self.composer_mention_query->0@;
                assert(text =~= self.settled() + (seq!['@'] + q));
                lemma_lie_in_longer(cs, self.settled(), seq!['@'] + q);
            }
        }
        let mut head = self.composer_input.clone();
        let mut tail = String::new();
        let mut i: usize = self.composer_mention_completions.len();
        assert(cs.take(i as int) =~= cs);
        assert(expanded(head@, cs) + tail@ =~= expanded(text, cs));
        while i > 0
            invariant
                i <= cs.len(),
                cs == self.composer_mention_completions@,
                lie_in(cs.take(i as int), head@),
                expanded(head@, cs.take(i as int)) + tail@ == expanded(text, cs),
            decreases i,
        {
            let c = self.composer_mention_completions[i - 1];
            let ghost some = cs.take(i as int);
            let ghost was = head@;
            assert(some.drop_last() =~= cs.take(i - 1));
            assert(some.last() == c);
            let len = byte_len(head.as_str());
            proof {
                lemma_boundary_ends(was);
            }
            let before = slice_bytes(head.as_str(), 0, c.byte_start);
            let after = slice_bytes(head.as_str(), c.byte_end, len);
            let mut name = "<@".to_string();
            let n = decimal_string(c.user_id);
            name.append(n.as_str());
            name.append(">");
            let ghost old_tail = tail@;
            name.append(after.as_str());
            name.append(tail.as_str());
            tail = name;
            head = before;
            proof {
                let e = expanded(head@, cs.take(i - 1));
                assert(expanded(was, some) =~= e + wire_name(c.user_id) + after@);
                assert(e + tail@ =~= expanded(was, some) + old_tail);
            }
            i = i - 1;
        }
        assert(cs.take(0) =~= Seq::<MentionCompletion>::empty());
        head.append(tail.as_str());
        head
    }

    /// Sends the message, if there is anything in it. In a channel that can no longer be written in it is
    /// dropped. After sending, the next message can be written at once.
    pub fn submit_composer(&mut self, channel: Option<ChannelId>, can_send: bool) -> (r: Option<AppCommand>)
        requires
            old(self).wf(),
        ensures
            final(self).wf(),
            r is Some == (channel is Some && old(self).content().len() > 0 && can_send),
            r matches Some(command) ==> (command matches AppCommand::SendMessage { channel_id, content, reply_to }
                && channel == Some(channel_id) && content@ == old(self).content() && reply_to == old(self).reply_target_message_id),
            channel is None || old(self).content().len() == 0 ==> *final(self) == *old(self),
            channel is Some && old(self).content().len() > 0 ==> {
                &&& final(self).is_clear()
                &&& final(self).reply_target_message_id is None
                &&& final(self).composer_active == (old(self).composer_active && can_send)
            },
    {
        let channel_id: ChannelId = match channel {
            Some(id) => id,
            None => {
                return None;
            },
        };
        let text = self.expand_mention_completions();
        let content = trim_text(text.as_str());
        if content.as_str().unicode_len() == 0 {
            return None;
        }
        let reply_to = self.reply_target_message_id;
        self.clear();
        self.reply_target_message_id = None;
        if !can_send {
            self.composer_active = false;
            return None;
        }
        Some(AppCommand::SendMessage { channel_id, content, reply_to })
    }
}

/// A picked name is sent in the form of the service, and what stands before and behind it as it is.
pub proof fn picked_names_are_sent_as_mentions(before: Seq<char>, name: Seq<char>, after: Seq<char>, id: UserId)
    requires
        utf8_len(before + name + after) <= usize::MAX,
    ensures
        ({
            let c = MentionCompletion {
                byte_start: utf8_len(before) as usize,
                byte_end: utf8_len(before + name) as usize,
                user_id: id,
            };
            expanded(before + name + after, seq![c]) == before + wire_name(id) + after
        }),
{
    let text = before + name + after;
    let c = MentionCompletion {
        byte_start: utf8_len(before) as usize,
        byte_end: utf8_len(before + name) as usize,
        user_id: id,
    };
    let cs = seq![c];
    lemma_utf8_len_concat(before, name);
    lemma_utf8_len_concat(before + name, after);
    assert(text =~= before + (name + after));
    lemma_boundary_ends(before);
    lemma_extend(before, name + after, utf8_len(before) as int);
    lemma_boundary_ends(before + name);
    lemma_extend(before + name, after, utf8_len(before + name) as int);
    lemma_prefix_slice(text, c.byte_start as int);
    lemma_prefix_slice(text, c.byte_end as int);
    assert(text.take(before.len() as int) =~= before);
    assert(text.skip((before + name).len() as int) =~= after);
    assert(cs.drop_last() =~= Seq::<MentionCompletion>::empty());
    assert(expanded(before, cs.drop_last()) == before);
}

} // verus!
