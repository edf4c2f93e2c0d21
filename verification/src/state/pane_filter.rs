//! A line of text that is being typed, with a cursor that moves by what the user takes for a character.

use crate::text::{
    byte_len, char_index, concat, is_boundary, lemma_boundary_ends, lemma_boundary_order, lemma_char_index,
    lemma_utf8_len_concat, lemma_utf8_len_push, on_boundary, slice_bytes, texts, utf8_len,
};
use crate::unicode::{graphemes, is_plain, singles, split_graphemes};
use vstd::prelude::*;
use vstd::string::*;

verus! {

/// The text before and behind the cursor.
pub struct EditView {
    pub before: Seq<char>,
    pub after: Seq<char>,
}

impl EditView {
    pub open spec fn text(self) -> Seq<char> {
        self.before + self.after
    }

    /// With a character typed at the cursor.
    pub open spec fn typed(self, c: char) -> EditView {
        EditView { before: self.before.push(c), after: self.after }
    }

    /// Where the last cluster before the cursor begins.
    pub open spec fn last_start(self) -> int {
        let gs = graphemes(self.before);
        if gs.len() == 0 {
            0
        } else {
            self.before.len() - gs.last().len()
        }
    }

    /// How many characters the first cluster behind the cursor has.
    pub open spec fn first_len(self) -> int {
        let gs = graphemes(self.after);
        if gs.len() == 0 {
            0
        } else {
            gs[0].len() as int
        }
    }

    /// Without the cluster before the cursor.
    pub open spec fn deleted(self) -> EditView {
        EditView { before: self.before.take(self.last_start()), after: self.after }
    }

    /// With the cursor a cluster further left.
    pub open spec fn left(self) -> EditView {
        EditView {
            before: self.before.take(self.last_start()),
            after: self.before.skip(self.last_start()) + self.after,
        }
    }

    /// With the cursor a cluster further right.
    pub open spec fn right(self) -> EditView {
        EditView {
            before: self.before + self.after.take(self.first_len()),
            after: self.after.skip(self.first_len()),
        }
    }
}

/// The last character boundary at or before a byte.
pub open spec fn clamped_cursor(text: Seq<char>, index: int) -> int
    decreases index,
{
    if index <= 0 {
        0
    } else if index <= utf8_len(text) && on_boundary(text, index) {
        index
    } else {
        clamped_cursor(text, index - 1)
    }
}

proof fn lemma_clamped(text: Seq<char>, index: int)
    ensures
        on_boundary(text, clamped_cursor(text, index)),
        0 <= clamped_cursor(text, index) <= utf8_len(text),
        on_boundary(text, index) ==> clamped_cursor(text, index) == index,
    decreases index,
{
    lemma_boundary_ends(text);
    if on_boundary(text, index) {
        lemma_boundary_ends(text);
        if index >= 0 {
            lemma_boundary_order(text, index, index);
        } else {
            let k = char_index(text, index);
        }
    }
    if index > 0 {
        if !(index <= utf8_len(text) && on_boundary(text, index)) {
            lemma_clamped(text, index - 1);
        }
    }
}

proof fn lemma_clamped_above(text: Seq<char>, index: int)
    requires
        index >= utf8_len(text),
    ensures
        clamped_cursor(text, index) == utf8_len(text),
    decreases index,
{
    lemma_boundary_ends(text);
    if index > utf8_len(text) {
        lemma_clamped_above(text, index - 1);
    }
}

pub fn clamp_cursor_index(value: &str, index: usize) -> (r: usize)
    ensures
        r == clamped_cursor(value@, index as int),
        on_boundary(value@, r as int),
        r <= utf8_len(value@),
{
    let len = byte_len(value);
    let mut i: usize = if index <= len { index } else { len };
    proof {
        if index > len {
            lemma_clamped_above(value@, index as int);
            lemma_clamped_above(value@, len as int);
        }
        lemma_clamped(value@, index as int);
    }
    while i > 0 && !is_boundary(value, i)
        invariant
            i <= len,
            len == utf8_len(value@),
            clamped_cursor(value@, index as int) == clamped_cursor(value@, i as int),
        decreases i,
    {
        i = i - 1;
    }
    i
}

/// The text of a filter and the byte that the cursor is at.
#[derive(Debug, PartialEq, Eq)]
pub struct PaneFilterState {
    pub query: String,
    pub query_cursor_byte_index: usize,
}

impl View for PaneFilterState {
    type V = EditView;

    open spec fn view(&self) -> EditView {
        let k = char_index(self.query@, clamped_cursor(self.query@, self.query_cursor_byte_index as int));
        EditView { before: self.query@.take(k), after: self.query@.skip(k) }
    }
}

proof fn lemma_view_of(text: Seq<char>, index: int, before: Seq<char>, after: Seq<char>)
    requires
        text == before + after,
        index == utf8_len(before),
    ensures
        clamped_cursor(text, index) == index,
        text.take(char_index(text, index)) == before,
        text.skip(char_index(text, index)) == after,
{
    let k = before.len() as int;
    assert(text.take(k) =~= before);
    assert(text.skip(k) =~= after);
    lemma_char_index(text, k);
    lemma_clamped(text, index);
}

proof fn lemma_concat_last(parts: Seq<Seq<char>>)
    requires
        parts.len() > 0,
    ensures
        concat(parts) == concat(parts.drop_last()) + parts.last(),
    decreases parts.len(),
{
    if parts.len() == 1 {
        assert(parts.drop_last() =~= Seq::<Seq<char>>::empty());
        assert(parts.drop_first() =~= Seq::<Seq<char>>::empty());
        assert(concat(parts) =~= concat(parts.drop_last()) + parts.last());
    } else {
        lemma_concat_last(parts.drop_first());
        assert(parts.drop_first().drop_last() =~= parts.drop_last().drop_first());
        assert(parts.drop_first().last() == parts.last());
        assert(concat(parts) =~= concat(parts.drop_last()) + parts.last());
    }
}

proof fn lemma_concat_first(parts: Seq<Seq<char>>)
    requires
        parts.len() > 0,
    ensures
        concat(parts) == parts[0] + concat(parts.drop_first()),
    decreases parts.len(),
{
    if parts.len() == 1 {
        assert(parts.drop_last() =~= Seq::<Seq<char>>::empty());
        assert(parts.drop_first() =~= Seq::<Seq<char>>::empty());
        assert(concat(parts) =~= parts[0] + concat(parts.drop_first()));
    } else {
        lemma_concat_first(parts.drop_last());
        lemma_concat_last(parts);
        lemma_concat_last(parts.drop_first());
        assert(parts.drop_first().drop_last() =~= parts.drop_last().drop_first());
        assert(concat(parts) =~= parts[0] + concat(parts.drop_first()));
    }
}

impl PaneFilterState {
    pub fn new() -> (r: PaneFilterState)
        ensures
            r@.before.len() == 0,
            r@.after.len() == 0,
            r.query@ == Seq::<char>::empty(),
    {
        let r = PaneFilterState { query: String::new(), query_cursor_byte_index: 0 };
        proof {
            lemma_view_of(r.query@, 0, Seq::empty(), Seq::empty());
        }
        r
    }

    pub fn query(&self) -> (r: &str)
        ensures
            r@ == self@.text(),
    {
        proof {
            self.lemma_text();
        }
        self.query.as_str()
    }

    pub proof fn lemma_text(&self)
        ensures
            self@.text() == self.query@,
    {
        lemma_clamped(self.query@, self.query_cursor_byte_index as int);
        let c = clamped_cursor(self.query@, self.query_cursor_byte_index as int);
        lemma_boundary_order(self.query@, c, c);
        let k = char_index(self.query@, c);
        assert(self.query@.take(k) + self.query@.skip(k) =~= self.query@);
    }

    pub fn cursor_byte_index(&self) -> (r: usize)
        ensures
            r == utf8_len(self@.before),
            r == clamped_cursor(self.query@, self.query_cursor_byte_index as int),
    {
        let r = clamp_cursor_index(self.query.as_str(), self.query_cursor_byte_index);
        proof {
            lemma_boundary_order(self.query@, r as int, r as int);
        }
        r
    }

    fn halves(&self) -> (r: (String, String))
        ensures
            r.0@ == self@.before,
            r.1@ == self@.after,
            utf8_len(r.0@) + utf8_len(r.1@) <= usize::MAX,
    {
        let cursor = self.cursor_byte_index();
        let len = byte_len(self.query.as_str());
        proof {
            lemma_clamped(self.query@, self.query_cursor_byte_index as int);
            lemma_boundary_ends(self.query@);
            lemma_boundary_order(self.query@, 0, cursor as int);
            lemma_boundary_order(self.query@, cursor as int, len as int);
        }
        let before = slice_bytes(self.query.as_str(), 0, cursor);
        let after = slice_bytes(self.query.as_str(), cursor, len);
        assert(before@ =~= self@.before);
        assert(after@ =~= self@.after);
        proof {
            self.lemma_text();
            lemma_utf8_len_concat(before@, after@);
        }
        (before, after)
    }

    fn set(&mut self, before: String, after: String)
        requires
            utf8_len(before@) + utf8_len(after@) <= usize::MAX,
        ensures
            final(self)@ == (EditView { before: before@, after: after@ }),
            final(self).query@ == before@ + after@,
    {
        self.query_cursor_byte_index = byte_len(before.as_str());
        let ghost head = before@;
        let mut text = before;
        text.append(after.as_str());
        self.query = text;
        proof {
            lemma_view_of(self.query@, self.query_cursor_byte_index as int, head, after@);
        }
    }

    /// Types a character.
    pub fn push_char(&mut self, value: char)
        requires
            utf8_len(old(self).query@) + 4 <= usize::MAX,
        ensures
            final(self)@ == old(self)@.typed(value),
    {
        let (before, after) = self.halves();
        proof {
            self.lemma_text();
            lemma_utf8_len_concat(before@, after@);
            lemma_utf8_len_push(before@, value);
        }
        let mut head = before;
        head.push(value);
        self.set(head, after);
    }

    proof fn lemma_last_start(v: EditView)
        requires
            concat(graphemes(v.before)) == v.before,
        ensures
            0 <= v.last_start() <= v.before.len(),
            graphemes(v.before).len() > 0 ==> v.before.take(v.last_start()) == concat(graphemes(v.before).drop_last())
                && v.before.skip(v.last_start()) == graphemes(v.before).last(),
            graphemes(v.before).len() == 0 ==> v.before.len() == 0,
    {
        let gs = graphemes(v.before);
        if gs.len() > 0 {
            lemma_concat_last(gs);
            assert(v.before.take(v.last_start()) =~= concat(gs.drop_last()));
            assert(v.before.skip(v.last_start()) =~= gs.last());
        }
    }

    /// The text before the cursor without its last cluster, and that cluster.
    fn split_last(before: &String) -> (r: (String, String))
        ensures
            ({
                let v = EditView { before: before@, after: Seq::empty() };
                r.0@ == before@.take(v.last_start()) && r.1@ == before@.skip(v.last_start())
            }),
            before@ == r.0@ + r.1@,
    {
        let gs = split_graphemes(before.as_str());
        let ghost v = EditView { before: before@, after: Seq::empty() };
        proof {
            Self::lemma_last_start(v);
        }
        if gs.len() == 0 {
            assert(texts(gs@) =~= graphemes(before@));
            assert(before@.take(0) =~= before@);
            assert(before@.skip(0) =~= before@);
            return (String::new(), String::new());
        }
        let mut head = String::new();
        let ghost all = texts(gs@);
        let mut i: usize = 0;
        assert(all.take(0) =~= Seq::<Seq<char>>::empty());
        while i < gs.len() - 1
            invariant
                gs@.len() > 0,
                all == texts(gs@),
                i <= gs@.len() - 1,
                head@ == concat(all.take(i as int)),
            decreases gs@.len() - i,
        {
            head.append(gs[i].as_str());
            proof {
                lemma_concat_last(all.take(i + 1));
                assert(all.take(i + 1).drop_last() =~= all.take(i as int));
            }
            i += 1;
        }
        assert(all.take(i as int) =~= all.drop_last());
        let last = gs[gs.len() - 1].clone();
        (head, last)
    }

    /// Deletes the cluster before the cursor.
    pub fn pop_char(&mut self)
        ensures
            final(self)@ == old(self)@.deleted(),
    {
        let (before, after) = self.halves();
        let (head, last) = Self::split_last(&before);
        proof {
            lemma_utf8_len_concat(head@, last@);
        }
        self.set(head, after);
    }

    /// Moves the cursor a cluster to the left. The text stays.
    pub fn cursor_left(&mut self)
        ensures
            final(self)@.text() == old(self)@.text(),
            final(self)@ == old(self)@.left(),
    {
        let (before, after) = self.halves();
        let (head, last) = Self::split_last(&before);
        let mut rest = last;
        proof {
            lemma_utf8_len_concat(head@, rest@);
            lemma_utf8_len_concat(rest@, after@);
        }
        let ghost tail = rest@;
        rest.append(after.as_str());
        assert(head@ + (tail + after@) =~= before@ + after@);
        self.set(head, rest);
    }

    /// Moves the cursor a cluster to the right. The text stays.
    pub fn cursor_right(&mut self)
        ensures
            final(self)@.text() == old(self)@.text(),
            final(self)@ == old(self)@.right(),
    {
        let (before, after) = self.halves();
        let gs = split_graphemes(after.as_str());
        proof {
            assert(texts(gs@) == graphemes(after@));
        }
        if gs.len() == 0 {
            assert(after@.len() == 0);
            assert(self@.before + self@.after.take(0) =~= before@);
            assert(self@.after.skip(0) =~= after@);
            self.set(before, after);
            return;
        }
        let ghost all = texts(gs@);
        proof {
            lemma_concat_first(all);
            assert(all[0] == gs@[0]@);
            assert(after@.take(all[0].len() as int) =~= all[0]);
            assert(after@.skip(all[0].len() as int) =~= concat(all.drop_first()));
        }
        let mut rest = String::new();
        let mut i: usize = 1;
        assert(all.subrange(1, 1) =~= Seq::<Seq<char>>::empty());
        while i < gs.len()
            invariant
                all == texts(gs@),
                1 <= i <= gs@.len(),
                rest@ == concat(all.subrange(1, i as int)),
            decreases gs@.len() - i,
        {
            rest.append(gs[i].as_str());
            proof {
                lemma_concat_last(all.subrange(1, i + 1));
                assert(all.subrange(1, i + 1).drop_last() =~= all.subrange(1, i as int));
            }
            i += 1;
        }
        assert(all.subrange(1, i as int) =~= all.drop_first());
        let ghost head = before@;
        let mut front = before;
        front.append(gs[0].as_str());
        proof {
            lemma_utf8_len_concat(head, all[0]);
            lemma_utf8_len_concat(all[0], rest@);
            assert(front@ + rest@ =~= head + after@);
        }
        self.set(front, rest);
    }
}

/// Deleting takes back what was typed, where the character is a cluster of its own.
pub proof fn deleting_undoes_typing(v: EditView, c: char)
    requires
        graphemes(v.typed(c).before).len() > 0,
        graphemes(v.typed(c).before).last() == seq![c],
    ensures
        v.typed(c).deleted() == v,
{
    assert(v.typed(c).deleted().before =~= v.before);
}

/// In printable ASCII, deleting takes back what was typed, wherever the cursor stands.
pub proof fn deleting_undoes_typing_plain_text(v: EditView, c: char)
    requires
        is_plain(v.before),
        ' ' <= c <= '~',
    ensures
        v.typed(c).deleted() == v,
{
    let before = v.typed(c).before;
    reveal(graphemes);
    assert(is_plain(before));
    assert(singles(before).last() =~= seq![c]);
    deleting_undoes_typing(v, c);
}

} // verus!
