//! The line being edited at the prompt.

use vstd::prelude::*;
use vstd::utf8::*;

use crate::parse;
use crate::text;

verus! {

/// The model of an edited line: the characters before the cursor and those from
/// the cursor on.
#[verifier::ext_equal]
pub struct LineView {
    /// What stands before the cursor.
    pub before: Seq<char>,
    /// What stands at the cursor and behind it.
    pub after: Seq<char>,
}

impl LineView {
    /// The whole line.
    pub open spec fn text(self) -> Seq<char> {
        self.before + self.after
    }

    /// The length of the line in bytes.
    pub open spec fn byte_len(self) -> nat {
        encode_utf8(self.text()).len()
    }

    /// `s` with the cursor at its end.
    pub open spec fn at_end(s: Seq<char>) -> LineView {
        LineView { before: s, after: Seq::empty() }
    }

    /// The line with `c` inserted at the cursor.
    pub open spec fn insert(self, c: char) -> LineView {
        LineView { before: self.before.push(c), ..self }
    }

    /// The line without the character before the cursor.
    pub open spec fn backspace(self) -> LineView {
        if self.before.len() > 0 {
            LineView { before: self.before.drop_last(), ..self }
        } else {
            self
        }
    }

    /// The line without the character at the cursor.
    pub open spec fn delete(self) -> LineView {
        if self.after.len() > 0 {
            LineView { after: self.after.drop_first(), ..self }
        } else {
            self
        }
    }

    /// The cursor one character to the left.
    pub open spec fn left(self) -> LineView {
        if self.before.len() > 0 {
            LineView {
                before: self.before.drop_last(),
                after: seq![self.before.last()] + self.after,
            }
        } else {
            self
        }
    }

    /// The cursor one character to the right.
    pub open spec fn right(self) -> LineView {
        if self.after.len() > 0 {
            LineView {
                before: self.before.push(self.after[0]),
                after: self.after.drop_first(),
            }
        } else {
            self
        }
    }

    /// The cursor at the start of the line.
    pub open spec fn home(self) -> LineView {
        LineView { before: Seq::empty(), after: self.text() }
    }

    /// The cursor at the end of the line.
    pub open spec fn end(self) -> LineView {
        LineView::at_end(self.text())
    }

    /// Where the last word before the cursor ends, in characters.
    pub open spec fn word_end(self) -> int {
        self.before.len() - text::tail_len(self.before, true)
    }

    /// Where the last word before the cursor starts, in characters.
    pub open spec fn word_start(self) -> int {
        self.word_end() - text::tail_len(self.before.take(self.word_end()), false)
    }

    /// The line without the last word before the cursor, and the cursor where that
    /// word stood. A line without a word before the cursor is left alone.
    pub open spec fn delete_word(self) -> LineView {
        if self.word_start() < self.word_end() {
            LineView {
                before: self.before.take(self.word_start()),
                after: self.before.skip(self.word_end()) + self.after,
            }
        } else {
            self
        }
    }
}

/// A line of text with a cursor in it.
pub struct Line {
    buf: String,
    cursor: usize,
}

impl View for Line {
    type V = LineView;

    closed spec fn view(&self) -> LineView {
        let k = text::char_index(self.buf@, self.cursor as int);
        LineView { before: self.buf@.take(k), after: self.buf@.skip(k) }
    }
}

impl Line {
    /// The cursor stands between two characters, or at an end of the line.
    pub closed spec fn wf(&self) -> bool {
        is_char_boundary(encode_utf8(self.buf@), self.cursor as int)
    }

    /// What the fields of a well-formed line say about its view.
    proof fn lemma_view(&self)
        requires
            self.wf(),
        ensures
            self@.text() == self.buf@,
            encode_utf8(self@.before).len() == self.cursor,
            encode_utf8(self@.before) == encode_utf8(self.buf@).take(self.cursor as int),
            encode_utf8(self@.after) == encode_utf8(self.buf@).skip(self.cursor as int),
            self.cursor <= encode_utf8(self.buf@).len(),
            self@.before.len() == 0 <==> self.cursor == 0,
            self@.after.len() == 0 <==> self.cursor == encode_utf8(self.buf@).len(),
    {
        let k = text::char_index(self.buf@, self.cursor as int);
        text::lemma_split(self.buf@, self.cursor as int);
        assert(self.buf@.take(k) + self.buf@.skip(k) =~= self.buf@);
        text::lemma_encode_len(self@.before);
        text::lemma_encode_len(self@.after);
    }

    /// A line whose text is `v.text()` and whose cursor stands behind the bytes
    /// of `v.before` is well-formed and has the view `v`.
    proof fn lemma_is(&self, v: LineView)
        requires
            self.buf@ == v.text(),
            self.cursor == encode_utf8(v.before).len(),
        ensures
            self.wf(),
            self@ == v,
    {
        let k = v.before.len() as int;
        assert(self.buf@.take(k) =~= v.before);
        assert(self.buf@.skip(k) =~= v.after);
        text::lemma_boundary_of(self.buf@, k);
    }

    /// An empty line.
    pub fn new() -> (line: Line)
        ensures
            line.wf(),
            line@ == LineView::at_end(Seq::empty()),
    {
        let line = Line { buf: String::new(), cursor: 0 };
        proof {
            line.lemma_is(LineView::at_end(Seq::empty()));
        }
        line
    }

    /// The text of the line.
    pub fn as_str(&self) -> (s: &str)
        requires
            self.wf(),
        ensures
            s@ == self@.text(),
    {
        proof {
            self.lemma_view();
        }
        self.buf.as_str()
    }

    /// The length of the line in bytes.
    pub fn len(&self) -> (n: usize)
        requires
            self.wf(),
        ensures
            n == self@.byte_len(),
    {
        proof {
            self.lemma_view();
        }
        text::byte_len(self.buf.as_str())
    }

    /// What stands before the cursor.
    pub fn before(&self) -> (s: &str)
        requires
            self.wf(),
        ensures
            s@ == self@.before,
    {
        text::split(self.buf.as_str(), self.cursor).0
    }

    /// What stands at the cursor and behind it.
    pub fn after(&self) -> (s: &str)
        requires
            self.wf(),
        ensures
            s@ == self@.after,
    {
        text::split(self.buf.as_str(), self.cursor).1
    }

    /// Whether the cursor is at the end of the line.
    pub fn is_at_end(&self) -> (b: bool)
        requires
            self.wf(),
        ensures
            b == (self@.after.len() == 0),
    {
        proof {
            self.lemma_view();
        }
        self.cursor == text::byte_len(self.buf.as_str())
    }

    /// Insert a character at the cursor.
    pub fn insert(&mut self, c: char)
        requires
            old(self).wf(),
            old(self)@.byte_len() + encode_scalar(c as u32).len() <= usize::MAX,
        ensures
            final(self).wf(),
            final(self)@ == old(self)@.insert(c),
    {
        let ghost v = self@;
        proof {
            self.lemma_view();
        }
        self.buf.insert(self.cursor, c);
        proof {
            text::lemma_encode_push(v.before, c);
            text::lemma_encode_concat(v.before.push(c), v.after);
            text::lemma_encode_injective(self.buf@, v.before.push(c) + v.after);
        }
        self.cursor = self.cursor + c.len_utf8();
        proof {
            self.lemma_is(v.insert(c));
        }
    }

    /// Remove the character before the cursor; tells whether there was one.
    pub fn backspace(&mut self) -> (changed: bool)
        requires
            old(self).wf(),
        ensures
            final(self).wf(),
            final(self)@ == old(self)@.backspace(),
            changed == (old(self)@.before.len() > 0),
    {
        let ghost v = self@;
        proof {
            self.lemma_view();
        }
        if self.cursor == 0 {
            return false;
        }
        let start = parse::prev_char_boundary(self.buf.as_str(), self.cursor);
        proof {
            lemma_prev(v.before, v.after, start as int);
        }
        text::remove_range(&mut self.buf, start, self.cursor);
        proof {
            let b = v.before.drop_last();
            text::lemma_encode_concat(b, v.after);
            text::lemma_encode_injective(self.buf@, b + v.after);
        }
        self.cursor = start;
        proof {
            self.lemma_is(v.backspace());
        }
        true
    }

    /// Remove the character at the cursor; tells whether there was one.
    pub fn delete(&mut self) -> (changed: bool)
        requires
            old(self).wf(),
        ensures
            final(self).wf(),
            final(self)@ == old(self)@.delete(),
            changed == (old(self)@.after.len() > 0),
    {
        let ghost v = self@;
        proof {
            self.lemma_view();
        }
        if self.cursor >= text::byte_len(self.buf.as_str()) {
            return false;
        }
        let end = parse::next_char_boundary(self.buf.as_str(), self.cursor + 1);
        proof {
            lemma_next(v.before, v.after, end as int);
        }
        text::remove_range(&mut self.buf, self.cursor, end);
        proof {
            let a = v.after.drop_first();
            text::lemma_encode_concat(v.before, a);
            text::lemma_encode_injective(self.buf@, v.before + a);
            self.lemma_is(v.delete());
        }
        true
    }

    /// Move the cursor one character to the left; tells whether it moved.
    pub fn left(&mut self) -> (changed: bool)
        requires
            old(self).wf(),
        ensures
            final(self).wf(),
            final(self)@ == old(self)@.left(),
            changed == (old(self)@.before.len() > 0),
    {
        let ghost v = self@;
        proof {
            self.lemma_view();
        }
        if self.cursor == 0 {
            return false;
        }
        self.cursor = parse::prev_char_boundary(self.buf.as_str(), self.cursor);
        proof {
            lemma_prev(v.before, v.after, self.cursor as int);
            assert(v.left().text() =~= v.text());
            self.lemma_is(v.left());
        }
        true
    }

    /// Move the cursor one character to the right; tells whether it moved.
    pub fn right(&mut self) -> (changed: bool)
        requires
            old(self).wf(),
        ensures
            final(self).wf(),
            final(self)@ == old(self)@.right(),
            changed == (old(self)@.after.len() > 0),
    {
        let ghost v = self@;
        proof {
            self.lemma_view();
        }
        if self.cursor >= text::byte_len(self.buf.as_str()) {
            return false;
        }
        self.cursor = parse::next_char_boundary(self.buf.as_str(), self.cursor + 1);
        proof {
            lemma_next(v.before, v.after, self.cursor as int);
            assert(v.right().text() =~= v.text());
            self.lemma_is(v.right());
        }
        true
    }

    /// Move the cursor to the start of the line; gives the number of characters
    /// it moved over.
    pub fn home(&mut self) -> (n: usize)
        requires
            old(self).wf(),
        ensures
            final(self).wf(),
            final(self)@ == old(self)@.home(),
            n == old(self)@.before.len(),
    {
        let ghost v = self@;
        proof {
            self.lemma_view();
        }
        let n = self.before().unicode_len();
        self.cursor = 0;
        proof {
            assert(v.home().text() =~= v.text());
            self.lemma_is(v.home());
        }
        n
    }

    /// Move the cursor to the end of the line; gives the number of characters it
    /// moved over.
    pub fn end(&mut self) -> (n: usize)
        requires
            old(self).wf(),
        ensures
            final(self).wf(),
            final(self)@ == old(self)@.end(),
            n == old(self)@.after.len(),
    {
        let ghost v = self@;
        proof {
            self.lemma_view();
        }
        let n = self.after().unicode_len();
        self.cursor = text::byte_len(self.buf.as_str());
        proof {
            assert(v.end().text() =~= v.text());
            self.lemma_is(v.end());
        }
        n
    }

    /// Drop the whole line.
    pub fn clear(&mut self)
        ensures
            final(self).wf(),
            final(self)@ == LineView::at_end(Seq::empty()),
    {
        self.buf.clear();
        self.cursor = 0;
        proof {
            self.lemma_is(LineView::at_end(Seq::empty()));
        }
    }

    /// Replace the line by `s`, with the cursor at the end.
    pub fn set(&mut self, s: String)
        ensures
            final(self).wf(),
            final(self)@ == LineView::at_end(s@),
    {
        self.cursor = text::byte_len(s.as_str());
        self.buf = s;
        proof {
            assert(LineView::at_end(s@).text() =~= s@);
            self.lemma_is(LineView::at_end(s@));
        }
    }

    /// Remove the last word before the cursor; tells whether there was one.
    pub fn delete_word(&mut self) -> (changed: bool)
        requires
            old(self).wf(),
        ensures
            final(self).wf(),
            final(self)@ == old(self)@.delete_word(),
            changed == (old(self)@.word_start() < old(self)@.word_end()),
    {
        let ghost v = self@;
        let ghost t = v.text();
        proof {
            self.lemma_view();
        }
        let before = self.before();
        let end = text::trailing(before, true);
        let head = text::split(before, end).0;
        let start = text::trailing(head, false);
        proof {
            text::lemma_tail_len_holds(head@, false);
            assert(head@ == v.before.take(v.word_end()));
            assert(head@ =~= t.take(v.word_end()));
            assert(head@.take(v.word_start()) =~= t.take(v.word_start()));
            text::lemma_boundary_of(t, v.word_start());
            text::lemma_boundary_of(t, v.word_end());
            text::lemma_boundary_of(head@, v.word_start());
            text::lemma_encode_len(head@.skip(v.word_start()));
        }
        if start >= end {
            return false;
        }
        text::remove_range(&mut self.buf, start, end);
        proof {
            let b = t.take(v.word_start());
            let a = t.skip(v.word_end());
            assert(b =~= v.delete_word().before);
            assert(a =~= v.delete_word().after);
            assert(encode_utf8(t).take(start as int) =~= encode_utf8(b));
            assert(encode_utf8(t).skip(end as int) =~= encode_utf8(a));
            text::lemma_encode_concat(b, a);
            text::lemma_encode_injective(self.buf@, b + a);
        }
        self.cursor = start;
        proof {
            self.lemma_is(v.delete_word());
        }
        true
    }

    /// Replace the last `n` bytes of the line by `s`, with the cursor behind it.
    pub fn replace_tail(&mut self, n: usize, s: &str)
        requires
            old(self).wf(),
            n <= old(self)@.byte_len(),
            is_char_boundary(encode_utf8(old(self)@.text()), old(self)@.byte_len() - n),
        ensures
            final(self).wf(),
            final(self)@ == LineView::at_end(
                old(self)@.text().take(
                    text::char_index(old(self)@.text(), old(self)@.byte_len() - n),
                ) + s@,
            ),
    {
        let ghost t = self@.text();
        let ghost i = encode_utf8(t).len() - n;
        let ghost k = text::char_index(t, i);
        proof {
            self.lemma_view();
            text::lemma_split(t, i);
        }
        let total = text::byte_len(self.buf.as_str());
        self.buf.truncate(total - n);
        proof {
            if n == 0 {
                assert(encode_utf8(t).subrange(0, i) =~= encode_utf8(t));
            }
            text::lemma_encode_injective(self.buf@, t.take(k));
        }
        self.buf.append(s);
        self.cursor = text::byte_len(self.buf.as_str());
        proof {
            let v = LineView::at_end(t.take(k) + s@);
            assert(v.text() =~= self.buf@);
            self.lemma_is(v);
        }
    }
}

/// The boundary before the end of `b` is where its last character starts.
proof fn lemma_prev(b: Seq<char>, a: Seq<char>, r: int)
    requires
        b.len() > 0,
        0 <= r < encode_utf8(b).len(),
        is_char_boundary(encode_utf8(b + a), r),
        forall|j: int|
            r < j < encode_utf8(b).len() ==> !is_char_boundary(encode_utf8(b + a), j),
    ensures
        r == encode_utf8(b.drop_last()).len(),
        encode_utf8(b + a).take(r) == encode_utf8(b.drop_last()),
{
    let t = b + a;
    let k = b.len() - 1;
    text::lemma_boundary_of(t, k);
    assert(t.take(k) =~= b.drop_last());
    let e = encode_utf8(b.drop_last()).len() as int;
    text::lemma_encode_push(b.drop_last(), b.last());
    text::lemma_encode_one(b.last());
    assert(b.drop_last().push(b.last()) =~= b);
    assert(e < encode_utf8(b).len());
    // `e` is a boundary, so it is not behind `r`.
    assert(e <= r);
    // `r` is a boundary: the characters before it are a prefix of `t`.
    let m = text::char_index(t, r);
    text::lemma_split(t, r);
    text::lemma_boundary_of(t, k + 1);
    assert(t.take(k + 1) =~= b);
    if m > k {
        lemma_take_len(t, k + 1, m);
    } else if m < k {
        lemma_take_len(t, m, k);
    }
    assert(encode_utf8(t).take(r) =~= encode_utf8(b.drop_last()));
}

/// The first boundary behind the start of `a` is where its second character
/// starts.
proof fn lemma_next(b: Seq<char>, a: Seq<char>, r: int)
    requires
        a.len() > 0,
        encode_utf8(b).len() < r,
        is_char_boundary(encode_utf8(b + a), r),
        forall|j: int|
            encode_utf8(b).len() < j < r ==> !is_char_boundary(encode_utf8(b + a), j),
    ensures
        r == encode_utf8(b.push(a[0])).len(),
        encode_utf8(b + a).skip(r) == encode_utf8(a.drop_first()),
{
    let t = b + a;
    let k = b.len() as int;
    text::lemma_boundary_of(t, k + 1);
    assert(t.take(k + 1) =~= b.push(a[0]));
    assert(t.take(k) =~= b);
    assert(t.skip(k + 1) =~= a.drop_first());
    let e = encode_utf8(b.push(a[0])).len() as int;
    text::lemma_encode_push(b, a[0]);
    text::lemma_encode_one(a[0]);
    assert(r <= e);
    let m = text::char_index(t, r);
    text::lemma_split(t, r);
    if m < k + 1 {
        lemma_take_len(t, m, k);
    } else if m > k + 1 {
        lemma_take_len(t, k + 1, m);
    }
    assert(encode_utf8(t).skip(r) =~= encode_utf8(a.drop_first()));
}

/// A longer prefix has more bytes.
proof fn lemma_take_len(t: Seq<char>, i: int, j: int)
    requires
        0 <= i <= j <= t.len(),
    ensures
        encode_utf8(t.take(i)).len() <= encode_utf8(t.take(j)).len(),
        i < j ==> encode_utf8(t.take(i)).len() < encode_utf8(t.take(j)).len(),
{
    let s = t.take(j);
    assert(s.take(i) =~= t.take(i));
    text::lemma_boundary_of(s, i);
    text::lemma_encode_len(s.skip(i));
}

} // verus!
