//! A stream of characters that keeps track of its position (line and column).

use vstd::prelude::*;
use crate::text::chars_of;

verus! {

/// Advance the given position by `n` horizontal steps
pub fn advance(pos: (usize, usize), n: usize) -> (res: (usize, usize))
    requires
        pos.1 + n <= usize::MAX,
    ensures
        res == (pos.0, (pos.1 + n) as usize),
{
    (pos.0, pos.1 + n)
}

/// The position reached after reading `text` starting at `pos`: a newline moves to the
/// first column of the next line, any other character moves one column to the right.
pub open spec fn pos_after(pos: (int, int), text: Seq<char>) -> (int, int)
    decreases text.len(),
{
    if text.len() == 0 {
        pos
    } else {
        let next = if text[0] == '\n' { (pos.0 + 1, 1int) } else { (pos.0, pos.1 + 1) };
        pos_after(next, text.drop_first())
    }
}

pub struct CharStream {
    chars: Vec<char>,
    idx: usize,
    line: usize,
    col: usize,
}

impl CharStream {
    /// The characters that have not been read yet.
    pub closed spec fn rest(&self) -> Seq<char> {
        self.chars@.skip(self.idx as int)
    }

    /// The current (line, column) position.
    pub closed spec fn pos(&self) -> (usize, usize) {
        (self.line, self.col)
    }

    /// A stream is well formed when reading the rest of it cannot overflow its position.
    pub closed spec fn wf(&self) -> bool {
        &&& self.idx <= self.chars@.len()
        &&& self.line + self.rest().len() <= usize::MAX
        &&& self.col + self.rest().len() <= usize::MAX
        &&& self.col >= 1
    }

    /// The rest of a well formed stream is shorter than the largest `usize`.
    pub proof fn lemma_rest_len(&self)
        requires
            self.wf(),
        ensures
            self.rest().len() < usize::MAX,
            self.pos().1 >= 1,
    {
    }

    pub fn new_with_pos(src: &str, pos: (usize, usize)) -> (res: Self)
        requires
            pos.0 + src@.len() <= usize::MAX,
            pos.1 + src@.len() <= usize::MAX,
            pos.1 >= 1,
        ensures
            res.wf(),
            res.rest() == src@,
            res.pos() == pos,
    {
        let chars = chars_of(src);
        let res = CharStream { chars, idx: 0, line: pos.0, col: pos.1 };
        assert(res.rest() =~= src@);
        res
    }

    pub fn new(src: &str) -> (res: Self)
        requires
            src@.len() < usize::MAX,
        ensures
            res.wf(),
            res.rest() == src@,
            res.pos() == (1usize, 1usize),
    {
        Self::new_with_pos(src, (1, 1))
    }

    /// A stream over a sequence of characters, starting at the given position.
    pub fn from_chars(chars: Vec<char>, pos: (usize, usize)) -> (res: Self)
        requires
            pos.0 + chars@.len() <= usize::MAX,
            pos.1 + chars@.len() <= usize::MAX,
            pos.1 >= 1,
        ensures
            res.wf(),
            res.rest() == chars@,
            res.pos() == pos,
    {
        let res = CharStream { chars, idx: 0, line: pos.0, col: pos.1 };
        assert(res.rest() =~= res.chars@);
        res
    }

    /// Consume the next character unconditionally; the stream must not be empty.
    pub fn bump(&mut self) -> (c: char)
        requires
            old(self).wf(),
            old(self).rest().len() > 0,
        ensures
            final(self).wf(),
            c == old(self).rest()[0],
            final(self).rest() == old(self).rest().drop_first(),
            final(self).pos() == (if c == '\n' {
                ((old(self).pos().0 + 1) as usize, 1usize)
            } else {
                (old(self).pos().0, (old(self).pos().1 + 1) as usize)
            }),
    {
        assert(self.idx < self.chars.len());
        let c = self.chars[self.idx];
        self.idx = self.idx + 1;
        if c == '\n' {
            self.line = self.line + 1;
            self.col = 1;
        } else {
            self.col = self.col + 1;
        }
        assert(self.rest() =~= old(self).rest().drop_first());
        c
    }

    pub fn next_if(&mut self, f: impl FnOnce(char) -> bool) -> (item: Option<char>)
        requires
            old(self).wf(),
            old(self).rest().len() > 0 ==> f.requires((old(self).rest()[0],)),
        ensures
            final(self).wf(),
            old(self).rest().len() == 0 ==> item is None && *final(self) == *old(self),
            old(self).rest().len() > 0 ==> {
                let c = old(self).rest()[0];
                &&& item is Some ==> {
                    &&& f.ensures((c,), true)
                    &&& item == Some(c)
                    &&& final(self).rest() == old(self).rest().drop_first()
                    &&& final(self).pos() == (if c == '\n' {
                        ((old(self).pos().0 + 1) as usize, 1usize)
                    } else {
                        (old(self).pos().0, (old(self).pos().1 + 1) as usize)
                    })
                }
                &&& item is None ==> f.ensures((c,), false) && *final(self) == *old(self)
            },
    {
        if self.idx < self.chars.len() {
            let c = self.chars[self.idx];
            if f(c) {
                Some(self.bump())
            } else {
                None
            }
        } else {
            None
        }
    }

    pub fn eat_char(&mut self, expect_char: char) -> (eaten: bool)
        requires
            old(self).wf(),
        ensures
            final(self).wf(),
            eaten == (old(self).rest().len() > 0 && old(self).rest()[0] == expect_char),
            eaten ==> final(self).rest() == old(self).rest().drop_first() && final(self).pos() == (
            if expect_char == '\n' {
                ((old(self).pos().0 + 1) as usize, 1usize)
            } else {
                (old(self).pos().0, (old(self).pos().1 + 1) as usize)
            }),
            !eaten ==> *final(self) == *old(self),
    {
        if self.idx < self.chars.len() && self.chars[self.idx] == expect_char {
            self.bump();
            true
        } else {
            false
        }
    }

    /// Skip all characters up to (not including) the next newline, or to the end.
    pub fn skip_to_newline(&mut self)
        requires
            old(self).wf(),
        ensures
            final(self).wf(),
            final(self).pos().0 == old(self).pos().0,
            final(self).pos().1 == old(self).pos().1 + (old(self).rest().len() - final(self).rest().len()),
            final(self).rest().len() <= old(self).rest().len(),
            final(self).rest().len() == 0 || final(self).rest()[0] == '\n',
            forall|i: int|
                0 <= i < old(self).rest().len() - final(self).rest().len() ==> old(self).rest()[i] != '\n',
            final(self).rest() == old(self).rest().skip(
                old(self).rest().len() - final(self).rest().len(),
            ),
    {
        let ghost start = self.rest();
        while self.idx < self.chars.len() && self.chars[self.idx] != '\n'
            invariant
                self.wf(),
                self.pos().0 == old(self).pos().0,
                self.pos().1 == old(self).pos().1 + (start.len() - self.rest().len()),
                self.rest().len() <= start.len(),
                start == old(self).rest(),
                self.rest() == start.skip(start.len() - self.rest().len()),
                forall|i: int| 0 <= i < start.len() - self.rest().len() ==> start[i] != '\n',
            decreases self.chars.len() - self.idx,
        {
            let ghost before = self.rest();
            self.bump();
            assert(start.skip(start.len() - self.rest().len()) =~= before.drop_first());
        }
    }

    pub fn peek(&self) -> (c: Option<char>)
        requires
            self.wf(),
        ensures
            c == (if self.rest().len() > 0 { Some(self.rest()[0]) } else { None }),
    {
        if self.idx < self.chars.len() {
            Some(self.chars[self.idx])
        } else {
            None
        }
    }

    pub fn get_pos(&self) -> (pos: (usize, usize))
        ensures
            pos == self.pos(),
    {
        (self.line, self.col)
    }
}

} // verus!
