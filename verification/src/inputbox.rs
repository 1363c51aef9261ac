//! A line of text under edit, with a cursor.

use vstd::prelude::*;
use vstd::string::{StrSliceExecFns, StringExecFns};
use vstd::utf8::{encode_utf8, is_char_boundary};

verus! {

/// `String::insert` of the standard library puts a character at a byte
/// position: the bytes before the position stay, then come the bytes of
/// the character, then the bytes that were at the position and after it.
/// It panics unless the position is a character boundary within the text.
pub assume_specification[ String::insert ](text: &mut String, idx: usize, ch: char)
    requires
        is_char_boundary(encode_utf8(old(text)@), idx as int),
    ensures
        encode_utf8(final(text)@) == encode_utf8(old(text)@).subrange(0, idx as int) + encode_utf8(
            seq![ch],
        ) + encode_utf8(old(text)@).subrange(idx as int, encode_utf8(old(text)@).len() as int),
;

/// The smaller of two numbers.
pub open spec fn at_most(a: int, b: int) -> int {
    if a <= b {
        a
    } else {
        b
    }
}

/// An input box: the text typed so far and the place of the cursor.
pub struct IBox {
    input: String,
    cursor_position: usize,
}

impl IBox {
    /// The text typed so far.
    pub closed spec fn text(&self) -> Seq<char> {
        self.input@
    }

    /// The place of the cursor.
    pub closed spec fn cursor(&self) -> usize {
        self.cursor_position
    }

    /// The text as UTF-8 bytes: the cursor never passes their number.
    pub open spec fn bytes(&self) -> Seq<u8> {
        encode_utf8(self.text())
    }

    /// An empty box with the cursor at the start.
    pub fn new() -> (ibox: Self)
        ensures
            ibox.text() == Seq::<char>::empty(),
            ibox.cursor() == 0,
    {
        Self { input: String::new(), cursor_position: 0 }
    }

    /// Moves the cursor one place to the left, if it is not at the start.
    pub fn move_cursor_left(&mut self)
        ensures
            final(self).text() == old(self).text(),
            final(self).cursor() == at_most(
                if old(self).cursor() == 0 {
                    0
                } else {
                    old(self).cursor() - 1
                },
                old(self).bytes().len() as int,
            ),
    {
        let cursor_moved_left = if self.cursor_position == 0 {
            0
        } else {
            self.cursor_position - 1
        };
        self.cursor_position = self.clamp_cursor(cursor_moved_left);
    }

    /// Moves the cursor one place to the right, if it is not at the end.
    pub fn move_cursor_right(&mut self)
        ensures
            final(self).text() == old(self).text(),
            final(self).cursor() == at_most(
                old(self).cursor() + 1,
                old(self).bytes().len() as int,
            ),
    {
        let cursor_moved_right = if self.cursor_position == usize::MAX {
            usize::MAX
        } else {
            self.cursor_position + 1
        };
        self.cursor_position = self.clamp_cursor(cursor_moved_right);
    }

    /// Puts a character at the cursor and moves the cursor past it by one
    /// place. The cursor must stand on a character boundary.
    pub fn enter_char(&mut self, new_char: char)
        requires
            is_char_boundary(old(self).bytes(), old(self).cursor() as int),
        ensures
            final(self).bytes() == old(self).bytes().subrange(0, old(self).cursor() as int)
                + encode_utf8(seq![new_char]) + old(self).bytes().subrange(
                old(self).cursor() as int,
                old(self).bytes().len() as int,
            ),
            final(self).cursor() == at_most(
                old(self).cursor() + 1,
                final(self).bytes().len() as int,
            ),
    {
        self.input.insert(self.cursor_position, new_char);
        self.move_cursor_right();
    }

    /// Puts a character at the cursor if the cursor stands on a character
    /// boundary, and says whether it did.
    pub fn try_enter_char(&mut self, new_char: char) -> (entered: bool)
        ensures
            entered == is_char_boundary(old(self).bytes(), old(self).cursor() as int),
            entered ==> {
                &&& final(self).bytes() == old(self).bytes().subrange(
                    0,
                    old(self).cursor() as int,
                ) + encode_utf8(seq![new_char]) + old(self).bytes().subrange(
                    old(self).cursor() as int,
                    old(self).bytes().len() as int,
                )
                &&& final(self).cursor() == at_most(
                    old(self).cursor() + 1,
                    final(self).bytes().len() as int,
                )
            },
            !entered ==> {
                &&& final(self).text() == old(self).text()
                &&& final(self).cursor() == old(self).cursor()
            },
    {
        if self.input.as_str().is_char_boundary(self.cursor_position) {
            self.enter_char(new_char);
            true
        } else {
            false
        }
    }

    /// Takes out the character before the cursor, counted in characters,
    /// and moves the cursor one place to the left. Nothing happens at the
    /// start.
    pub fn delete_char(&mut self)
        ensures
            old(self).cursor() == 0 ==> {
                &&& final(self).text() == old(self).text()
                &&& final(self).cursor() == 0
            },
            old(self).cursor() > 0 ==> {
                &&& final(self).text() == old(self).text().take(
                    at_most(old(self).cursor() - 1, old(self).text().len() as int),
                ) + old(self).text().skip(
                    at_most(old(self).cursor() as int, old(self).text().len() as int),
                )
                &&& final(self).cursor() == at_most(
                    old(self).cursor() - 1,
                    final(self).bytes().len() as int,
                )
            },
    {
        let is_not_cursor_leftmost = self.cursor_position != 0;
        if is_not_cursor_leftmost {
            let current_index = self.cursor_position;
            let from_left_to_current_index = current_index - 1;
            let text = self.input.as_str();
            let count = text.unicode_len();
            let kept_before = if from_left_to_current_index < count {
                from_left_to_current_index
            } else {
                count
            };
            let kept_from = if current_index < count {
                current_index
            } else {
                count
            };
            let before_char_to_delete = text.substring_char(0, kept_before);
            let after_char_to_delete = text.substring_char(kept_from, count);
            let mut joined = String::from_str(before_char_to_delete);
            joined.append(after_char_to_delete);
            assert(joined@ =~= old(self).text().take(kept_before as int) + old(self).text().skip(
                kept_from as int,
            ));
            self.input = joined;
            self.move_cursor_left();
        }
    }

    /// The given place, or the end of the text if the place is past it.
    pub fn clamp_cursor(&self, new_cursor_pos: usize) -> (pos: usize)
        ensures
            pos == at_most(new_cursor_pos as int, self.bytes().len() as int),
            self.bytes().len() <= usize::MAX,
    {
        let len = self.input.as_str().as_bytes().len();
        if new_cursor_pos > len {
            len
        } else {
            new_cursor_pos
        }
    }

    /// Puts the cursor at the start.
    pub fn reset_cursor(&mut self)
        ensures
            final(self).text() == old(self).text(),
            final(self).cursor() == 0,
    {
        self.cursor_position = 0;
    }

    /// The text typed so far.
    pub fn message(&self) -> (text: &str)
        ensures
            text@ == self.text(),
    {
        self.input.as_str()
    }

    /// Empties the box.
    pub fn reset(&mut self)
        ensures
            final(self).text() == Seq::<char>::empty(),
            final(self).cursor() == 0,
    {
        self.input = String::new();
        self.cursor_position = 0;
    }

    /// The place of the cursor as a screen column: its low sixteen bits.
    pub fn cursor_pos(&self) -> (pos: u16)
        ensures
            pos == self.cursor() % 0x1_0000,
    {
        (self.cursor_position % 0x1_0000) as u16
    }
}

} // verus!
