//! An edited text field: its text and a cursor on a character boundary of
//! it, with the editing keys of the terminal interface.
use vstd::prelude::*;

use crate::cursor::{
    byte_len, byte_offset, char_len_utf8, char_width, find_index_in, index_at, is_boundary,
    lemma_index_at, lemma_offset_step, lemma_offsets_increase, next_char_boundary,
    prev_char_boundary, str_byte_len,
};
use crate::text::{chars_of, string_from_chars};

verus! {

broadcast use vstd::seq_lib::group_seq_properties;

/// A text field being edited. `cursor` is a byte offset into `value`.
pub struct TextField {
    pub value: String,
    pub cursor: usize,
}

impl TextField {
    /// The cursor sits on a character boundary of the text.
    pub open spec fn wf(&self) -> bool {
        is_boundary(self.value@, self.cursor as int)
    }

    /// The index of the character at the cursor.
    pub open spec fn cursor_index(&self) -> int {
        index_at(self.value@, self.cursor as int)
    }

    /// A field holding `text`, with the cursor at its end.
    pub fn with_text(text: &str) -> (f: TextField)
        ensures
            f.wf(),
            f.value@ == text@,
            f.cursor == byte_len(text@),
            f.cursor_index() == text@.len(),
    {
        let n = str_byte_len(text);
        proof {
            lemma_offsets_increase(text@, 0, text@.len() as int);
            lemma_index_at(text@, text@.len() as int);
        }
        TextField { value: text.to_string(), cursor: n }
    }

    /// Left arrow: the cursor moves to the start of the previous character.
    pub fn move_left(&mut self)
        requires
            old(self).wf(),
        ensures
            final(self).wf(),
            final(self).value@ == old(self).value@,
            final(self).cursor_index() == (if old(self).cursor_index() > 0 {
                old(self).cursor_index() - 1
            } else {
                0
            }),
    {
        let ghost s = self.value@;
        let ghost k = self.cursor_index();
        proof {
            lemma_index_at_boundary(s, self.cursor as int);
        }
        let p = prev_char_boundary(self.value.as_str(), self.cursor);
        proof {
            if k > 0 {
                let j = choose|j: int|
                    0 <= j < s.len() && p == #[trigger] byte_offset(s, j) && p < self.cursor && (j
                        + 1 == s.len() || byte_offset(s, j + 1) >= self.cursor);
                if j < k - 1 {
                    lemma_offsets_increase(s, j + 1, k);
                    lemma_offsets_increase(s, j + 1, k - 1);
                } else if j > k - 1 {
                    lemma_offsets_increase(s, k, j);
                }
                lemma_index_at(s, k - 1);
            } else {
                lemma_offsets_increase(s, 0, s.len() as int);
                lemma_index_at(s, 0);
            }
        }
        self.cursor = p;
    }

    /// Right arrow: the cursor moves past the character at it, if any.
    pub fn move_right(&mut self)
        requires
            old(self).wf(),
        ensures
            final(self).wf(),
            final(self).value@ == old(self).value@,
            final(self).cursor_index() == (if old(self).cursor_index() < old(self).value@.len() {
                old(self).cursor_index() + 1
            } else {
                old(self).value@.len() as int
            }),
    {
        let ghost s = self.value@;
        let ghost k = self.cursor_index();
        proof {
            lemma_index_at_boundary(s, self.cursor as int);
            lemma_offsets_increase(s, 0, s.len() as int);
        }
        let n = next_char_boundary(self.value.as_str(), self.cursor);
        proof {
            if self.cursor < byte_len(s) {
                let j = choose|j: int|
                    0 <= j < s.len() && self.cursor == #[trigger] byte_offset(s, j) && n
                        == byte_offset(s, j + 1);
                lemma_index_at(s, j);
                lemma_index_at(s, j + 1);
            } else {
                if k < s.len() {
                    lemma_offsets_increase(s, k, s.len() as int);
                }
                lemma_index_at(s, s.len() as int);
            }
        }
        self.cursor = n;
    }

    /// Home: the cursor moves to the start.
    pub fn move_home(&mut self)
        requires
            old(self).wf(),
        ensures
            final(self).wf(),
            final(self).value@ == old(self).value@,
            final(self).cursor == 0,
            final(self).cursor_index() == 0,
    {
        proof {
            lemma_offsets_increase(self.value@, 0, self.value@.len() as int);
            lemma_index_at(self.value@, 0);
        }
        self.cursor = 0;
    }

    /// End: the cursor moves past the last character.
    pub fn move_end(&mut self)
        requires
            old(self).wf(),
        ensures
            final(self).wf(),
            final(self).value@ == old(self).value@,
            final(self).cursor == byte_len(old(self).value@),
            final(self).cursor_index() == old(self).value@.len(),
    {
        proof {
            lemma_offsets_increase(self.value@, 0, self.value@.len() as int);
            lemma_index_at(self.value@, self.value@.len() as int);
        }
        self.cursor = str_byte_len(self.value.as_str());
    }

    /// Backspace: the character before the cursor is removed and the cursor
    /// moves to where it started; at the start nothing changes.
    pub fn backspace(&mut self)
        requires
            old(self).wf(),
        ensures
            final(self).wf(),
            old(self).cursor_index() == 0 ==> *final(self) == *old(self),
            old(self).cursor_index() > 0 ==> {
                &&& final(self).value@ == old(self).value@.remove(old(self).cursor_index() - 1)
                &&& final(self).cursor_index() == old(self).cursor_index() - 1
            },
    {
        let ghost s = self.value@;
        let ghost k = self.cursor_index();
        proof {
            lemma_index_at_boundary(s, self.cursor as int);
        }
        let total = str_byte_len(self.value.as_str());
        let mut cs = chars_of(self.value.as_str());
        let ki = find_index_in(&cs, self.cursor, total);
        if ki == 0 {
            return;
        }
        let removed = cs.remove(ki - 1);
        let ghost t = cs@;
        proof {
            lemma_offset_step(s, k - 1);
            assert(t.take(k - 1) =~= s.take(k - 1));
            lemma_offsets_increase(t, 0, t.len() as int);
            lemma_index_at(t, k - 1);
        }
        let new_value = string_from_chars(cs.as_slice());
        let new_cursor = self.cursor - char_len_utf8(removed);
        self.value = new_value;
        self.cursor = new_cursor;
    }

    /// Delete: the character at the cursor is removed; at the end nothing
    /// changes.
    pub fn delete(&mut self)
        requires
            old(self).wf(),
        ensures
            final(self).wf(),
            old(self).cursor_index() == old(self).value@.len() ==> *final(self) == *old(self),
            old(self).cursor_index() < old(self).value@.len() ==> {
                &&& final(self).value@ == old(self).value@.remove(old(self).cursor_index())
                &&& final(self).cursor_index() == old(self).cursor_index()
                &&& final(self).cursor == old(self).cursor
            },
    {
        let ghost s = self.value@;
        let ghost k = self.cursor_index();
        proof {
            lemma_index_at_boundary(s, self.cursor as int);
        }
        let total = str_byte_len(self.value.as_str());
        let mut cs = chars_of(self.value.as_str());
        let ki = find_index_in(&cs, self.cursor, total);
        if ki == cs.len() {
            return;
        }
        cs.remove(ki);
        let ghost t = cs@;
        proof {
            assert(t.take(k) =~= s.take(k));
            lemma_offsets_increase(t, 0, t.len() as int);
            lemma_index_at(t, k);
        }
        self.value = string_from_chars(cs.as_slice());
    }

    /// Typing `c`: it is inserted at the cursor and the cursor moves past it.
    pub fn insert_char(&mut self, c: char)
        requires
            old(self).wf(),
        ensures
            final(self).wf(),
            final(self).value@ == old(self).value@.insert(old(self).cursor_index(), c),
            final(self).cursor_index() == old(self).cursor_index() + 1,
            final(self).cursor == old(self).cursor + char_width(c),
    {
        let ghost s = self.value@;
        let ghost k = self.cursor_index();
        proof {
            lemma_index_at_boundary(s, self.cursor as int);
        }
        let total = str_byte_len(self.value.as_str());
        let mut cs = chars_of(self.value.as_str());
        let ki = find_index_in(&cs, self.cursor, total);
        cs.insert(ki, c);
        let ghost t = cs@;
        let new_value = string_from_chars(cs.as_slice());
        let new_total = str_byte_len(new_value.as_str());
        proof {
            assert(t.take(k) =~= s.take(k));
            lemma_offset_step(t, k);
            assert(t[k] == c);
            lemma_offsets_increase(t, k + 1, t.len() as int);
            lemma_index_at(t, k + 1);
        }
        self.value = new_value;
        self.cursor = self.cursor + char_len_utf8(c);
    }
}

/// A boundary is the offset of its own index.
proof fn lemma_index_at_boundary(s: Seq<char>, c: int)
    requires
        is_boundary(s, c),
    ensures
        0 <= index_at(s, c) <= s.len(),
        byte_offset(s, index_at(s, c)) == c,
{
}

} // verus!
