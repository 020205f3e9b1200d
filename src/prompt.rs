//! The prompt editor: the line being typed, a cursor within it, and a stash
//! that keeps an edit aside while history or a cleared screen replaces it.
//! The cursor counts characters, so it always stands between two of them.

use vstd::prelude::*;
use vstd::utf8::{encode_utf8, encode_utf8_first_scalar, encode_utf8_valid_utf8, encode_scalar, is_char_boundary, pop_first_scalar};
use crate::text::{alphanumeric, emoji, is_alphanumeric, is_emoji, chars_of, string_of};

verus! {

/// The editor's state: the prompt template, the input, the cursor and the stash.
pub struct Prompt {
    input_stash: Option<String>,
    input: String,
    chars: Vec<char>,
    cursor: usize,
    pub ps1: String,
}

/// A target for the cursor.
#[derive(Debug, Clone, Copy, PartialEq, Eq, Structural)]
pub enum CursorPosition {
    /// Before the first character.
    Origin,
    /// After the last character.
    End,
}

/// How far a cursor motion goes.
#[derive(Debug, Clone, Copy, PartialEq, Eq, Structural)]
pub enum CursorMovement {
    /// One character.
    One,
    /// Across a run of alphanumeric characters.
    Word,
}

pub struct PromptModel {
    pub input: Seq<char>,
    pub cursor: int,
    pub stash: Option<Seq<char>>,
    pub ps1: Seq<char>,
}

impl View for Prompt {
    type V = PromptModel;

    closed spec fn view(&self) -> PromptModel {
        PromptModel {
            input: self.input@,
            cursor: self.cursor as int,
            stash: match self.input_stash {
                Some(s) => Some(s@),
                None => None,
            },
            ps1: self.ps1@,
        }
    }
}

/// The cursor lies within the input.
pub open spec fn cursor_in_bounds(m: PromptModel) -> bool {
    0 <= m.cursor <= m.input.len()
}

/// The model with the input cut at the cursor.
pub open spec fn truncated(m: PromptModel) -> PromptModel {
    PromptModel { input: m.input.take(m.cursor), ..m }
}

/// How many newlines `s` holds.
pub open spec fn newlines(s: Seq<char>) -> nat
    decreases s.len(),
{
    if s.len() == 0 {
        0
    } else {
        newlines(s.drop_last()) + if s.last() == '\n' { 1nat } else { 0nat }
    }
}

/// The display width of a character: emoji take two columns.
pub open spec fn width(c: char) -> nat {
    if emoji(c) { 2 } else { 1 }
}

/// The columns taken by the characters after the last newline of `s`.
pub open spec fn last_line_width(s: Seq<char>) -> nat
    decreases s.len(),
{
    if s.len() == 0 || s.last() == '\n' {
        0
    } else {
        last_line_width(s.drop_last()) + width(s.last())
    }
}

/// Where a move one word to the left from `k + 1` stops: it passes
/// alphanumeric characters and stops on the first other one, or at the start.
pub open spec fn word_left(s: Seq<char>, k: int) -> int
    decreases k,
{
    if k > 0 && k < s.len() && alphanumeric(s[k]) {
        word_left(s, k - 1)
    } else {
        k
    }
}

/// Where a move one word to the right from `k - 1` stops.
pub open spec fn word_right(s: Seq<char>, k: int) -> int
    decreases s.len() - k,
{
    if 0 <= k < s.len() && alphanumeric(s[k]) {
        word_right(s, k + 1)
    } else {
        k
    }
}

proof fn lemma_word_left_bounds(s: Seq<char>, k: int)
    requires
        0 <= k,
    ensures
        0 <= word_left(s, k) <= k,
    decreases k,
{
    if k > 0 && k < s.len() && alphanumeric(s[k]) {
        lemma_word_left_bounds(s, k - 1);
    }
}

proof fn lemma_word_right_bounds(s: Seq<char>, k: int)
    requires
        k <= s.len(),
    ensures
        k <= word_right(s, k) <= s.len(),
    decreases s.len() - k,
{
    if 0 <= k < s.len() && alphanumeric(s[k]) {
        lemma_word_right_bounds(s, k + 1);
    }
}

impl Prompt {
    /// The editor's invariant: the text and its characters agree, and the
    /// cursor lies within them.
    pub closed spec fn wf(&self) -> bool {
        &&& self.chars@ == self.input@
        &&& self.cursor <= self.chars@.len()
    }

    /// An empty editor showing the given prompt template.
    pub fn new(ps1script: &str) -> (r: Prompt)
        ensures
            r.wf(),
            r@.input.len() == 0,
            r@.cursor == 0,
            r@.stash is None,
            r@.ps1 == ps1script@,
    {
        let t = chars_of(ps1script);
        Prompt { input_stash: None, input: String::new(), chars: Vec::new(), cursor: 0, ps1: string_of(&t) }
    }

    fn sync(&mut self)
        requires
            old(self).cursor <= old(self).chars@.len(),
        ensures
            final(self).wf(),
            final(self)@ == (PromptModel { input: old(self).chars@, ..old(self)@ }),
            final(self).chars@ == old(self).chars@,
    {
        self.input = string_of(&self.chars);
    }

    /// Inserts `c` at the cursor and moves the cursor past it.
    pub fn add_char(&mut self, c: char)
        requires
            old(self).wf(),
        ensures
            final(self).wf(),
            final(self)@ == (PromptModel {
                input: old(self)@.input.insert(old(self)@.cursor, c),
                cursor: old(self)@.cursor + 1,
                ..old(self)@
            }),
    {
        self.chars.insert(self.cursor, c);
        assert(self.cursor < self.chars.len());
        self.cursor = self.cursor + 1;
        self.sync();
    }

    /// Appends `c` at the end of the input; the cursor stays.
    pub fn append_char(&mut self, c: char)
        requires
            old(self).wf(),
        ensures
            final(self).wf(),
            final(self)@ == (PromptModel { input: old(self)@.input.push(c), ..old(self)@ }),
    {
        self.chars.push(c);
        self.sync();
    }

    /// Removes the character before the cursor (`back`) or at it. Returns
    /// whether there was one to remove.
    pub fn remove_char(&mut self, back: bool) -> (r: bool)
        requires
            old(self).wf(),
        ensures
            final(self).wf(),
            r == (if back { old(self)@.cursor > 0 } else { old(self)@.cursor < old(self)@.input.len() }),
            r && back ==> final(self)@ == (PromptModel {
                input: old(self)@.input.remove(old(self)@.cursor - 1),
                cursor: old(self)@.cursor - 1,
                ..old(self)@
            }),
            r && !back ==> final(self)@ == (PromptModel { input: old(self)@.input.remove(old(self)@.cursor), ..old(self)@ }),
            !r ==> final(self)@ == old(self)@,
    {
        if back && self.cursor > 0 {
            self.cursor = self.cursor - 1;
            self.chars.remove(self.cursor);
            self.sync();
            true
        } else if !back && self.cursor < self.chars.len() {
            self.chars.remove(self.cursor);
            self.sync();
            true
        } else {
            false
        }
    }

    /// Replaces the input and puts the cursor at its end.
    pub fn set_input(&mut self, str: &str)
        requires
            old(self).wf(),
        ensures
            final(self).wf(),
            final(self)@ == (PromptModel { input: str@, cursor: str@.len() as int, ..old(self)@ }),
    {
        self.chars = chars_of(str);
        self.cursor = self.chars.len();
        self.sync();
    }

    /// Empties the input.
    pub fn clear_input(&mut self)
        requires
            old(self).wf(),
        ensures
            final(self).wf(),
            final(self)@ == (PromptModel { input: Seq::empty(), cursor: 0, ..old(self)@ }),
    {
        self.chars = Vec::new();
        self.cursor = 0;
        self.sync();
    }

    /// Drops everything from the cursor on. Returns whether anything was
    /// dropped.
    pub fn truncate_input(&mut self) -> (r: bool)
        requires
            old(self).wf(),
        ensures
            final(self).wf(),
            r == (old(self)@.cursor < old(self)@.input.len()),
            final(self)@ == truncated(old(self)@),
    {
        if self.cursor == self.chars.len() {
            assert(self.input@.take(self.cursor as int) =~= self.input@);
            false
        } else {
            self.chars.truncate(self.cursor);
            self.sync();
            assert(self.input@ =~= old(self)@.input.take(self.cursor as int));
            true
        }
    }

    /// Whether the input is non-empty.
    pub fn has_input(&self) -> (r: bool)
        requires
            self.wf(),
        ensures
            r == (self@.input.len() > 0),
    {
        self.chars.len() > 0
    }

    /// The input.
    pub fn get_input(&self) -> (r: &String)
        ensures
            r@ == self@.input,
    {
        &self.input
    }

    /// How many display lines the input spans.
    pub fn get_input_rows(&self) -> (r: usize)
        requires
            self.wf(),
            self@.input.len() < usize::MAX,
        ensures
            r == 1 + newlines(self@.input),
    {
        let mut n: usize = 0;
        let mut i: usize = 0;
        while i < self.chars.len()
            invariant
                self.wf(),
                i <= self.chars@.len(),
                n == newlines(self.chars@.take(i as int)),
                n <= i,
            decreases self.chars.len() - i,
        {
            assert(self.chars@.take(i + 1).drop_last() =~= self.chars@.take(i as int));
            if self.chars[i] == '\n' {
                n += 1;
            }
            i += 1;
        }
        assert(self.chars@.take(i as int) =~= self.chars@);
        n + 1
    }

    /// Keeps the current input aside.
    pub fn stash_input(&mut self)
        requires
            old(self).wf(),
        ensures
            final(self).wf(),
            final(self)@ == (PromptModel { stash: Some(old(self)@.input), ..old(self)@ }),
    {
        self.input_stash = Some(self.input.clone());
    }

    /// Brings the stashed input back, if there is one, with the cursor at its end.
    pub fn unstash_input(&mut self)
        requires
            old(self).wf(),
        ensures
            final(self).wf(),
            old(self)@.stash matches Some(s) ==> final(self)@ == (PromptModel { input: s, cursor: s.len() as int, ..old(self)@ }),
            old(self)@.stash is None ==> final(self)@ == old(self)@,
    {
        if let Some(stash) = &self.input_stash {
            let t = chars_of(stash.as_str());
            self.chars = t;
            self.cursor = self.chars.len();
            self.sync();
        }
    }

    /// Drops the stash.
    pub fn clear_stash(&mut self)
        requires
            old(self).wf(),
        ensures
            final(self).wf(),
            final(self)@ == (PromptModel { stash: None, ..old(self)@ }),
    {
        self.input_stash = None;
    }

    /// How many characters stand before the cursor.
    pub fn get_cursor(&self) -> (r: usize)
        ensures
            r == self@.cursor,
    {
        self.cursor
    }

    /// The cursor's column within its display line (emoji count two) and
    /// its row, the number of newlines before it.
    pub fn get_cursor_offset(&self) -> (r: (usize, usize))
        requires
            self.wf(),
            self@.input.len() <= usize::MAX / 2,
        ensures
            r.0 == last_line_width(self@.input.take(self@.cursor)),
            r.1 == newlines(self@.input.take(self@.cursor)),
    {
        let mut col: usize = 0;
        let mut row: usize = 0;
        let mut i: usize = 0;
        while i < self.cursor
            invariant
                self.wf(),
                i <= self.cursor,
                row == newlines(self.chars@.take(i as int)),
                col == last_line_width(self.chars@.take(i as int)),
                row <= i,
                col <= 2 * i,
                self.chars@.len() <= usize::MAX / 2,
            decreases self.cursor - i,
        {
            assert(self.chars@.take(i + 1).drop_last() =~= self.chars@.take(i as int));
            let c = self.chars[i];
            if c == '\n' {
                row += 1;
                col = 0;
            } else if is_emoji(c) {
                col += 2;
            } else {
                col += 1;
            }
            i += 1;
        }
        (col, row)
    }

    /// Moves the cursor to the start or the end of the input. Returns whether
    /// it moved.
    pub fn move_cursor(&mut self, pos: CursorPosition) -> (r: bool)
        requires
            old(self).wf(),
        ensures
            final(self).wf(),
            final(self)@ == (PromptModel {
                cursor: if pos == CursorPosition::Origin { 0 } else { old(self)@.input.len() as int },
                ..old(self)@
            }),
            r == (final(self)@.cursor != old(self)@.cursor),
    {
        match pos {
            CursorPosition::Origin => {
                if self.cursor != 0 {
                    self.cursor = 0;
                    true
                } else {
                    false
                }
            },
            CursorPosition::End => {
                if self.cursor != self.chars.len() {
                    self.cursor = self.chars.len();
                    true
                } else {
                    false
                }
            },
        }
    }

    /// Moves the cursor left by one character, or by a word: past the
    /// character before it and then on over alphanumeric characters. Returns
    /// how many characters it moved.
    pub fn move_cursor_left(&mut self, movement: CursorMovement) -> (r: usize)
        requires
            old(self).wf(),
        ensures
            final(self).wf(),
            final(self)@ == (PromptModel {
                cursor: if old(self)@.cursor == 0 {
                    0
                } else if movement == CursorMovement::One {
                    old(self)@.cursor - 1
                } else {
                    word_left(old(self)@.input, old(self)@.cursor - 1)
                },
                ..old(self)@
            }),
            r == old(self)@.cursor - final(self)@.cursor,
    {
        if self.cursor == 0 {
            return 0;
        }
        let mut k: usize = self.cursor - 1;
        if movement == CursorMovement::Word {
            proof { lemma_word_left_bounds(self.chars@, k as int); }
            while k > 0 && is_alphanumeric(self.chars[k])
                invariant
                    self.wf(),
                    k < self.cursor,
                    word_left(self.chars@, k as int) == word_left(self.chars@, old(self).cursor - 1),
                decreases k,
            {
                k -= 1;
            }
        }
        let moved = self.cursor - k;
        self.cursor = k;
        moved
    }

    /// Moves the cursor right by one character, or by a word: past the
    /// character after it and then on over alphanumeric characters. Returns
    /// how many characters it moved.
    pub fn move_cursor_right(&mut self, movement: CursorMovement) -> (r: usize)
        requires
            old(self).wf(),
        ensures
            final(self).wf(),
            final(self)@ == (PromptModel {
                cursor: if old(self)@.cursor == old(self)@.input.len() {
                    old(self)@.cursor
                } else if movement == CursorMovement::One {
                    old(self)@.cursor + 1
                } else {
                    word_right(old(self)@.input, old(self)@.cursor + 1)
                },
                ..old(self)@
            }),
            r == final(self)@.cursor - old(self)@.cursor,
    {
        if self.cursor == self.chars.len() {
            return 0;
        }
        let mut k: usize = self.cursor + 1;
        if movement == CursorMovement::Word {
            proof { lemma_word_right_bounds(self.chars@, k as int); }
            while k < self.chars.len() && is_alphanumeric(self.chars[k])
                invariant
                    self.wf(),
                    self.cursor < k <= self.chars@.len(),
                    word_right(self.chars@, k as int) == word_right(self.chars@, old(self).cursor + 1),
                decreases self.chars.len() - k,
            {
                k += 1;
            }
        }
        let moved = k - self.cursor;
        self.cursor = k;
        moved
    }
}

/// The byte offset, in the UTF-8 form of `s`, of the position before the
/// character at index `k`.
pub open spec fn byte_offset(s: Seq<char>, k: int) -> int {
    encode_utf8(s.take(k)).len() as int
}

proof fn lemma_offset_is_boundary(s: Seq<char>, k: int)
    requires
        0 <= k <= s.len(),
    ensures
        is_char_boundary(encode_utf8(s), byte_offset(s, k)),
    decreases s.len(),
{
    encode_utf8_valid_utf8(s);
    if k == 0 {
        assert(s.take(0) =~= Seq::<char>::empty());
    } else {
        let t = s.drop_first();
        let bytes = encode_utf8(s);
        encode_utf8_first_scalar(s);
        assert(pop_first_scalar(bytes) =~= encode_utf8(t));
        assert(s.take(k).drop_first() =~= t.take(k - 1));
        assert(s.take(k)[0] == s[0]);
        lemma_offset_is_boundary(t, k - 1);
        encode_utf8_valid_utf8(t);
        let es = encode_scalar(s[0] as u32);
        assert(encode_utf8(s.take(k)) == es + encode_utf8(t.take(k - 1)));
        assert(bytes == es + encode_utf8(t));
        assert(es.len() >= 1);
    }
}

/// In every well-formed editor, and so after every operation, the cursor
/// lies within the input, and the byte offset it stands for in the input's
/// UTF-8 form is a character boundary.
pub proof fn lemma_cursor_on_boundary(p: &Prompt)
    requires
        p.wf(),
    ensures
        cursor_in_bounds(p@),
        is_char_boundary(encode_utf8(p@.input), byte_offset(p@.input, p@.cursor)),
{
    lemma_offset_is_boundary(p@.input, p@.cursor);
}

/// Cutting the input at the cursor a second time changes nothing: the first
/// cut leaves the cursor at the end of the input.
pub proof fn lemma_truncate_idempotent(m: PromptModel)
    requires
        cursor_in_bounds(m),
    ensures
        truncated(truncated(m)) == truncated(m),
        truncated(m).cursor == truncated(m).input.len(),
{
    assert(truncated(m).input.take(m.cursor) =~= truncated(m).input);
}

} // verus!
