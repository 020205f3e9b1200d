//! The read loop's decisions: what each terminal event does to the editor,
//! the history position and the completion session, and what the screen
//! must show. The caller reads the events and draws.

use vstd::prelude::*;
use crate::autocomplete::{Autocomplete, CompletionMode};
use crate::history::History;
use crate::autocomplete::{SessionModel, next_index};
use crate::text::strings_view;
use crate::prompt::{CursorMovement, CursorPosition, Prompt, PromptModel, truncated, word_left, word_right};
use crate::error::{ShellError, error_status};
use crate::history::submitted;
use crate::state::ShellState;

verus! {

/// A key, as far as the read loop tells keys apart.
#[derive(Debug, Clone, Copy, PartialEq, Eq, Structural)]
pub enum Key {
    Char(char),
    Home,
    End,
    Left,
    Right,
    Up,
    Down,
    Tab,
    Delete,
    Backspace,
    Enter,
    Other,
}

/// A key press with its modifiers.
#[derive(Debug, Clone, Copy, PartialEq, Eq, Structural)]
pub struct KeyEvent {
    pub code: Key,
    pub ctrl: bool,
    pub alt: bool,
}

/// A terminal event.
#[derive(Debug, Clone, Copy, PartialEq, Eq, Structural)]
pub enum Event {
    Key(KeyEvent),
    Resize(u16, u16),
    Other,
}

/// What the screen must do after an event, in order.
#[derive(Debug, Clone, Copy, PartialEq, Eq, Structural)]
pub enum ScreenAction {
    /// Clear from the cursor to the end of the screen.
    ClearBelow,
    /// Clear the whole screen.
    ClearScreen,
    /// Clear the input and print it again.
    RedrawInput,
    /// Put the terminal cursor where the editor's cursor is.
    AlignCursor,
    /// Put the terminal cursor at the start of the input.
    MoveToInputStart,
    /// Show the completion candidates, the highlighted one marked.
    ShowCompletions,
    /// Publish the terminal size in `COLUMNS` and `LINES`.
    PublishSize,
}

/// A history position points at an entry, when there is one.
pub open spec fn index_valid(idx: Option<usize>, len: nat) -> bool {
    idx matches Some(i) ==> i < len
}

/// The cursor after a move to the left by one character or by a word.
pub open spec fn cursor_left(m: PromptModel, word: bool) -> int {
    if m.cursor == 0 { 0 } else if !word { m.cursor - 1 } else { word_left(m.input, m.cursor - 1) }
}

/// The cursor after a move to the right by one character or by a word.
pub open spec fn cursor_right(m: PromptModel, word: bool) -> int {
    if m.cursor == m.input.len() { m.cursor } else if !word { m.cursor + 1 } else { word_right(m.input, m.cursor + 1) }
}

/// The history position after Up: the most recent entry first, then older
/// ones, stopping at the oldest.
pub open spec fn index_after_up(idx: Option<usize>, len: nat) -> Option<usize> {
    match idx {
        None => if len > 0 { Some((len - 1) as usize) } else { None },
        Some(i) => if i > 0 { Some((i - 1) as usize) } else { Some(i) },
    }
}

/// The history position after Down: newer entries, then back to the edit.
pub open spec fn index_after_down(idx: Option<usize>, len: nat) -> Option<usize> {
    match idx {
        None => None,
        Some(i) => if len == 0 { Some(i) } else if i + 1 < len { Some((i + 1) as usize) } else { None },
    }
}

/// The effect of Ctrl with a key: `c` drops the edit and ends the read as
/// an empty submission; `d` ends it when the input is empty, which asks the
/// shell to exit; `l` clears the screen, keeps the edit in the stash and
/// ends the read as an empty submission; `k` cuts the input at the cursor.
/// An empty submission counts one, so that a read made only of it is not
/// taken for an exit request. Every such key ends a completion session.
pub open spec fn ctrl_effect(code: Key, p0: PromptModel, p1: PromptModel, a1: Option<SessionModel>, r: (i32, bool)) -> bool {
    &&& a1 is None
    &&& if code == Key::Char('c') {
        r == (1i32, true) && p1 == (PromptModel { input: Seq::empty(), cursor: 0, stash: None, ..p0 })
    } else if code == Key::Char('d') {
        r == (0i32, p0.input.len() == 0) && p1 == p0
    } else if code == Key::Char('l') {
        r == (1i32, true) && p1 == (PromptModel { input: Seq::empty(), cursor: 0, stash: Some(p0.input), ..p0 })
    } else if code == Key::Char('k') {
        r == (0i32, false) && p1 == truncated(p0)
    } else {
        r == (0i32, false) && p1 == p0
    }
}

/// Ctrl with a key.
pub fn handle_ctrl_modifiers(autocomplete: &mut Autocomplete, prompt: &mut Prompt, code: Key, actions: &mut Vec<ScreenAction>) -> (r: (i32, bool))
    requires
        old(prompt).wf(),
    ensures
        final(prompt).wf(),
        final(autocomplete).wf(),
        ctrl_effect(code, old(prompt)@, final(prompt)@, final(autocomplete)@, r),
{
    end_session(autocomplete, actions);
    match code {
        Key::Char('c') => {
            prompt.clear_stash();
            prompt.clear_input();
            (1, true)
        },
        Key::Char('d') => (0, !prompt.has_input()),
        Key::Char('l') => {
            actions.push(ScreenAction::ClearScreen);
            prompt.stash_input();
            prompt.clear_input();
            (1, true)
        },
        Key::Char('k') => {
            if prompt.truncate_input() {
                actions.push(ScreenAction::ClearBelow);
            }
            (0, false)
        },
        _ => (0, false),
    }
}

/// The effect of Alt with a key: Left and Right move the cursor by a word;
/// the key ends a completion session.
pub open spec fn alt_effect(code: Key, p0: PromptModel, p1: PromptModel, a1: Option<SessionModel>, r: (i32, bool)) -> bool {
    &&& a1 is None
    &&& r == (0i32, false)
    &&& if code == Key::Left {
        p1 == (PromptModel { cursor: cursor_left(p0, true), ..p0 })
    } else if code == Key::Right {
        p1 == (PromptModel { cursor: cursor_right(p0, true), ..p0 })
    } else {
        p1 == p0
    }
}

/// Alt with a key.
pub fn handle_alt_modifiers(autocomplete: &mut Autocomplete, prompt: &mut Prompt, code: Key, actions: &mut Vec<ScreenAction>) -> (r: (i32, bool))
    requires
        old(prompt).wf(),
    ensures
        final(prompt).wf(),
        final(autocomplete).wf(),
        alt_effect(code, old(prompt)@, final(prompt)@, final(autocomplete)@, r),
{
    end_session(autocomplete, actions);
    match code {
        Key::Left => {
            if prompt.move_cursor_left(CursorMovement::Word) > 0 {
                actions.push(ScreenAction::AlignCursor);
            }
        },
        Key::Right => {
            if prompt.move_cursor_right(CursorMovement::Word) > 0 {
                actions.push(ScreenAction::AlignCursor);
            }
        },
        _ => {},
    }
    (0, false)
}

fn end_session(autocomplete: &mut Autocomplete, actions: &mut Vec<ScreenAction>)
    ensures
        final(autocomplete)@ is None,
        final(autocomplete).wf(),
{
    if autocomplete.is_active() {
        actions.push(ScreenAction::ClearBelow);
    }
    autocomplete.reset();
}

/// The editor with its input replaced by `t`, the cursor at its end.
pub open spec fn showing(p: PromptModel, t: Seq<char>) -> PromptModel {
    PromptModel { input: t, cursor: t.len() as int, ..p }
}

/// The effect of Up and Down on the editor, given the history position
/// before (`i0`) and after (`i1`): a new position shows its entry, the
/// cursor at its end; the first Up keeps the edit in the stash; leaving the
/// history by Down brings the stash back.
pub open spec fn history_view_effect(hist: Seq<Seq<char>>, code: Key, p0: PromptModel, p1: PromptModel, i0: Option<usize>, i1: Option<usize>) -> bool {
    if i1 == i0 {
        p1 == p0
    } else if code == Key::Up {
        &&& i1 is Some
        &&& p1 == showing(if i0 is None { PromptModel { stash: Some(p0.input), ..p0 } } else { p0 }, hist[i1->0 as int])
    } else {
        match i1 {
            Some(i) => p1 == showing(p0, hist[i as int]),
            None => match p0.stash {
                Some(s) => p1 == showing(p0, s),
                None => p1 == p0,
            },
        }
    }
}

/// The effect of Tab: in a session, the next candidate is highlighted and
/// completed; otherwise `found` decides: no candidate does nothing, one
/// completes at once, several start a session with the first highlighted.
pub open spec fn tab_effect(found: Seq<Seq<char>>, p0: PromptModel, p1: PromptModel, a0: Option<SessionModel>, a1: Option<SessionModel>) -> bool {
    match a0 {
        Some(s) => {
            let i = next_index(s);
            a1 == Some(SessionModel { index: Some(i), items: s.items }) && p1 == showing(p0, s.items[i as int])
        },
        None => {
            if found.len() == 0 {
                a1 is None && p1 == p0
            } else if found.len() == 1 {
                a1 is None && p1 == showing(p0, found[0])
            } else {
                a1 == Some(SessionModel { index: Some(0), items: found }) && p1 == p0
            }
        },
    }
}

/// The effect of a key without modifiers on the editor (`p0` to `p1`), the
/// completion session (`a0` to `a1`) and the history position (`i0` to
/// `i1`), and the result `r`. Any key but Tab ends a completion session.
pub open spec fn input_effect(hist: Seq<Seq<char>>, found: Seq<Seq<char>>, code: Key, p0: PromptModel, p1: PromptModel, a0: Option<SessionModel>, a1: Option<SessionModel>, i0: Option<usize>, i1: Option<usize>, r: (i32, bool)) -> bool {
    &&& r == (if code is Char { (1i32, false) } else if code == Key::Enter { (1i32, true) } else { (0i32, false) })
    &&& (code != Key::Tab ==> a1 is None)
    &&& i1 == (if code == Key::Up { index_after_up(i0, hist.len()) } else if code == Key::Down { index_after_down(i0, hist.len()) } else { i0 })
    &&& match code {
        Key::Char(c) => p1 == (PromptModel { input: p0.input.insert(p0.cursor, c), cursor: p0.cursor + 1, ..p0 }),
        Key::Home => p1 == (PromptModel { cursor: 0, ..p0 }),
        Key::End => p1 == (PromptModel { cursor: p0.input.len() as int, ..p0 }),
        Key::Left => p1 == (PromptModel { cursor: cursor_left(p0, false), ..p0 }),
        Key::Right => p1 == (PromptModel { cursor: cursor_right(p0, false), ..p0 }),
        Key::Up => history_view_effect(hist, code, p0, p1, i0, i1),
        Key::Down => history_view_effect(hist, code, p0, p1, i0, i1),
        Key::Tab => tab_effect(found, p0, p1, a0, a1),
        Key::Delete => if p0.cursor < p0.input.len() {
            p1 == (PromptModel { input: p0.input.remove(p0.cursor), ..p0 })
        } else {
            p1 == p0
        },
        Key::Backspace => if p0.cursor > 0 {
            p1 == (PromptModel { input: p0.input.remove(p0.cursor - 1), cursor: p0.cursor - 1, ..p0 })
        } else {
            p1 == p0
        },
        Key::Enter => p1 == p0,
        Key::Other => p1 == p0,
    }
}

/// A key without modifiers. `found` are the completion candidates for the
/// current input; they are read only on Tab when no session is active.
pub fn handle_input(history: &History, autocomplete: &mut Autocomplete, prompt: &mut Prompt, history_idx: &mut Option<usize>, code: Key, found: Vec<String>, actions: &mut Vec<ScreenAction>) -> (r: (i32, bool))
    requires
        old(prompt).wf(),
        old(autocomplete).wf(),
        index_valid(*old(history_idx), history@.len()),
    ensures
        index_valid(*final(history_idx), history@.len()),
        final(prompt).wf(),
        final(autocomplete).wf(),
        input_effect(history@, strings_view(found@), code, old(prompt)@, final(prompt)@, old(autocomplete)@,
            final(autocomplete)@, *old(history_idx), *final(history_idx), r),
{
    proof { history.lemma_len_fits(); }
    if code != Key::Tab {
        end_session(autocomplete, actions);
    }
    match code {
        Key::Char(c) => {
            prompt.add_char(c);
            actions.push(ScreenAction::RedrawInput);
            actions.push(ScreenAction::AlignCursor);
            (1, false)
        },
        Key::Home => {
            if prompt.move_cursor(CursorPosition::Origin) {
                actions.push(ScreenAction::MoveToInputStart);
            }
            (0, false)
        },
        Key::End => {
            if prompt.move_cursor(CursorPosition::End) {
                actions.push(ScreenAction::AlignCursor);
            }
            (0, false)
        },
        Key::Left => {
            if prompt.move_cursor_left(CursorMovement::One) > 0 {
                actions.push(ScreenAction::AlignCursor);
            }
            (0, false)
        },
        Key::Right => {
            if prompt.move_cursor_right(CursorMovement::One) > 0 {
                actions.push(ScreenAction::AlignCursor);
            }
            (0, false)
        },
        Key::Up => {
            match *history_idx {
                None => {
                    if let Some(index) = history.get_first_index() {
                        *history_idx = Some(index);
                        prompt.stash_input();
                        prompt.set_input(history.get(index));
                        actions.push(ScreenAction::RedrawInput);
                    }
                },
                Some(i) => {
                    if i > 0 {
                        *history_idx = Some(i - 1);
                        prompt.set_input(history.get(i - 1));
                        actions.push(ScreenAction::RedrawInput);
                    }
                },
            }
            (0, false)
        },
        Key::Down => {
            if let Some(i) = *history_idx {
                if let Some(last) = history.get_first_index() {
                    if i < last {
                        *history_idx = Some(i + 1);
                        prompt.set_input(history.get(i + 1));
                    } else {
                        *history_idx = None;
                        prompt.unstash_input();
                    }
                    actions.push(ScreenAction::RedrawInput);
                }
            }
            (0, false)
        },
        Key::Tab => {
            match autocomplete.complete(found) {
                Some(completed) => {
                    prompt.set_input(completed.as_str());
                    actions.push(ScreenAction::RedrawInput);
                },
                None => {
                    actions.push(ScreenAction::AlignCursor);
                },
            }
            if autocomplete.is_active() {
                actions.push(ScreenAction::ShowCompletions);
            }
            (0, false)
        },
        Key::Delete => {
            if prompt.remove_char(false) {
                actions.push(ScreenAction::RedrawInput);
                actions.push(ScreenAction::AlignCursor);
            }
            (0, false)
        },
        Key::Backspace => {
            if prompt.remove_char(true) {
                actions.push(ScreenAction::RedrawInput);
                actions.push(ScreenAction::AlignCursor);
            }
            (0, false)
        },
        Key::Enter => (1, true),
        Key::Other => (0, false),
    }
}

/// Dispatches one terminal event. Returns how many characters it counts as
/// typed and whether the read is over.
pub fn handle_event(state: &mut ShellState, autocomplete: &mut Autocomplete, prompt: &mut Prompt, history_idx: &mut Option<usize>, event: Event, found: Vec<String>, actions: &mut Vec<ScreenAction>) -> (r: (i32, bool))
    requires
        old(prompt).wf(),
        old(autocomplete).wf(),
        index_valid(*old(history_idx), old(state).history@.len()),
    ensures
        index_valid(*final(history_idx), final(state).history@.len()),
        final(prompt).wf(),
        final(autocomplete).wf(),
        final(state).history@ == old(state).history@,
        final(state).status == old(state).status,
        final(state).aliases@ == old(state).aliases@,
        event matches Event::Resize(w, h) ==> r == (0i32, false) && final(state).termsize == (w, h)
            && final(prompt)@ == old(prompt)@ && final(autocomplete)@ == old(autocomplete)@
            && *final(history_idx) == *old(history_idx),
        event is Other ==> r == (0i32, false) && final(prompt)@ == old(prompt)@
            && final(autocomplete)@ == old(autocomplete)@ && *final(history_idx) == *old(history_idx),
        event is Key && event->Key_0.ctrl ==> ctrl_effect(event->Key_0.code, old(prompt)@, final(prompt)@, final(autocomplete)@, r)
            && *final(history_idx) == *old(history_idx),
        event is Key && !event->Key_0.ctrl && event->Key_0.alt ==> alt_effect(event->Key_0.code, old(prompt)@, final(prompt)@, final(autocomplete)@, r)
            && *final(history_idx) == *old(history_idx),
        event is Key && !event->Key_0.ctrl && !event->Key_0.alt ==> input_effect(old(state).history@, strings_view(found@),
            event->Key_0.code, old(prompt)@, final(prompt)@, old(autocomplete)@, final(autocomplete)@,
            *old(history_idx), *final(history_idx), r),
{
    match event {
        Event::Resize(width, height) => {
            state.update_size(width, height);
            actions.push(ScreenAction::PublishSize);
            (0, false)
        },
        Event::Key(k) => {
            if k.ctrl {
                handle_ctrl_modifiers(autocomplete, prompt, k.code, actions)
            } else if k.alt {
                handle_alt_modifiers(autocomplete, prompt, k.code, actions)
            } else {
                handle_input(&state.history, autocomplete, prompt, history_idx, k.code, found, actions)
            }
        },
        Event::Other => (0, false),
    }
}

/// Whether Tab needs fresh candidates, and of which kind.
pub fn completion_needed(autocomplete: &Autocomplete, event: Event, input: &str) -> (r: Option<CompletionMode>)
    ensures
        r is Some <==> (!(autocomplete@ is Some) && (event matches Event::Key(k) && k.code == Key::Tab && !k.ctrl && !k.alt)),
        r matches Some(m) ==> m == crate::autocomplete::mode_of(input@),
{
    if autocomplete.is_active() {
        return None;
    }
    match event {
        Event::Key(k) => {
            if k.code == Key::Tab && !k.ctrl && !k.alt {
                Some(crate::autocomplete::completion_mode(input))
            } else {
                None
            }
        },
        _ => None,
    }
}

/// What the shell does after evaluating a submitted line.
#[derive(Debug, Clone, Copy, PartialEq, Eq, Structural)]
pub enum LineOutcome {
    /// The line ran; read the next one.
    Done,
    /// A quote or parenthesis is open: a newline was added, read on.
    NeedMore,
    /// The shell was asked to exit.
    Exit,
    /// The line failed; the error is to be shown.
    Failed,
}

/// Records the result of evaluating `line`. A line that ran, or failed
/// other than by being incomplete or asking to exit, enters the history; a
/// failure sets the status its error carries; an incomplete line gets a
/// newline at the cursor so that reading can go on.
pub fn on_evaluated(state: &mut ShellState, prompt: &mut Prompt, line: &str, result: &Result<(), ShellError>) -> (r: LineOutcome)
    requires
        old(prompt).wf(),
    ensures
        final(prompt).wf(),
        result is Ok ==> r == LineOutcome::Done && final(state).history@ == submitted(old(state).history@, line@)
            && final(state).status == old(state).status && final(prompt)@ == old(prompt)@,
        result matches Err(ShellError::Tokenization(_)) ==> r == LineOutcome::NeedMore
            && final(state).history@ == old(state).history@ && final(state).status == old(state).status
            && final(prompt)@ == (PromptModel {
                input: old(prompt)@.input.insert(old(prompt)@.cursor, '\n'),
                cursor: old(prompt)@.cursor + 1,
                ..old(prompt)@
            }),
        result matches Err(ShellError::ExitRequest) ==> r == LineOutcome::Exit
            && final(state).history@ == old(state).history@ && final(prompt)@ == old(prompt)@,
        result is Err && !(result matches Err(ShellError::Tokenization(_))) && !(result matches Err(ShellError::ExitRequest))
            ==> r == LineOutcome::Failed && final(state).history@ == submitted(old(state).history@, line@)
            && final(state).status == error_status(result->Err_0) as i32 && final(prompt)@ == old(prompt)@,
{
    match result {
        Ok(()) => {
            state.history.submit(line);
            LineOutcome::Done
        },
        Err(ShellError::Tokenization(_)) => {
            prompt.add_char('\n');
            LineOutcome::NeedMore
        },
        Err(ShellError::ExitRequest) => LineOutcome::Exit,
        Err(e) => {
            state.history.submit(line);
            state.status = e.status() as i32;
            LineOutcome::Failed
        },
    }
}

} // verus!
