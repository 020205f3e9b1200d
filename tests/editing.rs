use lambdash::columns::{cell_of, grid_for, Grid};
use lambdash::autocomplete::{sort_names, split_path};
use lambdash::autocomplete::{completion_mode, select_candidates, Autocomplete, CompletionMode};
use lambdash::history::History;
use lambdash::prompt::{CursorMovement, CursorPosition, Prompt};
use lambdash::readloop::{handle_event, on_evaluated, Event, Key, KeyEvent, LineOutcome, ScreenAction};
use lambdash::error::{ShellError, ExecutionError};
use lambdash::tokenizer::TokenizationError;
use lambdash::config;
use lambdash::state::ShellState;

fn typed(s: &str) -> Prompt {
    let mut p = Prompt::new("> ");
    for c in s.chars() {
        p.add_char(c);
    }
    p
}

#[test]
fn typing_inserts_at_the_cursor() {
    let mut p = typed("helo");
    assert_eq!(p.get_cursor(), 4);
    p.move_cursor_left(CursorMovement::One);
    p.add_char('l');
    assert_eq!(p.get_input(), "hello");
    assert_eq!(p.get_cursor(), 4);
    assert_eq!(p.ps1, "> ");
}

#[test]
fn multibyte_characters_keep_the_cursor_on_a_boundary() {
    let mut p = typed("aλ😀b");
    assert_eq!(p.get_cursor(), 4);
    assert_eq!(p.move_cursor_left(CursorMovement::One), 1);
    assert!(p.remove_char(true));
    assert_eq!(p.get_input(), "aλb");
    assert_eq!(p.get_cursor(), 2);
    assert!(p.remove_char(false));
    assert_eq!(p.get_input(), "aλ");
    assert!(!p.remove_char(false));
}

#[test]
fn word_motion() {
    let mut p = typed("foo bar baz");
    assert_eq!(p.move_cursor_left(CursorMovement::Word), 4);
    assert_eq!(p.get_cursor(), 7);
    assert!(p.move_cursor(CursorPosition::Origin));
    assert!(!p.move_cursor(CursorPosition::Origin));
    assert_eq!(p.move_cursor_right(CursorMovement::Word), 3);
    assert_eq!(p.get_cursor(), 3);
    assert!(p.move_cursor(CursorPosition::End));
    assert_eq!(p.get_cursor(), 11);
    assert_eq!(p.move_cursor_right(CursorMovement::One), 0);
}

#[test]
fn truncate_twice_changes_nothing_more() {
    let mut p = typed("echo hello");
    p.move_cursor_left(CursorMovement::Word);
    assert_eq!(p.get_cursor(), 4);
    assert!(p.truncate_input());
    assert_eq!(p.get_input(), "echo");
    assert!(!p.truncate_input());
    assert_eq!(p.get_input(), "echo");
}

#[test]
fn stash_and_restore() {
    let mut p = typed("draft");
    p.stash_input();
    p.set_input("other");
    assert_eq!(p.get_cursor(), 5);
    p.unstash_input();
    assert_eq!(p.get_input(), "draft");
    p.clear_stash();
    p.clear_input();
    assert!(!p.has_input());
    p.unstash_input();
    assert_eq!(p.get_input(), "");
    p.append_char('x');
    assert_eq!(p.get_input(), "x");
    assert_eq!(p.get_cursor(), 0);
}

#[test]
fn cursor_offset_counts_emoji_twice_and_rows() {
    let p = typed("ab\nc😀d");
    assert_eq!(p.get_cursor_offset(), (4, 1));
    assert_eq!(p.get_input_rows(), 2);
    let q = typed("xyz");
    assert_eq!(q.get_cursor_offset(), (3, 0));
    assert_eq!(q.get_input_rows(), 1);
}

#[test]
fn history_keeps_one_copy_last() {
    let mut h = History::new();
    assert_eq!(h.get_first_index(), None);
    h.submit("ls");
    h.submit("pwd");
    h.submit("ls");
    assert_eq!(h.get_values(), &vec!["pwd".to_string(), "ls".to_string()]);
    assert_eq!(h.get_first_index(), Some(1));
    assert_eq!(h.get(1), "ls");
    assert_eq!(h.get(7), "");
    let g = History::from_lines(vec!["a".to_string(), "b".to_string(), "a".to_string()]);
    assert_eq!(g.get_values(), &vec!["b".to_string(), "a".to_string()]);
}

#[test]
fn completion_cycles_through_candidates() {
    let mut a = Autocomplete::new();
    assert_eq!(a.complete(vec![]), None);
    assert_eq!(a.complete(vec!["only".to_string()]), Some("only".to_string()));
    assert!(!a.is_active());
    assert_eq!(a.complete(vec!["ab".to_string(), "ac".to_string()]), None);
    assert!(a.is_active());
    assert_eq!(a.session().as_ref().unwrap().index, Some(0));
    assert_eq!(a.complete(vec![]), Some("ac".to_string()));
    assert_eq!(a.complete(vec![]), Some("ab".to_string()));
    assert_eq!(a.complete(vec![]), Some("ac".to_string()));
    a.reset();
    assert!(!a.is_active());
}

#[test]
fn completion_mode_and_candidates() {
    assert_eq!(completion_mode("cd sr"), CompletionMode::Path);
    assert_eq!(completion_mode("./scr"), CompletionMode::Path);
    assert_eq!(completion_mode("gi"), CompletionMode::Command);
    let names = vec!["gzip".to_string(), "git".to_string(), "ls".to_string(), "gitk".to_string()];
    assert_eq!(select_candidates(names, "gi"), vec!["git".to_string(), "gitk".to_string()]);
}

fn key(code: Key) -> Event {
    Event::Key(KeyEvent { code, ctrl: false, alt: false })
}

fn ctrl(c: char) -> Event {
    Event::Key(KeyEvent { code: Key::Char(c), ctrl: true, alt: false })
}

#[test]
fn read_loop_events() {
    let mut state = ShellState::new(config::default(), History::new(), (80, 24));
    state.history.submit("old one");
    state.history.submit("old two");
    let mut a = Autocomplete::new();
    let mut p = Prompt::new("$ ");
    let mut idx: Option<usize> = None;
    let mut actions: Vec<ScreenAction> = Vec::new();
    assert_eq!(handle_event(&mut state, &mut a, &mut p, &mut idx, key(Key::Char('x')), vec![], &mut actions), (1, false));
    assert_eq!(handle_event(&mut state, &mut a, &mut p, &mut idx, key(Key::Up), vec![], &mut actions), (0, false));
    assert_eq!(p.get_input(), "old two");
    handle_event(&mut state, &mut a, &mut p, &mut idx, key(Key::Up), vec![], &mut actions);
    assert_eq!(p.get_input(), "old one");
    handle_event(&mut state, &mut a, &mut p, &mut idx, key(Key::Up), vec![], &mut actions);
    assert_eq!(p.get_input(), "old one");
    handle_event(&mut state, &mut a, &mut p, &mut idx, key(Key::Down), vec![], &mut actions);
    assert_eq!(p.get_input(), "old two");
    handle_event(&mut state, &mut a, &mut p, &mut idx, key(Key::Down), vec![], &mut actions);
    assert_eq!(p.get_input(), "x");
    assert_eq!(idx, None);
    assert_eq!(handle_event(&mut state, &mut a, &mut p, &mut idx, ctrl('d'), vec![], &mut actions), (0, false));
    assert_eq!(handle_event(&mut state, &mut a, &mut p, &mut idx, key(Key::Enter), vec![], &mut actions), (1, true));
    assert_eq!(handle_event(&mut state, &mut a, &mut p, &mut idx, ctrl('c'), vec![], &mut actions), (1, true));
    assert!(!p.has_input());
    assert_eq!(handle_event(&mut state, &mut a, &mut p, &mut idx, ctrl('d'), vec![], &mut actions), (0, true));
    assert_eq!(handle_event(&mut state, &mut a, &mut p, &mut idx, Event::Resize(100, 40), vec![], &mut actions), (0, false));
    assert_eq!(state.termsize, (100, 40));
    assert_eq!(actions.last(), Some(&ScreenAction::PublishSize));
}

#[test]
fn tab_completes_a_single_candidate() {
    let mut state = ShellState::new(config::default(), History::new(), (80, 24));
    let mut a = Autocomplete::new();
    let mut p = Prompt::new("$ ");
    let mut idx: Option<usize> = None;
    let mut actions: Vec<ScreenAction> = Vec::new();
    handle_event(&mut state, &mut a, &mut p, &mut idx, key(Key::Char('g')), vec![], &mut actions);
    handle_event(&mut state, &mut a, &mut p, &mut idx, key(Key::Tab), vec!["git".to_string()], &mut actions);
    assert_eq!(p.get_input(), "git");
}

#[test]
fn ctrl_l_stashes_and_ctrl_k_truncates() {
    let mut state = ShellState::new(config::default(), History::new(), (80, 24));
    let mut a = Autocomplete::new();
    let mut p = Prompt::new("$ ");
    let mut idx: Option<usize> = None;
    let mut actions: Vec<ScreenAction> = Vec::new();
    p.set_input("abc def");
    p.move_cursor_left(CursorMovement::One);
    handle_event(&mut state, &mut a, &mut p, &mut idx, ctrl('k'), vec![], &mut actions);
    assert_eq!(p.get_input(), "abc de");
    assert_eq!(handle_event(&mut state, &mut a, &mut p, &mut idx, ctrl('l'), vec![], &mut actions), (1, true));
    assert!(!p.has_input());
    p.unstash_input();
    assert_eq!(p.get_input(), "abc de");
}

#[test]
fn path_completion_parts_and_order() {
    assert_eq!(split_path("src/ma"), ("src".to_string(), "ma".to_string()));
    assert_eq!(split_path("/us"), ("/".to_string(), "us".to_string()));
    assert_eq!(split_path("a/b/c"), ("a/b".to_string(), "c".to_string()));
    assert_eq!(split_path("plain"), (".".to_string(), "plain".to_string()));
    let sorted = sort_names(vec!["b".to_string(), "ab".to_string(), "a".to_string(), "B".to_string(), "ab".to_string()]);
    assert_eq!(sorted, vec!["B", "a", "ab", "ab", "b"]);
}

#[test]
fn outcomes_of_an_evaluated_line() {
    let mut state = ShellState::new(config::default(), History::new(), (80, 24));
    let mut p = Prompt::new("$ ");
    p.set_input("echo \"open");
    let r = on_evaluated(&mut state, &mut p, "echo \"open", &Err(ShellError::Tokenization(TokenizationError::UnmatchedCharacter)));
    assert_eq!(r, LineOutcome::NeedMore);
    assert_eq!(p.get_input(), "echo \"open\n");
    assert!(state.history.get_values().is_empty());
    let r = on_evaluated(&mut state, &mut p, "nosuch", &Err(ShellError::Execution(ExecutionError::CommandNotFound)));
    assert_eq!(r, LineOutcome::Failed);
    assert_eq!(state.status, 127);
    assert_eq!(state.history.get(0), "nosuch");
    assert_eq!(on_evaluated(&mut state, &mut p, "ls", &Ok(())), LineOutcome::Done);
    assert_eq!(state.history.get(1), "ls");
    assert_eq!(on_evaluated(&mut state, &mut p, "exit", &Err(ShellError::ExitRequest)), LineOutcome::Exit);
    assert_eq!(state.history.get_values().len(), 2);
}

#[test]
fn candidates_fill_a_grid() {
    let items = vec!["alpha".to_string(), "be".to_string(), "gamma".to_string(), "d".to_string(), "e".to_string()];
    let g = grid_for(&items, 20, 2, 2);
    assert_eq!(g, Grid { column_width: 7, columns: 2, rows: 2 });
    assert_eq!(cell_of(g, 0), Some((0, 0)));
    assert_eq!(cell_of(g, 1), Some((7, 0)));
    assert_eq!(cell_of(g, 3), Some((7, 1)));
    assert_eq!(cell_of(g, 4), None);
    let narrow = grid_for(&items, 3, 10, 2);
    assert_eq!(narrow, Grid { column_width: 7, columns: 1, rows: 5 });
}

#[test]
fn other_keys_end_a_completion_session() {
    let mut state = ShellState::new(config::default(), History::new(), (80, 24));
    let mut a = Autocomplete::new();
    let mut p = Prompt::new("$ ");
    let mut idx: Option<usize> = None;
    let mut actions: Vec<ScreenAction> = Vec::new();
    handle_event(&mut state, &mut a, &mut p, &mut idx, key(Key::Tab), vec!["ab".to_string(), "ac".to_string()], &mut actions);
    assert!(a.is_active());
    assert_eq!(p.get_input(), "");
    handle_event(&mut state, &mut a, &mut p, &mut idx, key(Key::Left), vec![], &mut actions);
    assert!(!a.is_active());
}

#[test]
fn history_entries_put_the_cursor_at_their_end() {
    let mut state = ShellState::new(config::default(), History::new(), (80, 24));
    state.history.submit("first");
    state.history.submit("second entry");
    let mut a = Autocomplete::new();
    let mut p = Prompt::new("$ ");
    p.set_input("draft");
    p.move_cursor(CursorPosition::Origin);
    let mut idx: Option<usize> = None;
    let mut actions: Vec<ScreenAction> = Vec::new();
    handle_event(&mut state, &mut a, &mut p, &mut idx, key(Key::Up), vec![], &mut actions);
    assert_eq!(idx, Some(1));
    assert_eq!(p.get_input(), "second entry");
    assert_eq!(p.get_cursor(), 12);
    handle_event(&mut state, &mut a, &mut p, &mut idx, key(Key::Down), vec![], &mut actions);
    assert_eq!(idx, None);
    assert_eq!(p.get_input(), "draft");
    assert_eq!(p.get_cursor(), 5);
}
