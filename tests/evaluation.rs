use lambdash::builtins::{cmd_alias, cmd_cd, cmd_export, cmd_exit, cmd_history, cmd_pwd, match_builtin, Aliases, Builtin, CdTarget, ExportAction};
use lambdash::cmdoutput::{exit_status, CmdOutput};
use lambdash::config;
use lambdash::error::{ExecutionError, ShellError, StatusEnum};
use lambdash::eval::{group_should_run, group_status, next_group, resolve_alias, stage_carry, stage_input, status_after};
use lambdash::expand::{apply_globs, expand_globs, expand_tokens, expand_variable, expand_variables, glob_patterns, glob_word, Environment};
use lambdash::expression::{parse_tokens, ExpressionGroupType};
use lambdash::history::History;
use lambdash::promptscript::{parse_color, render_ps_tokens, tokenize_ps, PromptPiece, PsColor};
use lambdash::redirections::{handle_input_redirections, handle_output_redirections, InputSource};
use lambdash::text::decimal_of;
use lambdash::tokenizer::{tokenize, Token};

fn env(pairs: &[(&str, &str)]) -> Environment {
    Environment::from_pairs(pairs.iter().map(|(a, b)| (a.to_string(), b.to_string())).collect())
}

fn words(ts: &[Token]) -> Vec<String> {
    ts.iter()
        .map(|t| match t {
            Token::Word(w) => w.clone(),
            other => panic!("not a word: {:?}", other),
        })
        .collect()
}

fn strings(v: &[&str]) -> Vec<String> {
    v.iter().map(|s| s.to_string()).collect()
}

#[test]
fn variables_expand_or_stay_literal() {
    let e = env(&[("FOO", "bar"), ("HOME", "/home/me")]);
    assert_eq!(expand_variable(0, &e, "FOO"), "bar");
    assert_eq!(expand_variable(42, &e, "?"), "42");
    assert_eq!(expand_variable(-3, &e, "?"), "-3");
    assert_eq!(expand_variable(0, &e, "NOPE"), "$NOPE");
    let mut t = tokenize(&"echo $FOO ~/x $? $NOPE a~".to_string()).unwrap();
    expand_variables(7, &e, &mut t);
    assert_eq!(words(&t), strings(&["echo", "bar", "/home/me/x", "7", "$NOPE", "a~"]));
}

#[test]
fn tilde_stays_without_home() {
    let e = env(&[]);
    let mut t = tokenize(&"~/x".to_string()).unwrap();
    expand_variables(0, &e, &mut t);
    assert_eq!(words(&t), strings(&["~/x"]));
}

#[test]
fn no_variable_survives_expansion() {
    let e = env(&[("A", "1")]);
    let mut t = tokenize(&"$A $B | $? > $C".to_string()).unwrap();
    expand_tokens(0, &e, &mut t);
    assert!(t.iter().all(|x| !matches!(x, Token::Variable(_))));
}

#[test]
fn glob_words_splice_matches_or_stay() {
    let r = glob_word("*.rs".to_string(), strings(&["a.rs", "b.rs"]));
    assert_eq!(words(&r), strings(&["a.rs", "b.rs"]));
    let r = glob_word("*.zz".to_string(), vec![]);
    assert_eq!(words(&r), strings(&["*.zz"]));
    let r = glob_word("plain".to_string(), strings(&["x"]));
    assert_eq!(words(&r), strings(&["plain"]));
}

#[test]
fn glob_without_matches_keeps_the_pattern() {
    let pattern = "/no_such_dir_for_lambdash/*.q".to_string();
    let mut t = vec![Token::Word("ls".to_string()), Token::Word(pattern.clone()), Token::Word("plain".to_string())];
    expand_globs(&mut t);
    assert_eq!(words(&t), vec!["ls".to_string(), pattern, "plain".to_string()]);
}

#[test]
fn decimal_status_text() {
    assert_eq!(decimal_of(0), "0");
    assert_eq!(decimal_of(127), "127");
    assert_eq!(decimal_of(i32::MIN), "-2147483648");
}

#[test]
fn conditional_groups_run_by_status() {
    assert!(group_should_run(ExpressionGroupType::And, 0));
    assert!(!group_should_run(ExpressionGroupType::And, 1));
    assert!(group_should_run(ExpressionGroupType::Or, 1));
    assert!(!group_should_run(ExpressionGroupType::Or, 0));
    assert!(group_should_run(ExpressionGroupType::Single, 5));
    assert!(group_should_run(ExpressionGroupType::Pipeline, 5));
}

#[test]
fn pipeline_carries_stdout_only() {
    let a = CmdOutput { status: 0, stdout: b"hi\n".to_vec(), stderr: b"warn".to_vec() };
    let carry = Some(stage_carry(a, false, false));
    assert_eq!(stage_input(None, &carry), Some(b"hi\n".to_vec()));
    assert_eq!(stage_input(Some(b"file".to_vec()), &carry), Some(b"file".to_vec()));
    assert_eq!(stage_input(None, &None), None);
    let b = CmdOutput { status: 3, stdout: b"x".to_vec(), stderr: b"e".to_vec() };
    let c = stage_carry(b, true, false);
    assert_eq!(c.status, 3);
    assert!(c.stdout.is_empty());
    assert_eq!(c.stderr, b"e".to_vec());
    let d = stage_carry(CmdOutput::from_status(9), false, true);
    assert_eq!(d.status, 0);
    assert_eq!(group_status(&Some(c), 1), 3);
    assert_eq!(group_status(&None, 1), 1);
}

#[test]
fn cmdoutput_combines_stdout() {
    let mut a = CmdOutput::new();
    a.stdout = b"ab".to_vec();
    let b = CmdOutput { status: 4, stdout: b"cd".to_vec(), stderr: b"x".to_vec() };
    a.combine(&b);
    assert_eq!(a.stdout, b"abcd".to_vec());
    assert_eq!(a.status, 0);
    assert!(a.stderr.is_empty());
    assert_eq!(CmdOutput::from_status(5).status, 5);
}

#[test]
fn builtin_table() {
    assert_eq!(match_builtin("cd"), Some(Builtin::Cd));
    assert_eq!(match_builtin("alias"), Some(Builtin::Alias));
    assert_eq!(match_builtin("exit"), Some(Builtin::Exit));
    assert_eq!(match_builtin("export"), Some(Builtin::Export));
    assert_eq!(match_builtin("history"), Some(Builtin::History));
    assert_eq!(match_builtin("pwd"), Some(Builtin::Pwd));
    assert_eq!(match_builtin("ls"), None);
    assert!(matches!(cmd_exit(), Err(ShellError::ExitRequest)));
}

#[test]
fn alias_defines_lists_and_resolves() {
    let mut a = Aliases::new();
    let out = cmd_alias(&mut a, &strings(&["ll=ls", "-l"])).unwrap();
    assert_eq!(out.status, 0);
    cmd_alias(&mut a, &strings(&["g=git"])).unwrap();
    cmd_alias(&mut a, &strings(&["ll=ls", "-la"])).unwrap();
    let listing = cmd_alias(&mut a, &vec![]).unwrap();
    assert_eq!(String::from_utf8(listing.stdout).unwrap(), "alias ll ls -la\nalias g git\n");
    let err = cmd_alias(&mut a, &strings(&["x="])).unwrap_err();
    assert_eq!(err.status(), 1);
    assert!(cmd_alias(&mut a, &strings(&["nothing"])).is_err());
    assert_eq!(resolve_alias(&strings(&["ll", "/tmp"]), &a), strings(&["ls", "-la", "/tmp"]));
    assert_eq!(resolve_alias(&strings(&["cat", "f"]), &a), strings(&["cat", "f"]));
}

#[test]
fn history_builtin_lists_and_filters() {
    let mut h = History::new();
    h.submit("ls");
    h.submit("pwd");
    h.submit("echo");
    assert_eq!(cmd_history(&h, &vec![]).stdout, b"ls\npwd\necho".to_vec());
    assert_eq!(cmd_history(&h, &strings(&["echo", "ls"])).stdout, b"ls\necho".to_vec());
}

#[test]
fn cd_export_pwd_decisions() {
    assert!(matches!(cmd_cd(&vec![]), Ok(CdTarget::Home)));
    assert!(matches!(cmd_cd(&strings(&["-"])), Ok(CdTarget::Previous)));
    assert!(matches!(cmd_cd(&strings(&["/tmp"])), Ok(CdTarget::Path(p)) if p == "/tmp"));
    let e = cmd_cd(&strings(&["a", "b"])).unwrap_err();
    assert_eq!(e.status(), 1);
    assert!(matches!(cmd_export(&vec![]), ExportAction::ShowEnvironment));
    match cmd_export(&strings(&["FOO=bar", "junk", "=v", "X=a=b"])) {
        ExportAction::Assign(v) => assert_eq!(v, vec![("FOO".to_string(), "bar".to_string()), ("X".to_string(), "a=b".to_string())]),
        _ => panic!("expected assignments"),
    }
    assert_eq!(cmd_pwd("/tmp").stdout, b"/tmp\n".to_vec());
}

#[test]
fn error_statuses_and_messages() {
    assert_eq!(ShellError::Execution(ExecutionError::CommandNotFound).status(), 127);
    assert_eq!(ShellError::Execution(ExecutionError::ExecutionFailed).status(), 128);
    assert_eq!(ShellError::Execution(ExecutionError::FailedToWriteStdin).status(), 129);
    assert_eq!(ShellError::NoBuiltin.status(), 127);
    assert_eq!(ShellError::ExitRequest.status(), 0);
    assert_eq!(ShellError::Execution(ExecutionError::CommandNotFound).to_output("nosuch"), b"nosuch: command not found".to_vec());
    assert_eq!(ExecutionError::FailedToWriteStdin.status(), 129);
}

#[test]
fn redirection_plans() {
    let g = parse_tokens(&tokenize(&"cmd < a < b > c >> d > e".to_string()).unwrap()).unwrap();
    let e = &g[0].expressions[0];
    let ip = handle_input_redirections(&e.inputs);
    assert_eq!(ip.probe, strings(&["a"]));
    assert!(matches!(ip.source, InputSource::File(ref p) if p == "b"));
    let op = handle_output_redirections(&e.outputs);
    assert_eq!(op.touch.len(), 2);
    assert_eq!(op.touch[0].path, "c");
    assert!(op.touch[0].truncate);
    assert!(!op.touch[1].truncate);
    let last = op.receiver.unwrap();
    assert_eq!(last.path, "e");
    assert!(last.truncate);
    let g = parse_tokens(&tokenize(&"cmd << x".to_string()).unwrap()).unwrap();
    assert!(matches!(handle_input_redirections(&g[0].expressions[0].inputs).source, InputSource::Empty));
    assert!(handle_output_redirections(&g[0].expressions[0].outputs).receiver.is_none());
}

#[test]
fn prompt_template_renders() {
    let t = tokenize_ps("[color=yellow]x[/color] $PWD ($?) [cmd=git status][bold]");
    let e = env(&[("PWD", "/tmp")]);
    let pieces = render_ps_tokens(&t, 2, &e);
    let shown: Vec<String> = pieces
        .iter()
        .map(|p| match p {
            PromptPiece::Text(s) => s.clone(),
            PromptPiece::Color(c) => format!("<{:?}>", c),
            PromptPiece::ResetColor => "</>".to_string(),
            PromptPiece::Command(c) => format!("{{{}}}", c),
        })
        .collect();
    assert_eq!(shown.concat(), "<Yellow>x</> /tmp (2) {git status}");
}

#[test]
fn colors_parse() {
    assert_eq!(parse_color("#FF0010"), PsColor::Rgb { r: 255, g: 0, b: 16 });
    assert_eq!(parse_color("#zz0010"), PsColor::Rgb { r: 0, g: 0, b: 16 });
    assert_eq!(parse_color("red"), PsColor::Red);
    assert_eq!(parse_color("blue"), PsColor::Blue);
    assert_eq!(parse_color("mauve"), PsColor::White);
}

#[test]
fn default_prompt_template() {
    assert_eq!(config::default().prompt.ps1, "[color=yellow]λsh[/color] $PWD [color=red]($?)[/color] >");
}

#[test]
fn glob_patterns_are_the_glob_words() {
    let t = tokenize(&"ls *.rs a\\*b | x? $V".to_string()).unwrap();
    let p = glob_patterns(&t);
    assert_eq!(p.len(), t.len());
    assert_eq!(p[0], None);
    assert_eq!(p[1], Some("*.rs".to_string()));
    assert_eq!(p[2], None);
    assert_eq!(p[3], None);
    assert_eq!(p[4], Some("x?".to_string()));
    assert_eq!(p[5], None);
}

#[test]
fn applied_globs_replace_words() {
    let mut t = vec![Token::Word("ls".to_string()), Token::Word("*.rs".to_string()), Token::Word("*.q".to_string())];
    apply_globs(&mut t, vec![vec![], strings(&["a.rs", "b.rs"]), vec![]]);
    assert_eq!(words(&t), strings(&["ls", "a.rs", "b.rs", "*.q"]));
}

#[test]
fn groups_are_taken_one_at_a_time() {
    let e = env(&[]);
    let mut t = tokenize(&"false && echo $? ; echo ran".to_string()).unwrap();
    let (g, k, run) = next_group(&mut t, ExpressionGroupType::Single, 0, &e).unwrap();
    assert!(run);
    assert_eq!(g.expressions[0].words, strings(&["false"]));
    assert_eq!(k, ExpressionGroupType::And);
    let (g, k, run) = next_group(&mut t, k, 1, &e).unwrap();
    assert!(!run);
    assert_eq!(g.expressions[0].words, strings(&["echo", "1"]));
    assert_eq!(status_after(1, run, &Some(CmdOutput::from_status(0))), 1);
    assert_eq!(status_after(1, true, &Some(CmdOutput::from_status(0))), 0);
    let (_, _, run) = next_group(&mut t, k, 1, &e).unwrap();
    assert!(run);
    assert!(t.is_empty());
}

#[test]
fn child_statuses() {
    assert_eq!(exit_status(Some(3), None), 3);
    assert_eq!(exit_status(None, Some(9)), 137);
    assert_eq!(exit_status(None, None), 128);
    assert_eq!(exit_status(None, Some(i32::MAX)), 128);
}

#[test]
fn short_circuit_step_by_step() {
    let e = env(&[]);
    let mut t = tokenize(&"false || echo rescued".to_string()).unwrap();
    let (_, k, run) = next_group(&mut t, ExpressionGroupType::Single, 0, &e).unwrap();
    assert!(run);
    assert_eq!(k, ExpressionGroupType::Or);
    let mut again = tokenize(&"echo rescued".to_string()).unwrap();
    let (_, _, run_after_failure) = next_group(&mut again, k, 1, &e).unwrap();
    assert!(run_after_failure);
    let (_, _, run_after_success) = next_group(&mut t, k, 0, &e).unwrap();
    assert!(!run_after_success);
}
