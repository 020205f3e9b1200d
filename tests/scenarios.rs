use std::collections::HashMap;

use lambdash::builtins::{cmd_cd, cmd_export, cmd_pwd, match_builtin, Builtin, CdTarget, ExportAction};
use lambdash::cmdoutput::CmdOutput;
use lambdash::eval::{next_group, stage_carry, stage_input, status_after};
use lambdash::expand::Environment;
use lambdash::expression::ExpressionGroupType;
use lambdash::prompt::Prompt;
use lambdash::redirections::{handle_input_redirections, handle_output_redirections, InputSource};
use lambdash::tokenizer::tokenize;

/// An in-memory stand-in for the operating system: variables, a current
/// directory, files, and a few programs.
struct FakeHost {
    vars: Vec<(String, String)>,
    cwd: String,
    files: HashMap<String, Vec<u8>>,
    status: i32,
}

impl FakeHost {
    fn new() -> FakeHost {
        FakeHost { vars: vec![("HOME".to_string(), "/home/me".to_string())], cwd: "/".to_string(), files: HashMap::new(), status: 0 }
    }

    fn set_var(&mut self, k: &str, v: &str) {
        self.vars.retain(|(n, _)| n != k);
        self.vars.push((k.to_string(), v.to_string()));
    }

    fn var(&self, k: &str) -> Option<String> {
        self.vars.iter().find(|(n, _)| n == k).map(|(_, v)| v.clone())
    }

    fn program(&self, words: &[String], input: &Option<Vec<u8>>) -> CmdOutput {
        let args = &words[1..];
        match words[0].as_str() {
            "echo" => CmdOutput { status: 0, stdout: format!("{}\n", args.join(" ")).into_bytes(), stderr: vec![] },
            "false" => CmdOutput::from_status(1),
            "tr" => {
                let from = args[0].chars().next().unwrap();
                let to = args[1].chars().next().unwrap();
                let text = String::from_utf8(input.clone().unwrap_or_default()).unwrap();
                let out: String = text.chars().map(|c| if c == from { to } else { c }).collect();
                CmdOutput { status: 0, stdout: out.into_bytes(), stderr: vec![] }
            }
            "cat" => match args.first() {
                Some(p) => CmdOutput { status: 0, stdout: self.files.get(p).cloned().unwrap_or_default(), stderr: vec![] },
                None => CmdOutput { status: 0, stdout: input.clone().unwrap_or_default(), stderr: vec![] },
            },
            _ => CmdOutput { status: 127, stdout: vec![], stderr: b"command not found".to_vec() },
        }
    }

    /// Runs a line with the library's decisions; returns what reached stdout.
    fn run_line(&mut self, line: &str) -> Vec<u8> {
        let mut printed = Vec::new();
        let mut tokens = tokenize(&line.to_string()).expect("tokenize");
        let mut kind = ExpressionGroupType::Single;
        while !tokens.is_empty() {
            let (group, next, run) = next_group(&mut tokens, kind, self.status, &Environment::from_pairs(self.vars.clone())).expect("parse");
            kind = next;
            if !run {
                continue;
            }
            let mut carry: Option<CmdOutput> = None;
            for expr in &group.expressions {
                let redirected = match handle_input_redirections(&expr.inputs).source {
                    InputSource::File(p) => Some(self.files.get(&p).cloned().unwrap_or_default()),
                    InputSource::Empty => Some(Vec::new()),
                    InputSource::Unredirected => None,
                };
                let input = stage_input(redirected, &carry);
                let args: Vec<String> = expr.words[1..].to_vec();
                let produced = match match_builtin(&expr.words[0]) {
                    Some(Builtin::Cd) => {
                        if let Ok(CdTarget::Path(p)) = cmd_cd(&args) {
                            let old = self.cwd.clone();
                            self.cwd = p.clone();
                            self.set_var("OLDPWD", &old);
                            self.set_var("PWD", &p);
                        }
                        CmdOutput::from_status(0)
                    }
                    Some(Builtin::Pwd) => cmd_pwd(&self.cwd),
                    Some(Builtin::Export) => {
                        if let ExportAction::Assign(v) = cmd_export(&args) {
                            for (k, val) in v {
                                self.set_var(&k, &val);
                            }
                        }
                        CmdOutput::from_status(0)
                    }
                    _ => self.program(&expr.words, &input),
                };
                let plan = handle_output_redirections(&expr.outputs);
                for t in &plan.touch {
                    let e = self.files.entry(t.path.clone()).or_default();
                    if t.truncate {
                        e.clear();
                    }
                }
                let wrote = match &plan.receiver {
                    Some(t) => {
                        let e = self.files.entry(t.path.clone()).or_default();
                        if t.truncate {
                            e.clear();
                        }
                        e.extend(produced.stdout.iter());
                        true
                    }
                    None => false,
                };
                carry = Some(stage_carry(produced, wrote, expr.background));
            }
            self.status = status_after(self.status, run, &carry);
            if let Some(c) = carry {
                printed.extend(c.stdout);
            }
        }
        printed
    }
}

#[test]
fn echo_hello() {
    let mut h = FakeHost::new();
    assert_eq!(h.run_line("echo hello"), b"hello\n".to_vec());
    assert_eq!(h.status, 0);
}

#[test]
fn echo_through_tr() {
    let mut h = FakeHost::new();
    assert_eq!(h.run_line("echo hi | tr h H"), b"Hi\n".to_vec());
    assert_eq!(h.status, 0);
}

#[test]
fn redirect_then_cat() {
    let mut h = FakeHost::new();
    let out = h.run_line("echo one > /tmp/x ; cat /tmp/x");
    assert_eq!(h.files.get("/tmp/x").unwrap(), &b"one\n".to_vec());
    assert_eq!(out, b"one\n".to_vec());
}

#[test]
fn false_and_skips() {
    let mut h = FakeHost::new();
    assert_eq!(h.run_line("false && echo skipped ; echo ran"), b"ran\n".to_vec());
    assert_eq!(h.status, 0);
}

#[test]
fn or_runs_after_failure() {
    let mut h = FakeHost::new();
    assert_eq!(h.run_line("false || echo rescued"), b"rescued\n".to_vec());
    assert_eq!(h.run_line("echo ok || echo not"), b"ok\n".to_vec());
}

#[test]
fn cd_then_pwd() {
    let mut h = FakeHost::new();
    assert_eq!(h.run_line("cd /tmp ; pwd"), b"/tmp\n".to_vec());
    assert_eq!(h.var("PWD"), Some("/tmp".to_string()));
}

#[test]
fn export_then_echo() {
    let mut h = FakeHost::new();
    assert_eq!(h.run_line("export FOO=bar ; echo $FOO"), b"bar\n".to_vec());
}

#[test]
fn status_variable_after_failure() {
    let mut h = FakeHost::new();
    h.run_line("false");
    assert_eq!(h.run_line("echo $?"), b"1\n".to_vec());
}

#[test]
fn unterminated_quote_continues() {
    let mut p = Prompt::new("> ");
    for c in "echo \"unterminated".chars() {
        p.add_char(c);
    }
    assert!(tokenize(p.get_input()).is_err());
    // The read loop appends a newline and reads on; the closing quote ends the word.
    p.add_char('\n');
    p.add_char('"');
    let mut h = FakeHost::new();
    let line = p.get_input().clone();
    assert_eq!(h.run_line(&line), b"unterminated\n\n".to_vec());
}
