use lambdash::expression::{parse_command, split_off_group};
use lambdash::error::StatusEnum;
use lambdash::expression::{parse_tokens, ExpressionGroupType, ParserError};
use lambdash::tokenizer::{tokenize, ConditionType, RedirectionType, Token, TokenizationError};

fn toks(s: &str) -> Vec<Token> {
    tokenize(&s.to_string()).unwrap()
}

fn word(t: &Token) -> &str {
    match t {
        Token::Word(w) => w.as_str(),
        _ => panic!("not a word: {:?}", t),
    }
}

#[test]
fn quoted_text_is_one_word() {
    let t = toks("\"hello world ; | $x\"");
    assert_eq!(t.len(), 1);
    assert_eq!(word(&t[0]), "hello world ; | $x");
    let t = toks("'single quoted'");
    assert_eq!(t.len(), 1);
    assert_eq!(word(&t[0]), "single quoted");
}

#[test]
fn operators_are_scanned_greedily() {
    let t = toks("a|b||c & d && e>f>>g<h<<i ! ;");
    let kinds: Vec<String> = t.iter().map(|x| format!("{:?}", x)).collect();
    assert!(matches!(t[1], Token::Pipe));
    assert!(matches!(t[3], Token::Operator(ConditionType::Or)));
    assert!(matches!(t[5], Token::Background));
    assert!(matches!(t[7], Token::Operator(ConditionType::And)));
    assert!(matches!(t[9], Token::Redirection(RedirectionType::Output)));
    assert!(matches!(t[11], Token::Redirection(RedirectionType::Append)));
    assert!(matches!(t[13], Token::Redirection(RedirectionType::Input)));
    assert!(matches!(t[15], Token::Redirection(RedirectionType::Heredoc)));
    assert!(matches!(t[17], Token::Negate));
    assert!(matches!(t[18], Token::CommandSeparator));
    assert_eq!(t.len(), 19, "{:?}", kinds);
}

#[test]
fn variables_and_status() {
    let t = toks("echo $HOME $? $a_b1");
    assert_eq!(t.len(), 4);
    match (&t[1], &t[2], &t[3]) {
        (Token::Variable(a), Token::Variable(b), Token::Variable(c)) => {
            assert_eq!(a, "HOME");
            assert_eq!(b, "?");
            assert_eq!(c, "a_b1");
        }
        _ => panic!("expected variables"),
    }
}

#[test]
fn comment_stops_tokenizing() {
    let t = toks("ls -l # a comment");
    assert_eq!(t.len(), 2);
    assert_eq!(word(&t[1]), "-l");
}

#[test]
fn escapes_keep_both_characters() {
    let t = toks(r"a\;b");
    assert_eq!(t.len(), 1);
    assert_eq!(word(&t[0]), r"a\;b");
}

#[test]
fn subexpressions_are_tokenized() {
    let t = toks("echo (ls -a) `pwd`");
    assert_eq!(t.len(), 3);
    match &t[1] {
        Token::Subexpression(inner) => {
            assert_eq!(inner.len(), 2);
            assert_eq!(word(&inner[0]), "ls");
        }
        _ => panic!("expected a subexpression"),
    }
    assert!(matches!(&t[2], Token::Subexpression(v) if v.len() == 1));
}

#[test]
fn unmatched_quote_is_flagged() {
    let e = tokenize(&"echo \"unterminated".to_string()).unwrap_err();
    assert_eq!(e, TokenizationError::UnmatchedCharacter);
    assert_eq!(e.status(), 127);
    assert!(tokenize(&"echo (a".to_string()).is_err());
    // After a newline and the closing quote the line tokenizes.
    let t = toks("echo \"unterminated\n\"");
    assert_eq!(t.len(), 2);
    assert_eq!(word(&t[1]), "unterminated\n");
}

#[test]
fn pipeline_groups() {
    let g = parse_tokens(&toks("echo hi | tr h H")).unwrap();
    assert_eq!(g.len(), 1);
    assert_eq!(g[0].gtype, ExpressionGroupType::Pipeline);
    assert_eq!(g[0].expressions.len(), 2);
    assert_eq!(g[0].expressions[0].words, vec!["echo", "hi"]);
    assert_eq!(g[0].expressions[1].words, vec!["tr", "h", "H"]);
}

#[test]
fn separators_and_conditions() {
    let g = parse_tokens(&toks("false && echo skipped ; echo ran")).unwrap();
    assert_eq!(g.len(), 3);
    assert_eq!(g[0].gtype, ExpressionGroupType::Single);
    assert_eq!(g[1].gtype, ExpressionGroupType::And);
    assert_eq!(g[2].gtype, ExpressionGroupType::Single);
    assert_eq!(g[2].expressions[0].words, vec!["echo", "ran"]);
    let g = parse_tokens(&toks("a || b")).unwrap();
    assert_eq!(g[1].gtype, ExpressionGroupType::Or);
}

#[test]
fn redirections_attach_to_the_command() {
    let g = parse_tokens(&toks("cat < in.txt > out.txt >> log")).unwrap();
    let e = &g[0].expressions[0];
    assert_eq!(e.words, vec!["cat"]);
    assert_eq!(e.inputs.len(), 1);
    assert_eq!(e.inputs[0].target, "in.txt");
    assert_eq!(e.outputs.len(), 2);
    assert_eq!(e.outputs[0].rtype, RedirectionType::Output);
    assert_eq!(e.outputs[1].rtype, RedirectionType::Append);
    assert_eq!(e.outputs[1].target, "log");
}

#[test]
fn background_ends_the_group() {
    let g = parse_tokens(&toks("sleep 1 & echo x")).unwrap();
    assert_eq!(g.len(), 2);
    assert!(g[0].expressions[0].background);
    assert!(!g[1].expressions[0].background);
}

#[test]
fn parser_errors() {
    assert!(matches!(parse_tokens(&toks("| a")), Err(ParserError::InvalidPipe)));
    assert!(matches!(parse_tokens(&toks("a |")), Err(ParserError::InvalidPipe)));
    assert!(matches!(parse_tokens(&toks("> f")), Err(ParserError::InvalidRedirection)));
    assert!(matches!(parse_tokens(&toks("a >")), Err(ParserError::InvalidRedirection)));
    assert!(matches!(parse_tokens(&toks("&")), Err(ParserError::InvalidBackground)));
    assert_eq!(ParserError::InvalidBackground.status(), 228);
    assert_eq!(ParserError::InvalidPipe.status(), 229);
    assert_eq!(ParserError::InvalidRedirection.status(), 230);
}

#[test]
fn every_parsed_command_has_a_name() {
    for line in ["a b c", "a | b | c", "; ; a ;", "a && b || c", "x > y ; z"] {
        for g in parse_tokens(&toks(line)).unwrap() {
            assert!(!g.expressions.is_empty());
            for e in &g.expressions {
                assert!(!e.words.is_empty());
            }
        }
    }
}

#[test]
fn groups_split_off_one_at_a_time() {
    let mut t = toks("a b && c | d ; e &");
    let first = split_off_group(&mut t);
    assert_eq!(first.len(), 3);
    let (g, _, next) = parse_command(&first, 0, ExpressionGroupType::Single).unwrap();
    assert_eq!(g.expressions[0].words, vec!["a", "b"]);
    assert_eq!(next, ExpressionGroupType::And);
    let second = split_off_group(&mut t);
    let (g, _, next) = parse_command(&second, 0, next).unwrap();
    assert_eq!(g.gtype, ExpressionGroupType::And);
    assert_eq!(g.expressions.len(), 2);
    assert_eq!(next, ExpressionGroupType::Single);
    let third = split_off_group(&mut t);
    assert_eq!(third.len(), 2);
    assert!(t.is_empty());
}
