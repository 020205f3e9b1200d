//! The tokenizer: splits a command line into words, operators, variables and
//! subexpressions.

use vstd::prelude::*;
use crate::text::{alphanumeric, blank, emoji, is_alphanumeric, is_blank, is_emoji, chars_of, string_of, slice_chars};

verus! {

/// The kind of a redirection operator.
#[derive(Debug, Clone, Copy, PartialEq, Eq, Structural)]
pub enum RedirectionType {
    /// `<`
    Input,
    /// `>`
    Output,
    /// `>>`
    Append,
    /// `<<`
    Heredoc,
}

/// The stream a redirection applies to.
#[derive(Debug, Clone, Copy, PartialEq, Eq, Structural)]
pub enum RedirectionFD {
    Stdout,
    Stderr,
}

/// The kind of a conditional operator.
#[derive(Debug, Clone, Copy, PartialEq, Eq, Structural)]
pub enum ConditionType {
    /// `&&`
    And,
    /// `||`
    Or,
}

/// A lexical token of the command language.
#[derive(Debug)]
pub enum Token {
    Word(String),
    /// `|`
    Pipe,
    /// `&`
    Background,
    /// `!`
    Negate,
    /// `( … )` or `` ` … ` ``, tokenized in turn.
    Subexpression(Vec<Token>),
    Redirection(RedirectionType),
    /// `$NAME` or `$?`
    Variable(String),
    Operator(ConditionType),
    /// `;`
    CommandSeparator,
}

/// Why a line could not be tokenized.
#[derive(Debug, Clone, Copy, PartialEq, Eq, Structural)]
pub enum TokenizationError {
    /// A quote, backtick or parenthesis is never closed.
    UnmatchedCharacter,
}

/// The mathematical form of a token: texts as character sequences.
pub enum Lexeme {
    Word(Seq<char>),
    Pipe,
    Background,
    Negate,
    Subexpression(Seq<Lexeme>),
    Redirection(RedirectionType),
    Variable(Seq<char>),
    Operator(ConditionType),
    CommandSeparator,
}

pub open spec fn token_view(t: Token) -> Lexeme
    decreases t,
{
    match t {
        Token::Word(w) => Lexeme::Word(w@),
        Token::Pipe => Lexeme::Pipe,
        Token::Background => Lexeme::Background,
        Token::Negate => Lexeme::Negate,
        Token::Subexpression(v) => Lexeme::Subexpression(tokens_view(v@)),
        Token::Redirection(k) => Lexeme::Redirection(k),
        Token::Variable(n) => Lexeme::Variable(n@),
        Token::Operator(k) => Lexeme::Operator(k),
        Token::CommandSeparator => Lexeme::CommandSeparator,
    }
}

pub open spec fn tokens_view(ts: Seq<Token>) -> Seq<Lexeme>
    decreases ts,
{
    if ts.len() == 0 {
        Seq::empty()
    } else {
        tokens_view(ts.drop_last()) + seq![token_view(ts.last())]
    }
}

pub proof fn lemma_tokens_view_index(ts: Seq<Token>)
    ensures
        tokens_view(ts).len() == ts.len(),
        forall|k: int| 0 <= k < ts.len() ==> #[trigger] tokens_view(ts)[k] == token_view(ts[k]),
    decreases ts.len(),
{
    if ts.len() > 0 {
        lemma_tokens_view_index(ts.drop_last());
    }
}

pub proof fn lemma_tokens_view_push(ts: Seq<Token>, t: Token)
    ensures
        tokens_view(ts.push(t)) == tokens_view(ts).push(token_view(t)),
{
    assert(ts.push(t).drop_last() =~= ts);
    assert(tokens_view(ts) + seq![token_view(t)] =~= tokens_view(ts).push(token_view(t)));
}

pub proof fn lemma_tokens_view_single(t: Token)
    ensures
        tokens_view(seq![t]) == seq![token_view(t)],
{
    lemma_tokens_view_push(Seq::empty(), t);
    assert(Seq::<Token>::empty().push(t) =~= seq![t]);
    assert(tokens_view(Seq::<Token>::empty()) =~= Seq::<Lexeme>::empty());
    assert(Seq::<Lexeme>::empty().push(token_view(t)) =~= seq![token_view(t)]);
}

pub open spec fn result_view(r: Result<Vec<Token>, TokenizationError>) -> Result<Seq<Lexeme>, TokenizationError> {
    match r {
        Ok(ts) => Ok(tokens_view(ts@)),
        Err(e) => Err(e),
    }
}

/// Characters that end an unquoted word.
pub open spec fn separator(c: char) -> bool {
    c == '"' || c == '\'' || c == ';' || c == '|' || c == '$' || c == '<' || c == '>'
}

/// Characters of a variable name.
pub open spec fn ident_char(c: char) -> bool {
    alphanumeric(c) || c == '_' || emoji(c)
}

/// How many characters from `i` on form a variable name; a backslash takes
/// the character after it along.
pub open spec fn ident_len(s: Seq<char>, i: int) -> nat
    decreases s.len() - i,
{
    if i < 0 || i >= s.len() {
        0
    } else if s[i] == '\\' {
        if i + 1 < s.len() {
            2 + ident_len(s, i + 2)
        } else {
            1
        }
    } else if ident_char(s[i]) {
        1 + ident_len(s, i + 1)
    } else {
        0
    }
}

/// How many characters from `i` on continue an unquoted word.
pub open spec fn word_len(s: Seq<char>, i: int) -> nat
    decreases s.len() - i,
{
    if i < 0 || i >= s.len() {
        0
    } else if s[i] == '\\' {
        if i + 1 < s.len() {
            2 + word_len(s, i + 2)
        } else {
            1
        }
    } else if blank(s[i]) || separator(s[i]) {
        0
    } else {
        1 + word_len(s, i + 1)
    }
}

/// The distance from `i` to the first unescaped `close`, if there is one.
pub open spec fn close_len(s: Seq<char>, i: int, close: char) -> Option<nat>
    decreases s.len() - i,
{
    if i < 0 || i >= s.len() {
        None
    } else if s[i] == '\\' {
        if i + 1 < s.len() {
            match close_len(s, i + 2, close) {
                Some(k) => Some(k + 2),
                None => None,
            }
        } else {
            None
        }
    } else if s[i] == close {
        Some(0)
    } else {
        match close_len(s, i + 1, close) {
            Some(k) => Some(k + 1),
            None => None,
        }
    }
}

pub open spec fn cons(l: Lexeme, r: Result<Seq<Lexeme>, TokenizationError>) -> Result<Seq<Lexeme>, TokenizationError> {
    match r {
        Ok(t) => Ok(seq![l] + t),
        Err(e) => Err(e),
    }
}

pub open spec fn glue(pre: Seq<Lexeme>, r: Result<Seq<Lexeme>, TokenizationError>) -> Result<Seq<Lexeme>, TokenizationError> {
    match r {
        Ok(t) => Ok(pre + t),
        Err(e) => Err(e),
    }
}

/// The closing character of a subexpression opened by `c`.
pub open spec fn closer(c: char) -> char {
    if c == '(' { ')' } else { c }
}

/// The tokens of `s[i..]`, scanned greedily from the left.
pub open spec fn lex_from(s: Seq<char>, i: int) -> Result<Seq<Lexeme>, TokenizationError>
    decreases s.len() - i,
    via lex_from_decreases
{
    if i < 0 || i >= s.len() {
        Ok(Seq::empty())
    } else {
        let c = s[i];
        let pair = i + 1 < s.len() && s[i + 1] == c;
        if c == '#' {
            Ok(Seq::empty())
        } else if c == '|' {
            if pair { cons(Lexeme::Operator(ConditionType::Or), lex_from(s, i + 2)) }
            else { cons(Lexeme::Pipe, lex_from(s, i + 1)) }
        } else if c == '&' {
            if pair { cons(Lexeme::Operator(ConditionType::And), lex_from(s, i + 2)) }
            else { cons(Lexeme::Background, lex_from(s, i + 1)) }
        } else if c == '>' {
            if pair { cons(Lexeme::Redirection(RedirectionType::Append), lex_from(s, i + 2)) }
            else { cons(Lexeme::Redirection(RedirectionType::Output), lex_from(s, i + 1)) }
        } else if c == '<' {
            if pair { cons(Lexeme::Redirection(RedirectionType::Heredoc), lex_from(s, i + 2)) }
            else { cons(Lexeme::Redirection(RedirectionType::Input), lex_from(s, i + 1)) }
        } else if c == '!' {
            cons(Lexeme::Negate, lex_from(s, i + 1))
        } else if c == ';' {
            cons(Lexeme::CommandSeparator, lex_from(s, i + 1))
        } else if c == '$' {
            if i + 1 < s.len() && s[i + 1] == '?' {
                cons(Lexeme::Variable(seq!['?']), lex_from(s, i + 2))
            } else {
                let e = i + 1 + ident_len(s, i + 1);
                cons(Lexeme::Variable(s.subrange(i + 1, e)), lex_from(s, e))
            }
        } else if c == '\'' || c == '"' {
            match close_len(s, i + 1, c) {
                None => Err(TokenizationError::UnmatchedCharacter),
                Some(k) => cons(Lexeme::Word(s.subrange(i + 1, i + 1 + k)), lex_from(s, i + 2 + k)),
            }
        } else if c == '(' || c == '`' {
            match close_len(s, i + 1, closer(c)) {
                None => Err(TokenizationError::UnmatchedCharacter),
                Some(k) => match lex_from(s.subrange(i + 1, i + 1 + k), 0) {
                    Err(e) => Err(e),
                    Ok(inner) => cons(Lexeme::Subexpression(inner), lex_from(s, i + 2 + k)),
                },
            }
        } else if blank(c) {
            lex_from(s, i + 1)
        } else {
            let first = if c == '\\' && i + 1 < s.len() { 2int } else { 1int };
            let e = i + first + word_len(s, i + first);
            cons(Lexeme::Word(s.subrange(i, e)), lex_from(s, e))
        }
    }
}

#[via_fn]
proof fn lex_from_decreases(s: Seq<char>, i: int) {
    if 0 <= i < s.len() {
        lemma_ident_len_bound(s, i + 1);
        lemma_word_len_bound(s, i + 1);
        if i + 1 < s.len() {
            lemma_word_len_bound(s, i + 2);
        }
        lemma_close_len_bound(s, i + 1, s[i]);
        lemma_close_len_bound(s, i + 1, closer(s[i]));
    }
}

pub proof fn lemma_ident_len_bound(s: Seq<char>, i: int)
    requires
        0 <= i <= s.len(),
    ensures
        ident_len(s, i) <= s.len() - i,
    decreases s.len() - i,
{
    if i < s.len() {
        if s[i] == '\\' {
            if i + 1 < s.len() {
                lemma_ident_len_bound(s, i + 2);
            }
        } else if ident_char(s[i]) {
            lemma_ident_len_bound(s, i + 1);
        }
    }
}

pub proof fn lemma_word_len_bound(s: Seq<char>, i: int)
    requires
        0 <= i <= s.len(),
    ensures
        word_len(s, i) <= s.len() - i,
    decreases s.len() - i,
{
    if i < s.len() {
        if s[i] == '\\' {
            if i + 1 < s.len() {
                lemma_word_len_bound(s, i + 2);
            }
        } else if !(blank(s[i]) || separator(s[i])) {
            lemma_word_len_bound(s, i + 1);
        }
    }
}

pub proof fn lemma_close_len_bound(s: Seq<char>, i: int, close: char)
    ensures
        close_len(s, i, close) matches Some(k) ==> 0 <= i && i + k < s.len() && s[i + k] == close,
    decreases s.len() - i,
{
    if 0 <= i < s.len() {
        if s[i] == '\\' {
            if i + 1 < s.len() {
                lemma_close_len_bound(s, i + 2, close);
            }
        } else if s[i] != close {
            lemma_close_len_bound(s, i + 1, close);
        }
    }
}

/// The tokens of a whole line.
pub open spec fn lex(s: Seq<char>) -> Result<Seq<Lexeme>, TokenizationError> {
    lex_from(s, 0)
}

proof fn lemma_glue_push(ts: Seq<Token>, t: Token, r: Result<Seq<Lexeme>, TokenizationError>)
    ensures
        glue(tokens_view(ts), cons(token_view(t), r)) == glue(tokens_view(ts.push(t)), r),
{
    assert(ts.push(t).drop_last() =~= ts);
    if let Ok(rest) = r {
        assert(tokens_view(ts) + (seq![token_view(t)] + rest) =~= tokens_view(ts.push(t)) + rest);
    }
}

/// The end of the variable name that starts at `start`.
pub fn parse_identifier(s: &Vec<char>, start: usize) -> (r: usize)
    requires
        start <= s@.len(),
    ensures
        r == start + ident_len(s@, start as int),
        r <= s@.len(),
{
    proof { lemma_ident_len_bound(s@, start as int); }
    let mut j: usize = start;
    while j < s.len()
        invariant
            start <= j <= s@.len(),
            start + ident_len(s@, start as int) == j + ident_len(s@, j as int),
        decreases s.len() - j,
    {
        let c = s[j];
        if c == '\\' {
            if j + 1 < s.len() {
                j += 2;
            } else {
                j = s.len();
            }
        } else if is_alphanumeric(c) || c == '_' || is_emoji(c) {
            j += 1;
        } else {
            return j;
        }
    }
    j
}

/// The name of a variable whose `$` stands just before `start`, and where
/// the name ends: `?` alone, or an identifier.
pub fn parse_variable(s: &Vec<char>, start: usize) -> (r: (String, usize))
    requires
        start <= s@.len(),
    ensures
        start < s@.len() && s@[start as int] == '?' ==> r.0@ == seq!['?'] && r.1 == start + 1,
        !(start < s@.len() && s@[start as int] == '?') ==> r.1 == start + ident_len(s@, start as int)
            && r.0@ == s@.subrange(start as int, r.1 as int),
        r.1 <= s@.len(),
{
    if start < s.len() && s[start] == '?' {
        let q: Vec<char> = vec!['?'];
        assert(q@ =~= seq!['?']);
        (string_of(&q), start + 1)
    } else {
        let e = parse_identifier(s, start);
        (string_of(&slice_chars(s, start, e)), e)
    }
}

/// The end of the unquoted word that continues at `start`.
fn parse_until_separator(s: &Vec<char>, start: usize) -> (r: usize)
    requires
        start <= s@.len(),
    ensures
        r == start + word_len(s@, start as int),
        r <= s@.len(),
{
    proof { lemma_word_len_bound(s@, start as int); }
    let mut j: usize = start;
    while j < s.len()
        invariant
            start <= j <= s@.len(),
            start + word_len(s@, start as int) == j + word_len(s@, j as int),
        decreases s.len() - j,
    {
        let c = s[j];
        if c == '\\' {
            if j + 1 < s.len() {
                j += 2;
            } else {
                j = s.len();
            }
        } else if is_blank(c) || c == '"' || c == '\'' || c == ';' || c == '|' || c == '$' || c == '<' || c == '>' {
            return j;
        } else {
            j += 1;
        }
    }
    j
}

/// The position of the first unescaped `close` at or after `start`.
fn parse_until_next(s: &Vec<char>, start: usize, close: char) -> (r: Option<usize>)
    requires
        start <= s@.len(),
    ensures
        match r {
            Some(j) => start <= j < s@.len() && close_len(s@, start as int, close) == Some((j - start) as nat),
            None => close_len(s@, start as int, close) is None,
        },
{
    proof { lemma_close_len_bound(s@, start as int, close); }
    let mut j: usize = start;
    while j < s.len()
        invariant
            start <= j <= s@.len(),
            close_len(s@, start as int, close) == (match close_len(s@, j as int, close) {
                Some(k) => Some((j - start + k) as nat),
                None => None::<nat>,
            }),
        decreases s.len() - j,
    {
        let c = s[j];
        if c == '\\' {
            if j + 1 < s.len() {
                j += 2;
            } else {
                return None;
            }
        } else if c == close {
            return Some(j);
        } else {
            j += 1;
        }
    }
    None
}

fn tokenize_chars(s: &Vec<char>) -> (r: Result<Vec<Token>, TokenizationError>)
    ensures
        result_view(r) == lex(s@),
    decreases s@.len(),
{
    let mut tokens: Vec<Token> = Vec::new();
    let mut i: usize = 0;
    assert(tokens_view(tokens@) =~= Seq::<Lexeme>::empty());
    assert(lex(s@) == glue(tokens_view(tokens@), lex_from(s@, 0))) by {
        if let Ok(t) = lex(s@) {
            assert(Seq::<Lexeme>::empty() + t =~= t);
        }
    }
    while i < s.len()
        invariant
            i <= s@.len(),
            lex(s@) == glue(tokens_view(tokens@), lex_from(s@, i as int)),
        decreases s.len() - i,
    {
        let c = s[i];
        let pair = i + 1 < s.len() && s[i + 1] == c;
        let t: Token;
        let next: usize;
        if c == '#' {
            assert(tokens_view(tokens@) + Seq::<Lexeme>::empty() =~= tokens_view(tokens@));
            return Ok(tokens);
        } else if c == '|' {
            if pair { t = Token::Operator(ConditionType::Or); next = i + 2; }
            else { t = Token::Pipe; next = i + 1; }
        } else if c == '&' {
            if pair { t = Token::Operator(ConditionType::And); next = i + 2; }
            else { t = Token::Background; next = i + 1; }
        } else if c == '>' {
            if pair { t = Token::Redirection(RedirectionType::Append); next = i + 2; }
            else { t = Token::Redirection(RedirectionType::Output); next = i + 1; }
        } else if c == '<' {
            if pair { t = Token::Redirection(RedirectionType::Heredoc); next = i + 2; }
            else { t = Token::Redirection(RedirectionType::Input); next = i + 1; }
        } else if c == '!' {
            t = Token::Negate;
            next = i + 1;
        } else if c == ';' {
            t = Token::CommandSeparator;
            next = i + 1;
        } else if c == '$' {
            let (name, e) = parse_variable(s, i + 1);
            t = Token::Variable(name);
            next = e;
        } else if c == '\'' || c == '"' {
            match parse_until_next(s, i + 1, c) {
                None => return Err(TokenizationError::UnmatchedCharacter),
                Some(j) => {
                    t = Token::Word(string_of(&slice_chars(s, i + 1, j)));
                    next = j + 1;
                },
            }
        } else if c == '(' || c == '`' {
            let close = if c == '(' { ')' } else { c };
            match parse_until_next(s, i + 1, close) {
                None => return Err(TokenizationError::UnmatchedCharacter),
                Some(j) => {
                    let inner = slice_chars(s, i + 1, j);
                    assert(close == closer(c));
                    assert(inner@ == s@.subrange(i + 1, j as int));
                    match tokenize_chars(&inner) {
                        Err(e) => {
                            assert(lex_from(s@, i as int) == Err::<Seq<Lexeme>, TokenizationError>(e));
                            return Err(e);
                        },
                        Ok(sub) => {
                            t = Token::Subexpression(sub);
                            next = j + 1;
                            assert(token_view(t) == Lexeme::Subexpression(tokens_view(sub@)));
                            assert(lex_from(s@, i as int) == cons(token_view(t), lex_from(s@, next as int)));
                        },
                    }
                },
            }
        } else if is_blank(c) {
            i += 1;
            continue;
        } else {
            let first: usize = if c == '\\' && i + 1 < s.len() { 2 } else { 1 };
            let e = parse_until_separator(s, i + first);
            t = Token::Word(string_of(&slice_chars(s, i, e)));
            next = e;
        }
        proof { lemma_glue_push(tokens@, t, lex_from(s@, next as int)); }
        tokens.push(t);
        i = next;
    }
    assert(tokens_view(tokens@) + Seq::<Lexeme>::empty() =~= tokens_view(tokens@));
    Ok(tokens)
}

proof fn lemma_close_in_quotes(s: Seq<char>, n: int, i: int)
    requires
        s.len() == n + 2,
        s[n + 1] == '"',
        1 <= i <= n + 1,
        forall|k: int| 1 <= k <= n ==> s[k] != '"' && s[k] != '\\',
    ensures
        close_len(s, i, '"') == Some((n + 1 - i) as nat),
    decreases n + 1 - i,
{
    if i <= n {
        lemma_close_in_quotes(s, n, i + 1);
    }
}

/// A double-quoted text with no quote or backslash inside it tokenizes to
/// exactly one word, whose content is the text between the quotes.
pub proof fn lemma_quoted_word(c: Seq<char>)
    requires
        forall|k: int| 0 <= k < c.len() ==> c[k] != '"' && c[k] != '\\',
    ensures
        lex(seq!['"'] + c + seq!['"']) == Ok::<Seq<Lexeme>, TokenizationError>(seq![Lexeme::Word(c)]),
{
    let s = seq!['"'] + c + seq!['"'];
    let n = c.len() as int;
    assert forall|k: int| 1 <= k <= n implies s[k] != '"' && s[k] != '\\' by {
        assert(s[k] == c[k - 1]);
    }
    lemma_close_in_quotes(s, n, 1);
    assert(s.subrange(1, 1 + n) =~= c);
    assert(lex_from(s, n + 2) == Ok::<Seq<Lexeme>, TokenizationError>(Seq::empty()));
    assert(seq![Lexeme::Word(c)] + Seq::<Lexeme>::empty() =~= seq![Lexeme::Word(c)]);
}

/// Splits a command line into tokens, or reports an unclosed quote,
/// backtick or parenthesis.
pub fn tokenize(expr: &String) -> (r: Result<Vec<Token>, TokenizationError>)
    ensures
        result_view(r) == lex(expr@),
{
    let s = chars_of(expr.as_str());
    tokenize_chars(&s)
}

} // verus!
