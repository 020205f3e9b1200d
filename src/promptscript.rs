//! The prompt template language: plain text, `$VAR` and `$?`, `[name]` and
//! `[name=value]` tags and `[/name]` end tags, rendered into a list of
//! pieces for the terminal.

use vstd::prelude::*;
use crate::expand::{Environment, variable_value, expand_variable};
use crate::text::{chars_of, slice_chars, string_of, str_eq};
use crate::tokenizer::{ident_len, parse_identifier};

verus! {

/// A token of a prompt template.
#[derive(Debug)]
pub enum TemplateToken {
    Text(String),
    Tag { name: String, value: Option<String> },
    EndTag(String),
    Variable(String),
}

pub enum TemplateLexeme {
    Text(Seq<char>),
    Tag { name: Seq<char>, value: Option<Seq<char>> },
    EndTag(Seq<char>),
    Variable(Seq<char>),
}

pub open spec fn template_view(t: TemplateToken) -> TemplateLexeme {
    match t {
        TemplateToken::Text(s) => TemplateLexeme::Text(s@),
        TemplateToken::Tag { name, value } => TemplateLexeme::Tag {
            name: name@,
            value: match value {
                Some(v) => Some(v@),
                None => None,
            },
        },
        TemplateToken::EndTag(n) => TemplateLexeme::EndTag(n@),
        TemplateToken::Variable(n) => TemplateLexeme::Variable(n@),
    }
}

pub open spec fn templates_view(ts: Seq<TemplateToken>) -> Seq<TemplateLexeme> {
    ts.map_values(|t: TemplateToken| template_view(t))
}

/// The first index at or after `i` holding `c`, or the length.
pub open spec fn find_from(s: Seq<char>, i: int, c: char) -> int
    decreases s.len() - i,
{
    if i < 0 || i >= s.len() {
        s.len() as int
    } else if s[i] == c {
        i
    } else {
        find_from(s, i + 1, c)
    }
}

/// The first index after `i` holding `[` or `$`, or the length.
pub open spec fn text_end(s: Seq<char>, i: int) -> int
    decreases s.len() - i,
{
    if i < 0 || i + 1 >= s.len() {
        s.len() as int
    } else if s[i + 1] == '[' || s[i + 1] == '$' {
        i + 1
    } else {
        text_end(s, i + 1)
    }
}

proof fn lemma_find_from(s: Seq<char>, i: int, c: char)
    requires
        0 <= i <= s.len(),
    ensures
        i <= find_from(s, i, c) <= s.len(),
        find_from(s, i, c) < s.len() ==> s[find_from(s, i, c)] == c,
        forall|k: int| i <= k < find_from(s, i, c) ==> s[k] != c,
    decreases s.len() - i,
{
    if i < s.len() && s[i] != c {
        lemma_find_from(s, i + 1, c);
    }
}

proof fn lemma_text_end(s: Seq<char>, i: int)
    requires
        0 <= i < s.len(),
    ensures
        i < text_end(s, i) <= s.len(),
    decreases s.len() - i,
{
    if i + 1 < s.len() && !(s[i + 1] == '[' || s[i + 1] == '$') {
        lemma_text_end(s, i + 1);
    }
}

/// A tag body split at its first `=` into name and value.
pub open spec fn tag_of(body: Seq<char>) -> TemplateLexeme {
    let e = find_from(body, 0, '=');
    if e < body.len() {
        TemplateLexeme::Tag { name: body.take(e), value: Some(body.skip(e + 1)) }
    } else {
        TemplateLexeme::Tag { name: body, value: None }
    }
}

/// The tokens of `s[i..]`.
pub open spec fn template_from(s: Seq<char>, i: int) -> Seq<TemplateLexeme>
    decreases s.len() + 1 - i,
    via template_from_decreases
{
    if i < 0 || i >= s.len() {
        Seq::empty()
    } else if s[i] == '[' {
        if i + 1 < s.len() && s[i + 1] == '/' {
            let e = find_from(s, i + 2, ']');
            seq![TemplateLexeme::EndTag(s.subrange(i + 2, e))] + template_from(s, e + 1)
        } else {
            let e = find_from(s, i + 1, ']');
            seq![tag_of(s.subrange(i + 1, e))] + template_from(s, e + 1)
        }
    } else if s[i] == '$' {
        if i + 1 < s.len() && s[i + 1] == '?' {
            seq![TemplateLexeme::Variable(seq!['?'])] + template_from(s, i + 2)
        } else {
            let e = i + 1 + ident_len(s, i + 1);
            seq![TemplateLexeme::Variable(s.subrange(i + 1, e))] + template_from(s, e)
        }
    } else {
        let e = text_end(s, i);
        seq![TemplateLexeme::Text(s.subrange(i, e))] + template_from(s, e)
    }
}

#[via_fn]
proof fn template_from_decreases(s: Seq<char>, i: int) {
    if 0 <= i < s.len() {
        if i + 2 <= s.len() {
            lemma_find_from(s, i + 2, ']');
        }
        lemma_find_from(s, i + 1, ']');
        crate::tokenizer::lemma_ident_len_bound(s, i + 1);
        lemma_text_end(s, i);
    }
}

fn find_char(s: &Vec<char>, from: usize, c: char) -> (r: usize)
    requires
        from <= s@.len(),
    ensures
        r == find_from(s@, from as int, c),
{
    proof { lemma_find_from(s@, from as int, c); }
    let mut k: usize = from;
    while k < s.len()
        invariant
            from <= k <= s@.len(),
            find_from(s@, from as int, c) == find_from(s@, k as int, c),
        decreases s.len() - k,
    {
        if s[k] == c {
            return k;
        }
        k += 1;
    }
    k
}

fn make_tag(body: Vec<char>) -> (r: TemplateToken)
    ensures
        template_view(r) == tag_of(body@),
{
    let e = find_char(&body, 0, '=');
    proof { lemma_find_from(body@, 0, '='); }
    if e < body.len() {
        let name = string_of(&slice_chars(&body, 0, e));
        let value = string_of(&slice_chars(&body, e + 1, body.len()));
        assert(name@ =~= body@.take(e as int));
        assert(value@ =~= body@.skip(e + 1));
        TemplateToken::Tag { name, value: Some(value) }
    } else {
        TemplateToken::Tag { name: string_of(&body), value: None }
    }
}

/// Splits a prompt template into tokens.
pub fn tokenize_ps(input: &str) -> (r: Vec<TemplateToken>)
    ensures
        templates_view(r@) == template_from(input@, 0),
{
    let s = chars_of(input);
    let mut out: Vec<TemplateToken> = Vec::new();
    let mut i: usize = 0;
    assert(templates_view(out@) + template_from(s@, 0) =~= template_from(s@, 0));
    while i < s.len()
        invariant
            i <= s@.len(),
            s@ == input@,
            templates_view(out@) + template_from(s@, i as int) == template_from(s@, 0),
        decreases s.len() - i,
    {
        let t: TemplateToken;
        let next: usize;
        if s[i] == '[' {
            if i + 1 < s.len() && s[i + 1] == '/' {
                let e = find_char(&s, i + 2, ']');
                proof { lemma_find_from(s@, i + 2, ']'); }
                let ghost after = template_from(s@, e + 1);
                t = TemplateToken::EndTag(string_of(&slice_chars(&s, i + 2, e)));
                next = if e < s.len() { e + 1 } else { e };
                assert(template_from(s@, next as int) == after);
            } else {
                let e = find_char(&s, i + 1, ']');
                proof { lemma_find_from(s@, i + 1, ']'); }
                let ghost after = template_from(s@, e + 1);
                t = make_tag(slice_chars(&s, i + 1, e));
                next = if e < s.len() { e + 1 } else { e };
                assert(template_from(s@, next as int) == after);
            }
        } else if s[i] == '$' {
            if i + 1 < s.len() && s[i + 1] == '?' {
                let q: Vec<char> = vec!['?'];
                assert(q@ =~= seq!['?']);
                t = TemplateToken::Variable(string_of(&q));
                next = i + 2;
            } else {
                let e = parse_identifier(&s, i + 1);
                t = TemplateToken::Variable(string_of(&slice_chars(&s, i + 1, e)));
                next = e;
            }
        } else {
            let mut e: usize = i + 1;
            proof { lemma_text_end(s@, i as int); }
            while e < s.len() && s[e] != '[' && s[e] != '$'
                invariant
                    i < e <= s@.len(),
                    text_end(s@, i as int) == text_end(s@, e - 1),
                decreases s.len() - e,
            {
                e += 1;
            }
            t = TemplateToken::Text(string_of(&slice_chars(&s, i, e)));
            next = e;
        }
        let ghost o0 = out@;
        out.push(t);
        assert(templates_view(out@) =~= templates_view(o0).push(template_view(t)));
        assert(templates_view(out@) + template_from(s@, next as int) =~= templates_view(o0) + template_from(s@, i as int));
        i = next;
    }
    assert(template_from(s@, i as int) =~= Seq::<TemplateLexeme>::empty());
    assert(templates_view(out@) + Seq::<TemplateLexeme>::empty() =~= templates_view(out@));
    out
}

/// A foreground color of the prompt.
#[derive(Debug, Clone, Copy, PartialEq, Eq, Structural)]
pub enum PsColor {
    Yellow,
    Red,
    Blue,
    White,
    Rgb { r: u8, g: u8, b: u8 },
}

/// A piece of a rendered prompt.
#[derive(Debug)]
pub enum PromptPiece {
    /// Text to print as it is.
    Text(String),
    /// Switch the foreground color.
    Color(PsColor),
    /// Back to the default colors.
    ResetColor,
    /// A command line to evaluate, its output going into the prompt.
    Command(String),
}

pub enum PieceModel {
    Text(Seq<char>),
    Color(PsColor),
    ResetColor,
    Command(Seq<char>),
}

pub open spec fn piece_view(p: PromptPiece) -> PieceModel {
    match p {
        PromptPiece::Text(t) => PieceModel::Text(t@),
        PromptPiece::Color(c) => PieceModel::Color(c),
        PromptPiece::ResetColor => PieceModel::ResetColor,
        PromptPiece::Command(c) => PieceModel::Command(c@),
    }
}

pub open spec fn pieces_view(ps: Seq<PromptPiece>) -> Seq<PieceModel> {
    ps.map_values(|p: PromptPiece| piece_view(p))
}

/// The value of a hexadecimal digit.
pub open spec fn hex_value(c: char) -> Option<u8> {
    if '0' <= c && c <= '9' {
        Some((c as u32 - '0' as u32) as u8)
    } else if 'a' <= c && c <= 'f' {
        Some((c as u32 - 'a' as u32 + 10) as u8)
    } else if 'A' <= c && c <= 'F' {
        Some((c as u32 - 'A' as u32 + 10) as u8)
    } else {
        None
    }
}

/// The byte two hexadecimal digits spell, or 0 when they do not.
pub open spec fn hex_byte(a: char, b: char) -> u8 {
    match (hex_value(a), hex_value(b)) {
        (Some(x), Some(y)) => (x * 16 + y) as u8,
        _ => 0,
    }
}

/// The color a `color` tag names: `#RRGGBB`, or yellow, red or blue, or
/// white for anything else.
pub open spec fn color_of(v: Seq<char>) -> PsColor {
    if v.len() == 7 && v[0] == '#' {
        PsColor::Rgb { r: hex_byte(v[1], v[2]), g: hex_byte(v[3], v[4]), b: hex_byte(v[5], v[6]) }
    } else if v == "yellow"@ {
        PsColor::Yellow
    } else if v == "red"@ {
        PsColor::Red
    } else if v == "blue"@ {
        PsColor::Blue
    } else {
        PsColor::White
    }
}

fn hex_digit(c: char) -> (r: Option<u8>)
    ensures
        r == hex_value(c),
{
    if '0' <= c && c <= '9' {
        Some((c as u32 - '0' as u32) as u8)
    } else if 'a' <= c && c <= 'f' {
        Some((c as u32 - 'a' as u32 + 10) as u8)
    } else if 'A' <= c && c <= 'F' {
        Some((c as u32 - 'A' as u32 + 10) as u8)
    } else {
        None
    }
}

fn parse_hex_byte(a: char, b: char) -> (r: u8)
    ensures
        r == hex_byte(a, b),
{
    match (hex_digit(a), hex_digit(b)) {
        (Some(x), Some(y)) => x * 16 + y,
        _ => 0,
    }
}

/// Reads the value of a `color` tag.
pub fn parse_color(color: &str) -> (r: PsColor)
    ensures
        r == color_of(color@),
{
    let c = chars_of(color);
    if c.len() == 7 && c[0] == '#' {
        PsColor::Rgb { r: parse_hex_byte(c[1], c[2]), g: parse_hex_byte(c[3], c[4]), b: parse_hex_byte(c[5], c[6]) }
    } else if str_eq(color, "yellow") {
        PsColor::Yellow
    } else if str_eq(color, "red") {
        PsColor::Red
    } else if str_eq(color, "blue") {
        PsColor::Blue
    } else {
        PsColor::White
    }
}

/// The pieces one template token renders to.
pub open spec fn render_one(l: TemplateLexeme, status: i32, e: Seq<(Seq<char>, Seq<char>)>) -> Seq<PieceModel> {
    match l {
        TemplateLexeme::Text(t) => seq![PieceModel::Text(t)],
        TemplateLexeme::Variable(n) => seq![PieceModel::Text(variable_value(n, status, e))],
        TemplateLexeme::Tag { name, value } => {
            if name == "color"@ && value is Some {
                seq![PieceModel::Color(color_of(value->0))]
            } else if name == "cmd"@ && value is Some {
                seq![PieceModel::Command(value->0)]
            } else {
                Seq::empty()
            }
        },
        TemplateLexeme::EndTag(n) => if n == "color"@ { seq![PieceModel::ResetColor] } else { Seq::empty() },
    }
}

/// The pieces a token list renders to; unknown tags render to nothing.
pub open spec fn render(ls: Seq<TemplateLexeme>, status: i32, e: Seq<(Seq<char>, Seq<char>)>) -> Seq<PieceModel>
    decreases ls.len(),
{
    if ls.len() == 0 {
        Seq::empty()
    } else {
        render(ls.drop_last(), status, e) + render_one(ls.last(), status, e)
    }
}

/// Renders template tokens, expanding variables as the expander does.
pub fn render_ps_tokens(tokens: &Vec<TemplateToken>, status: i32, env: &Environment) -> (r: Vec<PromptPiece>)
    ensures
        pieces_view(r@) == render(templates_view(tokens@), status, env@),
{
    let ghost ts = templates_view(tokens@);
    let mut out: Vec<PromptPiece> = Vec::new();
    let mut i: usize = 0;
    while i < tokens.len()
        invariant
            i <= tokens@.len(),
            ts == templates_view(tokens@),
            pieces_view(out@) == render(ts.take(i as int), status, env@),
        decreases tokens.len() - i,
    {
        assert(ts.take(i + 1).drop_last() =~= ts.take(i as int));
        assert(ts[i as int] == template_view(tokens@[i as int]));
        let ghost o0 = out@;
        let piece: Option<PromptPiece> = match &tokens[i] {
            TemplateToken::Text(t) => Some(PromptPiece::Text(t.clone())),
            TemplateToken::Variable(n) => Some(PromptPiece::Text(expand_variable(status, env, n.as_str()))),
            TemplateToken::Tag { name, value } => {
                match value {
                    Some(v) => {
                        if str_eq(name.as_str(), "color") {
                            Some(PromptPiece::Color(parse_color(v.as_str())))
                        } else if str_eq(name.as_str(), "cmd") {
                            Some(PromptPiece::Command(v.clone()))
                        } else {
                            None
                        }
                    },
                    None => None,
                }
            },
            TemplateToken::EndTag(n) => if str_eq(n.as_str(), "color") { Some(PromptPiece::ResetColor) } else { None },
        };
        match piece {
            Some(p) => {
                let ghost pv = piece_view(p);
                out.push(p);
                assert(pieces_view(out@) =~= pieces_view(o0) + seq![pv]);
            },
            None => {
                assert(pieces_view(out@) =~= pieces_view(o0) + Seq::<PieceModel>::empty());
            },
        }
        i += 1;
    }
    assert(ts.take(i as int) =~= ts);
    out
}

} // verus!
