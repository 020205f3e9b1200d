//! The parser: groups tokens into expressions (one command each, with its
//! redirections) and expression groups (pipelines and conditional chains).

use vstd::prelude::*;
use crate::tokenizer::{ConditionType, Lexeme, RedirectionType, Token, lemma_tokens_view_index, token_view, tokens_view};

verus! {

/// A grammar violation.
#[derive(Debug, Clone, Copy, PartialEq, Eq, Structural)]
pub enum ParserError {
    /// `&` with no command before it.
    InvalidBackground,
    /// `|` with no command before it or no word after it.
    InvalidPipe,
    /// A redirection with no command before it or no target after it.
    InvalidRedirection,
}

/// A redirection attached to a command: its kind and the file it names.
#[derive(Debug)]
pub struct Redirection {
    pub rtype: RedirectionType,
    pub target: String,
}

/// How the expressions of a group are connected, and when the group runs.
#[derive(Debug, Clone, Copy, PartialEq, Eq, Structural)]
pub enum ExpressionGroupType {
    /// One command, run unconditionally.
    Single,
    /// Commands connected by `|`, run unconditionally.
    Pipeline,
    /// Runs only when the previous status is non-zero.
    Or,
    /// Runs only when the previous status is zero.
    And,
}

/// One command invocation.
#[derive(Debug)]
pub struct Expression {
    pub words: Vec<String>,
    pub inputs: Vec<Redirection>,
    pub outputs: Vec<Redirection>,
    pub background: bool,
}

/// Expressions evaluated as a unit.
#[derive(Debug)]
pub struct ExpressionGroup {
    pub expressions: Vec<Expression>,
    pub gtype: ExpressionGroupType,
}

pub struct RedirectionModel {
    pub rtype: RedirectionType,
    pub target: Seq<char>,
}

pub struct ExpressionModel {
    pub words: Seq<Seq<char>>,
    pub inputs: Seq<RedirectionModel>,
    pub outputs: Seq<RedirectionModel>,
    pub background: bool,
}

pub struct GroupModel {
    pub expressions: Seq<ExpressionModel>,
    pub gtype: ExpressionGroupType,
}

impl View for Redirection {
    type V = RedirectionModel;

    open spec fn view(&self) -> RedirectionModel {
        RedirectionModel { rtype: self.rtype, target: self.target@ }
    }
}

impl View for Expression {
    type V = ExpressionModel;

    open spec fn view(&self) -> ExpressionModel {
        ExpressionModel {
            words: self.words@.map_values(|w: String| w@),
            inputs: self.inputs@.map_values(|r: Redirection| r@),
            outputs: self.outputs@.map_values(|r: Redirection| r@),
            background: self.background,
        }
    }
}

impl View for ExpressionGroup {
    type V = GroupModel;

    open spec fn view(&self) -> GroupModel {
        GroupModel {
            expressions: self.expressions@.map_values(|e: Expression| e@),
            gtype: self.gtype,
        }
    }
}

pub open spec fn groups_view(gs: Seq<ExpressionGroup>) -> Seq<GroupModel> {
    gs.map_values(|g: ExpressionGroup| g@)
}

pub open spec fn command_of(w: Seq<char>) -> ExpressionModel {
    ExpressionModel { words: seq![w], inputs: Seq::empty(), outputs: Seq::empty(), background: false }
}

pub open spec fn empty_group(k: ExpressionGroupType) -> GroupModel {
    GroupModel { expressions: Seq::empty(), gtype: k }
}

/// A word starts the group's first command or extends its last one.
pub open spec fn add_word(g: GroupModel, w: Seq<char>) -> GroupModel {
    if g.expressions.len() == 0 {
        GroupModel { expressions: seq![command_of(w)], gtype: g.gtype }
    } else {
        let e = g.expressions.last();
        GroupModel {
            expressions: g.expressions.drop_last().push(ExpressionModel { words: e.words.push(w), ..e }),
            gtype: g.gtype,
        }
    }
}

/// `| w` starts a new command; a plain group becomes a pipeline.
pub open spec fn pipe_to(g: GroupModel, w: Seq<char>) -> GroupModel {
    GroupModel {
        expressions: g.expressions.push(command_of(w)),
        gtype: if g.gtype == ExpressionGroupType::Single { ExpressionGroupType::Pipeline } else { g.gtype },
    }
}

pub open spec fn is_input_kind(k: RedirectionType) -> bool {
    k == RedirectionType::Input || k == RedirectionType::Heredoc
}

/// A redirection joins the inputs or the outputs of the last command.
pub open spec fn redirect(g: GroupModel, k: RedirectionType, w: Seq<char>) -> GroupModel {
    let e = g.expressions.last();
    let r = RedirectionModel { rtype: k, target: w };
    let e2 = if is_input_kind(k) {
        ExpressionModel { inputs: e.inputs.push(r), ..e }
    } else {
        ExpressionModel { outputs: e.outputs.push(r), ..e }
    };
    GroupModel { expressions: g.expressions.drop_last().push(e2), gtype: g.gtype }
}

pub open spec fn set_background(g: GroupModel) -> GroupModel {
    let e = g.expressions.last();
    GroupModel {
        expressions: g.expressions.drop_last().push(ExpressionModel { background: true, ..e }),
        gtype: g.gtype,
    }
}

pub open spec fn chained(k: ConditionType) -> ExpressionGroupType {
    match k {
        ConditionType::And => ExpressionGroupType::And,
        ConditionType::Or => ExpressionGroupType::Or,
    }
}

/// The group that the tokens from `i` on complete, starting from `g`: the
/// group, the index after its terminator, and the kind of the next group.
pub open spec fn group_from(ts: Seq<Lexeme>, i: int, g: GroupModel) -> Result<(GroupModel, int, ExpressionGroupType), ParserError>
    decreases ts.len() - i,
{
    if i < 0 || i >= ts.len() {
        Ok((g, ts.len() as int, ExpressionGroupType::Single))
    } else {
        let empty = g.expressions.len() == 0;
        match ts[i] {
            Lexeme::Word(w) => group_from(ts, i + 1, add_word(g, w)),
            Lexeme::Pipe => {
                if !empty && i + 1 < ts.len() && ts[i + 1] is Word {
                    group_from(ts, i + 2, pipe_to(g, ts[i + 1]->Word_0))
                } else {
                    Err(ParserError::InvalidPipe)
                }
            },
            Lexeme::Redirection(k) => {
                if !empty && i + 1 < ts.len() && ts[i + 1] is Word {
                    group_from(ts, i + 2, redirect(g, k, ts[i + 1]->Word_0))
                } else {
                    Err(ParserError::InvalidRedirection)
                }
            },
            Lexeme::Background => {
                if empty {
                    Err(ParserError::InvalidBackground)
                } else {
                    Ok((set_background(g), i + 1, ExpressionGroupType::Single))
                }
            },
            Lexeme::CommandSeparator => Ok((g, i + 1, ExpressionGroupType::Single)),
            Lexeme::Operator(k) => Ok((g, i + 1, chained(k))),
            _ => group_from(ts, i + 1, g),
        }
    }
}

pub proof fn lemma_group_from_advances(ts: Seq<Lexeme>, i: int, g: GroupModel)
    ensures
        group_from(ts, i, g) matches Ok((_, j, _)) ==> j <= ts.len() && (0 <= i < ts.len() ==> i < j),
    decreases ts.len() - i,
{
    if 0 <= i < ts.len() {
        let empty = g.expressions.len() == 0;
        match ts[i] {
            Lexeme::Word(w) => lemma_group_from_advances(ts, i + 1, add_word(g, w)),
            Lexeme::Pipe => {
                if !empty && i + 1 < ts.len() && ts[i + 1] is Word {
                    lemma_group_from_advances(ts, i + 2, pipe_to(g, ts[i + 1]->Word_0));
                }
            },
            Lexeme::Redirection(k) => {
                if !empty && i + 1 < ts.len() && ts[i + 1] is Word {
                    lemma_group_from_advances(ts, i + 2, redirect(g, k, ts[i + 1]->Word_0));
                }
            },
            Lexeme::Background => {},
            Lexeme::CommandSeparator => {},
            Lexeme::Operator(_) => {},
            _ => lemma_group_from_advances(ts, i + 1, g),
        }
    }
}

/// The groups of the tokens from `i` on; the first one is of kind `k`.
/// Groups without commands are left out.
pub open spec fn groups_from(ts: Seq<Lexeme>, i: int, k: ExpressionGroupType) -> Result<Seq<GroupModel>, ParserError>
    decreases ts.len() - i,
    via groups_from_decreases
{
    if i < 0 || i >= ts.len() {
        Ok(Seq::empty())
    } else {
        match group_from(ts, i, empty_group(k)) {
            Err(e) => Err(e),
            Ok((g, j, nk)) => {
                if g.expressions.len() == 0 {
                    groups_from(ts, j, nk)
                } else {
                    match groups_from(ts, j, nk) {
                        Err(e) => Err(e),
                        Ok(rest) => Ok(seq![g] + rest),
                    }
                }
            },
        }
    }
}

#[via_fn]
proof fn groups_from_decreases(ts: Seq<Lexeme>, i: int, k: ExpressionGroupType) {
    lemma_group_from_advances(ts, i, empty_group(k));
}

/// The expression groups of a token list.
pub open spec fn parse(ts: Seq<Lexeme>) -> Result<Seq<GroupModel>, ParserError> {
    groups_from(ts, 0, ExpressionGroupType::Single)
}

fn new_command(w: String) -> (e: Expression)
    ensures
        e@ == command_of(w@),
{
    let e = Expression { words: vec![w], inputs: Vec::new(), outputs: Vec::new(), background: false };
    assert(e@.words =~= seq![w@]);
    assert(e@.inputs =~= Seq::<RedirectionModel>::empty());
    assert(e@.outputs =~= Seq::<RedirectionModel>::empty());
    e
}

fn push_word(g: &mut ExpressionGroup, w: String)
    ensures
        final(g)@ == add_word(old(g)@, w@),
{
    if g.expressions.len() == 0 {
        g.expressions.push(new_command(w));
        assert(g@.expressions =~= add_word(old(g)@, w@).expressions);
    } else {
        let mut e = g.expressions.pop().unwrap();
        let ghost e0 = e@;
        e.words.push(w);
        assert(e@.words =~= e0.words.push(w@));
        g.expressions.push(e);
        assert(g@.expressions =~= add_word(old(g)@, w@).expressions);
    }
}

fn push_command(g: &mut ExpressionGroup, w: String)
    ensures
        final(g)@ == pipe_to(old(g)@, w@),
{
    g.expressions.push(new_command(w));
    if g.gtype == ExpressionGroupType::Single {
        g.gtype = ExpressionGroupType::Pipeline;
    }
    assert(g@.expressions =~= pipe_to(old(g)@, w@).expressions);
}

fn push_redirection(g: &mut ExpressionGroup, k: RedirectionType, w: String)
    requires
        old(g).expressions@.len() > 0,
    ensures
        final(g)@ == redirect(old(g)@, k, w@),
{
    let mut e = g.expressions.pop().unwrap();
    let ghost e0 = e@;
    let r = Redirection { rtype: k, target: w };
    if k == RedirectionType::Input || k == RedirectionType::Heredoc {
        e.inputs.push(r);
        assert(e@.inputs =~= e0.inputs.push(r@));
    } else {
        e.outputs.push(r);
        assert(e@.outputs =~= e0.outputs.push(r@));
    }
    g.expressions.push(e);
    assert(g@.expressions =~= redirect(old(g)@, k, w@).expressions);
}

fn mark_background(g: &mut ExpressionGroup)
    requires
        old(g).expressions@.len() > 0,
    ensures
        final(g)@ == set_background(old(g)@),
{
    let mut e = g.expressions.pop().unwrap();
    e.background = true;
    g.expressions.push(e);
    assert(g@.expressions =~= set_background(old(g)@).expressions);
}

/// Parses one group from `start` on, whose kind starts as `gtype`. Returns
/// the group, the index after its terminator and the kind of the next group.
pub fn parse_command(tokens: &Vec<Token>, start: usize, gtype: ExpressionGroupType) -> (r: Result<(ExpressionGroup, usize, ExpressionGroupType), ParserError>)
    requires
        start <= tokens@.len(),
    ensures
        match r {
            Ok((g, j, k)) => group_from(tokens_view(tokens@), start as int, empty_group(gtype)) == Ok::<(GroupModel, int, ExpressionGroupType), ParserError>((g@, j as int, k)),
            Err(e) => group_from(tokens_view(tokens@), start as int, empty_group(gtype)) == Err::<(GroupModel, int, ExpressionGroupType), ParserError>(e),
        },
{
    let ghost ts = tokens_view(tokens@);
    proof { lemma_tokens_view_index(tokens@); }
    let mut group = ExpressionGroup { expressions: Vec::new(), gtype };
    assert(group@ == empty_group(gtype)) by {
        assert(group@.expressions =~= Seq::<ExpressionModel>::empty());
    }
    let mut i: usize = start;
    while i < tokens.len()
        invariant
            start <= i <= tokens@.len(),
            ts == tokens_view(tokens@),
            ts.len() == tokens@.len(),
            forall|k: int| 0 <= k < tokens@.len() ==> #[trigger] ts[k] == token_view(tokens@[k]),
            group_from(ts, start as int, empty_group(gtype)) == group_from(ts, i as int, group@),
        decreases tokens.len() - i,
    {
        let empty = group.expressions.len() == 0;
        let word_next = i + 1 < tokens.len() && matches!(tokens[i + 1], Token::Word(_));
        match &tokens[i] {
            Token::Word(w) => {
                push_word(&mut group, w.clone());
                i += 1;
            },
            Token::Pipe => {
                if !empty && word_next {
                    if let Token::Word(w) = &tokens[i + 1] {
                        push_command(&mut group, w.clone());
                    }
                    i += 2;
                } else {
                    return Err(ParserError::InvalidPipe);
                }
            },
            Token::Redirection(k) => {
                if !empty && word_next {
                    if let Token::Word(w) = &tokens[i + 1] {
                        push_redirection(&mut group, *k, w.clone());
                    }
                    i += 2;
                } else {
                    return Err(ParserError::InvalidRedirection);
                }
            },
            Token::Background => {
                if empty {
                    return Err(ParserError::InvalidBackground);
                }
                mark_background(&mut group);
                return Ok((group, i + 1, ExpressionGroupType::Single));
            },
            Token::CommandSeparator => {
                return Ok((group, i + 1, ExpressionGroupType::Single));
            },
            Token::Operator(k) => {
                let next = match k {
                    ConditionType::And => ExpressionGroupType::And,
                    ConditionType::Or => ExpressionGroupType::Or,
                };
                return Ok((group, i + 1, next));
            },
            _ => {
                i += 1;
            },
        }
    }
    Ok((group, tokens.len(), ExpressionGroupType::Single))
}

/// Parses a token list into expression groups, in order.
pub fn parse_tokens(tokens: &Vec<Token>) -> (r: Result<Vec<ExpressionGroup>, ParserError>)
    ensures
        match r {
            Ok(gs) => parse(tokens_view(tokens@)) == Ok::<Seq<GroupModel>, ParserError>(groups_view(gs@)),
            Err(e) => parse(tokens_view(tokens@)) == Err::<Seq<GroupModel>, ParserError>(e),
        },
{
    let ghost ts = tokens_view(tokens@);
    proof { lemma_tokens_view_index(tokens@); }
    let mut groups: Vec<ExpressionGroup> = Vec::new();
    let mut i: usize = 0;
    let mut kind = ExpressionGroupType::Single;
    assert(groups_view(groups@) =~= Seq::<GroupModel>::empty());
    assert(parse(ts) == glue_groups(groups_view(groups@), groups_from(ts, 0, kind))) by {
        if let Ok(t) = parse(ts) {
            assert(Seq::<GroupModel>::empty() + t =~= t);
        }
    }
    while i < tokens.len()
        invariant
            i <= tokens@.len(),
            ts == tokens_view(tokens@),
            ts.len() == tokens@.len(),
            parse(ts) == glue_groups(groups_view(groups@), groups_from(ts, i as int, kind)),
        decreases tokens.len() - i,
    {
        proof { lemma_group_from_advances(ts, i as int, empty_group(kind)); }
        match parse_command(tokens, i, kind) {
            Err(e) => return Err(e),
            Ok((g, j, k)) => {
                if g.expressions.len() > 0 {
                    let ghost before = groups@;
                    groups.push(g);
                    proof {
                        assert(groups_view(groups@) =~= groups_view(before).push(g@));
                        if let Ok(rest) = groups_from(ts, j as int, k) {
                            assert(groups_view(before) + (seq![g@] + rest) =~= groups_view(groups@) + rest);
                        }
                    }
                }
                i = j;
                kind = k;
            },
        }
    }
    assert(groups_view(groups@) + Seq::<GroupModel>::empty() =~= groups_view(groups@));
    Ok(groups)
}

/// Every command of the group has at least one word.
pub open spec fn commands_named(g: GroupModel) -> bool {
    forall|b: int| 0 <= b < g.expressions.len() ==> #[trigger] g.expressions[b].words.len() >= 1
}

/// Every group has a command, and every command a name.
pub open spec fn well_formed_groups(gs: Seq<GroupModel>) -> bool {
    forall|a: int| 0 <= a < gs.len() ==> #[trigger] gs[a].expressions.len() >= 1 && commands_named(gs[a])
}

proof fn lemma_group_from_named(ts: Seq<Lexeme>, i: int, g: GroupModel)
    requires
        commands_named(g),
    ensures
        group_from(ts, i, g) matches Ok((g2, _, _)) ==> commands_named(g2),
    decreases ts.len() - i,
{
    if 0 <= i < ts.len() {
        let empty = g.expressions.len() == 0;
        match ts[i] {
            Lexeme::Word(w) => {
                let g2 = add_word(g, w);
                assert(commands_named(g2)) by {
                    if !empty {
                        assert forall|b: int| 0 <= b < g2.expressions.len() implies #[trigger] g2.expressions[b].words.len() >= 1 by {
                            if b < g.expressions.len() - 1 {
                                assert(g2.expressions[b] == g.expressions[b]);
                            }
                        }
                    }
                }
                lemma_group_from_named(ts, i + 1, g2);
            },
            Lexeme::Pipe => {
                if !empty && i + 1 < ts.len() && ts[i + 1] is Word {
                    let g2 = pipe_to(g, ts[i + 1]->Word_0);
                    assert(commands_named(g2)) by {
                        assert forall|b: int| 0 <= b < g2.expressions.len() implies #[trigger] g2.expressions[b].words.len() >= 1 by {
                            if b < g.expressions.len() {
                                assert(g2.expressions[b] == g.expressions[b]);
                            }
                        }
                    }
                    lemma_group_from_named(ts, i + 2, g2);
                }
            },
            Lexeme::Redirection(k) => {
                if !empty && i + 1 < ts.len() && ts[i + 1] is Word {
                    let g2 = redirect(g, k, ts[i + 1]->Word_0);
                    assert(commands_named(g2)) by {
                        assert forall|b: int| 0 <= b < g2.expressions.len() implies #[trigger] g2.expressions[b].words.len() >= 1 by {
                            if b < g.expressions.len() - 1 {
                                assert(g2.expressions[b] == g.expressions[b]);
                            } else {
                                assert(g2.expressions[b].words == g.expressions[b].words);
                            }
                        }
                    }
                    lemma_group_from_named(ts, i + 2, g2);
                }
            },
            Lexeme::Background => {
                if !empty {
                    let g2 = set_background(g);
                    assert forall|b: int| 0 <= b < g2.expressions.len() implies #[trigger] g2.expressions[b].words.len() >= 1 by {
                        if b < g.expressions.len() - 1 {
                            assert(g2.expressions[b] == g.expressions[b]);
                        } else {
                            assert(g2.expressions[b].words == g.expressions[b].words);
                        }
                    }
                }
            },
            Lexeme::CommandSeparator => {},
            Lexeme::Operator(_) => {},
            _ => lemma_group_from_named(ts, i + 1, g),
        }
    }
}

proof fn lemma_groups_from_well_formed(ts: Seq<Lexeme>, i: int, k: ExpressionGroupType)
    ensures
        groups_from(ts, i, k) matches Ok(gs) ==> well_formed_groups(gs),
    decreases ts.len() - i,
{
    if 0 <= i < ts.len() {
        lemma_group_from_advances(ts, i, empty_group(k));
        lemma_group_from_named(ts, i, empty_group(k));
        if let Ok((g, j, nk)) = group_from(ts, i, empty_group(k)) {
            lemma_groups_from_well_formed(ts, j, nk);
            if g.expressions.len() != 0 {
                if let Ok(rest) = groups_from(ts, j, nk) {
                    let gs = seq![g] + rest;
                    assert forall|a: int| 0 <= a < gs.len() implies #[trigger] gs[a].expressions.len() >= 1 && commands_named(gs[a]) by {
                        if a > 0 {
                            assert(gs[a] == rest[a - 1]);
                        }
                    }
                }
            }
        }
    }
}

/// Whatever the tokens, every group that parsing yields holds at least one
/// command, and every command has at least one word, its name.
pub proof fn lemma_parse_well_formed(ts: Seq<Lexeme>)
    ensures
        parse(ts) matches Ok(gs) ==> well_formed_groups(gs),
{
    lemma_groups_from_well_formed(ts, 0, ExpressionGroupType::Single);
}

/// The kind a group ends with, given the kind it started with: a plain
/// group becomes a pipeline at its first `|`; other kinds stay.
pub open spec fn kind_kept(start: ExpressionGroupType, end: ExpressionGroupType) -> bool {
    end == start || (start == ExpressionGroupType::Single && end == ExpressionGroupType::Pipeline)
}

pub proof fn lemma_group_from_kind(ts: Seq<Lexeme>, i: int, g: GroupModel, start: ExpressionGroupType)
    requires
        kind_kept(start, g.gtype),
    ensures
        group_from(ts, i, g) matches Ok((g2, _, _)) ==> kind_kept(start, g2.gtype),
    decreases ts.len() - i,
{
    if 0 <= i < ts.len() {
        let empty = g.expressions.len() == 0;
        match ts[i] {
            Lexeme::Word(w) => lemma_group_from_kind(ts, i + 1, add_word(g, w), start),
            Lexeme::Pipe => {
                if !empty && i + 1 < ts.len() && ts[i + 1] is Word {
                    lemma_group_from_kind(ts, i + 2, pipe_to(g, ts[i + 1]->Word_0), start);
                }
            },
            Lexeme::Redirection(k) => {
                if !empty && i + 1 < ts.len() && ts[i + 1] is Word {
                    lemma_group_from_kind(ts, i + 2, redirect(g, k, ts[i + 1]->Word_0), start);
                }
            },
            Lexeme::Background => {},
            Lexeme::CommandSeparator => {},
            Lexeme::Operator(_) => {},
            _ => lemma_group_from_kind(ts, i + 1, g, start),
        }
    }
}

/// Whether a token ends a group.
pub open spec fn ends_group(l: Lexeme) -> bool {
    l is CommandSeparator || l is Operator || l is Background
}

/// The index after the first group terminator at or after `i`, or the length.
pub open spec fn group_end(ts: Seq<Lexeme>, i: int) -> int
    decreases ts.len() - i,
{
    if i < 0 || i >= ts.len() {
        ts.len() as int
    } else if ends_group(ts[i]) {
        i + 1
    } else {
        group_end(ts, i + 1)
    }
}

proof fn lemma_group_end_bounds(ts: Seq<Lexeme>, i: int)
    requires
        0 <= i <= ts.len(),
    ensures
        i <= group_end(ts, i) <= ts.len(),
        i < ts.len() ==> i < group_end(ts, i),
    decreases ts.len() - i,
{
    if i < ts.len() && !ends_group(ts[i]) {
        lemma_group_end_bounds(ts, i + 1);
    }
}

fn first_group_end(tokens: &Vec<Token>) -> (r: usize)
    ensures
        r == group_end(tokens_view(tokens@), 0),
        r <= tokens@.len(),
{
    let ghost ts = tokens_view(tokens@);
    proof {
        lemma_tokens_view_index(tokens@);
        lemma_group_end_bounds(ts, 0);
    }
    let mut k: usize = 0;
    while k < tokens.len()
        invariant
            k <= tokens@.len(),
            ts == tokens_view(tokens@),
            ts.len() == tokens@.len(),
            forall|j: int| 0 <= j < tokens@.len() ==> #[trigger] ts[j] == token_view(tokens@[j]),
            group_end(ts, 0) == group_end(ts, k as int),
        decreases tokens.len() - k,
    {
        match &tokens[k] {
            Token::CommandSeparator => return k + 1,
            Token::Operator(_) => return k + 1,
            Token::Background => return k + 1,
            _ => {},
        }
        k += 1;
    }
    k
}

/// Removes the tokens of the first group, its terminator included, from the
/// front of the list and returns them. Evaluating group by group lets each
/// group's variables see what the groups before it did.
pub fn split_off_group(tokens: &mut Vec<Token>) -> (r: Vec<Token>)
    ensures
        r@ + final(tokens)@ == old(tokens)@,
        old(tokens)@.len() > 0 ==> r@.len() > 0,
        r@.len() == group_end(tokens_view(old(tokens)@), 0),
{
    let k = first_group_end(tokens);
    proof {
        lemma_tokens_view_index(tokens@);
        lemma_group_end_bounds(tokens_view(tokens@), 0);
    }
    let mut front = tokens.split_off(k);
    std::mem::swap(tokens, &mut front);
    assert(front@ + tokens@ =~= old(tokens)@);
    front
}

pub open spec fn glue_groups(pre: Seq<GroupModel>, r: Result<Seq<GroupModel>, ParserError>) -> Result<Seq<GroupModel>, ParserError> {
    match r {
        Ok(t) => Ok(pre + t),
        Err(e) => Err(e),
    }
}

} // verus!
