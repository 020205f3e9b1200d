//! The decisions of the executor: which groups run, what each pipeline
//! stage reads, and what it hands on. Running programs and touching files is
//! left to the caller, which feeds the results back in.

use vstd::prelude::*;
use crate::text::strings_view;
use crate::cmdoutput::CmdOutput;
use crate::expression::{ExpressionGroup, ExpressionGroupType, GroupModel, ParserError, add_word, chained, empty_group, group_end, group_from, kind_kept, lemma_group_from_kind, parse, parse_command, split_off_group};
use crate::expand::{Environment, expand_tokens, expand_vars, glob_expand, glob_one, tilde_value};
use crate::builtins::Aliases;
use crate::expand::env_lookup;
use crate::tokenizer::{ConditionType, Lexeme, Token, lemma_tokens_view_index, lex, token_view, tokenize, tokens_view};

verus! {

/// Whether a group of kind `k` runs when the previous status is `status`.
pub open spec fn runs(k: ExpressionGroupType, status: i32) -> bool {
    match k {
        ExpressionGroupType::And => status == 0,
        ExpressionGroupType::Or => status != 0,
        _ => true,
    }
}

/// Whether a group of kind `gtype` runs after a command that ended with
/// `status`: `&&` groups need 0, `||` groups need anything else.
pub fn group_should_run(gtype: ExpressionGroupType, status: i32) -> (r: bool)
    ensures
        r == runs(gtype, status),
{
    match gtype {
        ExpressionGroupType::And => status == 0,
        ExpressionGroupType::Or => status != 0,
        _ => true,
    }
}

/// A command output as plain values: status, standard output, standard error.
pub open spec fn output_model(c: CmdOutput) -> (i32, Seq<u8>, Seq<u8>) {
    (c.status, c.stdout@, c.stderr@)
}

pub open spec fn carry_model(c: Option<CmdOutput>) -> Option<(i32, Seq<u8>, Seq<u8>)> {
    match c {
        Some(o) => Some(output_model(o)),
        None => None,
    }
}

/// What a stage reads: its own input redirection if it has one, else what
/// the previous stage wrote to standard output, else nothing.
pub open spec fn input_of(redirected: Option<Seq<u8>>, carry: Option<(i32, Seq<u8>, Seq<u8>)>) -> Option<Seq<u8>> {
    match redirected {
        Some(b) => Some(b),
        None => match carry {
            Some(c) => Some(c.1),
            None => None,
        },
    }
}

/// What a stage hands on: a background stage hands on status 0 and nothing
/// else; a stage whose output went to a file hands on its status and its
/// standard error but no standard output; any other stage hands on all it
/// produced.
pub open spec fn carried(p: (i32, Seq<u8>, Seq<u8>), wrote_to_file: bool, background: bool) -> (i32, Seq<u8>, Seq<u8>) {
    if background {
        (0, Seq::empty(), Seq::empty())
    } else if wrote_to_file {
        (p.0, Seq::empty(), p.2)
    } else {
        p
    }
}

/// The input of a pipeline stage.
pub fn stage_input(redirected: Option<Vec<u8>>, carry: &Option<CmdOutput>) -> (r: Option<Vec<u8>>)
    ensures
        match r {
            Some(b) => input_of(match redirected { Some(v) => Some(v@), None => None }, carry_model(*carry)) == Some(b@),
            None => input_of(match redirected { Some(v) => Some(v@), None => None }, carry_model(*carry)) is None,
        },
{
    match redirected {
        Some(b) => Some(b),
        None => match carry {
            Some(c) => Some(c.stdout.clone()),
            None => None,
        },
    }
}

/// What a stage hands on to the next one.
pub fn stage_carry(produced: CmdOutput, wrote_to_file: bool, background: bool) -> (r: CmdOutput)
    ensures
        output_model(r) == carried(output_model(produced), wrote_to_file, background),
{
    if background {
        let r = CmdOutput::new();
        assert(r.stdout@ =~= Seq::<u8>::empty());
        assert(r.stderr@ =~= Seq::<u8>::empty());
        r
    } else if wrote_to_file {
        let r = CmdOutput { status: produced.status, stdout: Vec::new(), stderr: produced.stderr };
        assert(r.stdout@ =~= Seq::<u8>::empty());
        r
    } else {
        produced
    }
}

/// The status a group leaves: that of its last stage, or the previous one
/// when nothing ran.
pub fn group_status(carry: &Option<CmdOutput>, previous: i32) -> (r: i32)
    ensures
        r == match carry {
            Some(c) => c.status,
            None => previous,
        },
{
    match carry {
        Some(c) => c.status,
        None => previous,
    }
}

/// The texts of the word tokens, in order.
pub open spec fn word_texts(ls: Seq<Lexeme>) -> Seq<Seq<char>>
    decreases ls.len(),
{
    if ls.len() == 0 {
        Seq::empty()
    } else {
        match ls.last() {
            Lexeme::Word(w) => word_texts(ls.drop_last()).push(w),
            _ => word_texts(ls.drop_last()),
        }
    }
}

/// The words an alias body stands for: its word tokens, or the body itself
/// when it cannot be tokenized.
pub open spec fn alias_words(body: Seq<char>) -> Seq<Seq<char>> {
    match lex(body) {
        Ok(ls) => word_texts(ls),
        Err(_) => seq![body],
    }
}

/// A command's words after alias resolution: a first word that names an
/// alias is replaced by the alias's words, once, without recursion.
pub open spec fn resolved(words: Seq<Seq<char>>, aliases: Seq<(Seq<char>, Seq<char>)>) -> Seq<Seq<char>> {
    if words.len() == 0 {
        words
    } else {
        match env_lookup(aliases, words[0]) {
            Some(body) => alias_words(body) + words.drop_first(),
            None => words,
        }
    }
}

/// Resolves the command's first word against the aliases.
pub fn resolve_alias(words: &Vec<String>, aliases: &Aliases) -> (r: Vec<String>)
    ensures
        strings_view(r@) == resolved(strings_view(words@), aliases@),
{
    let ghost w = strings_view(words@);
    if words.len() == 0 {
        return Vec::new();
    }
    let mut out: Vec<String> = Vec::new();
    match aliases.get(words[0].as_str()) {
        None => {
            let mut i: usize = 0;
            while i < words.len()
                invariant
                    i <= words@.len(),
                    w == strings_view(words@),
                    strings_view(out@) == w.take(i as int),
                decreases words.len() - i,
            {
                let ghost o0 = out@;
                out.push(words[i].clone());
                assert(strings_view(out@) =~= strings_view(o0).push(w[i as int]));
                assert(w.take(i + 1) =~= w.take(i as int).push(w[i as int]));
                i += 1;
            }
            assert(w.take(i as int) =~= w);
            out
        },
        Some(body) => {
            match tokenize(&body) {
                Ok(ts) => {
                    proof { lemma_tokens_view_index(ts@); }
                    let ghost tv = tokens_view(ts@);
                    let mut i: usize = 0;
                    while i < ts.len()
                        invariant
                            i <= ts@.len(),
                            tv == tokens_view(ts@),
                            tv.len() == ts@.len(),
                            forall|k: int| 0 <= k < ts@.len() ==> #[trigger] tv[k] == token_view(ts@[k]),
                            strings_view(out@) == word_texts(tv.take(i as int)),
                        decreases ts.len() - i,
                    {
                        assert(tv.take(i + 1).drop_last() =~= tv.take(i as int));
                        if let Token::Word(x) = &ts[i] {
                            let ghost o0 = out@;
                            out.push(x.clone());
                            assert(strings_view(out@) =~= strings_view(o0).push(x@));
                        }
                        i += 1;
                    }
                    assert(tv.take(i as int) =~= tv);
                },
                Err(_) => {
                    out.push(body);
                    assert(strings_view(out@) =~= alias_words(body@));
                },
            }
            let ghost a = strings_view(out@);
            let mut i: usize = 1;
            while i < words.len()
                invariant
                    1 <= i <= words@.len(),
                    w == strings_view(words@),
                    strings_view(out@) == a + w.subrange(1, i as int),
                decreases words.len() - i,
            {
                let ghost o0 = out@;
                out.push(words[i].clone());
                assert(strings_view(out@) =~= strings_view(o0).push(w[i as int]));
                assert(a + w.subrange(1, i + 1) =~= (a + w.subrange(1, i as int)).push(w[i as int]));
                i += 1;
            }
            assert(w.subrange(1, i as int) =~= w.drop_first());
            out
        },
    }
}

/// The status after a group: what its last stage handed on when it ran,
/// the previous status unchanged when it was skipped or handed on nothing.
pub fn status_after(previous: i32, ran: bool, carry: &Option<CmdOutput>) -> (r: i32)
    ensures
        r == status_left(previous, ran, *carry),
{
    if ran {
        group_status(carry, previous)
    } else {
        previous
    }
}

/// What the parse of the expanded tokens `ts`, as a group starting as kind
/// `kind`, says a step's result must be: the parsed group and the kind of
/// the next group, with the run decision for `status`; or the parse error.
pub open spec fn group_outcome(ts: Seq<Lexeme>, kind: ExpressionGroupType, status: i32, r: Result<(ExpressionGroup, ExpressionGroupType, bool), ParserError>) -> bool {
    match r {
        Ok((g, k, run)) => group_from(ts, 0, empty_group(kind)) matches Ok((gm, _, k2))
            && gm == g@ && k2 == k && run == (g@.expressions.len() > 0 && runs(g@.gtype, status)),
        Err(e) => group_from(ts, 0, empty_group(kind)) == Err::<(GroupModel, int, ExpressionGroupType), ParserError>(e),
    }
}

/// The tokens of the next group once expanded, for glob matches `ms`.
pub open spec fn expanded_group(ts: Seq<Token>, status: i32, e: Seq<(Seq<char>, Seq<char>)>, ms: Seq<Seq<Seq<char>>>) -> Seq<Lexeme> {
    glob_expand(expand_vars(tokens_view(ts.take(group_end(tokens_view(ts), 0))), status, e), ms)
}

/// One step of evaluating a line: takes the next group's tokens (up to and
/// including its terminator) off the front of `tokens`, expands them with
/// the current status and environment, and parses them as a group that
/// starts as kind `kind`. Returns the group, the kind of the group after it,
/// and whether it runs: it has a command and its kind lets it run after
/// `status`. Whatever glob found, the result is what parsing the expanded
/// tokens gives.
pub fn next_group(tokens: &mut Vec<Token>, kind: ExpressionGroupType, status: i32, env: &Environment) -> (r: Result<(ExpressionGroup, ExpressionGroupType, bool), ParserError>)
    ensures
        final(tokens)@ == old(tokens)@.skip(group_end(tokens_view(old(tokens)@), 0)),
        old(tokens)@.len() > 0 ==> final(tokens)@.len() < old(tokens)@.len(),
        exists|ms: Seq<Seq<Seq<char>>>| ms.len() == group_end(tokens_view(old(tokens)@), 0)
            && group_outcome(#[trigger] expanded_group(old(tokens)@, status, env@, ms), kind, status, r),
        r matches Ok((g, _, _)) ==> kind_kept(kind, g@.gtype),
{
    let ghost n = group_end(tokens_view(tokens@), 0);
    let mut segment = split_off_group(tokens);
    assert(segment@ =~= old(tokens)@.take(n));
    assert(tokens@ =~= old(tokens)@.skip(n));
    expand_tokens(status, env, &mut segment);
    let ghost ms = choose|ms: Seq<Seq<Seq<char>>>| ms.len() == n
        && tokens_view(segment@) == #[trigger] glob_expand(expand_vars(tokens_view(old(tokens)@.take(n)), status, env@), ms);
    assert(tokens_view(segment@) == expanded_group(old(tokens)@, status, env@, ms));
    proof { lemma_group_from_kind(tokens_view(segment@), 0, empty_group(kind), kind); }
    match parse_command(&segment, 0, kind) {
        Err(e) => {
            assert(group_outcome(expanded_group(old(tokens)@, status, env@, ms), kind, status, Err(e)));
            Err(e)
        },
        Ok((group, _, next)) => {
            let run = group.expressions.len() > 0 && group_should_run(group.gtype, status);
            let r = Ok((group, next, run));
            assert(group_outcome(expanded_group(old(tokens)@, status, env@, ms), kind, status, r));
            r
        },
    }
}

proof fn lemma_words_then(ts: Seq<Lexeme>, i: int, g: GroupModel, m: int)
    requires
        0 <= i <= m <= ts.len(),
        forall|j: int| i <= j < m ==> #[trigger] ts[j] is Word,
        m == ts.len() || ts[m] is Operator,
    ensures
        group_from(ts, i, g) matches Ok((g2, _, nk)) && g2.gtype == g.gtype
            && ((g.expressions.len() > 0 || i < m) ==> g2.expressions.len() > 0)
            && nk == (if m < ts.len() { chained(ts[m]->Operator_0) } else { ExpressionGroupType::Single }),
    decreases m - i,
{
    if i < m {
        lemma_words_then(ts, i + 1, add_word(g, ts[i]->Word_0), m);
    }
}

proof fn lemma_glob_expand_single(ts: Seq<Lexeme>, ms: Seq<Seq<Seq<char>>>)
    requires
        ts.len() == 1,
        ms.len() == 1,
    ensures
        glob_expand(ts, ms) == glob_one(ts[0], ms[0]),
{
    assert(ts.drop_last() =~= Seq::<Lexeme>::empty());
    assert(ms.drop_last() =~= Seq::<Seq<Seq<char>>>::empty());
    assert(glob_expand(ts.drop_last(), ms.drop_last()) == Seq::<Lexeme>::empty());
    assert(Seq::<Lexeme>::empty() + glob_one(ts[0], ms[0]) =~= glob_one(ts[0], ms[0]));
}

proof fn lemma_glob_one_words(w: Seq<char>, m: Seq<Seq<char>>)
    ensures
        glob_one(Lexeme::Word(w), m).len() > 0,
        forall|j: int| 0 <= j < glob_one(Lexeme::Word(w), m).len() ==> #[trigger] glob_one(Lexeme::Word(w), m)[j] is Word,
{
}

proof fn lemma_view_of_prefix(ts: Seq<Token>, n: int)
    requires
        0 <= n <= ts.len(),
    ensures
        tokens_view(ts.take(n)) == tokens_view(ts).take(n),
        tokens_view(ts.skip(n)) == tokens_view(ts).skip(n),
{
    lemma_tokens_view_index(ts);
    lemma_tokens_view_index(ts.take(n));
    lemma_tokens_view_index(ts.skip(n));
    assert(tokens_view(ts.take(n)) =~= tokens_view(ts).take(n));
    assert(tokens_view(ts.skip(n)) =~= tokens_view(ts).skip(n));
}

/// Evaluating `a && b` (or `a || b`) group by group: the first step takes
/// `a` with its operator, runs it, and hands on the operator's kind; the
/// second step then runs `b` exactly when the status `a` left is 0 (for
/// `&&`) or not 0 (for `||`). This holds whatever the words expand to.
pub proof fn lemma_short_circuit_at_evaluation(ts: Seq<Token>, a: Seq<char>, b: Seq<char>, k: ConditionType,
    s0: i32, s1: i32, e: Seq<(Seq<char>, Seq<char>)>, ms1: Seq<Seq<Seq<char>>>, ms2: Seq<Seq<Seq<char>>>,
    r1: Result<(ExpressionGroup, ExpressionGroupType, bool), ParserError>,
    r2: Result<(ExpressionGroup, ExpressionGroupType, bool), ParserError>)
    requires
        tokens_view(ts) == seq![Lexeme::Word(a), Lexeme::Operator(k), Lexeme::Word(b)],
        ms1.len() == 2,
        ms2.len() == 1,
    ensures
        group_end(tokens_view(ts), 0) == 2,
        tokens_view(ts.skip(2)) == seq![Lexeme::Word(b)],
        group_outcome(expanded_group(ts, s0, e, ms1), ExpressionGroupType::Single, s0, r1)
            ==> (r1 matches Ok((_, k1, run1)) && k1 == chained(k) && run1),
        group_outcome(expanded_group(ts.skip(2), s1, e, ms2), chained(k), s1, r2)
            ==> (r2 matches Ok((_, _, run2))
                && (k == ConditionType::And ==> (run2 <==> s1 == 0))
                && (k == ConditionType::Or ==> (run2 <==> s1 != 0))),
{
    let tv = tokens_view(ts);
    lemma_tokens_view_index(ts);
    assert(group_end(tv, 0) == 2) by {
        reveal_with_fuel(group_end, 3);
    }
    lemma_view_of_prefix(ts, 2);
    let first = seq![Lexeme::Word(a), Lexeme::Operator(k)];
    assert(tv.take(2) =~= first);
    assert(tv.skip(2) =~= seq![Lexeme::Word(b)]);
    // First group.
    let x1 = expand_vars(first, s0, e);
    assert(x1 =~= seq![Lexeme::Word(tilde_value(a, e)), Lexeme::Operator(k)]);
    let w1 = glob_one(Lexeme::Word(tilde_value(a, e)), ms1[0]);
    lemma_glob_one_words(tilde_value(a, e), ms1[0]);
    assert(x1.drop_last() =~= seq![Lexeme::Word(tilde_value(a, e))]);
    assert(ms1.drop_last().drop_last() =~= Seq::<Seq<Seq<char>>>::empty());
    assert(seq![Lexeme::Word(tilde_value(a, e))].drop_last() =~= Seq::<Lexeme>::empty());
    let y1 = glob_expand(x1, ms1);
    lemma_glob_expand_single(seq![Lexeme::Word(tilde_value(a, e))], ms1.drop_last());
    assert(glob_expand(seq![Lexeme::Word(tilde_value(a, e))], ms1.drop_last()) =~= w1);
    assert(y1 =~= w1 + seq![Lexeme::Operator(k)]);
    assert(y1 == expanded_group(ts, s0, e, ms1));
    lemma_words_then(y1, 0, empty_group(ExpressionGroupType::Single), w1.len() as int);
    // Second group.
    let rest = ts.skip(2);
    lemma_tokens_view_index(rest);
    let rv = tokens_view(rest);
    assert(group_end(rv, 0) == 1) by {
        reveal_with_fuel(group_end, 2);
    }
    assert(rest.take(1) =~= rest);
    let x2 = expand_vars(seq![Lexeme::Word(b)], s1, e);
    assert(x2 =~= seq![Lexeme::Word(tilde_value(b, e))]);
    let w2 = glob_one(Lexeme::Word(tilde_value(b, e)), ms2[0]);
    lemma_glob_one_words(tilde_value(b, e), ms2[0]);
    assert(x2.drop_last() =~= Seq::<Lexeme>::empty());
    let y2 = glob_expand(x2, ms2);
    lemma_glob_expand_single(x2, ms2);
    assert(y2 =~= w2);
    assert(y2 == expanded_group(rest, s1, e, ms2));
    lemma_words_then(y2, 0, empty_group(chained(k)), w2.len() as int);
}

/// The status after a group, as `status_after` computes it.
pub open spec fn status_left(previous: i32, ran: bool, carry: Option<CmdOutput>) -> i32 {
    if ran {
        match carry {
            Some(c) => c.status,
            None => previous,
        }
    } else {
        previous
    }
}

/// A group chained by `&&` is skipped exactly when the status before it is
/// non-zero, one chained by `||` exactly when it is zero, and a skipped group
/// leaves that status as it was, whatever it would have produced.
pub proof fn lemma_skipped_group_keeps_status(k: ExpressionGroupType, status: i32, carry: Option<CmdOutput>)
    ensures
        k == ExpressionGroupType::And ==> (!runs(k, status) <==> status != 0),
        k == ExpressionGroupType::Or ==> (!runs(k, status) <==> status == 0),
        !runs(k, status) ==> status_left(status, runs(k, status), carry) == status,
{
}

/// In a pipeline without output redirections, the first stage reads
/// nothing from the pipeline, and each later stage reads exactly what the
/// stage before it wrote to standard output; standard error is not passed on.
pub proof fn lemma_pipeline_carry(produced: (i32, Seq<u8>, Seq<u8>))
    ensures
        input_of(None, None) is None,
        input_of(None, Some(carried(produced, false, false))) == Some(produced.1),
{
}

/// In `a && b` the second command runs exactly when the first ended with
/// status 0, and in `a || b` exactly when it did not.
pub proof fn lemma_conditional_short_circuit(a: Seq<char>, b: Seq<char>, k: ConditionType, status: i32)
    ensures
        ({
            let r = parse(seq![Lexeme::Word(a), Lexeme::Operator(k), Lexeme::Word(b)]);
            &&& r is Ok
            &&& r->Ok_0.len() == 2
            &&& r->Ok_0[0].gtype == ExpressionGroupType::Single
            &&& r->Ok_0[0].expressions[0].words == seq![a]
            &&& r->Ok_0[1].expressions[0].words == seq![b]
            &&& (k == ConditionType::And ==> (runs(r->Ok_0[1].gtype, status) <==> status == 0))
            &&& (k == ConditionType::Or ==> (runs(r->Ok_0[1].gtype, status) <==> status != 0))
        }),
{
    let ts = seq![Lexeme::Word(a), Lexeme::Operator(k), Lexeme::Word(b)];
    reveal_with_fuel(crate::expression::group_from, 4);
    reveal_with_fuel(crate::expression::groups_from, 4);
    assert(seq![crate::expression::command_of(a)][0].words == seq![a]);
}

} // verus!
