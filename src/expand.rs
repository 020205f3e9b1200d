//! The expander: replaces variables and a leading `~` in the token list,
//! then expands glob patterns against the file system.

use vstd::prelude::*;
use crate::text::{chars_of, concat, decimal, decimal_of, slice_chars, str_eq, string_of, strings_view};
use crate::tokenizer::{Lexeme, Token, lemma_tokens_view_index, lemma_tokens_view_push, lemma_tokens_view_single, token_view, tokens_view};

verus! {

/// A snapshot of the environment's variables, in the order given.
pub struct Environment {
    vars: Vec<(String, String)>,
}

pub open spec fn pair_view(p: (String, String)) -> (Seq<char>, Seq<char>) {
    (p.0@, p.1@)
}

impl View for Environment {
    type V = Seq<(Seq<char>, Seq<char>)>;

    closed spec fn view(&self) -> Seq<(Seq<char>, Seq<char>)> {
        self.vars@.map_values(|p: (String, String)| pair_view(p))
    }
}

/// The value of the first variable of `e` named `n`.
pub open spec fn env_lookup(e: Seq<(Seq<char>, Seq<char>)>, n: Seq<char>) -> Option<Seq<char>>
    decreases e.len(),
{
    if e.len() == 0 {
        None
    } else if e[0].0 == n {
        Some(e[0].1)
    } else {
        env_lookup(e.drop_first(), n)
    }
}

impl Environment {
    /// The environment made of these name and value pairs.
    pub fn from_pairs(vars: Vec<(String, String)>) -> (r: Environment)
        ensures
            r@ == vars@.map_values(|p: (String, String)| pair_view(p)),
    {
        Environment { vars }
    }

    /// The value of the variable `name`, if it is set.
    pub fn lookup(&self, name: &str) -> (r: Option<String>)
        ensures
            match r {
                Some(v) => env_lookup(self@, name@) == Some(v@),
                None => env_lookup(self@, name@) is None,
            },
    {
        let ghost e = self@;
        let mut i: usize = 0;
        assert(e.subrange(0, e.len() as int) =~= e);
        while i < self.vars.len()
            invariant
                i <= self.vars@.len(),
                e == self@,
                e.len() == self.vars@.len(),
                env_lookup(e, name@) == env_lookup(e.subrange(i as int, e.len() as int), name@),
            decreases self.vars.len() - i,
        {
            let ghost rest = e.subrange(i as int, e.len() as int);
            assert(rest[0] == pair_view(self.vars@[i as int]));
            if str_eq(self.vars[i].0.as_str(), name) {
                return Some(self.vars[i].1.clone());
            }
            assert(rest.drop_first() =~= e.subrange(i + 1, e.len() as int));
            i += 1;
        }
        None
    }
}

/// What `$n` becomes: the status for `?`, the variable's value when it is
/// set, and `$n` itself otherwise.
pub open spec fn variable_value(n: Seq<char>, status: i32, e: Seq<(Seq<char>, Seq<char>)>) -> Seq<char> {
    if n == seq!['?'] {
        decimal(status as int)
    } else {
        match env_lookup(e, n) {
            Some(v) => v,
            None => seq!['$'] + n,
        }
    }
}

/// What a word becomes: a leading `~` is replaced by `HOME` when it is set.
pub open spec fn tilde_value(w: Seq<char>, e: Seq<(Seq<char>, Seq<char>)>) -> Seq<char> {
    if w.len() > 0 && w[0] == '~' {
        match env_lookup(e, "HOME"@) {
            Some(h) => h + w.drop_first(),
            None => w,
        }
    } else {
        w
    }
}

/// The first phase of expansion on one token.
pub open spec fn expand_one(l: Lexeme, status: i32, e: Seq<(Seq<char>, Seq<char>)>) -> Lexeme {
    match l {
        Lexeme::Variable(n) => Lexeme::Word(variable_value(n, status, e)),
        Lexeme::Word(w) => Lexeme::Word(tilde_value(w, e)),
        _ => l,
    }
}

/// The first phase of expansion on a token list.
pub open spec fn expand_vars(ts: Seq<Lexeme>, status: i32, e: Seq<(Seq<char>, Seq<char>)>) -> Seq<Lexeme> {
    ts.map_values(|l: Lexeme| expand_one(l, status, e))
}

/// Whether a word holds a `*` or `?` that no backslash escapes.
pub open spec fn has_glob(w: Seq<char>) -> bool {
    exists|i: int| 0 <= i < w.len() && #[trigger] glob_at(w, i)
}

/// Whether `w[i]` is a `*` or `?` that no backslash escapes.
pub open spec fn glob_at(w: Seq<char>, i: int) -> bool {
    (w[i] == '*' || w[i] == '?') && (i == 0 || w[i - 1] != '\\')
}

/// The second phase of expansion: a glob word with matches `ms[i]` is
/// replaced by one word per match; every other token stays.
pub open spec fn glob_expand(ts: Seq<Lexeme>, ms: Seq<Seq<Seq<char>>>) -> Seq<Lexeme>
    decreases ts.len(),
{
    if ts.len() == 0 || ms.len() != ts.len() {
        Seq::empty()
    } else {
        glob_expand(ts.drop_last(), ms.drop_last()) + glob_one(ts.last(), ms.last())
    }
}

pub open spec fn glob_one(l: Lexeme, m: Seq<Seq<char>>) -> Seq<Lexeme> {
    match l {
        Lexeme::Word(w) => if has_glob(w) && m.len() > 0 {
            m.map_values(|p: Seq<char>| Lexeme::Word(p))
        } else {
            seq![l]
        },
        _ => seq![l],
    }
}

/// No token is a variable.
pub open spec fn no_variables(ts: Seq<Lexeme>) -> bool {
    forall|i: int| 0 <= i < ts.len() ==> !(#[trigger] ts[i] is Variable)
}

/// What `$name` expands to, given the last status and the environment.
pub fn expand_variable(status: i32, env: &Environment, var_name: &str) -> (r: String)
    ensures
        r@ == variable_value(var_name@, status, env@),
{
    let q: Vec<char> = vec!['?'];
    assert(q@ =~= seq!['?']);
    proof { reveal_strlit("$"); }
    let n = chars_of(var_name);
    if crate::text::chars_eq(&n, &q) {
        decimal_of(status)
    } else {
        match env.lookup(var_name) {
            Some(v) => v,
            None => concat("$", var_name),
        }
    }
}

fn expand_word(env: &Environment, w: &String) -> (r: String)
    ensures
        r@ == tilde_value(w@, env@),
{
    let c = chars_of(w.as_str());
    if c.len() > 0 && c[0] == '~' {
        match env.lookup("HOME") {
            Some(h) => {
                let rest = string_of(&slice_chars(&c, 1, c.len()));
                assert(rest@ =~= w@.drop_first());
                concat(h.as_str(), rest.as_str())
            },
            None => w.clone(),
        }
    } else {
        w.clone()
    }
}

fn reversed<T>(v: &mut Vec<T>) -> (r: Vec<T>)
    ensures
        final(v)@.len() == 0,
        r@.len() == old(v)@.len(),
        forall|k: int| 0 <= k < r@.len() ==> #[trigger] r@[k] == old(v)@[old(v)@.len() - 1 - k],
{
    let mut r: Vec<T> = Vec::new();
    while v.len() > 0
        invariant
            r@.len() + v@.len() == old(v)@.len(),
            v@ == old(v)@.take(v@.len() as int),
            forall|k: int| 0 <= k < r@.len() ==> #[trigger] r@[k] == old(v)@[old(v)@.len() - 1 - k],
        decreases v.len(),
    {
        let t = v.pop().unwrap();
        r.push(t);
    }
    r
}

/// Replaces each variable by its value and a leading `~` of each word by
/// `HOME`; other tokens stay as they are.
pub fn expand_variables(status: i32, env: &Environment, tokens: &mut Vec<Token>)
    ensures
        tokens_view(final(tokens)@) == expand_vars(tokens_view(old(tokens)@), status, env@),
{
    let ghost before = tokens_view(tokens@);
    proof { lemma_tokens_view_index(tokens@); }
    let ghost orig = tokens@;
    let mut rev = reversed(tokens);
    let n = rev.len();
    let mut out: Vec<Token> = Vec::new();
    while rev.len() > 0
        invariant
            out@.len() + rev@.len() == n,
            n == orig.len(),
            before.len() == orig.len(),
            forall|k: int| 0 <= k < orig.len() ==> #[trigger] before[k] == token_view(orig[k]),
            forall|k: int| 0 <= k < rev@.len() ==> #[trigger] rev@[k] == orig[n - 1 - k],
            tokens_view(out@) == expand_vars(before, status, env@).take(out@.len() as int),
        decreases rev.len(),
    {
        let t = rev.pop().unwrap();
        let ghost k = out@.len() as int;
        assert(t == orig[k]);
        let e = match t {
            Token::Variable(name) => Token::Word(expand_variable(status, env, name.as_str())),
            Token::Word(w) => Token::Word(expand_word(env, &w)),
            other => other,
        };
        assert(token_view(e) == expand_one(before[k], status, env@));
        let ghost o0 = out@;
        out.push(e);
        proof {
            assert(out@.drop_last() =~= o0);
            assert(expand_vars(before, status, env@).take(k + 1) =~= expand_vars(before, status, env@).take(k).push(token_view(e)));
        }
    }
    proof {
        lemma_tokens_view_index(out@);
        assert(expand_vars(before, status, env@).take(out@.len() as int) =~= expand_vars(before, status, env@));
    }
    *tokens = out;
}

/// Relies on `glob::glob`: the paths that match `pattern` in the file system
/// at the time of the call, in the crate's order. A malformed pattern, or an
/// entry that cannot be read, contributes nothing.
#[verifier::external_body]
fn glob_matches(pattern: &str) -> (r: Vec<String>) {
    match glob::glob(pattern) {
        Ok(paths) => paths.filter_map(Result::ok).map(|p| p.to_string_lossy().into_owned()).collect(),
        Err(_) => Vec::new(),
    }
}

/// Whether the word holds an unescaped `*` or `?`.
pub fn contains_glob(w: &str) -> (r: bool)
    ensures
        r == has_glob(w@),
{
    let c = chars_of(w);
    let mut i: usize = 0;
    while i < c.len()
        invariant
            i <= c@.len(),
            c@ == w@,
            forall|k: int| 0 <= k < i ==> !#[trigger] glob_at(w@, k),
        decreases c.len() - i,
    {
        if (c[i] == '*' || c[i] == '?') && (i == 0 || c[i - 1] != '\\') {
            assert(glob_at(w@, i as int));
            return true;
        }
        i += 1;
    }
    false
}

/// The tokens that a word becomes, given the paths its pattern matched: one
/// word per path when it is a pattern with matches, else the word itself.
pub fn glob_word(word: String, matches: Vec<String>) -> (r: Vec<Token>)
    ensures
        tokens_view(r@) == glob_one(Lexeme::Word(word@), strings_view(matches@)),
{
    let ghost m = strings_view(matches@);
    if contains_glob(word.as_str()) && matches.len() > 0 {
        let mut ms = matches;
        let mut rev = reversed(&mut ms);
        let n = rev.len();
        let ghost orig = m;
        let mut out: Vec<Token> = Vec::new();
        while rev.len() > 0
            invariant
                out@.len() + rev@.len() == n,
                n == orig.len(),
                forall|k: int| 0 <= k < rev@.len() ==> #[trigger] rev@[k]@ == orig[n - 1 - k],
                tokens_view(out@) == orig.take(out@.len() as int).map_values(|p: Seq<char>| Lexeme::Word(p)),
            decreases rev.len(),
        {
            let p = rev.pop().unwrap();
            let ghost k = out@.len() as int;
            let ghost o0 = out@;
            out.push(Token::Word(p));
            proof {
                lemma_tokens_view_push(o0, Token::Word(p));
                assert(orig.take(k + 1).map_values(|p: Seq<char>| Lexeme::Word(p))
                    =~= orig.take(k).map_values(|p: Seq<char>| Lexeme::Word(p)).push(Lexeme::Word(orig[k])));
            }
        }
        assert(orig.take(n as int) =~= orig);
        out
    } else {
        let r = vec![Token::Word(word)];
        proof { lemma_tokens_view_single(r@[0]); }
        assert(r@ =~= seq![r@[0]]);
        r
    }
}

proof fn lemma_glob_expand_push(ts: Seq<Lexeme>, ms: Seq<Seq<Seq<char>>>, l: Lexeme, m: Seq<Seq<char>>)
    requires
        ts.len() == ms.len(),
    ensures
        glob_expand(ts.push(l), ms.push(m)) == glob_expand(ts, ms) + glob_one(l, m),
{
    assert(ts.push(l).drop_last() =~= ts);
    assert(ms.push(m).drop_last() =~= ms);
}

pub open spec fn matches_view(ms: Seq<Vec<String>>) -> Seq<Seq<Seq<char>>> {
    ms.map_values(|m: Vec<String>| strings_view(m@))
}

/// The pattern to hand to glob for each token: the word itself for a glob
/// word, nothing for any other token.
pub fn glob_patterns(tokens: &Vec<Token>) -> (r: Vec<Option<String>>)
    ensures
        r@.len() == tokens@.len(),
        forall|k: int| 0 <= k < tokens@.len() ==> ((#[trigger] r@[k]) is Some <==> (tokens_view(tokens@)[k] is Word
            && has_glob(tokens_view(tokens@)[k]->Word_0))),
        forall|k: int| 0 <= k < tokens@.len() && (#[trigger] r@[k]) is Some ==> tokens_view(tokens@)[k] == Lexeme::Word(r@[k]->0@),
{
    proof { lemma_tokens_view_index(tokens@); }
    let ghost tv = tokens_view(tokens@);
    let mut r: Vec<Option<String>> = Vec::new();
    let mut i: usize = 0;
    while i < tokens.len()
        invariant
            i <= tokens@.len(),
            r@.len() == i,
            tv == tokens_view(tokens@),
            forall|k: int| 0 <= k < tokens@.len() ==> #[trigger] tv[k] == token_view(tokens@[k]),
            forall|k: int| 0 <= k < i ==> ((#[trigger] r@[k]) is Some <==> (tv[k] is Word && has_glob(tv[k]->Word_0))),
            forall|k: int| 0 <= k < i && (#[trigger] r@[k]) is Some ==> tv[k] == Lexeme::Word(r@[k]->0@),
        decreases tokens.len() - i,
    {
        let p = match &tokens[i] {
            Token::Word(w) => if contains_glob(w.as_str()) { Some(w.clone()) } else { None },
            _ => None,
        };
        r.push(p);
        i += 1;
    }
    r
}

/// Replaces each glob word by what its pattern matched, `matches[k]` for the
/// token at `k`, or keeps it when nothing matched; other tokens stay.
pub fn apply_globs(tokens: &mut Vec<Token>, matches: Vec<Vec<String>>)
    requires
        matches@.len() == old(tokens)@.len(),
    ensures
        tokens_view(final(tokens)@) == glob_expand(tokens_view(old(tokens)@), matches_view(matches@)),
{
    let ghost before = tokens_view(tokens@);
    let ghost mv = matches_view(matches@);
    proof { lemma_tokens_view_index(tokens@); }
    let ghost orig = tokens@;
    let mut rev = reversed(tokens);
    let mut ms_left = matches;
    let mut rev_m = reversed(&mut ms_left);
    let n = rev.len();
    let mut out: Vec<Token> = Vec::new();
    let mut done: usize = 0;
    assert(tokens_view(out@) =~= glob_expand(before.take(0), mv.take(0)));
    while rev.len() > 0
        invariant
            done + rev@.len() == n,
            rev_m@.len() == rev@.len(),
            n == orig.len(),
            mv.len() == n,
            before.len() == orig.len(),
            forall|k: int| 0 <= k < orig.len() ==> #[trigger] before[k] == token_view(orig[k]),
            forall|k: int| 0 <= k < rev@.len() ==> #[trigger] rev@[k] == orig[n - 1 - k],
            forall|k: int| 0 <= k < rev_m@.len() ==> strings_view((#[trigger] rev_m@[k])@) == mv[n - 1 - k],
            tokens_view(out@) == glob_expand(before.take(done as int), mv.take(done as int)),
        decreases rev.len(),
    {
        let t = rev.pop().unwrap();
        let found = rev_m.pop().unwrap();
        let ghost k = done as int;
        assert(t == orig[k]);
        let ghost m = mv[k];
        assert(strings_view(found@) == m);
        assert(before.take(k + 1) =~= before.take(k).push(before[k]));
        assert(mv.take(k + 1) =~= mv.take(k).push(m));
        let pieces: Vec<Token> = match t {
            Token::Word(w) => glob_word(w, found),
            other => {
                let r = vec![other];
                proof { lemma_tokens_view_single(r@[0]); }
                assert(r@ =~= seq![r@[0]]);
                r
            },
        };
        assert(tokens_view(pieces@) == glob_one(before[k], m));
        proof { lemma_glob_expand_push(before.take(k), mv.take(k), before[k], m); }
        append_tokens(&mut out, pieces);
        done += 1;
    }
    assert(before.take(n as int) =~= before);
    assert(mv.take(n as int) =~= mv);
    *tokens = out;
}

/// Expands every glob word against the file system: each glob word, and
/// nothing else, is handed to glob as the pattern (see `glob_patterns`),
/// and what came back is applied by `apply_globs`. Whatever the file system
/// holds, the result is the list with each glob word replaced by its
/// matches, or kept when it has none; other tokens stay.
pub fn expand_globs(tokens: &mut Vec<Token>)
    ensures
        exists|ms: Seq<Seq<Seq<char>>>| ms.len() == old(tokens)@.len()
            && tokens_view(final(tokens)@) == #[trigger] glob_expand(tokens_view(old(tokens)@), ms),
{
    let patterns = glob_patterns(tokens);
    let mut found: Vec<Vec<String>> = Vec::new();
    let mut i: usize = 0;
    while i < patterns.len()
        invariant
            i <= patterns@.len(),
            found@.len() == i,
        decreases patterns.len() - i,
    {
        let m = match &patterns[i] {
            Some(p) => glob_matches(p.as_str()),
            None => Vec::new(),
        };
        found.push(m);
        i += 1;
    }
    apply_globs(tokens, found);
}

proof fn lemma_tokens_view_append(a: Seq<Token>, b: Seq<Token>)
    ensures
        tokens_view(a + b) == tokens_view(a) + tokens_view(b),
    decreases b.len(),
{
    if b.len() == 0 {
        assert(a + b =~= a);
        assert(tokens_view(a) + tokens_view(b) =~= tokens_view(a));
    } else {
        lemma_tokens_view_append(a, b.drop_last());
        assert((a + b).drop_last() =~= a + b.drop_last());
        assert(tokens_view(a) + tokens_view(b) =~= tokens_view(a) + tokens_view(b.drop_last()) + seq![token_view(b.last())]);
    }
}

fn append_tokens(out: &mut Vec<Token>, pieces: Vec<Token>)
    ensures
        tokens_view(final(out)@) == tokens_view(old(out)@) + tokens_view(pieces@),
{
    let mut ps = pieces;
    let mut rev = reversed(&mut ps);
    let ghost o0 = out@;
    let ghost orig = pieces@;
    let n = rev.len();
    while rev.len() > 0
        invariant
            out@.len() - o0.len() + rev@.len() == n,
            out@.len() >= o0.len(),
            n == orig.len(),
            forall|k: int| 0 <= k < rev@.len() ==> #[trigger] rev@[k] == orig[n - 1 - k],
            out@ == o0 + orig.take(out@.len() - o0.len()),
        decreases rev.len(),
    {
        let t = rev.pop().unwrap();
        let ghost k = out@.len() - o0.len();
        out.push(t);
        assert(out@ =~= o0 + orig.take(k + 1));
    }
    assert(orig.take(n as int) =~= orig);
    proof { lemma_tokens_view_append(o0, orig); }
}

/// Runs both phases: variables and `~` first, then glob patterns.
pub fn expand_tokens(status: i32, env: &Environment, tokens: &mut Vec<Token>)
    ensures
        exists|ms: Seq<Seq<Seq<char>>>| ms.len() == old(tokens)@.len()
            && tokens_view(final(tokens)@) == #[trigger] glob_expand(expand_vars(tokens_view(old(tokens)@), status, env@), ms),
{
    proof { lemma_tokens_view_index(tokens@); }
    expand_variables(status, env, tokens);
    proof { lemma_tokens_view_index(tokens@); }
    expand_globs(tokens);
}

proof fn lemma_glob_keeps_no_variables(ts: Seq<Lexeme>, ms: Seq<Seq<Seq<char>>>)
    requires
        no_variables(ts),
    ensures
        no_variables(glob_expand(ts, ms)),
    decreases ts.len(),
{
    if ts.len() > 0 && ms.len() == ts.len() {
        lemma_glob_keeps_no_variables(ts.drop_last(), ms.drop_last());
        let a = glob_expand(ts.drop_last(), ms.drop_last());
        let b = glob_one(ts.last(), ms.last());
        assert(!(ts[ts.len() - 1] is Variable));
        assert forall|i: int| 0 <= i < (a + b).len() implies !(#[trigger] (a + b)[i] is Variable) by {
            if i >= a.len() {
                assert((a + b)[i] == b[i - a.len()]);
            }
        }
    }
}

/// After expansion no variable token is left at the top level: each became
/// a word, its value or the literal `$name`.
pub proof fn lemma_expansion_leaves_no_variables(ts: Seq<Lexeme>, status: i32, e: Seq<(Seq<char>, Seq<char>)>, ms: Seq<Seq<Seq<char>>>)
    ensures
        no_variables(glob_expand(expand_vars(ts, status, e), ms)),
{
    let x = expand_vars(ts, status, e);
    assert forall|i: int| 0 <= i < x.len() implies !(#[trigger] x[i] is Variable) by {
        assert(x[i] == expand_one(ts[i], status, e));
    }
    lemma_glob_keeps_no_variables(x, ms);
}

} // verus!
