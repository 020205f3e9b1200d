//! Completion sessions: the first Tab collects candidates; with several of
//! them a session starts, and further Tabs cycle through them.

use vstd::prelude::*;
use crate::text::{chars_of, slice_chars, string_of, strings_view};

verus! {

/// An active session: the candidates and the highlighted one, if any yet.
#[derive(Debug)]
pub struct AutocompleteState {
    pub index: Option<usize>,
    pub items: Vec<String>,
}

/// The completion state of the line being edited.
#[derive(Debug)]
pub struct Autocomplete {
    state: Option<AutocompleteState>,
}

/// What completion works on: command names from `PATH`, or paths.
#[derive(Debug, Clone, Copy, PartialEq, Eq, Structural)]
pub enum CompletionMode {
    Command,
    Path,
}

pub struct SessionModel {
    pub index: Option<nat>,
    pub items: Seq<Seq<char>>,
}

impl View for Autocomplete {
    type V = Option<SessionModel>;

    closed spec fn view(&self) -> Option<SessionModel> {
        match self.state {
            Some(s) => Some(SessionModel {
                index: match s.index {
                    Some(i) => Some(i as nat),
                    None => None,
                },
                items: strings_view(s.items@),
            }),
            None => None,
        }
    }
}

/// The index highlighted after one more Tab in a session.
pub open spec fn next_index(s: SessionModel) -> nat {
    match s.index {
        Some(i) => if i + 1 < s.items.len() { (i + 1) as nat } else { 0 },
        None => 0,
    }
}

impl Autocomplete {
    /// A session has at least two candidates and highlights one of them.
    pub open spec fn wf(&self) -> bool {
        self@ matches Some(s) ==> s.items.len() >= 2 && (s.index matches Some(i) ==> i < s.items.len())
    }

    /// No session.
    pub fn new() -> (r: Autocomplete)
        ensures
            r@ is None,
            r.wf(),
    {
        Autocomplete { state: None }
    }

    /// Whether a session is active, so that Tab needs no new candidates.
    pub fn is_active(&self) -> (r: bool)
        ensures
            r == (self@ is Some),
    {
        self.state.is_some()
    }

    /// The active session's candidates and highlighted index.
    pub fn session(&self) -> (r: &Option<AutocompleteState>)
        ensures
            (r is Some) == (self@ is Some),
    {
        &self.state
    }

    /// One Tab. In a session, highlights the next candidate (wrapping) and
    /// returns it. Otherwise `found` are the candidates for the current
    /// input: none completes nothing, one completes to it at once, and
    /// several start a session with the first one highlighted, without
    /// completing yet.
    pub fn complete(&mut self, found: Vec<String>) -> (r: Option<String>)
        requires
            old(self).wf(),
        ensures
            final(self).wf(),
            old(self)@ matches Some(s) ==> ({
                let i = next_index(s);
                &&& final(self)@ == Some(SessionModel { index: Some(i), items: s.items })
                &&& r matches Some(c) && c@ == s.items[i as int]
            }),
            old(self)@ is None && found@.len() == 0 ==> final(self)@ is None && r is None,
            old(self)@ is None && found@.len() == 1 ==> final(self)@ is None && (r matches Some(c) && c@ == found@[0]@),
            old(self)@ is None && found@.len() >= 2 ==> r is None
                && final(self)@ == Some(SessionModel { index: Some(0), items: strings_view(found@) }),
    {
        match &mut self.state {
            Some(astate) => {
                let i: usize = match astate.index {
                    Some(i) => if i < astate.items.len() - 1 { i + 1 } else { 0 },
                    None => 0,
                };
                astate.index = Some(i);
                Some(astate.items[i].clone())
            },
            None => {
                if found.len() == 0 {
                    None
                } else if found.len() == 1 {
                    Some(found[0].clone())
                } else {
                    self.state = Some(AutocompleteState { index: Some(0), items: found });
                    None
                }
            },
        }
    }

    /// Ends the session.
    pub fn reset(&mut self)
        ensures
            final(self)@ is None,
            final(self).wf(),
    {
        self.state = None;
    }
}

/// Path completion when the input starts with `cd ` or holds a `/` or a `.`;
/// command completion otherwise.
pub open spec fn mode_of(expr: Seq<char>) -> CompletionMode {
    if (expr.len() >= 3 && expr.take(3) == "cd "@) || expr.contains('/') || expr.contains('.') {
        CompletionMode::Path
    } else {
        CompletionMode::Command
    }
}

/// Chooses the completion mode for the input.
pub fn completion_mode(expr: &str) -> (r: CompletionMode)
    ensures
        r == mode_of(expr@),
{
    let c = chars_of(expr);
    proof { reveal_strlit("cd "); }
    if c.len() >= 3 && c[0] == 'c' && c[1] == 'd' && c[2] == ' ' {
        assert(expr@.take(3) =~= "cd "@);
        return CompletionMode::Path;
    }
    assert(!(expr@.len() >= 3 && expr@.take(3) == "cd "@)) by {
        if expr@.len() >= 3 && expr@.take(3) == "cd "@ {
            assert(expr@.take(3)[0] == 'c' && expr@.take(3)[1] == 'd' && expr@.take(3)[2] == ' ');
        }
    }
    let mut i: usize = 0;
    while i < c.len()
        invariant
            i <= c@.len(),
            c@ == expr@,
            forall|k: int| 0 <= k < i ==> c@[k] != '/' && c@[k] != '.',
        decreases c.len() - i,
    {
        if c[i] == '/' || c[i] == '.' {
            assert(expr@[i as int] == c[i as int]);
            return CompletionMode::Path;
        }
        i += 1;
    }
    CompletionMode::Command
}

/// The directory to list and the prefix to match for path completion: the
/// input split at its last `/`, with `.` when there is none.
pub open spec fn path_parts(expr: Seq<char>) -> (Seq<char>, Seq<char>) {
    if exists|i: int| 0 <= i < expr.len() && expr[i] == '/' {
        let i = choose|i: int| 0 <= i < expr.len() && expr[i] == '/' && forall|k: int| i < k < expr.len() ==> expr[k] != '/';
        (if i == 0 { seq!['/'] } else { expr.take(i) }, expr.skip(i + 1))
    } else {
        (seq!['.'], expr)
    }
}

/// Splits the input for path completion into the directory to list and the
/// prefix to match.
pub fn split_path(expr: &str) -> (r: (String, String))
    ensures
        (r.0@, r.1@) == path_parts(expr@),
{
    let c = chars_of(expr);
    let mut k: usize = c.len();
    while k > 0
        invariant
            k <= c@.len(),
            c@ == expr@,
            forall|j: int| k <= j < c@.len() ==> c@[j] != '/',
        decreases k,
    {
        if c[k - 1] == '/' {
            let i = k - 1;
            let ghost pick = choose|i: int| 0 <= i < expr@.len() && expr@[i] == '/' && forall|k: int| i < k < expr@.len() ==> expr@[k] != '/';
            assert(pick == i as int) by {
                if pick < i { assert(expr@[i as int] != '/'); }
                if pick > i { assert(expr@[pick] != '/'); }
            }
            let dir = if i == 0 {
                let v: Vec<char> = vec!['/'];
                assert(v@ =~= seq!['/']);
                string_of(&v)
            } else {
                let d = string_of(&slice_chars(&c, 0, i));
                assert(d@ =~= expr@.take(i as int));
                d
            };
            let rest = string_of(&slice_chars(&c, i + 1, c.len()));
            assert(rest@ =~= expr@.skip(i + 1));
            return (dir, rest);
        }
        k -= 1;
    }
    let v: Vec<char> = vec!['.'];
    assert(v@ =~= seq!['.']);
    (string_of(&v), string_of(&c))
}

/// Whether `p` is a prefix of `s`.
pub open spec fn is_prefix(p: Seq<char>, s: Seq<char>) -> bool {
    p.len() <= s.len() && s.take(p.len() as int) == p
}

/// Whether `name` starts with `prefix`.
pub fn starts_with(name: &str, prefix: &str) -> (r: bool)
    ensures
        r == is_prefix(prefix@, name@),
{
    let n = chars_of(name);
    let p = chars_of(prefix);
    if p.len() > n.len() {
        return false;
    }
    let mut i: usize = 0;
    while i < p.len()
        invariant
            i <= p@.len() <= n@.len(),
            n@ == name@,
            p@ == prefix@,
            forall|k: int| 0 <= k < i ==> n@[k] == p@[k],
        decreases p.len() - i,
    {
        if n[i] != p[i] {
            assert(name@.take(prefix@.len() as int)[i as int] != prefix@[i as int]);
            return false;
        }
        i += 1;
    }
    assert(name@.take(prefix@.len() as int) =~= prefix@);
    true
}

/// The candidates among `names` that start with `prefix`, in order.
pub open spec fn with_prefix(names: Seq<Seq<char>>, prefix: Seq<char>) -> Seq<Seq<char>>
    decreases names.len(),
{
    if names.len() == 0 {
        names
    } else if is_prefix(prefix, names.last()) {
        with_prefix(names.drop_last(), prefix).push(names.last())
    } else {
        with_prefix(names.drop_last(), prefix)
    }
}

/// Keeps the names that start with `prefix`.
pub fn filter_prefix(names: Vec<String>, prefix: &str) -> (r: Vec<String>)
    ensures
        strings_view(r@) == with_prefix(strings_view(names@), prefix@),
{
    let ghost ns = strings_view(names@);
    let mut out: Vec<String> = Vec::new();
    let mut i: usize = 0;
    while i < names.len()
        invariant
            i <= names@.len(),
            ns == strings_view(names@),
            strings_view(out@) == with_prefix(ns.take(i as int), prefix@),
        decreases names.len() - i,
    {
        assert(ns.take(i + 1).drop_last() =~= ns.take(i as int));
        let ghost o0 = out@;
        if starts_with(names[i].as_str(), prefix) {
            out.push(names[i].clone());
            assert(strings_view(out@) =~= strings_view(o0).push(ns[i as int]));
        }
        i += 1;
    }
    assert(ns.take(i as int) =~= ns);
    out
}

/// Code-point order on texts, the order of `str`'s comparison.
pub open spec fn text_le(a: Seq<char>, b: Seq<char>) -> bool
    decreases a.len(),
{
    if a.len() == 0 {
        true
    } else if b.len() == 0 {
        false
    } else if a[0] != b[0] {
        a[0] < b[0]
    } else {
        text_le(a.drop_first(), b.drop_first())
    }
}

pub open spec fn sorted(s: Seq<Seq<char>>) -> bool {
    forall|i: int, j: int| 0 <= i < j < s.len() ==> text_le(#[trigger] s[i], #[trigger] s[j])
}

proof fn lemma_text_le_total(a: Seq<char>, b: Seq<char>)
    ensures
        text_le(a, b) || text_le(b, a),
    decreases a.len(),
{
    if a.len() > 0 && b.len() > 0 && a[0] == b[0] {
        lemma_text_le_total(a.drop_first(), b.drop_first());
    }
}

proof fn lemma_text_le_trans(a: Seq<char>, b: Seq<char>, c: Seq<char>)
    requires
        text_le(a, b),
        text_le(b, c),
    ensures
        text_le(a, c),
    decreases a.len(),
{
    if a.len() > 0 && b.len() > 0 && c.len() > 0 && a[0] == b[0] && b[0] == c[0] {
        lemma_text_le_trans(a.drop_first(), b.drop_first(), c.drop_first());
    }
}

/// Whether `a` comes before `b` or equals it, in code-point order.
pub fn text_le_exec(a: &str, b: &str) -> (r: bool)
    ensures
        r == text_le(a@, b@),
{
    let x = chars_of(a);
    let y = chars_of(b);
    let mut i: usize = 0;
    assert(a@.skip(0) =~= a@);
    assert(b@.skip(0) =~= b@);
    while i < x.len()
        invariant
            i <= x@.len(),
            x@ == a@,
            y@ == b@,
            i <= y@.len(),
            text_le(a@, b@) == text_le(a@.skip(i as int), b@.skip(i as int)),
        decreases x.len() - i,
    {
        if i == y.len() {
            return false;
        }
        assert(a@.skip(i as int).drop_first() =~= a@.skip(i + 1));
        assert(b@.skip(i as int).drop_first() =~= b@.skip(i + 1));
        assert(a@.skip(i as int)[0] == x@[i as int]);
        assert(b@.skip(i as int)[0] == y@[i as int]);
        if x[i] != y[i] {
            return x[i] < y[i];
        }
        i += 1;
    }
    true
}

/// The names in code-point order.
pub fn sort_names(names: Vec<String>) -> (r: Vec<String>)
    ensures
        sorted(strings_view(r@)),
        strings_view(r@).to_multiset() == strings_view(names@).to_multiset(),
{
    broadcast use vstd::seq_lib::group_to_multiset_ensures;
    let ghost ns = strings_view(names@);
    let mut out: Vec<String> = Vec::new();
    let mut i: usize = 0;
    assert(strings_view(out@) =~= ns.take(0));
    while i < names.len()
        invariant
            i <= names@.len(),
            ns == strings_view(names@),
            sorted(strings_view(out@)),
            strings_view(out@).to_multiset() == ns.take(i as int).to_multiset(),
        decreases names.len() - i,
    {
        let x = names[i].clone();
        let ghost o = strings_view(out@);
        let mut p: usize = 0;
        while p < out.len() && text_le_exec(out[p].as_str(), x.as_str())
            invariant
                p <= out@.len(),
                o == strings_view(out@),
                forall|k: int| 0 <= k < p ==> text_le(#[trigger] o[k], x@),
            decreases out.len() - p,
        {
            p += 1;
        }
        proof {
            if p < o.len() {
                lemma_text_le_total(o[p as int], x@);
            }
        }
        out.insert(p, x);
        proof {
            let n = strings_view(out@);
            assert(n =~= o.insert(p as int, x@));
            assert forall|a: int, b: int| 0 <= a < b < n.len() implies text_le(#[trigger] n[a], #[trigger] n[b]) by {
                if b < p {
                    assert(n[a] == o[a] && n[b] == o[b]);
                } else if b == p {
                    assert(n[a] == o[a]);
                } else if a == p {
                    assert(n[b] == o[b - 1]);
                    if b - 1 > p {
                        lemma_text_le_trans(x@, o[p as int], o[b - 1]);
                    }
                } else if a < p {
                    assert(n[a] == o[a] && n[b] == o[b - 1]);
                } else {
                    assert(n[a] == o[a - 1] && n[b] == o[b - 1]);
                }
            }
            vstd::seq_lib::to_multiset_insert(o, p as int, x@);
            assert(ns.take(i + 1) =~= ns.take(i as int).push(ns[i as int]));
            vstd::seq_lib::to_multiset_build(ns.take(i as int), ns[i as int]);
        }
        i += 1;
    }
    assert(ns.take(i as int) =~= ns);
    out
}

/// The completion candidates among `names`: those that start with
/// `prefix`, in code-point order.
pub fn select_candidates(names: Vec<String>, prefix: &str) -> (r: Vec<String>)
    ensures
        sorted(strings_view(r@)),
        strings_view(r@).to_multiset() == with_prefix(strings_view(names@), prefix@).to_multiset(),
{
    sort_names(filter_prefix(names, prefix))
}

} // verus!
