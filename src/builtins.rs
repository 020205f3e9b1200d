//! The builtins: commands that act on the shell's own state. Those that
//! touch the process (changing directory, setting variables, reading the
//! current directory) are decided here and carried out by the caller.

use vstd::prelude::*;
use vstd::utf8::encode_utf8;
use crate::cmdoutput::CmdOutput;
use crate::error::{BuiltinError, ShellError, bytes_of};
use crate::expand::{env_lookup, pair_view};
use crate::history::History;
use crate::text::{chars_of, concat, slice_chars, str_eq, string_of, strings_view};

verus! {

/// The builtin commands.
#[derive(Debug, Clone, Copy, PartialEq, Eq, Structural)]
pub enum Builtin {
    Alias,
    Cd,
    Exit,
    Export,
    History,
    Pwd,
}

/// The builtin a command name denotes, if any.
pub open spec fn builtin_named(n: Seq<char>) -> Option<Builtin> {
    if n == "alias"@ { Some(Builtin::Alias) }
    else if n == "cd"@ { Some(Builtin::Cd) }
    else if n == "exit"@ { Some(Builtin::Exit) }
    else if n == "export"@ { Some(Builtin::Export) }
    else if n == "history"@ { Some(Builtin::History) }
    else if n == "pwd"@ { Some(Builtin::Pwd) }
    else { None }
}

/// Looks a command name up in the builtin table.
pub fn match_builtin(command: &str) -> (r: Option<Builtin>)
    ensures
        r == builtin_named(command@),
{
    if str_eq(command, "alias") { Some(Builtin::Alias) }
    else if str_eq(command, "cd") { Some(Builtin::Cd) }
    else if str_eq(command, "exit") { Some(Builtin::Exit) }
    else if str_eq(command, "export") { Some(Builtin::Export) }
    else if str_eq(command, "history") { Some(Builtin::History) }
    else if str_eq(command, "pwd") { Some(Builtin::Pwd) }
    else { None }
}

/// The `exit` builtin: asks the shell to stop.
pub fn cmd_exit() -> (r: Result<CmdOutput, ShellError>)
    ensures
        r matches Err(ShellError::ExitRequest),
{
    Err(ShellError::ExitRequest)
}

/// Named command expansions, each name at most once.
pub struct Aliases {
    entries: Vec<(String, String)>,
}

pub open spec fn names_unique(s: Seq<(Seq<char>, Seq<char>)>) -> bool {
    forall|i: int, j: int| 0 <= i < j < s.len() ==> s[i].0 != s[j].0
}

/// `s` with `n` bound to `b`: in place when `n` is bound, else at the end.
pub open spec fn bind(s: Seq<(Seq<char>, Seq<char>)>, n: Seq<char>, b: Seq<char>) -> Seq<(Seq<char>, Seq<char>)> {
    if exists|i: int| 0 <= i < s.len() && s[i].0 == n {
        s.update(choose|i: int| 0 <= i < s.len() && s[i].0 == n, (n, b))
    } else {
        s.push((n, b))
    }
}

impl View for Aliases {
    type V = Seq<(Seq<char>, Seq<char>)>;

    closed spec fn view(&self) -> Seq<(Seq<char>, Seq<char>)> {
        self.entries@.map_values(|p: (String, String)| pair_view(p))
    }
}

impl Aliases {
    pub open spec fn wf(&self) -> bool {
        names_unique(self@)
    }

    /// No aliases.
    pub fn new() -> (r: Aliases)
        ensures
            r@.len() == 0,
            r.wf(),
    {
        let r = Aliases { entries: Vec::new() };
        assert(r@ =~= Seq::<(Seq<char>, Seq<char>)>::empty());
        r
    }

    /// The expansion of `name`, if it is an alias.
    pub fn get(&self, name: &str) -> (r: Option<String>)
        ensures
            match r {
                Some(v) => env_lookup(self@, name@) == Some(v@),
                None => env_lookup(self@, name@) is None,
            },
    {
        let ghost e = self@;
        let mut i: usize = 0;
        assert(e.subrange(0, e.len() as int) =~= e);
        while i < self.entries.len()
            invariant
                i <= self.entries@.len(),
                e == self@,
                e.len() == self.entries@.len(),
                env_lookup(e, name@) == env_lookup(e.subrange(i as int, e.len() as int), name@),
            decreases self.entries.len() - i,
        {
            let ghost rest = e.subrange(i as int, e.len() as int);
            assert(rest[0] == pair_view(self.entries@[i as int]));
            if str_eq(self.entries[i].0.as_str(), name) {
                return Some(self.entries[i].1.clone());
            }
            assert(rest.drop_first() =~= e.subrange(i + 1, e.len() as int));
            i += 1;
        }
        None
    }

    /// Binds `name` to `body`, replacing an earlier binding of `name`.
    pub fn set(&mut self, name: String, body: String)
        requires
            old(self).wf(),
        ensures
            final(self).wf(),
            final(self)@ == bind(old(self)@, name@, body@),
    {
        let ghost e = self@;
        let mut i: usize = 0;
        while i < self.entries.len()
            invariant
                i <= self.entries@.len(),
                e == self@,
                e == old(self)@,
                e.len() == self.entries@.len(),
                names_unique(e),
                forall|k: int| 0 <= k < i ==> e[k].0 != name@,
            decreases self.entries.len() - i,
        {
            assert(e[i as int] == pair_view(self.entries@[i as int]));
            if str_eq(self.entries[i].0.as_str(), name.as_str()) {
                let ghost nb = (name@, body@);
                assert(0 <= i < e.len() && e[i as int].0 == nb.0);
                self.entries.set(i, (name, body));
                assert(e.update(i as int, nb) =~= self@);
                assert(bind(e, nb.0, nb.1) == e.update(i as int, nb)) by {
                    let j = choose|j: int| 0 <= j < e.len() && e[j].0 == nb.0;
                    assert(j == i);
                }
                return;
            }
            i += 1;
        }
        let ghost nb = (name@, body@);
        self.entries.push((name, body));
        assert(e.push(nb) =~= self@);
    }

    /// The aliases, in the order they were first defined.
    pub fn entries(&self) -> (r: &Vec<(String, String)>)
        ensures
            r@.map_values(|p: (String, String)| pair_view(p)) == self@,
    {
        &self.entries
    }
}

/// The `alias NAME COMMAND` listing line of one alias.
pub open spec fn alias_line(p: (Seq<char>, Seq<char>)) -> Seq<char> {
    "alias "@ + p.0 + " "@ + p.1 + "\n"@
}

/// All listing lines, in order.
pub open spec fn alias_listing(s: Seq<(Seq<char>, Seq<char>)>) -> Seq<char>
    decreases s.len(),
{
    if s.len() == 0 {
        Seq::empty()
    } else {
        alias_listing(s.drop_last()) + alias_line(s.last())
    }
}

/// The arguments joined by single spaces.
pub open spec fn joined(args: Seq<Seq<char>>, sep: Seq<char>) -> Seq<char>
    decreases args.len(),
{
    if args.len() == 0 {
        Seq::empty()
    } else if args.len() == 1 {
        args[0]
    } else {
        joined(args.drop_last(), sep) + sep + args.last()
    }
}

/// The texts joined with `sep` between them.
pub fn join(args: &Vec<String>, sep: &str) -> (r: String)
    ensures
        r@ == joined(strings_view(args@), sep@),
{
    let ghost a = strings_view(args@);
    let mut out = String::new();
    let mut i: usize = 0;
    while i < args.len()
        invariant
            i <= args@.len(),
            a == strings_view(args@),
            out@ == joined(a.take(i as int), sep@),
        decreases args.len() - i,
    {
        assert(a.take(i + 1).drop_last() =~= a.take(i as int));
        if i == 0 {
            out = args[0].clone();
            assert(a.take(1) =~= seq![a[0]]);
        } else {
            let with_sep = concat(out.as_str(), sep);
            out = concat(with_sep.as_str(), args[i].as_str());
        }
        i += 1;
    }
    assert(a.take(i as int) =~= a);
    out
}

/// The position of the first `=` in `s`, if any.
pub open spec fn first_eq(s: Seq<char>) -> Option<int> {
    if exists|i: int| 0 <= i < s.len() && s[i] == '=' {
        Some(choose|i: int| 0 <= i < s.len() && s[i] == '=' && forall|k: int| 0 <= k < i ==> s[k] != '=')
    } else {
        None
    }
}

/// Splits at the first `=`: the text before it and the text after it.
pub fn split_assignment(s: &str) -> (r: Option<(String, String)>)
    ensures
        match r {
            Some((n, v)) => exists|i: int| 0 <= i < s@.len() && s@[i] == '='
                && (forall|k: int| 0 <= k < i ==> s@[k] != '=')
                && n@ == s@.take(i) && v@ == s@.skip(i + 1),
            None => forall|k: int| 0 <= k < s@.len() ==> s@[k] != '=',
        },
{
    let c = chars_of(s);
    let mut i: usize = 0;
    while i < c.len()
        invariant
            i <= c@.len(),
            c@ == s@,
            forall|k: int| 0 <= k < i ==> s@[k] != '=',
        decreases c.len() - i,
    {
        if c[i] == '=' {
            let n = string_of(&slice_chars(&c, 0, i));
            let v = string_of(&slice_chars(&c, i + 1, c.len()));
            assert(n@ =~= s@.take(i as int));
            assert(v@ =~= s@.skip(i + 1));
            return Some((n, v));
        }
        i += 1;
    }
    None
}

/// The `alias` builtin. With no arguments it lists every alias; otherwise
/// the arguments, joined by spaces, read `NAME=BODY` and bind NAME to BODY.
/// A missing or empty BODY fails with status 1.
pub fn cmd_alias(aliases: &mut Aliases, args: &Vec<String>) -> (r: Result<CmdOutput, ShellError>)
    requires
        old(aliases).wf(),
    ensures
        final(aliases).wf(),
        args@.len() == 0 ==> final(aliases)@ == old(aliases)@ && (r matches Ok(o) && o.status == 0
            && o.stdout@ == encode_utf8(alias_listing(old(aliases)@)) && o.stderr@.len() == 0),
        args@.len() > 0 ==> ({
            let j = joined(strings_view(args@), " "@);
            match r {
                Ok(o) => o.status == 0 && o.stdout@.len() == 0 && exists|i: int| 0 <= i < j.len() && j[i] == '='
                    && (forall|k: int| 0 <= k < i ==> j[k] != '=') && i + 1 < j.len()
                    && final(aliases)@ == bind(old(aliases)@, j.take(i), j.skip(i + 1)),
                Err(ShellError::Builtin(b)) => b.status == 1 && final(aliases)@ == old(aliases)@
                    && forall|i: int| 0 <= i < j.len() && j[i] == '=' && (forall|k: int| 0 <= k < i ==> j[k] != '=') ==> i + 1 == j.len(),
                Err(_) => false,
            }
        }),
{
    if args.len() == 0 {
        let ghost e = aliases@;
        let mut listing = String::new();
        let mut i: usize = 0;
        let es = aliases.entries();
        proof { reveal_strlit("alias "); reveal_strlit(" "); reveal_strlit("\n"); }
        while i < es.len()
            invariant
                i <= es@.len(),
                e == es@.map_values(|p: (String, String)| pair_view(p)),
                listing@ == alias_listing(e.take(i as int)),
            decreases es.len() - i,
        {
            assert(e.take(i + 1).drop_last() =~= e.take(i as int));
            let a = concat(listing.as_str(), "alias ");
            let b = concat(a.as_str(), es[i].0.as_str());
            let c = concat(b.as_str(), " ");
            let d = concat(c.as_str(), es[i].1.as_str());
            listing = concat(d.as_str(), "\n");
            assert(listing@ =~= alias_listing(e.take(i as int)) + alias_line(e[i as int]));
            i += 1;
        }
        assert(e.take(i as int) =~= e);
        let out = CmdOutput { status: 0, stdout: bytes_of(listing.as_str()), stderr: Vec::new() };
        return Ok(out);
    }
    let combined = join(args, " ");
    match split_assignment(combined.as_str()) {
        Some((name, body)) => {
            if body.as_str().is_empty() {
                let ghost j = combined@;
                assert forall|i: int| 0 <= i < j.len() && j[i] == '=' && (forall|k: int| 0 <= k < i ==> j[k] != '=') implies i + 1 == j.len() by {
                    let i0 = choose|i0: int| 0 <= i0 < j.len() && j[i0] == '=' && (forall|k: int| 0 <= k < i0 ==> j[k] != '=') && name@ == j.take(i0) && body@ == j.skip(i0 + 1);
                    if i < i0 { assert(j[i] != '='); }
                    if i0 < i { assert(j[i0] != '='); }
                }
                return Err(ShellError::Builtin(BuiltinError { status: 1, message: "alias: body cannot be empty".to_string() }));
            }
            aliases.set(name, body);
            Ok(CmdOutput::from_status(0))
        },
        None => Err(ShellError::Builtin(BuiltinError { status: 1, message: "alias: body cannot be empty".to_string() })),
    }
}

/// The entries of `h` equal to one of `args`, in order.
pub open spec fn listed(h: Seq<Seq<char>>, args: Seq<Seq<char>>) -> Seq<Seq<char>>
    decreases h.len(),
{
    if h.len() == 0 {
        h
    } else if args.contains(h.last()) {
        listed(h.drop_last(), args).push(h.last())
    } else {
        listed(h.drop_last(), args)
    }
}

fn contains_text(args: &Vec<String>, v: &str) -> (r: bool)
    ensures
        r == strings_view(args@).contains(v@),
{
    let ghost a = strings_view(args@);
    let mut i: usize = 0;
    while i < args.len()
        invariant
            i <= args@.len(),
            a == strings_view(args@),
            forall|k: int| 0 <= k < i ==> a[k] != v@,
        decreases args.len() - i,
    {
        if str_eq(args[i].as_str(), v) {
            assert(a[i as int] == v@);
            return true;
        }
        i += 1;
    }
    false
}

/// The `history` builtin: the entries joined by newlines; with arguments,
/// only the entries equal to one of them.
pub fn cmd_history(history: &History, args: &Vec<String>) -> (r: CmdOutput)
    ensures
        r.status == 0,
        r.stderr@.len() == 0,
        args@.len() == 0 ==> r.stdout@ == encode_utf8(joined(history@, "\n"@)),
        args@.len() > 0 ==> r.stdout@ == encode_utf8(joined(listed(history@, strings_view(args@)), "\n"@)),
{
    let values = history.get_values();
    if args.len() == 0 {
        let all = join(values, "\n");
        return CmdOutput { status: 0, stdout: bytes_of(all.as_str()), stderr: Vec::new() };
    }
    let ghost h = history@;
    let ghost a = strings_view(args@);
    let mut kept: Vec<String> = Vec::new();
    let mut i: usize = 0;
    while i < values.len()
        invariant
            i <= values@.len(),
            h == strings_view(values@),
            a == strings_view(args@),
            strings_view(kept@) == listed(h.take(i as int), a),
        decreases values.len() - i,
    {
        assert(h.take(i + 1).drop_last() =~= h.take(i as int));
        let ghost k0 = kept@;
        if contains_text(args, values[i].as_str()) {
            kept.push(values[i].clone());
            assert(strings_view(kept@) =~= strings_view(k0).push(h[i as int]));
        }
        i += 1;
    }
    assert(h.take(i as int) =~= h);
    let text = join(&kept, "\n");
    CmdOutput { status: 0, stdout: bytes_of(text.as_str()), stderr: Vec::new() }
}

/// Where `cd` goes.
#[derive(Debug)]
pub enum CdTarget {
    /// The directory named by `HOME`.
    Home,
    /// The directory named by `OLDPWD`, swapping with the current one.
    Previous,
    /// The given path.
    Path(String),
}

/// The `cd` builtin's decision: no argument goes home, `-` goes back, one
/// path goes there, and more arguments fail with status 1.
pub fn cmd_cd(args: &Vec<String>) -> (r: Result<CdTarget, ShellError>)
    ensures
        args@.len() == 0 ==> r matches Ok(CdTarget::Home),
        args@.len() == 1 && args@[0]@ == "-"@ ==> r matches Ok(CdTarget::Previous),
        args@.len() == 1 && args@[0]@ != "-"@ ==> (r matches Ok(CdTarget::Path(p)) && p@ == args@[0]@),
        args@.len() > 1 ==> (r matches Err(ShellError::Builtin(b)) && b.status == 1),
{
    if args.len() == 0 {
        Ok(CdTarget::Home)
    } else if args.len() == 1 {
        if str_eq(args[0].as_str(), "-") {
            Ok(CdTarget::Previous)
        } else {
            Ok(CdTarget::Path(args[0].clone()))
        }
    } else {
        Err(ShellError::Builtin(BuiltinError { status: 1, message: "cd: too many arguments".to_string() }))
    }
}

/// What `export` does.
#[derive(Debug)]
pub enum ExportAction {
    /// Run the external `env` program to show the environment.
    ShowEnvironment,
    /// Set each variable to its value, in order.
    Assign(Vec<(String, String)>),
}

/// The assignments that `NAME=VALUE` arguments make, in order; an argument
/// without `=`, or with nothing before it, makes none.
pub open spec fn assignments(args: Seq<Seq<char>>) -> Seq<(Seq<char>, Seq<char>)>
    decreases args.len(),
{
    if args.len() == 0 {
        Seq::empty()
    } else {
        let a = args.last();
        let rest = assignments(args.drop_last());
        match first_eq(a) {
            Some(i) => if i > 0 { rest.push((a.take(i), a.skip(i + 1))) } else { rest },
            None => rest,
        }
    }
}

proof fn lemma_first_eq(s: Seq<char>, i: int)
    requires
        0 <= i < s.len(),
        s[i] == '=',
        forall|k: int| 0 <= k < i ==> s[k] != '=',
    ensures
        first_eq(s) == Some(i),
{
    let j = choose|j: int| 0 <= j < s.len() && s[j] == '=' && forall|k: int| 0 <= k < j ==> s[k] != '=';
    assert(0 <= i < s.len() && s[i] == '=' && forall|k: int| 0 <= k < i ==> s[k] != '=');
    if j < i { assert(s[j] != '='); }
    if i < j { assert(s[i] != '='); }
}

/// The `export` builtin's decision: with no arguments show the environment,
/// else assign each `NAME=VALUE`, split at the first `=`, whose name is not
/// empty.
pub fn cmd_export(args: &Vec<String>) -> (r: ExportAction)
    ensures
        args@.len() == 0 ==> r matches ExportAction::ShowEnvironment,
        args@.len() > 0 ==> (r matches ExportAction::Assign(v)
            && v@.map_values(|p: (String, String)| pair_view(p)) == assignments(strings_view(args@))),
{
    if args.len() == 0 {
        return ExportAction::ShowEnvironment;
    }
    let ghost a = strings_view(args@);
    let mut out: Vec<(String, String)> = Vec::new();
    let mut i: usize = 0;
    while i < args.len()
        invariant
            i <= args@.len(),
            a == strings_view(args@),
            out@.map_values(|p: (String, String)| pair_view(p)) == assignments(a.take(i as int)),
        decreases args.len() - i,
    {
        assert(a.take(i + 1).drop_last() =~= a.take(i as int));
        let ghost o0 = out@;
        match split_assignment(args[i].as_str()) {
            Some((n, v)) => {
                proof {
                    let j = choose|j: int| 0 <= j < a[i as int].len() && a[i as int][j] == '='
                        && (forall|k: int| 0 <= k < j ==> a[i as int][k] != '=')
                        && n@ == a[i as int].take(j) && v@ == a[i as int].skip(j + 1);
                    lemma_first_eq(a[i as int], j);
                }
                if !n.as_str().is_empty() {
                    let ghost p = (n@, v@);
                    out.push((n, v));
                    assert(out@.map_values(|p: (String, String)| pair_view(p)) =~= o0.map_values(|p: (String, String)| pair_view(p)).push(p));
                }
            },
            None => {
                assert(first_eq(a[i as int]) is None);
            },
        }
        i += 1;
    }
    assert(a.take(i as int) =~= a);
    ExportAction::Assign(out)
}

/// The `pwd` builtin: the current directory and a newline.
pub fn cmd_pwd(cwd: &str) -> (r: CmdOutput)
    ensures
        r.status == 0,
        r.stdout@ == encode_utf8(cwd@ + "\n"@),
        r.stderr@.len() == 0,
{
    let line = concat(cwd, "\n");
    CmdOutput { status: 0, stdout: bytes_of(line.as_str()), stderr: Vec::new() }
}

} // verus!
