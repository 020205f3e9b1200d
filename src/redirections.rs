//! The redirection engine's plan: which files to open, in which mode, which
//! one supplies the input and which one receives the output. The caller
//! performs the file operations in the planned order.

use vstd::prelude::*;
use crate::expression::{Redirection, RedirectionModel};
use crate::tokenizer::RedirectionType;

verus! {

/// Where a command's input comes from.
#[derive(Debug)]
pub enum InputSource {
    /// No input redirection: the pipeline decides.
    Unredirected,
    /// The contents of a file.
    File(String),
    /// An empty buffer (a here-document, whose body is not captured).
    Empty,
}

/// The input redirections of a command, in the order they are handled.
#[derive(Debug)]
pub struct InputPlan {
    /// Files opened and closed at once, for their side effects.
    pub probe: Vec<String>,
    /// What the command reads.
    pub source: InputSource,
}

/// An output file and how it is opened.
#[derive(Debug)]
pub struct OutputTarget {
    pub path: String,
    /// Truncate (`>`) or append (`>>`).
    pub truncate: bool,
}

/// The output redirections of a command, in the order they are handled.
#[derive(Debug)]
pub struct OutputPlan {
    /// Files created or opened without receiving anything.
    pub touch: Vec<OutputTarget>,
    /// The file that receives the output, if any.
    pub receiver: Option<OutputTarget>,
}

pub open spec fn targets(rs: Seq<RedirectionModel>) -> Seq<Seq<char>> {
    rs.map_values(|r: RedirectionModel| r.target)
}

pub open spec fn redir_view(rs: Seq<Redirection>) -> Seq<RedirectionModel> {
    rs.map_values(|r: Redirection| r@)
}

pub open spec fn output_view(o: OutputTarget) -> (Seq<char>, bool) {
    (o.path@, o.truncate)
}

/// Plans the input redirections: all but the last are only opened; the last
/// one supplies the input, a file's contents or, for a here-document,
/// nothing.
pub fn handle_input_redirections(redirections: &Vec<Redirection>) -> (r: InputPlan)
    ensures
        redirections@.len() == 0 ==> r.probe@.len() == 0 && r.source is Unredirected,
        redirections@.len() > 0 ==> ({
            let rs = redir_view(redirections@);
            let last = rs.last();
            &&& r.probe@.map_values(|s: String| s@) == targets(rs.drop_last())
            &&& last.rtype == RedirectionType::Heredoc ==> r.source is Empty
            &&& last.rtype != RedirectionType::Heredoc ==> (r.source matches InputSource::File(p) && p@ == last.target)
        }),
{
    let ghost rs = redir_view(redirections@);
    let mut probe: Vec<String> = Vec::new();
    let n = redirections.len();
    if n == 0 {
        return InputPlan { probe, source: InputSource::Unredirected };
    }
    let mut i: usize = 0;
    while i + 1 < n
        invariant
            n == redirections@.len(),
            n > 0,
            i <= n - 1,
            rs == redir_view(redirections@),
            probe@.map_values(|s: String| s@) == targets(rs.take(i as int)),
        decreases n - i,
    {
        let ghost p0 = probe@;
        assert(rs[i as int].target == redirections@[i as int].target@);
        probe.push(redirections[i].target.clone());
        assert(probe@.map_values(|s: String| s@) =~= p0.map_values(|s: String| s@).push(rs[i as int].target));
        assert(targets(rs.take(i + 1)) =~= targets(rs.take(i as int)).push(rs[i as int].target));
        i += 1;
    }
    assert(rs.take(i as int) =~= rs.drop_last());
    let last = &redirections[n - 1];
    let source = if last.rtype == RedirectionType::Heredoc {
        InputSource::Empty
    } else {
        InputSource::File(last.target.clone())
    };
    InputPlan { probe, source }
}

/// Plans the output redirections: every file is opened, `>` truncating and
/// `>>` appending, so that each exists afterwards; only the last receives
/// the output.
pub fn handle_output_redirections(redirections: &Vec<Redirection>) -> (r: OutputPlan)
    ensures
        redirections@.len() == 0 ==> r.touch@.len() == 0 && r.receiver is None,
        redirections@.len() > 0 ==> ({
            let rs = redir_view(redirections@);
            &&& r.touch@.len() == rs.len() - 1
            &&& forall|k: int| 0 <= k < rs.len() - 1 ==> #[trigger] output_view(r.touch@[k])
                == (rs[k].target, rs[k].rtype != RedirectionType::Append)
            &&& (r.receiver matches Some(o) && output_view(o)
                == (rs.last().target, rs.last().rtype != RedirectionType::Append))
        }),
{
    let ghost rs = redir_view(redirections@);
    let mut touch: Vec<OutputTarget> = Vec::new();
    let n = redirections.len();
    if n == 0 {
        return OutputPlan { touch, receiver: None };
    }
    let mut i: usize = 0;
    while i + 1 < n
        invariant
            n == redirections@.len(),
            n > 0,
            i <= n - 1,
            rs == redir_view(redirections@),
            touch@.len() == i,
            forall|k: int| 0 <= k < i ==> #[trigger] output_view(touch@[k])
                == (rs[k].target, rs[k].rtype != RedirectionType::Append),
        decreases n - i,
    {
        let r = &redirections[i];
        touch.push(OutputTarget { path: r.target.clone(), truncate: r.rtype != RedirectionType::Append });
        i += 1;
    }
    let last = &redirections[n - 1];
    let receiver = Some(OutputTarget { path: last.target.clone(), truncate: last.rtype != RedirectionType::Append });
    OutputPlan { touch, receiver }
}

} // verus!
