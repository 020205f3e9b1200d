//! The result of running a command: its status and what it wrote.

use vstd::prelude::*;

verus! {

/// A finished command's status and captured output streams. It is also what
/// one stage of a pipeline hands to the next.
#[derive(Debug)]
pub struct CmdOutput {
    pub status: i32,
    pub stdout: Vec<u8>,
    pub stderr: Vec<u8>,
}

impl CmdOutput {
    /// Status 0 with nothing written.
    pub fn new() -> (r: CmdOutput)
        ensures
            r.status == 0,
            r.stdout@.len() == 0,
            r.stderr@.len() == 0,
    {
        CmdOutput { status: 0, stdout: Vec::new(), stderr: Vec::new() }
    }

    /// The given status with nothing written.
    pub fn from_status(exitcode: i32) -> (r: CmdOutput)
        ensures
            r.status == exitcode,
            r.stdout@.len() == 0,
            r.stderr@.len() == 0,
    {
        CmdOutput { status: exitcode, stdout: Vec::new(), stderr: Vec::new() }
    }

    /// Appends what `out` wrote to standard output to this output's.
    pub fn combine(&mut self, out: &CmdOutput)
        ensures
            final(self).stdout@ == old(self).stdout@ + out.stdout@,
            final(self).stderr@ == old(self).stderr@,
            final(self).status == old(self).status,
    {
        let ghost s0 = self.stdout@;
        let mut i: usize = 0;
        while i < out.stdout.len()
            invariant
                i <= out.stdout@.len(),
                self.stdout@ == s0 + out.stdout@.take(i as int),
                self.stderr@ == old(self).stderr@,
                self.status == old(self).status,
            decreases out.stdout.len() - i,
        {
            self.stdout.push(out.stdout[i]);
            i += 1;
            assert(self.stdout@ =~= s0 + out.stdout@.take(i as int));
        }
        assert(out.stdout@.take(i as int) =~= out.stdout@);
    }
}

/// The status a finished child reports: its exit code, or 128 plus the
/// signal that ended it. A child with neither, or a signal too large to add
/// to 128, counts as an internal failure, 128.
pub open spec fn child_status(code: Option<i32>, signal: Option<i32>) -> i32 {
    match code {
        Some(c) => c,
        None => match signal {
            Some(s) => if 0 <= s <= i32::MAX - 128 { (128 + s) as i32 } else { 128 },
            None => 128,
        },
    }
}

/// Maps how a child ended to its status.
pub fn exit_status(code: Option<i32>, signal: Option<i32>) -> (r: i32)
    ensures
        r == child_status(code, signal),
{
    match code {
        Some(c) => c,
        None => match signal {
            Some(s) => if 0 <= s && s <= i32::MAX - 128 { 128 + s } else { 128 },
            None => 128,
        },
    }
}

} // verus!
