//! The state the shell keeps for its whole life.

use vstd::prelude::*;
use crate::builtins::Aliases;
use crate::config::ShellConfig;
use crate::history::History;

verus! {

/// The last status, where the prompt was drawn, the terminal's size, the
/// history, the aliases and the configuration.
pub struct ShellState {
    pub status: i32,
    pub ps1pos: (u16, u16),
    pub termsize: (u16, u16),
    pub history: History,
    pub aliases: Aliases,
    pub config: ShellConfig,
}

impl ShellState {
    /// A fresh state: status 0 and no aliases.
    pub fn new(config: ShellConfig, history: History, termsize: (u16, u16)) -> (r: ShellState)
        ensures
            r.status == 0,
            r.ps1pos == (0u16, 0u16),
            r.termsize == termsize,
            r.history@ == history@,
            r.aliases@.len() == 0,
            r.aliases.wf(),
            r.config == config,
    {
        ShellState { status: 0, ps1pos: (0, 0), termsize, history, aliases: Aliases::new(), config }
    }

    /// Records a new terminal size.
    pub fn update_size(&mut self, width: u16, height: u16)
        ensures
            final(self).termsize == (width, height),
            final(self).status == old(self).status,
            final(self).ps1pos == old(self).ps1pos,
            final(self).history@ == old(self).history@,
            final(self).aliases@ == old(self).aliases@,
    {
        self.termsize = (width, height);
    }
}

} // verus!
