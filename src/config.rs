//! The shell's configuration: the prompt template.

use vstd::prelude::*;

verus! {

/// The whole configuration.
#[derive(Debug)]
pub struct ShellConfig {
    pub prompt: PromptConfig,
}

/// The `prompt` section.
#[derive(Debug)]
pub struct PromptConfig {
    /// The prompt template.
    pub ps1: String,
}

/// The prompt template used when no configuration file is present.
pub open spec fn default_ps1() -> Seq<char> {
    "[color=yellow]\u{3bb}sh[/color] $PWD [color=red]($?)[/color] >"@
}

/// The configuration used when no configuration file is present.
pub fn default() -> (r: ShellConfig)
    ensures
        r.prompt.ps1@ == default_ps1(),
{
    ShellConfig { prompt: PromptConfig { ps1: "[color=yellow]\u{3bb}sh[/color] $PWD [color=red]($?)[/color] >".to_string() } }
}

} // verus!
