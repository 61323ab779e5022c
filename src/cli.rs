use vstd::prelude::*;

verus! {

/// The top-level commands of the command-line tool built around this
/// library. Each command's own arguments are parsed and run by the tool.
#[derive(Clone, Copy, Debug, PartialEq, Eq, Structural)]
pub enum ZkStackSubcommands {
    /// Create shell autocompletion files
    Autocomplete,
    /// Ecosystem related commands
    Ecosystem,
    /// Chain related commands
    Chain,
    /// Supervisor related commands
    Dev,
    /// Prover related commands
    Prover,
    /// Run server
    Server,
    /// External Node related commands
    ExternalNode,
    /// Run containers for local development
    Containers,
    /// Run contract verifier
    ContractVerifier,
    /// Run dapp-portal
    Portal,
    /// Run block-explorer
    Explorer,
    /// Consensus utilities
    Consensus,
    /// Update ZKsync
    Update,
    /// Print markdown help
    Markdown,
}

impl ZkStackSubcommands {
    /// Whether the command is left out of the help listing.
    pub open spec fn hidden(self) -> bool {
        self is Markdown
    }

    pub fn is_hidden(&self) -> (r: bool)
        ensures
            r == self.hidden(),
    {
        match self {
            ZkStackSubcommands::Markdown => true,
            _ => false,
        }
    }
}

} // verus!
