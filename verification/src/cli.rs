//! Command-line facing data: the options the bot runner accepts.

use vstd::prelude::*;

verus! {

/// Options for running the bot: where the API token comes from and whether
/// to register the command list on startup.
#[derive(Debug, Default)]
pub struct RunArgs {
    /// Path to a file containing the bot token.
    pub bot_token_file: Option<String>,
    /// The bot token itself.
    pub bot_token: Option<String>,
    /// Set bot commands on startup.
    pub set_my_commands: bool,
}

} // verus!
