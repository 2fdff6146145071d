//! The command line as values: the commands and their arguments.
use vstd::prelude::*;

verus! {

/// A parsed command line.
#[derive(Debug)]
pub struct Cli {
    /// Print raw JSON instead of YAML.
    pub json: bool,
    pub command: Command,
}

#[derive(Debug)]
pub enum Command {
    /// Upload a file or folder and get a read-only SAS URL.
    Upload(UploadArgs),
    /// Configure a profile with credentials.
    Login(LoginArgs),
    /// Manage configured profiles and stored credentials.
    Accounts(AccountsCommand),
    /// Print the operating manual for an agent.
    AgentReadme,
}

#[derive(Debug)]
pub struct UploadArgs {
    /// Profile name, or the path when the profile comes from `account`.
    pub first: String,
    /// The path, when `first` is the profile name.
    pub second: Option<String>,
    pub account: Option<String>,
    /// Overrides the profile's container.
    pub container: Option<String>,
    /// Zip even a single file.
    pub zipped: bool,
    /// Expiry date, `YYYY-MM-DD` or an RFC 3339 date-time.
    pub expires: Option<String>,
    /// Expiry in hours from now.
    pub expiry_hours: Option<u64>,
    pub endpoint: Option<String>,
    /// A SAS token to use for both upload and read.
    pub sas_token: Option<String>,
}

#[derive(Debug)]
pub struct LoginArgs {
    pub name: String,
    pub account_name: Option<String>,
    pub container: Option<String>,
    pub key: Option<String>,
    pub key_stdin: bool,
    pub endpoint: Option<String>,
    pub force: bool,
    pub skip_verify: bool,
}

#[derive(Debug)]
pub enum AccountsCommand {
    Add {
        name: String,
        account_name: Option<String>,
        container: Option<String>,
        key: Option<String>,
        key_stdin: bool,
        endpoint: Option<String>,
        force: bool,
        skip_verify: bool,
    },
    List { check: bool },
    Test { name: String },
    Remove { name: String, yes: bool },
}

} // verus!
