//! The structured error every command reports: a code, a message, and optional detail and fix.
use vstd::prelude::*;

verus! {

/// What kind of failure an error is; each kind has its own process exit code.
#[derive(Clone, Copy, Debug, PartialEq, Eq, Structural)]
pub enum ErrorCode {
    Error,
    Network,
    AuthRequired,
    NotFound,
    RateLimited,
    InvalidInput,
    NoAccount,
}

impl ErrorCode {
    /// The process exit code of this kind of failure (1 to 7).
    pub open spec fn spec_exit_code(self) -> u8 {
        match self {
            ErrorCode::Error => 1,
            ErrorCode::Network => 2,
            ErrorCode::AuthRequired => 3,
            ErrorCode::NotFound => 4,
            ErrorCode::RateLimited => 5,
            ErrorCode::InvalidInput => 6,
            ErrorCode::NoAccount => 7,
        }
    }

    pub fn exit_code(&self) -> (r: u8)
        ensures
            r == self.spec_exit_code(),
    {
        match self {
            ErrorCode::Error => 1,
            ErrorCode::Network => 2,
            ErrorCode::AuthRequired => 3,
            ErrorCode::NotFound => 4,
            ErrorCode::RateLimited => 5,
            ErrorCode::InvalidInput => 6,
            ErrorCode::NoAccount => 7,
        }
    }

    /// The name of this kind of failure in the error envelope.
    pub open spec fn spec_name(self) -> Seq<char> {
        match self {
            ErrorCode::Error => "error"@,
            ErrorCode::Network => "network"@,
            ErrorCode::AuthRequired => "auth_required"@,
            ErrorCode::NotFound => "not_found"@,
            ErrorCode::RateLimited => "rate_limited"@,
            ErrorCode::InvalidInput => "invalid_input"@,
            ErrorCode::NoAccount => "no_account"@,
        }
    }

    /// The name of this kind of failure in the error envelope.
    pub fn name(&self) -> (r: &'static str)
        ensures
            r@ == self.spec_name(),
    {
        match self {
            ErrorCode::Error => "error",
            ErrorCode::Network => "network",
            ErrorCode::AuthRequired => "auth_required",
            ErrorCode::NotFound => "not_found",
            ErrorCode::RateLimited => "rate_limited",
            ErrorCode::InvalidInput => "invalid_input",
            ErrorCode::NoAccount => "no_account",
        }
    }
}

/// Each kind of failure exits with its own code.
pub proof fn lemma_exit_codes_distinct(a: ErrorCode, b: ErrorCode)
    ensures
        a != b ==> a.spec_exit_code() != b.spec_exit_code(),
        1 <= a.spec_exit_code() <= 7,
{
}

/// The documented exit codes: 1 `error`, 2 `network`, 3 `auth_required`, 4 `not_found`,
/// 5 `rate_limited`, 6 `invalid_input`, 7 `no_account`; each code goes with exactly its name.
pub proof fn lemma_exit_code_table(c: ErrorCode)
    ensures
        c.spec_exit_code() == 1 <==> c.spec_name() == "error"@,
        c.spec_exit_code() == 2 <==> c.spec_name() == "network"@,
        c.spec_exit_code() == 3 <==> c.spec_name() == "auth_required"@,
        c.spec_exit_code() == 4 <==> c.spec_name() == "not_found"@,
        c.spec_exit_code() == 5 <==> c.spec_name() == "rate_limited"@,
        c.spec_exit_code() == 6 <==> c.spec_name() == "invalid_input"@,
        c.spec_exit_code() == 7 <==> c.spec_name() == "no_account"@,
{
    reveal_strlit("error");
    assert("error"@.len() == 5);
    reveal_strlit("network");
    assert("network"@.len() == 7);
    reveal_strlit("auth_required");
    assert("auth_required"@.len() == 13);
    reveal_strlit("not_found");
    assert("not_found"@.len() == 9);
    reveal_strlit("rate_limited");
    assert("rate_limited"@.len() == 12);
    reveal_strlit("invalid_input");
    assert("invalid_input"@.len() == 13);
    reveal_strlit("no_account");
    assert("no_account"@.len() == 10);
    assert("auth_required"@[0] != "invalid_input"@[0]);
    match c {
        ErrorCode::Error => {},
        ErrorCode::Network => {},
        ErrorCode::AuthRequired => {},
        ErrorCode::NotFound => {},
        ErrorCode::RateLimited => {},
        ErrorCode::InvalidInput => {},
        ErrorCode::NoAccount => {},
    }
}

/// A failure: its kind, a one-line message, and optional detail and remediation.
#[derive(Debug)]
pub struct Error {
    pub code: ErrorCode,
    pub message: String,
    pub detail: Option<String>,
    pub fix: Option<String>,
}

impl Error {
    pub fn new(code: ErrorCode, message: String) -> (r: Error)
        ensures
            r.code == code,
            r.message@ == message@,
            r.detail is None,
            r.fix is None,
    {
        Error { code, message, detail: None, fix: None }
    }

    /// An `invalid_input` error.
    pub fn invalid(message: String) -> (r: Error)
        ensures
            r.code == ErrorCode::InvalidInput,
            r.message@ == message@,
            r.detail is None,
            r.fix is None,
    {
        Error::new(ErrorCode::InvalidInput, message)
    }

    /// An unclassified error.
    pub fn other(message: String) -> (r: Error)
        ensures
            r.code == ErrorCode::Error,
            r.message@ == message@,
            r.detail is None,
            r.fix is None,
    {
        Error::new(ErrorCode::Error, message)
    }

    /// A `not_found` error.
    pub fn not_found(message: String) -> (r: Error)
        ensures
            r.code == ErrorCode::NotFound,
            r.message@ == message@,
            r.detail is None,
            r.fix is None,
    {
        Error::new(ErrorCode::NotFound, message)
    }

    /// The same error with its detail set.
    pub fn detail(self, detail: String) -> (r: Error)
        ensures
            r.code == self.code,
            r.message == self.message,
            r.detail matches Some(d) && d@ == detail@,
            r.fix == self.fix,
    {
        Error { code: self.code, message: self.message, detail: Some(detail), fix: self.fix }
    }

    /// The same error with its remediation set.
    pub fn fix(self, fix: String) -> (r: Error)
        ensures
            r.code == self.code,
            r.message == self.message,
            r.detail == self.detail,
            r.fix matches Some(f) && f@ == fix@,
    {
        Error { code: self.code, message: self.message, detail: self.detail, fix: Some(fix) }
    }
}

} // verus!
