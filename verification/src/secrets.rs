//! The secrets kept in the credential store of the system: where each is
//! kept, how an answer of the store is read, and what is said when the
//! store fails.

use vstd::prelude::*;
use vstd::string::*;

verus! {

/// A secret that is kept.
#[derive(Clone, Copy, Debug, PartialEq, Eq, Structural)]
pub enum SecretKind {
    RefreshToken,
    ApiKey,
}

/// What was asked of the store when it failed.
#[derive(Clone, Copy, Debug, PartialEq, Eq, Structural)]
pub enum SecretStep {
    Open,
    Save,
    Read,
    Clear,
}

/// The answer of the store to a lookup or a removal: what it holds under
/// the entry, that it holds nothing there, or why it could not tell.
#[derive(Debug, PartialEq, Eq)]
pub enum StoreAnswer {
    Found(String),
    NoEntry,
    Failed(String),
}

pub enum StoreAnswerView {
    Found(Seq<char>),
    NoEntry,
    Failed(Seq<char>),
}

impl View for StoreAnswer {
    type V = StoreAnswerView;

    open spec fn view(&self) -> StoreAnswerView {
        match self {
            StoreAnswer::Found(secret) => StoreAnswerView::Found(secret@),
            StoreAnswer::NoEntry => StoreAnswerView::NoEntry,
            StoreAnswer::Failed(cause) => StoreAnswerView::Failed(cause@),
        }
    }
}

impl SecretKind {
    /// The account under which the secret is kept.
    pub open spec fn account_text(self) -> Seq<char> {
        match self {
            SecretKind::RefreshToken => "oauth-refresh-token"@,
            SecretKind::ApiKey => "openai-api-key"@,
        }
    }

    /// What the secret is called in messages.
    pub open spec fn label_text(self) -> Seq<char> {
        match self {
            SecretKind::RefreshToken => "refresh token"@,
            SecretKind::ApiKey => "API key"@,
        }
    }

    pub fn account(self) -> (r: &'static str)
        ensures
            r@ == self.account_text(),
    {
        match self {
            SecretKind::RefreshToken => "oauth-refresh-token",
            SecretKind::ApiKey => "openai-api-key",
        }
    }

    pub fn label(self) -> (r: &'static str)
        ensures
            r@ == self.label_text(),
    {
        match self {
            SecretKind::RefreshToken => "refresh token",
            SecretKind::ApiKey => "API key",
        }
    }
}

/// The service under which all secrets are kept.
pub fn service() -> (r: &'static str)
    ensures
        r@ == "codex-app-for-windows"@,
{
    "codex-app-for-windows"
}

/// What is said when the store fails: what was asked of it, and the cause
/// that it gave.
pub open spec fn failure_text(kind: SecretKind, step: SecretStep, cause: Seq<char>) -> Seq<char> {
    match step {
        SecretStep::Open => "Token store unavailable: "@ + cause,
        SecretStep::Save => "Failed to save "@ + kind.label_text() + ": "@ + cause,
        SecretStep::Read => "Failed to read "@ + kind.label_text() + ": "@ + cause,
        SecretStep::Clear => "Failed to clear "@ + kind.label_text() + ": "@ + cause,
    }
}

/// What is said when the store fails.
pub fn failure_message(kind: SecretKind, step: SecretStep, cause: &str) -> (r: String)
    ensures
        r@ == failure_text(kind, step, cause@),
{
    let mut message = match step {
        SecretStep::Open => "Token store unavailable: ".to_owned(),
        SecretStep::Save => "Failed to save ".to_owned(),
        SecretStep::Read => "Failed to read ".to_owned(),
        SecretStep::Clear => "Failed to clear ".to_owned(),
    };
    match step {
        SecretStep::Open => {},
        _ => {
            message.append(kind.label());
            message.append(": ");
        },
    }
    message.append(cause);
    message
}

/// What a lookup of a secret comes to: the secret, nothing where the store
/// holds none, and an error only where the store failed.
pub open spec fn loaded_of(kind: SecretKind, answer: StoreAnswerView) -> Result<
    Option<Seq<char>>,
    Seq<char>,
> {
    match answer {
        StoreAnswerView::Found(secret) => Ok(Some(secret)),
        StoreAnswerView::NoEntry => Ok(None),
        StoreAnswerView::Failed(cause) => Err(failure_text(kind, SecretStep::Read, cause)),
    }
}

/// What a lookup of a secret comes to.
pub fn loaded_secret(kind: SecretKind, answer: StoreAnswer) -> (r: Result<Option<String>, String>)
    ensures
        match r {
            Ok(Some(secret)) => loaded_of(kind, answer@) == Ok::<Option<Seq<char>>, Seq<char>>(
                Some(secret@),
            ),
            Ok(None) => loaded_of(kind, answer@) == Ok::<Option<Seq<char>>, Seq<char>>(None),
            Err(message) => loaded_of(kind, answer@) == Err::<Option<Seq<char>>, Seq<char>>(
                message@,
            ),
        },
{
    match answer {
        StoreAnswer::Found(secret) => Ok(Some(secret)),
        StoreAnswer::NoEntry => Ok(None),
        StoreAnswer::Failed(cause) => Err(failure_message(kind, SecretStep::Read, cause.as_str())),
    }
}

/// What a removal of a secret comes to: a secret that was not there counts
/// as removed, and only a failure of the store is an error.
pub fn cleared_secret(kind: SecretKind, answer: StoreAnswer) -> (r: Result<(), String>)
    ensures
        match r {
            Ok(_) => !(answer is Failed),
            Err(message) => answer matches StoreAnswer::Failed(cause) && message@ == failure_text(
                kind,
                SecretStep::Clear,
                cause@,
            ),
        },
{
    match answer {
        StoreAnswer::Found(_) => Ok(()),
        StoreAnswer::NoEntry => Ok(()),
        StoreAnswer::Failed(cause) => Err(failure_message(kind, SecretStep::Clear, cause.as_str())),
    }
}

} // verus!
