//! An error raised on a remote peer, carried back to the caller.

use vstd::prelude::*;

verus! {

#[verifier::external_type_specification]
#[verifier::external_body]
pub struct ExAnyhowError(anyhow::Error);

/// Wraps an error that a remote peer reported.
pub struct RemoteErrorWrapper(pub anyhow::Error);

impl RemoteErrorWrapper {
    /// Wraps an error.
    pub fn from_error(error: anyhow::Error) -> (res: RemoteErrorWrapper)
        ensures
            res.0 == error,
    {
        RemoteErrorWrapper(error)
    }

    /// The wrapped error.
    pub fn into_inner(self) -> (res: anyhow::Error)
        ensures
            res == self.0,
    {
        self.0
    }

    /// The text the wrapped error displays as.
    pub fn to_text(&self) -> (res: String) {
        display_text(&self.0)
    }
}

/// Calls `anyhow::Error`'s `Display` implementation through `format!`.
/// anyhow forwards to the wrapped error's own `Display`, which may depend on
/// more than the error's value (an OS error's locale, shared state), so
/// nothing is stated of the text.
#[verifier::external_body]
fn display_text(error: &anyhow::Error) -> String {
    format!("{}", error)
}

} // verus!
