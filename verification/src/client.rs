//! The client's observable behaviour: the error taxonomy and the
//! translation of a transport outcome into the caller's result.

use vstd::prelude::*;

verus! {

/// How a search can fail.
#[derive(Clone, Copy, Debug, PartialEq, Eq, Structural)]
pub enum ClientError {
    /// The request could not be sent, or the connection failed before a
    /// response was obtained.
    TransportError,
    /// A response arrived, but its body could not be fully read.
    ResponseReadError,
}

/// What the transport came back with for one request.
pub enum TransportOutcome {
    /// The full response body, decoded as text.
    Body(String),
    /// No response was obtained: the request could not be sent or the
    /// connection failed.
    ConnectFailed,
    /// Headers arrived, but reading the body failed part way through.
    BodyReadFailed,
}

impl ClientError {
    /// A short description of the failure.
    pub fn message(&self) -> (m: &'static str)
        ensures
            self is TransportError ==> m@ == "could not send the request or reach the server"@,
            self is ResponseReadError ==> m@ == "could not read the response body"@,
    {
        match self {
            ClientError::TransportError => "could not send the request or reach the server",
            ClientError::ResponseReadError => "could not read the response body",
        }
    }
}

/// Turn what the transport came back with into the caller's result: the
/// body exactly as received on success, unmodified and unparsed, and the
/// matching error otherwise.
pub fn complete_search(outcome: TransportOutcome) -> (r: Result<String, ClientError>)
    ensures
        outcome matches TransportOutcome::Body(body) ==> r == Ok::<String, ClientError>(body),
        outcome is ConnectFailed ==> r == Err::<String, ClientError>(ClientError::TransportError),
        outcome is BodyReadFailed ==> r == Err::<String, ClientError>(
            ClientError::ResponseReadError,
        ),
{
    match outcome {
        TransportOutcome::Body(body) => Ok(body),
        TransportOutcome::ConnectFailed => Err(ClientError::TransportError),
        TransportOutcome::BodyReadFailed => Err(ClientError::ResponseReadError),
    }
}

} // verus!
