//! What can go wrong between the client and the control plane, and how it
//! is put into words for the log.

use vstd::prelude::*;
use vstd::string::StringExecFns;

verus! {

/// An error that the control plane answered with.
#[derive(Clone, Debug, PartialEq, Eq)]
pub struct Status {
    /// The name of the status code.
    pub code: String,
    /// The message that came with it.
    pub message: String,
    /// Further details, where they are text; else empty.
    pub details: String,
    /// The error that lies underneath, in words, where there is one.
    pub source: Option<String>,
}

/// What can go wrong between the client and the control plane. Every one of
/// these ends the stream; the client connects again after a delay.
#[derive(Clone, Debug, PartialEq, Eq)]
pub enum Error {
    /// The control plane answered with an error.
    GrpcStatus(Status),
    /// The control plane at this address answered the connection with an
    /// error.
    Connection(String, Status),
    /// A request could not be handed to the stream: it is closed.
    RequestFailure,
    /// The connection failed underneath the stream.
    Transport(String),
}

/// `needle` occurs in `haystack` as a run of characters.
pub open spec fn occurs_in(needle: Seq<char>, haystack: Seq<char>) -> bool {
    exists|i: int|
        0 <= i && i + needle.len() <= haystack.len() && #[trigger] haystack.subrange(
            i,
            i + needle.len(),
        ) == needle
}

/// A text as `Debug` writes it: in double quotes, with what cannot stand
/// there escaped.
pub uninterp spec fn quoted(text: Seq<char>) -> Seq<char>;

/// `str::contains` with a string as the pattern: whether the pattern
/// matches a part of the text.
#[verifier::external_body]
fn contains_text(haystack: &str, needle: &str) -> (found: bool)
    ensures
        found == occurs_in(needle@, haystack@),
{
    haystack.contains(needle)
}

/// The `Debug` form of a `str`, which depends on the text alone.
#[verifier::external_body]
fn quote(text: &str) -> (out: String)
    ensures
        out@ == quoted(text@),
{
    format!("{:?}", text)
}

/// What in a message tells of a failed authentication.
pub const AUTHENTICATION_FAILURE: &'static str = "authentication failure";

/// What in an underlying error tells of a name that could not be resolved.
pub const RESOLUTION_FAILURE: &'static str = "Temporary failure in name resolution";

/// A status in words, given its message in quotes: the code and the
/// message; a hint where the message tells of a failed authentication; the
/// details where there are any; the underlying error where there is one,
/// with a hint where it tells of a name that could not be resolved.
pub open spec fn status_text(status: Status, quoted_message: Seq<char>) -> Seq<char> {
    "status: "@ + status.code@ + ", message: "@ + quoted_message + (if occurs_in(
        AUTHENTICATION_FAILURE@,
        status.message@,
    ) {
        " (hint: check the control plane logs for more information)"@
    } else {
        Seq::empty()
    }) + (if status.details@.len() > 0 {
        ", details: "@ + status.details@
    } else {
        Seq::empty()
    }) + (match status.source {
        Some(source) => ", source: "@ + source@ + (if occurs_in(RESOLUTION_FAILURE@, source@) {
            " (hint: is the DNS server reachable?)"@
        } else {
            Seq::empty()
        }),
        None => Seq::empty(),
    })
}

/// An error in words.
pub open spec fn error_text(error: Error) -> Seq<char> {
    match error {
        Error::GrpcStatus(status) => "gRPC error "@ + status_text(status, quoted(status.message@)),
        Error::Connection(address, status) => "gRPC connection error connecting to "@ + address@
            + ": "@ + status_text(status, quoted(status.message@)),
        Error::RequestFailure => "channel closed"@,
        Error::Transport(cause) => "transport error: "@ + cause@,
    }
}

impl Status {
    /// The status in words, given its message in quotes.
    pub fn describe_with(&self, quoted_message: &str) -> (text: String)
        ensures
            text@ == status_text(*self, quoted_message@),
    {
        let mut text = String::from_str("status: ");
        text.append(self.code.as_str());
        text.append(", message: ");
        text.append(quoted_message);
        if contains_text(self.message.as_str(), AUTHENTICATION_FAILURE) {
            text.append(" (hint: check the control plane logs for more information)");
        }
        if !self.details.as_str().is_empty() {
            text.append(", details: ");
            text.append(self.details.as_str());
        }
        match &self.source {
            Some(source) => {
                text.append(", source: ");
                text.append(source.as_str());
                if contains_text(source.as_str(), RESOLUTION_FAILURE) {
                    text.append(" (hint: is the DNS server reachable?)");
                }
            },
            None => {},
        }
        assert(text@ =~= status_text(*self, quoted_message@));
        text
    }

    /// The status in words.
    pub fn describe(&self) -> (text: String)
        ensures
            text@ == status_text(*self, quoted(self.message@)),
    {
        let quoted_message = quote(self.message.as_str());
        self.describe_with(quoted_message.as_str())
    }
}

impl Error {
    /// The error in words.
    pub fn describe(&self) -> (text: String)
        ensures
            text@ == error_text(*self),
    {
        match self {
            Error::GrpcStatus(status) => {
                let mut text = String::from_str("gRPC error ");
                text.append(status.describe().as_str());
                text
            },
            Error::Connection(address, status) => {
                let mut text = String::from_str("gRPC connection error connecting to ");
                text.append(address.as_str());
                text.append(": ");
                text.append(status.describe().as_str());
                assert(text@ =~= error_text(*self));
                text
            },
            Error::RequestFailure => String::from_str("channel closed"),
            Error::Transport(cause) => {
                let mut text = String::from_str("transport error: ");
                text.append(cause.as_str());
                text
            },
        }
    }
}

} // verus!
