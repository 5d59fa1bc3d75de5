//! Errors of the commissioner.

use vstd::prelude::*;

use crate::commissioner::types::{CloseReason, CloseReasonView};

verus! {

/// What can go wrong in a commissioner session.
#[derive(Debug)]
pub enum Error {
    /// A configuration value is not acceptable.
    Configuration(&'static str),
    /// The operation is not supported.
    Unsupported(&'static str),
    /// The session is not in the state the operation requires.
    InvalidState(&'static str),
    /// An operation timed out.
    Timeout(&'static str),
    /// The session was lost while the request was outstanding.
    SessionLost(CloseReason),
    /// The session has ended.
    SessionClosed,
    /// The DTLS session failed.
    Dtls(crate::dtls::error::Error),
    /// An I/O operation failed, with the description of the failure.
    Io(String),
    /// A dataset or TLV payload is malformed.
    Dataset(String),
    /// A joiner's handshake failed.
    Crypto(String),
    /// A CoAP message is malformed.
    Coap(&'static str),
    /// Another commissioner is active.
    PetitionRejected {
        /// Its commissioner ID, where the border agent told it.
        existing_commissioner_id: Option<String>,
    },
}

/// [`Error`] with its texts as character sequences.
pub enum ErrorView {
    Configuration(Seq<char>),
    Unsupported(Seq<char>),
    InvalidState(Seq<char>),
    Timeout(Seq<char>),
    SessionLost(CloseReasonView),
    SessionClosed,
    Dtls(crate::dtls::error::ErrorView),
    Io(Seq<char>),
    Dataset(Seq<char>),
    Crypto(Seq<char>),
    Coap(Seq<char>),
    PetitionRejected { existing_commissioner_id: Option<Seq<char>> },
}

/// The characters of an optional text.
pub open spec fn optional_text(text: Option<String>) -> Option<Seq<char>> {
    match text {
        Some(text) => Some(text@),
        None => None,
    }
}

impl View for Error {
    type V = ErrorView;

    open spec fn view(&self) -> ErrorView {
        match self {
            Error::Configuration(text) => ErrorView::Configuration(text@),
            Error::Unsupported(text) => ErrorView::Unsupported(text@),
            Error::InvalidState(text) => ErrorView::InvalidState(text@),
            Error::Timeout(text) => ErrorView::Timeout(text@),
            Error::SessionLost(reason) => ErrorView::SessionLost(reason@),
            Error::SessionClosed => ErrorView::SessionClosed,
            Error::Dtls(error) => ErrorView::Dtls(error@),
            Error::Io(text) => ErrorView::Io(text@),
            Error::Dataset(text) => ErrorView::Dataset(text@),
            Error::Crypto(text) => ErrorView::Crypto(text@),
            Error::Coap(text) => ErrorView::Coap(text@),
            Error::PetitionRejected { existing_commissioner_id } => ErrorView::PetitionRejected {
                existing_commissioner_id: optional_text(*existing_commissioner_id),
            },
        }
    }
}

impl ErrorView {
    /// The text shown to users.
    pub open spec fn text(self) -> Seq<char> {
        match self {
            ErrorView::Configuration(text) => "configuration error: "@ + text,
            ErrorView::Unsupported(text) => "unsupported: "@ + text,
            ErrorView::InvalidState(text) => "invalid state: "@ + text,
            ErrorView::Timeout(text) => "timeout: "@ + text,
            ErrorView::SessionLost(reason) => "commissioner session lost: "@ + reason.text(),
            ErrorView::SessionClosed => "commissioner session is closed"@,
            ErrorView::Dtls(error) => error.text(),
            ErrorView::Io(text) => "I/O error: "@ + text,
            ErrorView::Dataset(text) => "dataset error: "@ + text,
            ErrorView::Crypto(text) => "crypto error: "@ + text,
            ErrorView::Coap(text) => "CoAP error: "@ + text,
            ErrorView::PetitionRejected { existing_commissioner_id } =>
                match existing_commissioner_id {
                Some(id) => "petition rejected; active commissioner: "@ + id,
                None => "petition rejected"@,
            },
        }
    }

    /// Whether the DTLS session or socket is unusable.
    pub open spec fn is_transport(self) -> bool {
        self is Io || self is Dtls
    }
}

impl Error {
    /// The text shown to users.
    pub fn message(&self) -> (message: String)
        ensures
            message@ == self@.text(),
    {
        match self {
            Error::Configuration(text) => String::from_str("configuration error: ").concat(text),
            Error::Unsupported(text) => String::from_str("unsupported: ").concat(text),
            Error::InvalidState(text) => String::from_str("invalid state: ").concat(text),
            Error::Timeout(text) => String::from_str("timeout: ").concat(text),
            Error::SessionLost(reason) => String::from_str("commissioner session lost: ").concat(
                reason.message().as_str(),
            ),
            Error::SessionClosed => String::from_str("commissioner session is closed"),
            Error::Dtls(error) => error.message(),
            Error::Io(text) => String::from_str("I/O error: ").concat(text.as_str()),
            Error::Dataset(text) => String::from_str("dataset error: ").concat(text.as_str()),
            Error::Crypto(text) => String::from_str("crypto error: ").concat(text.as_str()),
            Error::Coap(text) => String::from_str("CoAP error: ").concat(text),
            Error::PetitionRejected { existing_commissioner_id } =>
                match existing_commissioner_id {
                Some(id) => String::from_str("petition rejected; active commissioner: ").concat(
                    id.as_str(),
                ),
                None => String::from_str("petition rejected"),
            },
        }
    }

    /// Whether the DTLS session or socket is unusable.
    pub fn is_transport_error(&self) -> (transport: bool)
        ensures
            transport == self@.is_transport(),
    {
        match self {
            Error::Io(_) => true,
            Error::Dtls(_) => true,
            _ => false,
        }
    }
}

/// The text of an error says of which kind it is and holds the reason; only
/// failures of the socket and of DTLS make the session unusable.
pub proof fn law_an_error_tells_its_kind_and_reason(
    text: Seq<char>,
    reason: CloseReasonView,
    error: ErrorView,
)
    ensures
        ErrorView::Configuration(text).text() == "configuration error: "@ + text,
        ErrorView::Unsupported(text).text() == "unsupported: "@ + text,
        ErrorView::InvalidState(text).text() == "invalid state: "@ + text,
        ErrorView::Timeout(text).text() == "timeout: "@ + text,
        ErrorView::SessionLost(reason).text() == "commissioner session lost: "@ + reason.text(),
        ErrorView::SessionClosed.text() == "commissioner session is closed"@,
        ErrorView::Io(text).text() == "I/O error: "@ + text,
        ErrorView::Dataset(text).text() == "dataset error: "@ + text,
        ErrorView::Crypto(text).text() == "crypto error: "@ + text,
        ErrorView::Coap(text).text() == "CoAP error: "@ + text,
        (ErrorView::PetitionRejected { existing_commissioner_id: Some(text) }).text()
            == "petition rejected; active commissioner: "@ + text,
        (ErrorView::PetitionRejected { existing_commissioner_id: None }).text()
            == "petition rejected"@,
        error.is_transport() <==> error is Io || error is Dtls,
{
}

} // verus!
