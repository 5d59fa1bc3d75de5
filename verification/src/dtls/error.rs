//! Errors of the DTLS layer.

use vstd::prelude::*;

verus! {

/// What can go wrong in the DTLS layer.
#[derive(Debug)]
pub enum Error {
    /// A cryptographic input or verification failed.
    Crypto(String),
    /// The session or handshake is not in the state the operation requires.
    InvalidState(&'static str),
    /// A protocol operation timed out.
    Timeout(&'static str),
    /// The peer ended the session with an authenticated `close_notify` alert.
    ///
    /// Unlike other alerts this is an orderly shutdown, not a failure.
    PeerClosed,
    /// An I/O operation failed, with the description of the failure.
    Io(String),
}

/// [`Error`] with its texts as character sequences.
pub enum ErrorView {
    Crypto(Seq<char>),
    InvalidState(Seq<char>),
    Timeout(Seq<char>),
    PeerClosed,
    Io(Seq<char>),
}

impl View for Error {
    type V = ErrorView;

    open spec fn view(&self) -> ErrorView {
        match self {
            Error::Crypto(text) => ErrorView::Crypto(text@),
            Error::InvalidState(text) => ErrorView::InvalidState(text@),
            Error::Timeout(text) => ErrorView::Timeout(text@),
            Error::PeerClosed => ErrorView::PeerClosed,
            Error::Io(text) => ErrorView::Io(text@),
        }
    }
}

impl ErrorView {
    /// The text shown to users.
    pub open spec fn text(self) -> Seq<char> {
        match self {
            ErrorView::Crypto(text) => "crypto error: "@ + text,
            ErrorView::InvalidState(text) => "invalid state: "@ + text,
            ErrorView::Timeout(text) => "timeout: "@ + text,
            ErrorView::PeerClosed => "peer closed the DTLS session"@,
            ErrorView::Io(text) => "I/O error: "@ + text,
        }
    }
}

impl Error {
    /// The text shown to users.
    pub fn message(&self) -> (message: String)
        ensures
            message@ == self@.text(),
    {
        match self {
            Error::Crypto(text) => String::from_str("crypto error: ").concat(text.as_str()),
            Error::InvalidState(text) => String::from_str("invalid state: ").concat(text),
            Error::Timeout(text) => String::from_str("timeout: ").concat(text),
            Error::PeerClosed => String::from_str("peer closed the DTLS session"),
            Error::Io(text) => String::from_str("I/O error: ").concat(text.as_str()),
        }
    }

    /// A crypto error with the given text.
    pub fn crypto(text: &str) -> (error: Error)
        ensures
            error@ == ErrorView::Crypto(text@),
    {
        Error::Crypto(String::from_str(text))
    }
}

/// Error of a DTLS operation that runs over a datagram transport with errors
/// of type `E`.
#[derive(Debug)]
pub enum DriverError<E> {
    /// DTLS framing, handshake, or cryptographic processing failed.
    Protocol(Error),
    /// The datagram transport failed.
    Transport(E),
    /// A DTLS operation did not complete before its supplied deadline.
    Timeout,
}

/// The error that a [`DriverError`] passes on, if there is one.
#[derive(Debug)]
pub enum DriverCause<'a, E> {
    Protocol(&'a Error),
    Transport(&'a E),
    Absent,
}

impl<E> DriverError<E> {
    /// The text shown to users, where `transport` is the text of the
    /// transport's own error.
    pub open spec fn text(self, transport: Seq<char>) -> Seq<char> {
        match self {
            DriverError::Protocol(error) => error@.text(),
            DriverError::Transport(_) => "datagram transport error: "@ + transport,
            DriverError::Timeout => "DTLS operation timed out"@,
        }
    }

    /// The text shown to users, where `transport` is the text of the
    /// transport's own error.
    pub fn message(&self, transport: &str) -> (message: String)
        ensures
            message@ == self.text(transport@),
    {
        match self {
            DriverError::Protocol(error) => error.message(),
            DriverError::Transport(_) => String::from_str("datagram transport error: ").concat(
                transport,
            ),
            DriverError::Timeout => String::from_str("DTLS operation timed out"),
        }
    }

    /// The wrapped error: a timeout wraps none.
    pub fn source(&self) -> (cause: DriverCause<'_, E>)
        ensures
            cause == (match *self {
                DriverError::Protocol(error) => DriverCause::Protocol(&error),
                DriverError::Transport(error) => DriverCause::Transport(&error),
                DriverError::Timeout => DriverCause::Absent,
            }),
    {
        match self {
            DriverError::Protocol(error) => DriverCause::Protocol(error),
            DriverError::Transport(error) => DriverCause::Transport(error),
            DriverError::Timeout => DriverCause::Absent,
        }
    }
}

/// The text of an error says of which kind it is and holds the reason.
pub proof fn law_an_error_tells_its_kind_and_reason(text: Seq<char>)
    ensures
        ErrorView::Crypto(text).text() == "crypto error: "@ + text,
        ErrorView::InvalidState(text).text() == "invalid state: "@ + text,
        ErrorView::Timeout(text).text() == "timeout: "@ + text,
        ErrorView::PeerClosed.text() == "peer closed the DTLS session"@,
        ErrorView::Io(text).text() == "I/O error: "@ + text,
{
}

} // verus!
