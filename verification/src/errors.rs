//! What can go wrong: an address that is none, or a request that is refused.
use vstd::prelude::*;

verus! {

/// A text that is no socket address, or the reason for refusing a request, with a message about the
/// request at hand.
#[derive(Debug)]
pub enum ErrorKind {
    AddrParse(String),
    MalformedHttpRequest(String),
    IncompleteHttpRequest(String),
    RequestHeadersTooLarge(String),
    RequestBodyTooLarge(String),
}

/// An `ErrorKind` with the characters of its text.
pub enum ErrorText {
    AddrParse(Seq<char>),
    MalformedHttpRequest(Seq<char>),
    IncompleteHttpRequest(Seq<char>),
    RequestHeadersTooLarge(Seq<char>),
    RequestBodyTooLarge(Seq<char>),
}

impl View for ErrorKind {
    type V = ErrorText;

    open spec fn view(&self) -> ErrorText {
        match self {
            ErrorKind::AddrParse(s) => ErrorText::AddrParse(s@),
            ErrorKind::MalformedHttpRequest(s) => ErrorText::MalformedHttpRequest(s@),
            ErrorKind::IncompleteHttpRequest(s) => ErrorText::IncompleteHttpRequest(s@),
            ErrorKind::RequestHeadersTooLarge(s) => ErrorText::RequestHeadersTooLarge(s@),
            ErrorKind::RequestBodyTooLarge(s) => ErrorText::RequestBodyTooLarge(s@),
        }
    }
}

impl ErrorKind {
    /// What went wrong, whatever the address or the request.
    pub fn description(&self) -> (r: &'static str)
        ensures
            r@ == match self {
                ErrorKind::AddrParse(_) => "invalid socket address syntax"@,
                ErrorKind::MalformedHttpRequest(_) => "Malformed HTTP Request"@,
                ErrorKind::IncompleteHttpRequest(_) => "Incomplete HTTP Request"@,
                ErrorKind::RequestHeadersTooLarge(_) => "Request Headers Too Large"@,
                ErrorKind::RequestBodyTooLarge(_) => "Request Body Too Large"@,
            },
    {
        match self {
            ErrorKind::AddrParse(_) => "invalid socket address syntax",
            ErrorKind::MalformedHttpRequest(_) => "Malformed HTTP Request",
            ErrorKind::IncompleteHttpRequest(_) => "Incomplete HTTP Request",
            ErrorKind::RequestHeadersTooLarge(_) => "Request Headers Too Large",
            ErrorKind::RequestBodyTooLarge(_) => "Request Body Too Large",
        }
    }

    /// The kind of error and its message, for a reader.
    pub fn display(&self) -> (r: String)
        ensures
            r@ == match self {
                ErrorKind::AddrParse(_) => "invalid socket address syntax"@,
                ErrorKind::MalformedHttpRequest(s) => "MalformedHttpRequest: "@ + s@,
                ErrorKind::IncompleteHttpRequest(s) => "IncompleteHttpRequest: "@ + s@,
                ErrorKind::RequestHeadersTooLarge(s) => "RequestHeadersTooLarge: "@ + s@,
                ErrorKind::RequestBodyTooLarge(s) => "RequestBodyTooLarge: "@ + s@,
            },
    {
        match self {
            ErrorKind::AddrParse(_) => String::from_str("invalid socket address syntax"),
            ErrorKind::MalformedHttpRequest(s) => String::from_str("MalformedHttpRequest: ").concat(
                s.as_str(),
            ),
            ErrorKind::IncompleteHttpRequest(s) => String::from_str(
                "IncompleteHttpRequest: ",
            ).concat(s.as_str()),
            ErrorKind::RequestHeadersTooLarge(s) => String::from_str(
                "RequestHeadersTooLarge: ",
            ).concat(s.as_str()),
            ErrorKind::RequestBodyTooLarge(s) => String::from_str("RequestBodyTooLarge: ").concat(
                s.as_str(),
            ),
        }
    }
}

} // verus!
