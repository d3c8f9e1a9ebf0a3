use vstd::prelude::*;

verus! {

use vstd::string::StringExecFns;

/// The abstract value of an [`Error`]: each variant carries the text it was
/// built from (an offending identifier, a search term, or a diagnostic
/// message from the store or the connection).
pub enum ErrorV {
    InvalidId(Seq<char>),
    Query(Seq<char>),
    NotFound(Seq<char>),
    InvalidQuery(Seq<char>),
    Connection(Seq<char>),
}

/// The error taxonomy of the repository.
///
/// `InvalidIDError` carries the malformed identifier string; `NotFoundError`
/// the identifier that matched nothing on a fetch; `InvalidQueryError` a
/// search term whose percent-decoding failed; `MongoQueryError` and
/// `ConnectionError` carry a diagnostic message from the store client.
#[derive(Debug)]
pub enum Error {
    InvalidIDError(String),
    MongoQueryError(String),
    NotFoundError(String),
    InvalidQueryError(String),
    ConnectionError(String),
}

impl View for Error {
    type V = ErrorV;

    open spec fn view(&self) -> ErrorV {
        match self {
            Error::InvalidIDError(s) => ErrorV::InvalidId(s@),
            Error::MongoQueryError(s) => ErrorV::Query(s@),
            Error::NotFoundError(s) => ErrorV::NotFound(s@),
            Error::InvalidQueryError(s) => ErrorV::InvalidQuery(s@),
            Error::ConnectionError(s) => ErrorV::Connection(s@),
        }
    }
}

impl Error {
    /// A short description of the error, usable by an unverified caller for
    /// display; the carried text is included verbatim after a fixed prefix.
    pub fn message(&self) -> (r: String)
        ensures
            (match self@ {
                ErrorV::InvalidId(s) => r@ == "invalid id: "@ + s,
                ErrorV::Query(s) => r@ == "query failed: "@ + s,
                ErrorV::NotFound(s) => r@ == "not found: "@ + s,
                ErrorV::InvalidQuery(s) => r@ == "invalid query: "@ + s,
                ErrorV::Connection(s) => r@ == "connection failed: "@ + s,
            }),
    {
        match self {
            Error::InvalidIDError(s) => String::from_str("invalid id: ").concat(s.as_str()),
            Error::MongoQueryError(s) => String::from_str("query failed: ").concat(s.as_str()),
            Error::NotFoundError(s) => String::from_str("not found: ").concat(s.as_str()),
            Error::InvalidQueryError(s) => String::from_str("invalid query: ").concat(s.as_str()),
            Error::ConnectionError(s) => String::from_str("connection failed: ").concat(s.as_str()),
        }
    }
}

} // verus!
