//! What can go wrong in an operation of the library.
use vstd::prelude::*;

verus! {

#[derive(Clone, Debug)]
pub enum Error {
    /// No `.trx` directory was found.
    NotInitialized,
    /// There is a `.trx` directory already, at this path.
    AlreadyInitialized(String),
    /// An issue with this id exists.
    AlreadyExists(String),
    /// There is no issue with this id.
    NotFound(String),
    /// The background service failed.
    Service(String),
    /// Anything else, as a message.
    Other(String),
}

pub enum ErrorView {
    NotInitialized,
    AlreadyInitialized(Seq<char>),
    AlreadyExists(Seq<char>),
    NotFound(Seq<char>),
    Service(Seq<char>),
    Other(Seq<char>),
}

impl View for Error {
    type V = ErrorView;

    open spec fn view(&self) -> ErrorView {
        match self {
            Error::NotInitialized => ErrorView::NotInitialized,
            Error::AlreadyInitialized(s) => ErrorView::AlreadyInitialized(s@),
            Error::AlreadyExists(s) => ErrorView::AlreadyExists(s@),
            Error::NotFound(s) => ErrorView::NotFound(s@),
            Error::Service(s) => ErrorView::Service(s@),
            Error::Other(s) => ErrorView::Other(s@),
        }
    }
}

} // verus!
