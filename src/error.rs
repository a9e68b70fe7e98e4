use vstd::prelude::*;

verus! {

/// The first failure met while building a document.
#[derive(Debug)]
pub enum Error {
    /// A tag that no element kind answers to.
    UnknownElement(String),
    /// A nesting that the element kind does not allow, or a malformed root.
    InvalidChild,
    /// An element kind, and the attribute that it requires and lacks.
    MissingRequiredAttribute(String, String),
    /// An element kind, an attribute name and the value that it cannot take.
    InvalidAttributeValue(String, String, String),
    /// The markup could not be split into tokens.
    Tokenize,
}

/// The mathematical value of an error.
pub enum ErrorView {
    UnknownElement(Seq<char>),
    InvalidChild,
    MissingRequiredAttribute(Seq<char>, Seq<char>),
    InvalidAttributeValue(Seq<char>, Seq<char>, Seq<char>),
    Tokenize,
}

impl View for Error {
    type V = ErrorView;

    open spec fn view(&self) -> ErrorView {
        match self {
            Error::UnknownElement(t) => ErrorView::UnknownElement(t@),
            Error::InvalidChild => ErrorView::InvalidChild,
            Error::MissingRequiredAttribute(k, n) => ErrorView::MissingRequiredAttribute(k@, n@),
            Error::InvalidAttributeValue(k, n, v) => ErrorView::InvalidAttributeValue(k@, n@, v@),
            Error::Tokenize => ErrorView::Tokenize,
        }
    }
}

} // verus!
