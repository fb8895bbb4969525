//! The errors of the domain set.
use crate::text::Text;
use vstd::prelude::*;

verus! {

/// What went wrong, with a message for the caller.
#[derive(Debug)]
pub enum DnsError {
    /// A request that the domain set refuses or could not carry out.
    Plugin(String),
    /// A fault of the process around the domain set.
    Runtime(String),
    /// The rule file could not be read or written.
    Io(String),
}

/// A [`DnsError`] with its message as a sequence of characters.
pub enum ErrorView {
    Plugin(Text),
    Runtime(Text),
    Io(Text),
}

impl View for DnsError {
    type V = ErrorView;

    open spec fn view(&self) -> ErrorView {
        match self {
            DnsError::Plugin(message) => ErrorView::Plugin(message@),
            DnsError::Runtime(message) => ErrorView::Runtime(message@),
            DnsError::Io(message) => ErrorView::Io(message@),
        }
    }
}

impl ErrorView {
    /// The message alone.
    pub open spec fn message(self) -> Text {
        match self {
            ErrorView::Plugin(message) => message,
            ErrorView::Runtime(message) => message,
            ErrorView::Io(message) => message,
        }
    }
}

impl DnsError {
    pub fn plugin(message: String) -> (res: DnsError)
        ensures
            res@ == ErrorView::Plugin(message@),
    {
        DnsError::Plugin(message)
    }

    pub fn runtime(message: String) -> (res: DnsError)
        ensures
            res@ == ErrorView::Runtime(message@),
    {
        DnsError::Runtime(message)
    }

    /// The message that the error carries.
    pub fn message(&self) -> (res: String)
        ensures
            res@ == self@.message(),
    {
        match self {
            DnsError::Plugin(message) => message.clone(),
            DnsError::Runtime(message) => message.clone(),
            DnsError::Io(message) => message.clone(),
        }
    }
}

} // verus!
