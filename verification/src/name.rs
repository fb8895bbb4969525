//! Domain names and the questions that ask for them.
use crate::error::{DnsError, ErrorView};
use crate::text;
use crate::text::{chars_of, joined, name_chars, string_of, Text};
use vstd::prelude::*;

verus! {

/// A domain name, in lower case and without the trailing dot.
pub struct Name {
    text: String,
}

impl View for Name {
    type V = Text;

    closed spec fn view(&self) -> Text {
        self.text@
    }
}

impl Name {
    /// Reads a name in ASCII.
    pub fn from_ascii(raw: &str) -> (res: Result<Name, DnsError>)
        ensures
            if vstd::utf8::is_ascii_chars(raw@) {
                res matches Ok(name) && name@ == text::strip_dots(text::lowered(raw@))
            } else {
                res matches Err(err) && err@ == ErrorView::Plugin("name is not ASCII: "@ + raw@)
            },
    {
        if !raw.is_ascii() {
            return Err(DnsError::plugin(joined("name is not ASCII: ", raw)));
        }
        let chars = chars_of(raw);
        let name = name_chars(&chars, 0, chars.len());
        assert(chars@.subrange(0, chars@.len() as int) =~= chars@);
        let text = string_of(&name, 0, name.len());
        assert(text@ =~= name@);
        Ok(Name { text })
    }

    /// The name as text.
    pub fn as_str(&self) -> (res: &str)
        ensures
            res@ == self@,
    {
        self.text.as_str()
    }
}

/// What a request asks about.
pub struct Question {
    name: Name,
}

impl View for Question {
    type V = Text;

    closed spec fn view(&self) -> Text {
        self.name@
    }
}

impl Question {
    pub fn new(name: Name) -> (res: Question)
        ensures
            res@ == name@,
    {
        Question { name }
    }

    /// The name that is asked for.
    pub fn name(&self) -> (res: &Name)
        ensures
            res@ == self@,
    {
        &self.name
    }
}

} // verus!
