use crate::cursor::TextSection;
use crate::position::Position;
use crate::number::{int_digits, integer_text};
use crate::text::{chars_of, push_chars, push_str, string_of};
use vstd::prelude::*;

verus! {

/// A diagnostic: where it is, a location label, and what went wrong.
#[derive(Clone, Debug)]
pub struct Error {
    pub section: TextSection,
    pub location: String,
    pub message: String,
}

impl Error {
    /// The message followed by the line and column where the error starts.
    pub fn to_string(&self) -> (r: String)
        ensures
            r@ == self.message@ + " at line: "@ + int_digits(
                self.section.start.line as nat,
            ) + ", column: "@ + int_digits(self.section.start.column as nat),
    {
        let mut out = chars_of(self.message.as_str());
        push_str(&mut out, " at line: ");
        let line = integer_text(self.section.start.line);
        push_chars(&mut out, line.as_slice());
        push_str(&mut out, ", column: ");
        let column = integer_text(self.section.start.column);
        push_chars(&mut out, column.as_slice());
        string_of(out)
    }
}

/// An error under construction; what is not given is left empty.
#[derive(Clone, Debug)]
pub struct ErrorBuilder {
    section: Option<TextSection>,
    location: Option<String>,
    message: Option<String>,
}

impl ErrorBuilder {
    pub closed spec fn given_section(self) -> Option<TextSection> {
        self.section
    }

    /// The location given, or the empty text.
    pub closed spec fn given_location(self) -> Seq<char> {
        match self.location {
            Some(s) => s@,
            None => Seq::empty(),
        }
    }

    /// The message given, or the empty text.
    pub closed spec fn given_message(self) -> Seq<char> {
        match self.message {
            Some(s) => s@,
            None => Seq::empty(),
        }
    }

    /// A builder with nothing given.
    pub fn new() -> (r: Self)
        ensures
            r.given_section() is None,
            r.given_location().len() == 0,
            r.given_message().len() == 0,
    {
        ErrorBuilder { section: None, location: None, message: None }
    }

    /// Gives the section.
    pub fn section(self, section: TextSection) -> (r: Self)
        ensures
            r.given_section() == Some(section),
            r.given_location() == self.given_location(),
            r.given_message() == self.given_message(),
    {
        ErrorBuilder { section: Some(section), ..self }
    }

    /// Gives the line where the error starts: the start of the section
    /// given (or of the default one) moves to `line`.
    pub fn line(self, line: usize) -> (r: Self)
        ensures
            r.given_section() == Some(
                {
                    let s = match self.given_section() {
                        Some(s) => s,
                        None => TextSection::spec_default(),
                    };
                    TextSection { start: Position { line, ..s.start }, end: s.end }
                },
            ),
            r.given_location() == self.given_location(),
            r.given_message() == self.given_message(),
    {
        let mut section = match self.section {
            Some(s) => s,
            None => TextSection::default(),
        };
        section.start.line = line;
        ErrorBuilder { section: Some(section), ..self }
    }

    /// Gives the location.
    pub fn location(self, location: String) -> (r: Self)
        ensures
            r.given_section() == self.given_section(),
            r.given_location() == location@,
            r.given_message() == self.given_message(),
    {
        ErrorBuilder { location: Some(location), ..self }
    }

    /// Gives the message.
    pub fn message(self, message: String) -> (r: Self)
        ensures
            r.given_section() == self.given_section(),
            r.given_location() == self.given_location(),
            r.given_message() == message@,
    {
        ErrorBuilder { message: Some(message), ..self }
    }

    /// The error, with the default section where none was given.
    pub fn build(self) -> (r: Error)
        ensures
            r.section == (match self.given_section() {
                Some(s) => s,
                None => TextSection::spec_default(),
            }),
            r.location@ == self.given_location(),
            r.message@ == self.given_message(),
    {
        let section = match self.section {
            Some(s) => s,
            None => TextSection::default(),
        };
        let location = match self.location {
            Some(s) => s,
            None => String::new(),
        };
        let message = match self.message {
            Some(s) => s,
            None => String::new(),
        };
        Error { section, location, message }
    }
}

/// The errors found, in the order found.
#[derive(Clone, Debug)]
pub struct ErrorList {
    inner: Vec<Error>,
}

impl ErrorList {
    pub closed spec fn errors(self) -> Seq<Error> {
        self.inner@
    }

    /// An empty list.
    pub fn new() -> (r: Self)
        ensures
            r.errors().len() == 0,
    {
        ErrorList { inner: Vec::new() }
    }

    /// Appends `error`.
    pub fn add(&mut self, error: Error)
        ensures
            final(self).errors() == old(self).errors().push(error),
    {
        self.inner.push(error)
    }

    /// The number of errors.
    pub fn size(&self) -> (r: usize)
        ensures
            r == self.errors().len(),
    {
        self.inner.len()
    }

    /// The errors, in the order added.
    pub fn as_slice(&self) -> (r: &[Error])
        ensures
            r@ == self.errors(),
    {
        self.inner.as_slice()
    }
}

impl Default for ErrorList {
    fn default() -> (r: Self)
        ensures
            r.errors().len() == 0,
    {
        ErrorList::new()
    }
}

} // verus!
