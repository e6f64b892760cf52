//! The failures that extraction can report.

use vstd::prelude::*;

verus! {

/// Why a page, a row or a piece of text could not be used.
#[derive(Debug)]
pub enum ScrapeError {
    /// A selector could not be built; holds the selector.
    Selector(String),
    /// Extracted text does not have the expected shape; holds what was
    /// expected or the offending fragment.
    Parse(String),
    /// An expected element or attribute is absent; holds its name.
    NotFound(String),
    /// A clock time whose hours are no usable number; holds the hours.
    Format(String),
    /// A pattern could not be compiled; holds the pattern.
    Pattern(String),
    /// A setting is out of range; holds its name.
    Config(String),
}

/// A failure as contracts speak of it: the kind and the text it carries.
pub enum Failure {
    Selector(Seq<char>),
    Parse(Seq<char>),
    NotFound(Seq<char>),
    Format(Seq<char>),
    Pattern(Seq<char>),
    Config(Seq<char>),
}

impl View for ScrapeError {
    type V = Failure;

    open spec fn view(&self) -> Failure {
        match self {
            ScrapeError::Selector(s) => Failure::Selector(s@),
            ScrapeError::Parse(s) => Failure::Parse(s@),
            ScrapeError::NotFound(s) => Failure::NotFound(s@),
            ScrapeError::Format(s) => Failure::Format(s@),
            ScrapeError::Pattern(s) => Failure::Pattern(s@),
            ScrapeError::Config(s) => Failure::Config(s@),
        }
    }
}

impl ScrapeError {
    /// The failure in words: its kind, then the text it carries.
    pub fn message(&self) -> (out: String)
        ensures
            out@ == message_of(self@),
    {
        let (kind, detail) = match self {
            ScrapeError::Selector(s) => ("selector: ", s),
            ScrapeError::Parse(s) => ("parse: ", s),
            ScrapeError::NotFound(s) => ("not found: ", s),
            ScrapeError::Format(s) => ("format: ", s),
            ScrapeError::Pattern(s) => ("pattern: ", s),
            ScrapeError::Config(s) => ("config: ", s),
        };
        let mut out = kind.to_owned();
        out.append(detail.as_str());
        out
    }

    /// A copy of this failure.
    pub fn duplicate(&self) -> (out: ScrapeError)
        ensures
            out@ == self@,
    {
        match self {
            ScrapeError::Selector(s) => ScrapeError::Selector(s.clone()),
            ScrapeError::Parse(s) => ScrapeError::Parse(s.clone()),
            ScrapeError::NotFound(s) => ScrapeError::NotFound(s.clone()),
            ScrapeError::Format(s) => ScrapeError::Format(s.clone()),
            ScrapeError::Pattern(s) => ScrapeError::Pattern(s.clone()),
            ScrapeError::Config(s) => ScrapeError::Config(s.clone()),
        }
    }
}

/// The words for a failure.
pub open spec fn message_of(f: Failure) -> Seq<char> {
    match f {
        Failure::Selector(s) => "selector: "@ + s,
        Failure::Parse(s) => "parse: "@ + s,
        Failure::NotFound(s) => "not found: "@ + s,
        Failure::Format(s) => "format: "@ + s,
        Failure::Pattern(s) => "pattern: "@ + s,
        Failure::Config(s) => "config: "@ + s,
    }
}

/// The outcome of a step as contracts speak of it.
pub open spec fn outcome<T: View>(r: Result<T, ScrapeError>) -> Result<T::V, Failure> {
    match r {
        Ok(v) => Ok(v@),
        Err(e) => Err(e@),
    }
}

} // verus!
