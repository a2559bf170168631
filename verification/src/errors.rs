//! Errors of the read side, each carrying the offending text, and their
//! mathematical view.
use vstd::prelude::*;

verus! {

/// The block a premature end of stream was found in.
#[derive(Debug, Clone, Copy, PartialEq, Eq, Structural)]
pub enum BlockKind {
    Header,
    Init,
    Event,
}

/// Errors of the read side.
#[derive(Debug, Clone, PartialEq)]
pub enum ParseError {
    /// The first line is not the expected opening tag.
    BadFirstLine(Vec<u8>),
    /// A line opens none of the header blocks nor the run information.
    BadHeaderStart(Vec<u8>),
    /// A malformed opening tag while reading attributes.
    BadXmlTag(Vec<u8>),
    /// The structured sub-header text is not a well-formed element tree.
    BadXmlHeader(Vec<u8>),
    /// A line opens neither an event nor the closing tag.
    BadEventStart(Vec<u8>),
    /// A record line ran out of fields; carries the missing field's name.
    MissingEntry(Vec<u8>),
    /// A field failed to read as a number; carries the offending token.
    ConversionError(Vec<u8>),
    /// The first line declares a version other than the supported ones.
    UnsupportedVersion(Vec<u8>),
    /// The first line carries no quoted version at all.
    MissingVersion,
    /// A block was still open when the stream ended.
    EndOfFile(BlockKind),
}

/// Mathematical view of `ParseError`.
pub enum PErr {
    BadFirstLine(Seq<u8>),
    BadHeaderStart(Seq<u8>),
    BadXmlTag(Seq<u8>),
    BadXmlHeader(Seq<u8>),
    BadEventStart(Seq<u8>),
    MissingEntry(Seq<u8>),
    ConversionError(Seq<u8>),
    UnsupportedVersion(Seq<u8>),
    MissingVersion,
    EndOfFile(BlockKind),
}

impl ParseError {
    /// A fixed description of the error kind; the offending text itself is
    /// in the variant's payload.
    pub fn message(&self) -> (r: String)
        ensures
            r@ == self.spec_message(),
    {
        match self {
            ParseError::BadFirstLine(_) => String::from_str(
                "first line does not open the stream with the expected tag and version",
            ),
            ParseError::BadHeaderStart(_) => String::from_str(
                "line opens neither a comment, a structured sub-header, nor the run information",
            ),
            ParseError::BadXmlTag(_) => String::from_str("malformed tag while reading attributes"),
            ParseError::BadXmlHeader(_) => String::from_str(
                "structured sub-header is not a well-formed element tree",
            ),
            ParseError::BadEventStart(_) => String::from_str(
                "line opens neither an event nor the closing tag",
            ),
            ParseError::MissingEntry(_) => String::from_str("record line ran out of fields"),
            ParseError::ConversionError(_) => String::from_str(
                "field failed to read as a number",
            ),
            ParseError::UnsupportedVersion(_) => String::from_str(
                "only versions 1.0, 2.0 and 3.0 are supported",
            ),
            ParseError::MissingVersion => String::from_str("version information missing"),
            ParseError::EndOfFile(_) => String::from_str("block without closing tag"),
        }
    }

    /// What `message` returns, by variant.
    pub open spec fn spec_message(&self) -> Seq<char> {
        match self {
            ParseError::BadFirstLine(_) => "first line does not open the stream with the expected tag and version"@,
            ParseError::BadHeaderStart(_) => "line opens neither a comment, a structured sub-header, nor the run information"@,
            ParseError::BadXmlTag(_) => "malformed tag while reading attributes"@,
            ParseError::BadXmlHeader(_) => "structured sub-header is not a well-formed element tree"@,
            ParseError::BadEventStart(_) => "line opens neither an event nor the closing tag"@,
            ParseError::MissingEntry(_) => "record line ran out of fields"@,
            ParseError::ConversionError(_) => "field failed to read as a number"@,
            ParseError::UnsupportedVersion(_) => "only versions 1.0, 2.0 and 3.0 are supported"@,
            ParseError::MissingVersion => "version information missing"@,
            ParseError::EndOfFile(_) => "block without closing tag"@,
        }
    }
}

impl View for ParseError {
    type V = PErr;

    open spec fn view(&self) -> PErr {
        match self {
            ParseError::BadFirstLine(l) => PErr::BadFirstLine(l@),
            ParseError::BadHeaderStart(l) => PErr::BadHeaderStart(l@),
            ParseError::BadXmlTag(l) => PErr::BadXmlTag(l@),
            ParseError::BadXmlHeader(l) => PErr::BadXmlHeader(l@),
            ParseError::BadEventStart(l) => PErr::BadEventStart(l@),
            ParseError::MissingEntry(l) => PErr::MissingEntry(l@),
            ParseError::ConversionError(l) => PErr::ConversionError(l@),
            ParseError::UnsupportedVersion(l) => PErr::UnsupportedVersion(l@),
            ParseError::MissingVersion => PErr::MissingVersion,
            ParseError::EndOfFile(b) => PErr::EndOfFile(*b),
        }
    }
}

} // verus!
