//! Report parsers. One implementation per producing tool dialect.

pub mod junit;
pub mod xml;

use vstd::prelude::*;

use crate::model::TestRun;

verus! {

/// Why a report could not be turned into a run.
#[derive(Debug)]
pub enum ParseError {
    /// The XML tokenizer failed.
    Xml(quick_xml::Error),
    /// The XML is well formed but not a report of the expected shape.
    InvalidStructure(String),
}

pub ghost enum ParseErrorView {
    Xml,
    InvalidStructure(Seq<char>),
}

impl View for ParseError {
    type V = ParseErrorView;

    open spec fn view(&self) -> ParseErrorView {
        match self {
            ParseError::Xml(_) => ParseErrorView::Xml,
            ParseError::InvalidStructure(m) => ParseErrorView::InvalidStructure(m@),
        }
    }
}

/// Turns one report, given as the bytes of the file, into a [`TestRun`].
pub trait ReportParser {
    fn parse(&self, input: &[u8]) -> Result<TestRun, ParseError>;
}

} // verus!
