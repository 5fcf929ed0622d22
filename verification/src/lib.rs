//! A decoder for Rich Text Format (RTF) source text.
//!
//! The pipeline has two stages: [`lexer::scan`] turns raw text into a
//! sequence of [`tokens::Token`] values, and [`parser::parse`] turns that
//! sequence into a structured document: a header (character set, font
//! table, color table, stylesheet) and a body of styled text runs.
//! [`parse_rtf`] runs both stages in order.

pub mod header;
pub mod lexer;
pub mod paragraph;
pub mod parser;
pub mod tokens;

use vstd::prelude::*;

use crate::lexer::spec_scan;
use crate::parser::{
    balanced, depth_never_negative, spec_parse, theorem_parse_ok_iff_balanced, Document,
    SpecDocument,
};
use crate::tokens::{tokens_view, RtfError};

verus! {

/// What the whole pipeline produces for an input: the tokens of a
/// successful scan parsed into a document, or the first error of the
/// stage that failed.
pub open spec fn spec_parse_rtf(s: Seq<char>) -> Result<SpecDocument, RtfError> {
    match spec_scan(s) {
        Ok(toks) => spec_parse(toks),
        Err(e) => Err(e),
    }
}

/// Decodes a complete RTF document: scans it into tokens and parses the
/// tokens into a document, returning exactly what [`spec_parse_rtf`]
/// describes.
pub fn parse_rtf(input: &str) -> (r: Result<Document, RtfError>)
    ensures
        (match r {
            Ok(doc) => spec_parse_rtf(input@) == Ok::<SpecDocument, RtfError>(doc@),
            Err(e) => spec_parse_rtf(input@) == Err::<SpecDocument, RtfError>(e),
        }),
{
    match crate::lexer::scan(input) {
        Ok(toks) => {
            proof {
                assert(tokens_view(toks@) == spec_scan(input@)->Ok_0);
            }
            crate::parser::parse(&toks)
        },
        Err(e) => Err(e),
    }
}

/// Well-formed input decodes: whenever the scan succeeds and its token
/// sequence balances its braces, the whole pipeline succeeds, and the
/// nesting depth never goes negative at any prefix of the token stream.
pub proof fn theorem_well_formed_input_decodes(s: Seq<char>)
    requires
        spec_scan(s) is Ok,
        balanced(spec_scan(s)->Ok_0),
    ensures
        spec_parse_rtf(s) is Ok,
        depth_never_negative(spec_scan(s)->Ok_0),
{
    theorem_parse_ok_iff_balanced(spec_scan(s)->Ok_0);
}

} // verus!
