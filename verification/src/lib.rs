//! Prune a GraphQL document down to one operation and the fragments it needs.
//!
//! A request document can hold several named operations plus fragment
//! definitions. The client picks one operation by name and the rest are dead
//! weight on the wire and in the parser. [`drop_unused_definitions`] takes a
//! parsed document and an operation name and returns a new document with only
//! that operation and the fragments it reaches through `...Spread` references,
//! at any depth.
//!
//! If the name matches no operation, the function returns the input document
//! unchanged. It does no validation and never errors.
use vstd::prelude::*;

pub mod ast;
pub mod block_strings;
pub mod copy;
pub mod escape;
pub mod laws;
pub mod printing;
pub mod prune;
pub mod raw;
pub mod reach;
pub mod restoring;
pub mod spreads;
pub mod string_values;
pub mod text;

pub use crate::ast::Document;
pub use crate::printing::{print, try_print};
pub use crate::prune::drop_unused_definitions;
use crate::block_strings::block_strings_safe;
use crate::raw::{parse_query_text, parsed_document};

verus! {

/// The error `parse` returns for a source text that is not a valid GraphQL
/// executable document.
#[derive(Debug)]
pub struct ParseError {
    message: String,
}

impl View for ParseError {
    type V = Seq<char>;

    closed spec fn view(&self) -> Seq<char> {
        self.message@
    }
}

impl ParseError {
    /// The parser's description of what went wrong.
    pub fn message(&self) -> (r: &str)
        ensures
            r@ == self@,
    {
        self.message.as_str()
    }
}

/// Parse GraphQL source into a [`Document`].
///
/// `parse` accepts executable documents only: operations and fragment
/// definitions. Type-system definitions such as `type`, `schema`, and
/// `directive` are out of scope and make the source invalid here.
///
/// The source must meet [`block_strings_safe`]: the parser fails on block
/// strings indented with non-ASCII whitespace.
/// [`crate::block_strings::block_strings_are_safe`] tells whether it does.
///
/// # Errors
///
/// Returns a [`ParseError`] when the source is not a valid GraphQL
/// executable document; its message is the parser's.
pub fn parse(source: &str) -> (r: Result<Document, ParseError>)
    requires
        block_strings_safe(source@),
    ensures
        r matches Ok(d) ==> (parsed_document(source@) matches Ok(pd) && pd == d@),
        r matches Err(e) ==> (parsed_document(source@) matches Err(pm) && pm == e@),
        r matches Ok(d) ==> crate::string_values::document_sorted(d@),
{
    match parse_query_text(source) {
        Ok(document) => Ok(document),
        Err(message) => Err(ParseError { message }),
    }
}

} // verus!
