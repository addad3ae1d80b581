//! A configuration-language engine: reads "corn" documents, resolves their
//! inputs, environment references, interpolations, dotted paths and spreads
//! into a value tree, and answers the requests of a generic deserializer.

use vstd::prelude::*;

pub mod de;
pub mod error;
pub mod grammar;
pub mod laws;
pub mod parser;
pub mod resolve;
pub mod scalar;
pub mod syntax;
pub mod text;
pub mod value;

use crate::error::Error;
use crate::parser::AstParser;
use crate::resolve::{eval_document, resolve_document, result_view, Env};
use crate::grammar::document_of;
use crate::value::Value;

verus! {

/// Reads a document and resolves it against the environment snapshot `env`.
/// A syntax error comes exactly for a text outside the grammar (see
/// `document_of`); otherwise the result is what the document the text
/// denotes resolves to, and the top level is always an object.
pub fn parse(text: &str, env: &Env) -> (r: Result<Value, Error>)
    ensures
        r matches Err(Error::ParserError(_)) <==> document_of(text@) is None,
        document_of(text@) is Some ==> result_view(r) == eval_document(document_of(text@)->0, env.vars@),
{
    let doc = AstParser::parse(text)?;
    resolve_document(&doc, env)
}

} // verus!
