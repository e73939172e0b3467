//! A route-template engine: parses a hybrid of RFC 3986 path grammar and
//! RFC 6570 URI Templates into an AST, and derives from it the canonical
//! template string, a router dispatch pattern, a capture regex, and filled
//! URIs under a selectable strictness policy.

use vstd::prelude::*;

pub mod cachecontrol;
pub mod hypermedia;
pub mod routing;

verus! {

/// Errors surfaced by the routing engine. All variants carry plain values;
/// failures from outside libraries are carried as their rendered messages.
#[derive(Debug, Clone, PartialEq, Eq)]
pub enum Error {
    /// The template string does not follow the route-template grammar.
    Parsing(String),
    /// A rendered template string was rejected as an RFC 6570 URI template.
    IriTempate(String),
    /// A filled URI string was rejected as an IRI reference.
    CreateString(String),
    /// The fill policy required values for these template variables.
    MissingCaptures(Vec<String>),
    /// The fill policy forbade values beyond the template's variables.
    ExtraCaptures(Vec<String>),
    /// The generated capture regex was rejected by the regex engine.
    RegexParse(String),
    /// The input URI did not match the capture regex (regex, input).
    NoMatch(String, String),
}

} // verus!
