//! Error types: anchor-resolution failures, composition failures, and the
//! unsupported-feature report.

use vstd::prelude::*;

verus! {

/// A target was selected that needs a capability this build lacks.
/// Carries what was asked for and the feature that would provide it.
#[derive(Debug)]
pub struct UnsupportedFeatureError {
    pub what_to_use: String,
    pub feature: String,
}

/// Why anchor resolution failed. Each variant names one distinct missing
/// node; `Unparsable` propagates the HTML parser's rejection and
/// `BadCoordinates` reports parser coordinates that do not address the text.
#[derive(Debug)]
pub enum ResolveError {
    /// No root `html` element was found.
    NoRoot,
    /// No element carries the reserved content-anchor identifier, even after
    /// the one synthesis pass.
    NoContentAnchor,
    /// No `script` element carries the reserved stage-entry identifier, even
    /// after the one synthesis pass.
    NoScriptAnchor,
    /// A content anchor had to be synthesized but there is no `head` element
    /// to append it to.
    NoHead,
    /// A script anchor had to be synthesized but there is no `body` element
    /// to prepend it to.
    NoBody,
    /// The parser rejected the document text.
    Unparsable,
    /// An element's reported (line, column) span does not address the
    /// document's bytes, or the root tag's opening `>` could not be found.
    BadCoordinates,
}

impl ResolveError {
    /// What was being inserted, as the original missing-node report words it.
    pub fn content(&self) -> (r: &'static str)
        ensures
            self is NoRoot ==> r@ == "begin of Tar file"@,
            self is NoHead ==> r@ == "fallback location for template data"@,
            self is NoBody ==> r@ == "fallback location for initialization script data"@,
            self is NoContentAnchor ==> r@ == "tag marked as insertion point for tar contents"@,
            self is NoScriptAnchor ==> (r@
                == "tag marked as insertion point for script entry point"@),
    {
        match self {
            ResolveError::NoRoot => "begin of Tar file",
            ResolveError::NoContentAnchor => "tag marked as insertion point for tar contents",
            ResolveError::NoScriptAnchor => (
            "tag marked as insertion point for script entry point"),
            ResolveError::NoHead => "fallback location for template data",
            ResolveError::NoBody => "fallback location for initialization script data",
            ResolveError::Unparsable => "a parsable HTML document",
            ResolveError::BadCoordinates => "coordinates addressing the document",
        }
    }

    /// What was searched for, as the original missing-node report words it.
    pub fn searched_for(&self) -> (r: &'static str)
        ensures
            self is NoRoot ==> r@ == "starting `<html>` tag"@,
            self is NoHead ==> r@ == "the end of `<head>` tag"@,
            self is NoBody ==> r@ == "the end of `<body>` tag"@,
    {
        match self {
            ResolveError::NoRoot => "starting `<html>` tag",
            ResolveError::NoContentAnchor => "tag with id `WAH_POLYGLOT_HTML_PLUS_TAR_CONTENT`",
            ResolveError::NoScriptAnchor => (
            "`<script>` tag with id `WAH_POLYGLOT_HTML_PLUS_TAR_STAGE0`"),
            ResolveError::NoHead => "the end of `<head>` tag",
            ResolveError::NoBody => "the end of `<body>` tag",
            ResolveError::Unparsable => "a well-formed element tree",
            ResolveError::BadCoordinates => "an element span within the document",
        }
    }
}

/// Why composition failed.
#[derive(Debug)]
pub enum ComposeError {
    /// The input module's section structure could not be parsed; carries the
    /// parser's report.
    ModuleParse(String),
    /// A section's name and data do not fit the 32-bit sizes the module
    /// encoding carries.
    SectionTooLarge,
    /// The standalone-HTML data URI would need 2^31 or more characters.
    Oversize,
    /// The content anchor does not end strictly before the script anchor
    /// starts.
    AnchorOrder,
    /// A resolved anchor range does not lie within the template text.
    SpanOutOfRange,
}

} // verus!
