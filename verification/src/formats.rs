//! Document formats: what a parser needs to know to find the sections of a
//! file of a given kind.

use tree_sitter::Language;
use vstd::prelude::*;

pub mod difftastic;
pub mod markdown;

verus! {

/// A grammar of the `tree_sitter` crate, carried through unopened.
#[verifier::external_type_specification]
#[verifier::external_body]
pub struct ExLanguage(Language);

/// What a document format hands to the parser: a grammar and the queries
/// that find section headings and their titles.
pub trait Format {
    /// The suffix of the files that hold documents of this format.
    fn file_extension(&self) -> &str;

    /// The grammar that parses documents of this format.
    fn language(&self) -> Language;

    /// The query that matches one node per section heading.
    fn section_query(&self) -> &str;

    /// The query that captures the title inside a section heading.
    fn title_query(&self) -> &str;
}

/// The block grammar for Markdown: the constant `tree_sitter_md::LANGUAGE`
/// turned into a `tree_sitter::Language`. Nothing is claimed of the grammar.
#[verifier::external_body]
pub(crate) fn markdown_language() -> (r: Language) {
    tree_sitter_md::LANGUAGE.into()
}

} // verus!
