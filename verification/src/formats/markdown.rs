//! Markdown: sections are ATX headings (`#` syntax).

use crate::formats::{markdown_language, Format};
use tree_sitter::Language;
use vstd::prelude::*;

verus! {

/// Tree-sitter queries for ATX-style markdown headings (# syntax).
pub struct MarkdownFormat;

impl Format for MarkdownFormat {
    fn file_extension(&self) -> (r: &str)
        ensures
            r@ == "md"@,
    {
        "md"
    }

    /// The block grammar for Markdown of the `tree_sitter_md` crate. A
    /// grammar is a handle to data that lives in that crate; it is handed
    /// on to the parser as it comes, and nothing is stated of it here.
    fn language(&self) -> Language {
        markdown_language()
    }

    fn section_query(&self) -> (r: &str)
        ensures
            r@ == "(atx_heading) @heading"@,
    {
        "(atx_heading) @heading"
    }

    fn title_query(&self) -> (r: &str)
        ensures
            r@
                == "(atx_heading (atx_h1_marker)? (atx_h2_marker)? (atx_h3_marker)? (atx_h4_marker)? (atx_h5_marker)? (atx_h6_marker)? (inline) @title)"@,
    {
        "(atx_heading (atx_h1_marker)? (atx_h2_marker)? (atx_h3_marker)? (atx_h4_marker)? (atx_h5_marker)? (atx_h6_marker)? (inline) @title)"
    }
}

} // verus!
