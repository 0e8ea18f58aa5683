//! The Markdown-to-HTML transform. The conversion itself is done by an
//! outside renderer; its output is a pure function of the Markdown text,
//! which the contracts refer to by name.

use vstd::prelude::*;

verus! {

/// The HTML that the Markdown renderer produces for the given text, with all
/// optional extensions (tables, strikethrough, footnotes, task lists)
/// enabled.
pub uninterp spec fn html_of(md: Seq<char>) -> Seq<char>;

/// Relies on pulldown-cmark's `Parser::new_ext` and `html::push_html`: the
/// rendered HTML depends on the Markdown text alone, and all optional
/// extensions are enabled by passing `Options::all()`.
#[verifier::external_body]
pub(crate) fn md_to_html(md: &str) -> (r: String)
    ensures
        r@ == html_of(md@),
{
    let mut out = String::new();
    let parser = pulldown_cmark::Parser::new_ext(md, pulldown_cmark::Options::all());
    pulldown_cmark::html::push_html(&mut out, parser);
    out
}

} // verus!
