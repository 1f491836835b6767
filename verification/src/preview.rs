//! The preview of a text file before it is edited: Markdown is rendered to
//! HTML by `pulldown_cmark`, any other text is shown as it is.
use vstd::prelude::*;

use crate::text::{chars_of, eq_chars, lit, lowercase, to_lower};

verus! {

/// The HTML that `pulldown_cmark` renders for a Markdown text, with tables,
/// strikethrough, task lists and smart punctuation switched on.
pub uninterp spec fn markdown_html(text: Seq<char>) -> Seq<char>;

/// `pulldown_cmark::Parser::new_ext` with those four options, written out
/// by `pulldown_cmark::html::push_html`: the result is named
/// `markdown_html` of the text; the CommonMark rules are not restated.
/// Writing into a `String` cannot fail, so `push_html` does not panic.
#[verifier::external_body]
fn render_markdown(text: &str) -> (r: String)
    ensures
        r@ == markdown_html(text@),
{
    let mut options = pulldown_cmark::Options::empty();
    options.insert(pulldown_cmark::Options::ENABLE_TABLES);
    options.insert(pulldown_cmark::Options::ENABLE_STRIKETHROUGH);
    options.insert(pulldown_cmark::Options::ENABLE_TASKLISTS);
    options.insert(pulldown_cmark::Options::ENABLE_SMART_PUNCTUATION);
    let parser = pulldown_cmark::Parser::new_ext(text, options);
    let mut out = String::new();
    pulldown_cmark::html::push_html(&mut out, parser);
    out
}

/// What the preview shows.
pub enum Preview {
    /// Rendered Markdown, as HTML.
    Markdown(String),
    /// The text as it is.
    Plain(String),
}

/// A file is previewed as Markdown when its extension, lower-cased, is `md`.
pub open spec fn is_markdown(ext: Seq<char>) -> bool {
    lowercase(ext) == "md"@
}

pub fn preview(content: &str, ext: &str) -> (r: Preview)
    ensures
        match r {
            Preview::Markdown(h) => is_markdown(ext@) && h@ == markdown_html(content@),
            Preview::Plain(t) => !is_markdown(ext@) && t@ == content@,
        },
{
    let e = to_lower(&chars_of(ext));
    if eq_chars(&e, &lit("md")) {
        Preview::Markdown(render_markdown(content))
    } else {
        Preview::Plain(content.to_string())
    }
}

} // verus!
