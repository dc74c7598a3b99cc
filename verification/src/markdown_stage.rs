//! The markdown rendering stage: wikilink, callout, emoji and diagram
//! rewriting, then markdown-to-HTML conversion in a GFM dialect with raw
//! HTML passed through.

use vstd::prelude::*;

use crate::callouts::{rewrite_callouts, spec_rewrite_callouts};
use crate::wikilinks::{rewrite_wikilinks, spec_rewrite_wikilinks};
use crate::emojicode::{rewrite_emojis, spec_rewrite_emojis};
use crate::errors::RenderError;
use crate::mermaid::{rewrite_mermaid, spec_rewrite_mermaid};
use crate::types::Page;

verus! {

/// The HTML that the markdown engine produces for a text, under the GFM
/// dialect with raw HTML allowed.
pub uninterp spec fn markdown_html(s: Seq<char>) -> Seq<char>;

/// Relies on `markdown::to_html_with_options` with GFM parse and compile
/// options: the result depends on the input text alone, and per its
/// documentation the call never errors without MDX syntax enabled.
#[verifier::external_body]
pub(crate) fn render_md(src: &str) -> (r: String)
    ensures
        r@ == markdown_html(src@),
{
    markdown::to_html_with_options(
        src,
        &markdown::Options {
            parse: markdown::ParseOptions::gfm(),
            compile: markdown::CompileOptions {
                allow_dangerous_html: true,
                ..markdown::CompileOptions::gfm()
            },
        },
    ).unwrap_or_default()
}

/// The full markdown stage applied to a page's content.
pub open spec fn spec_rendered_html(content: Seq<char>) -> Seq<char> {
    markdown_html(
        spec_rewrite_mermaid(
            spec_rewrite_emojis(spec_rewrite_callouts(spec_rewrite_wikilinks(content))),
        ),
    )
}

/// What the markdown stage produces: the page with `html` populated from
/// its content, everything else untouched.
pub open spec fn md_rel(page: Page, p: Page) -> bool {
    &&& p.slug == page.slug
    &&& p.source_path == page.source_path
    &&& p.frontmatter == page.frontmatter
    &&& p.raw_frontmatter == page.raw_frontmatter
    &&& p.content == page.content
    &&& p.html matches Some(h) && h@ == spec_rendered_html(page.content@)
}

/// The markdown rendering stage.
pub struct MarkdownRenderer;

impl MarkdownRenderer {
    /// Rewrite wikilinks, callouts, emoji shortcodes and diagram fences, in
    /// that order, then render the result to HTML. Only `html` changes.
    pub fn transform(&self, page: Page) -> (r: Result<Page, RenderError>)
        ensures
            match r {
                Ok(p) => md_rel(page, p),
                Err(_) => false,
            },
    {
        let with_wikilinks = rewrite_wikilinks(page.content.as_str());
        let with_callouts = rewrite_callouts(with_wikilinks.as_str());
        let with_emojis = rewrite_emojis(with_callouts.as_str());
        let with_mermaid = rewrite_mermaid(with_emojis.as_str());
        let rendered = render_md(with_mermaid.as_str());
        let mut page = page;
        page.html = Some(rendered);
        Ok(page)
    }
}

} // verus!
