//! Tests of the text rewriters: callouts, emoji shortcodes, mermaid fences
//! and the markdown rendering around them.

use trellis::callouts::rewrite_callouts;
use trellis::wikilinks::rewrite_wikilinks;
use trellis::emojicode::rewrite_emojis;
use trellis::markdown_stage::MarkdownRenderer;
use trellis::mermaid::rewrite_mermaid;
use trellis::types::Page;

#[test]
fn emoji_shortcode_becomes_glyph() {
    let out = rewrite_emojis("hello :smile: world");
    assert_eq!(out, "hello \u{1f604} world");
}

#[test]
fn unknown_shortcode_stays() {
    let out = rewrite_emojis("keep :not_a_real_shortcode_xyz: text");
    assert_eq!(out, "keep :not_a_real_shortcode_xyz: text");
}

#[test]
fn lone_colons_pass_through() {
    let out = rewrite_emojis("a: b: c");
    assert_eq!(out, "a: b: c");
}

#[test]
fn mermaid_fence_becomes_shell() {
    let out = rewrite_mermaid("before\n```mermaid\ngraph TD;\nA-->B;\n```\nafter");
    assert!(out.contains("<pre class=\"mermaid-block\">"));
    assert!(out.contains("data-clipboard=\"graph TD;\nA--&gt;B;\n\""));
    assert!(out.starts_with("before\n"));
    assert!(out.ends_with("after\n"));
}

#[test]
fn non_mermaid_fences_pass_through() {
    let input = "```rust\nlet x = 1;\n```\n";
    let out = rewrite_mermaid(input);
    assert_eq!(out, "```rust\nlet x = 1;\n```\n");
}

#[test]
fn callout_renders_styled_div() {
    let out = rewrite_callouts("> [!note] My Title\n> Inner text\nplain line");
    assert!(out.contains("<div class=\"callout note\""));
    assert!(out.contains("data-callout=\"note\""));
    assert!(out.contains("data-callout-fold=\"false\""));
    assert!(out.contains("My Title"));
    assert!(out.contains("Inner text"));
    assert!(out.ends_with("plain line\n"));
}

#[test]
fn callout_alias_is_canonicalized() {
    let out = rewrite_callouts("> [!hint]+ Tip here\n> body");
    assert!(out.contains("data-callout=\"tip\""));
    assert!(out.contains("is-collapsible"));
    assert!(!out.contains("is-collapsed"));
}

#[test]
fn collapsed_callout_is_marked() {
    let out = rewrite_callouts("> [!warning]-\n> body");
    assert!(out.contains("is-collapsed"));
    assert!(out.contains("data-callout-fold=\"true\""));
    // An absent title falls back to the capitalized kind.
    assert!(out.contains("Warning"));
}

#[test]
fn callout_metadata_is_escaped() {
    let out = rewrite_callouts("> [!note|x<y] T\n> body");
    assert!(out.contains("data-callout-metadata=\"x&lt;y\""));
}

#[test]
fn plain_blockquote_is_not_a_callout() {
    let out = rewrite_callouts("> just a quote\n");
    assert_eq!(out, "> just a quote\n");
}

#[test]
fn wikilink_becomes_markdown_link() {
    assert_eq!(rewrite_wikilinks("Hi [[world]]"), "Hi [world](</world>)");
}

#[test]
fn wikilink_alias_and_fragment() {
    assert_eq!(
        rewrite_wikilinks("see [[notes/one.md#top|the note]]"),
        "see [the note](</notes/one>)"
    );
}

#[test]
fn unclosed_wikilink_stays_literal() {
    assert_eq!(rewrite_wikilinks("broken [[link"), "broken [[link");
    assert_eq!(rewrite_wikilinks("empty [[]] stays"), "empty [[]] stays");
}

#[test]
fn plain_markdown_link_untouched_by_wikilinks() {
    assert_eq!(rewrite_wikilinks("[text](x.md)"), "[text](x.md)");
}

#[test]
fn renderer_links_wikilinks() {
    let md = MarkdownRenderer;
    let page = Page::new("s".to_string(), "s.md".to_string(), "Hi [[world]]".to_string());
    let html = md.transform(page).unwrap().html.unwrap();
    assert!(html.contains("<a href=\"/world\">world</a>"));
}

#[test]
fn markdown_renderer_populates_html() {
    let md = MarkdownRenderer;
    let page = Page::new("s".to_string(), "s.md".to_string(), "# Title\n\n*em*".to_string());
    let out = md.transform(page).unwrap();
    let html = out.html.unwrap();
    assert!(html.contains("<h1>Title</h1>"));
    assert!(html.contains("<em>em</em>"));
    assert_eq!(out.content, "# Title\n\n*em*");
}

#[test]
fn renderer_handles_gfm_table() {
    let md = MarkdownRenderer;
    let page = Page::new("t".to_string(), "t.md".to_string(), "| a | b |\n| - | - |\n| 1 | 2 |".to_string());
    let html = md.transform(page).unwrap().html.unwrap();
    assert!(html.contains("<table>"));
}

#[test]
fn renderer_passes_raw_html() {
    let md = MarkdownRenderer;
    let page = Page::new("t".to_string(), "t.md".to_string(), "<div class=\"x\">kept</div>".to_string());
    let html = md.transform(page).unwrap().html.unwrap();
    assert!(html.contains("<div class=\"x\">kept</div>"));
}
