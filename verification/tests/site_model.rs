//! Tests of the site model: digests, slugs, configuration, layout, styles,
//! bundles, navigation and the content index.

use trellis::bundler::{inline_scripts, InlineScripts, ScriptNeeds};
use trellis::cache::FreshSlot;
use trellis::config::{
    google_font_href, join_segments, hash_marker_needs_write, page_resources, theme_hash,
    ComponentResources, JsContentType, JsLoadTime, ServerConfig, SiteConfig,
};
use trellis::content_index::{clean_link_target, extract_links};
use trellis::digest::{sha256_hex, to_hex};
use trellis::layout::{
    component_has_explorer, default_content_page_layout, default_footer_links,
    default_list_page_layout, layout_contains_explorer, layout_contains_graph, shared_layout,
    LayoutComponent,
};
use trellis::nav::{backlink_targets, humanize_segment, links_from_config, mark_nav_open, NavItem, NavLeaf};
use trellis::styles::{compiled_styles, theme_css_variables};
use trellis::types::slug_from_path;

#[test]
fn hex_of_known_digest() {
    // SHA-256 of the empty byte string.
    assert_eq!(
        sha256_hex(&vec![]),
        "e3b0c44298fc1c149afbf4c8996fb92427ae41e4649b934ca495991b7852b855"
    );
    assert_eq!(to_hex(&vec![0xbe, 0xef, 0x00]), "beef00");
}

#[test]
fn slug_strips_root_and_extension() {
    assert_eq!(slug_from_path("/content/posts/hello.md", "/content"), "posts/hello");
    assert_eq!(slug_from_path("posts/hello.md", ""), "posts/hello");
    assert_eq!(slug_from_path("elsewhere/file.md", "/content"), "index");
    assert_eq!(slug_from_path("a\\b.md", ""), "a/b");
    assert_eq!(slug_from_path(".obsidian", ""), ".obsidian");
}

#[test]
fn join_segments_normalizes_slashes() {
    assert_eq!(join_segments("base/", "/tail"), "base/tail");
    assert_eq!(join_segments(".", "x.css"), "x.css");
    assert_eq!(join_segments("", "x.css"), "x.css");
    assert_eq!(join_segments("base", ""), "base");
}

#[test]
fn default_config_values() {
    let cfg = SiteConfig::default();
    assert_eq!(cfg.configuration.page_title, "Moss");
    assert_eq!(
        cfg.configuration.ignore_patterns,
        vec!["private".to_string(), "templates".to_string(), ".obsidian".to_string()]
    );
    assert_eq!(cfg.paths.content_root, "../content");
    assert_eq!(cfg.paths.cache_root, "../.build");
    assert_eq!(cfg.server.port, 40075);
}

#[test]
fn max_payload_multiplies_megabytes() {
    let mut server = ServerConfig::default();
    assert_eq!(server.max_payload_bytes(), 100 * 1024 * 1024);
    server.max_payload_mb = usize::MAX;
    assert_eq!(server.max_payload_bytes(), usize::MAX);
}

#[test]
fn font_href_mentions_all_fonts() {
    let cfg = SiteConfig::default();
    let href = google_font_href(&cfg.configuration.theme);
    assert!(href.starts_with("https://fonts.googleapis.com/css2?family=IBM Plex Mono"));
    assert!(href.contains("Schibsted Grotesk"));
    assert!(href.contains("Source Sans Pro"));
}

#[test]
fn theme_hash_is_stable_and_sensitive() {
    let cfg = SiteConfig::default();
    let h1 = theme_hash(&cfg.configuration.theme);
    let h2 = theme_hash(&cfg.configuration.theme);
    assert_eq!(h1, h2);
    assert_eq!(h1.len(), 64);
    let mut other = cfg.configuration.theme.clone();
    other.typography.body = "Comic Sans".to_string();
    assert_ne!(theme_hash(&other), h1);
}

#[test]
fn marker_write_decision() {
    assert!(hash_marker_needs_write(None, "abc"));
    assert!(hash_marker_needs_write(Some("abd"), "abc"));
    assert!(!hash_marker_needs_write(Some("abc"), "abc"));
    assert!(!hash_marker_needs_write(Some(" abc\n"), "abc"));
}

#[test]
fn page_resources_order() {
    let stat = ComponentResources::default();
    let r = page_resources("..", &stat);
    assert_eq!(r.css.len(), 1);
    assert_eq!(r.css[0].content, "../index.css");
    assert_eq!(r.js.len(), 3);
    assert_eq!(r.js[0].src.as_deref(), Some("../prescript.js"));
    assert_eq!(r.js[0].load_time, JsLoadTime::BeforeDomReady);
    assert_eq!(r.js[1].content_type, JsContentType::Inline);
    assert!(r.js[1]
        .script
        .as_deref()
        .unwrap()
        .contains("../static/content-index.json"));
    let last = &r.js[2];
    assert_eq!(last.src.as_deref(), Some("../postscript.js"));
    assert_eq!(last.module_type.as_deref(), Some("module"));
    assert_eq!(last.load_time, JsLoadTime::AfterDomReady);
}

#[test]
fn default_layouts_hold_expected_components() {
    let content = default_content_page_layout();
    assert_eq!(content.before_body.len(), 4);
    assert!(matches!(content.left[3], LayoutComponent::Explorer(_)));
    assert!(matches!(content.right[0], LayoutComponent::Graph));
    let list = default_list_page_layout();
    assert!(list.right.is_empty());
    let shared = shared_layout(&SiteConfig::default());
    assert!(matches!(shared.head, LayoutComponent::Head));
    assert!(layout_contains_explorer(&shared, &content, &list));
    assert!(layout_contains_graph(&shared, &content, &list));
    assert!(!component_has_explorer(&LayoutComponent::Graph));
    assert!(component_has_explorer(&LayoutComponent::MobileOnly(Box::new(
        LayoutComponent::Explorer(trellis::layout::ExplorerConfig::default())
    ))));
}

#[test]
fn footer_links_sorted_and_rendered() {
    let links = default_footer_links();
    assert_eq!(links[0].0, "Discord Community");
    assert_eq!(links[1].0, "GitHub");
    let rendered = links_from_config(&links).unwrap();
    assert_eq!(rendered[0].text, "Discord Community");
    assert_eq!(rendered[1].href, "https://github.com/jackyzha0/quartz");
    assert!(links_from_config(&vec![]).is_none());
}

#[test]
fn theme_css_mentions_palette_and_fonts() {
    let cfg = SiteConfig::default();
    let css = theme_css_variables(&cfg.configuration.theme);
    assert!(css.contains("--light: #faf8f8;"));
    assert!(css.contains("--codeFont: \"IBM Plex Mono\""));
    assert!(css.contains(":root[saved-theme=\\\"dark\\\"]"));
    assert!(css.contains("--light: #161618;"));
}

#[test]
fn styles_cache_decision() {
    let slot = FreshSlot::new("compiled-css".to_string(), 10);
    assert_eq!(compiled_styles(&slot, 5).as_deref(), Some("compiled-css"));
    assert!(compiled_styles(&slot, 11).is_none());
}

#[test]
fn bundle_selection_respects_needs_and_freshness() {
    let mut bundles = InlineScripts::default();
    bundles.mermaid = Some("mermaid-js".to_string());
    bundles.callouts = Some("callouts-js".to_string());
    let slot = FreshSlot::new(bundles, 10);
    let mut needs = ScriptNeeds::default();
    needs.mermaid = true;
    let picked = inline_scripts(&slot, needs, 10).unwrap();
    assert_eq!(picked.mermaid.as_deref(), Some("mermaid-js"));
    assert!(picked.callouts.is_none());
    assert!(inline_scripts(&slot, needs, 11).is_none());
}

#[test]
fn nav_open_marking() {
    let mut nav = vec![
        NavItem {
            title: "Posts".to_string(),
            path: "posts".to_string(),
            is_open: false,
            children: Some(vec![NavLeaf { title: "Hello".to_string(), path: "posts/hello".to_string() }]),
        },
        NavItem { title: "About".to_string(), path: "about".to_string(), is_open: true, children: None },
    ];
    mark_nav_open(&mut nav, "posts/hello/");
    assert!(nav[0].is_open);
    assert!(!nav[1].is_open);
}

#[test]
fn humanize_replaces_dashes() {
    assert_eq!(humanize_segment("my-long-note"), "my long note");
}

#[test]
fn backlink_target_forms() {
    assert_eq!(backlink_targets("posts/hello"), vec!["posts/hello".to_string()]);
    assert_eq!(
        backlink_targets("docs/index"),
        vec!["docs/index".to_string(), "docs".to_string()]
    );
    assert_eq!(backlink_targets("/"), vec!["index".to_string(), ".".to_string()]);
}

#[test]
fn link_cleaning() {
    assert_eq!(clean_link_target(" notes/one.md#section "), "notes/one");
    assert_eq!(clean_link_target("./pages/two.html"), "pages/two");
    assert_eq!(clean_link_target("dir/index"), "dir");
    assert_eq!(clean_link_target("#only-anchor"), ".");
}

#[test]
fn extract_links_sorted_deduped_and_local() {
    let links = extract_links(
        "See [[zeta]] and [[alpha|label]] plus [text](beta.md) and [x](https://remote.example/a) and [[alpha]]",
    );
    assert_eq!(
        links,
        vec!["alpha".to_string(), "beta".to_string(), "zeta".to_string()]
    );
}
