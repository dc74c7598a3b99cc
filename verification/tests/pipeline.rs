//! Tests of the transformer pipeline: frontmatter, filters, markdown
//! rewriting and the full engine.

use trellis::encryption::EncryptCache;
use trellis::errors::RenderError;
use trellis::fm::{serialize_meta_lines, FrontMatter};
use trellis::renderer::{AuxStamps, CacheState, ContentTree, FileEntry, TrellisEngine};
use trellis::types::{Page, PageMetadata};

fn meta_none() -> PageMetadata {
    PageMetadata::default()
}

fn page_with(content: &str) -> Page {
    Page::new("p".to_string(), "p.md".to_string(), content.to_string())
}

fn default_engine() -> TrellisEngine {
    TrellisEngine::new(trellis::config::SiteConfig::default(), "/site")
}

fn tree_of(files: Vec<(&str, &str, u64)>) -> ContentTree {
    ContentTree {
        files: files
            .into_iter()
            .map(|(p, c, m)| FileEntry { path: p.to_string(), content: c.to_string(), mtime: m })
            .collect(),
    }
}

fn aux_zero() -> AuxStamps {
    AuxStamps { styles_mtime: 0, binary_mtime: 0, config_mtime: 0, theme_marker_mtime: 0 }
}

#[test]
fn no_frontmatter_leaves_page_unchanged() {
    let fm = FrontMatter;
    let page = page_with("# Hello\n\nBody text.");
    let out = fm.transform(page).unwrap();
    assert_eq!(out.content, "# Hello\n\nBody text.");
    assert!(out.frontmatter.title.is_none());
    assert!(out.frontmatter.description.is_none());
    assert!(out.frontmatter.tags.is_none());
    assert!(out.frontmatter.draft.is_none());
    assert!(out.frontmatter.password.is_none());
}

#[test]
fn frontmatter_extracts_fields_and_strips_block() {
    let fm = FrontMatter;
    let page = page_with(
        "---\ntitle: Hello\ndescription: A page\ntags: [a, b]\ncreated: 2023-05-01T10:00:00Z\ndraft: false\n---\nBody here",
    );
    let out = fm.transform(page).unwrap();
    assert_eq!(out.frontmatter.title.as_deref(), Some("Hello"));
    assert_eq!(out.frontmatter.description.as_deref(), Some("A page"));
    assert_eq!(
        out.frontmatter.tags.clone().unwrap(),
        vec!["a".to_string(), "b".to_string()]
    );
    assert_eq!(out.frontmatter.created.as_deref(), Some("2023-05-01T10:00:00Z"));
    assert_eq!(out.frontmatter.draft, Some(false));
    assert_eq!(out.content, "Body here");
}

#[test]
fn malformed_frontmatter_is_parse_error() {
    let fm = FrontMatter;
    let page = page_with("---\nthis line has no separator\n---\nBody");
    let err = fm.transform(page).unwrap_err();
    assert!(matches!(err, RenderError::Parse));
}

#[test]
fn invalid_timestamp_leaves_created_unset() {
    let fm = FrontMatter;
    let page = page_with("---\ncreated: yesterday\n---\nBody");
    let out = fm.transform(page).unwrap();
    assert!(out.frontmatter.created.is_none());
}

#[test]
fn frontmatter_round_trip_through_serializer() {
    let mut m = meta_none();
    m.title = Some("Hello".to_string());
    m.description = Some("A page".to_string());
    m.created = Some("2023-05-01T10:00:00Z".to_string());
    m.updated = Some("2024-01-02T03:04:05+01:30".to_string());
    m.tags = Some(vec!["a".to_string(), "b c".to_string()]);
    let lines = serialize_meta_lines(&m);
    let mut content = String::from("---\n");
    for l in &lines {
        content.push_str(l);
        content.push('\n');
    }
    content.push_str("---\nBody");
    let fm = FrontMatter;
    let out = fm.transform(page_with(&content)).unwrap();
    assert_eq!(out.frontmatter.title, m.title);
    assert_eq!(out.frontmatter.description, m.description);
    assert_eq!(out.frontmatter.created, m.created);
    assert_eq!(out.frontmatter.updated, m.updated);
    assert_eq!(out.frontmatter.tags, m.tags);
    assert_eq!(out.content, "Body");
}

#[test]
fn empty_tag_list_round_trips() {
    let fm = FrontMatter;
    let out = fm.transform(page_with("---\ntags: []\n---\nBody")).unwrap();
    assert_eq!(out.frontmatter.tags, Some(vec![]));
}

#[test]
fn draft_page_is_filtered_from_render() {
    let engine = default_engine();
    let tree = tree_of(vec![("note.md", "---\ndraft: true\n---\nHidden", 10)]);
    let mut cache = CacheState::new();
    let mut enc = EncryptCache::new();
    let err = engine
        .render_page("note", &tree, &mut cache, &aux_zero(), &mut enc, 100)
        .unwrap_err();
    assert!(matches!(err, RenderError::Filtered));
}

#[test]
fn draft_false_renders() {
    let engine = default_engine();
    let tree = tree_of(vec![("note.md", "---\ndraft: false\n---\nShown", 10)]);
    let mut cache = CacheState::new();
    let mut enc = EncryptCache::new();
    let rp = engine
        .render_page("note", &tree, &mut cache, &aux_zero(), &mut enc, 100)
        .unwrap();
    assert!(rp.html.contains("Shown"));
    assert_eq!(rp.cached, Some(false));
}

#[test]
fn draft_pages_skipped_in_prebuild() {
    let engine = default_engine();
    let tree = tree_of(vec![
        ("a.md", "Plain page", 1),
        ("b.md", "---\ndraft: true\n---\nDraft page", 1),
        ("c.md", "---\ndraft: false\n---\nAnother", 1),
    ]);
    let mut cache = CacheState::new();
    let mut enc = EncryptCache::new();
    let slugs = engine
        .prebuild_all(&tree, &mut cache, &aux_zero(), &mut enc, 100)
        .unwrap();
    assert_eq!(slugs, vec!["a".to_string(), "c".to_string()]);
}

#[test]
fn end_to_end_posts_hello() {
    let engine = default_engine();
    let tree = tree_of(vec![(
        "posts/hello.md",
        "---\ntitle: Hello\ntags: [a, b]\n---\nHi [[world]]",
        5,
    )]);
    let mut cache = CacheState::new();
    let mut enc = EncryptCache::new();
    assert!(engine.page_exists("posts/hello", &tree));
    let rp = engine
        .render_page("posts/hello", &tree, &mut cache, &aux_zero(), &mut enc, 100)
        .unwrap();
    assert_eq!(rp.slug, "posts/hello");
    assert_eq!(rp.frontmatter.title.as_deref(), Some("Hello"));
    assert_eq!(
        rp.frontmatter.tags.clone().unwrap(),
        vec!["a".to_string(), "b".to_string()]
    );
    // The wikilink is rewritten into a real anchor, and its target is also
    // indexed for the content index's link graph.
    assert!(rp.html.contains("Hi"));
    assert!(rp.html.contains("<a href=\"/world\">world</a>"));
    let entry = trellis::content_index::content_index_entry(
        "posts/hello".to_string(),
        "posts/hello.md".to_string(),
        "---\ntitle: Hello\ntags: [a, b]\n---\nHi [[world]]".to_string(),
    )
    .unwrap();
    assert_eq!(entry.links.unwrap(), vec!["world".to_string()]);
}

#[test]
fn ignored_slug_is_not_found_even_with_cache() {
    let engine = default_engine();
    let tree = tree_of(vec![("private/secret.md", "Top secret", 5)]);
    let mut cache = CacheState::new();
    // A stale cache entry for the ignored slug must never be served.
    cache.put("private/secret.html".to_string(), "<p>old</p>".to_string(), 999);
    let mut enc = EncryptCache::new();
    assert!(!engine.page_exists("private/secret", &tree));
    let err = engine
        .render_page("private/secret", &tree, &mut cache, &aux_zero(), &mut enc, 100)
        .unwrap_err();
    assert!(matches!(err, RenderError::NotFound));
}

#[test]
fn missing_source_is_not_found() {
    let engine = default_engine();
    let tree = tree_of(vec![]);
    let mut cache = CacheState::new();
    let mut enc = EncryptCache::new();
    let err = engine
        .render_page("nope", &tree, &mut cache, &aux_zero(), &mut enc, 100)
        .unwrap_err();
    assert!(matches!(err, RenderError::NotFound));
}

#[test]
fn blank_source_is_not_found() {
    let engine = default_engine();
    let tree = tree_of(vec![("empty.md", "  \n\n  ", 5)]);
    let mut cache = CacheState::new();
    let mut enc = EncryptCache::new();
    let err = engine
        .render_page("empty", &tree, &mut cache, &aux_zero(), &mut enc, 100)
        .unwrap_err();
    assert!(matches!(err, RenderError::NotFound));
}

#[test]
fn fresh_cache_is_reused_and_stale_cache_is_replaced() {
    let engine = default_engine();
    let tree = tree_of(vec![("page.md", "New body text", 50)]);
    let mut cache = CacheState::new();
    cache.put("page.html".to_string(), "<p>cached html</p>".to_string(), 60);
    let mut enc = EncryptCache::new();
    // Cache mtime 60 >= source 50 and >= all aux stamps: reused.
    let rp = engine
        .render_page("page", &tree, &mut cache, &aux_zero(), &mut enc, 100)
        .unwrap();
    assert_eq!(rp.cached, Some(true));
    assert_eq!(rp.html, "<p>cached html</p>");
    // A newer binary stamp invalidates it: recomputed and persisted.
    let aux = AuxStamps { styles_mtime: 0, binary_mtime: 70, config_mtime: 0, theme_marker_mtime: 0 };
    let rp2 = engine
        .render_page("page", &tree, &mut cache, &aux, &mut enc, 200)
        .unwrap();
    assert_eq!(rp2.cached, Some(false));
    assert!(rp2.html.contains("New body text"));
    let entry = cache.lookup("page.html").unwrap();
    assert_eq!(entry.mtime, 200);
    assert!(entry.html.contains("New body text"));
}

#[test]
fn cached_slugs_lists_html_entries() {
    let engine = default_engine();
    let mut cache = CacheState::new();
    cache.put("a.html".to_string(), "x".to_string(), 1);
    cache.put("posts/b.html".to_string(), "y".to_string(), 1);
    cache.put("notes.txt".to_string(), "z".to_string(), 1);
    let slugs = engine.cached_slugs(&cache);
    assert_eq!(slugs, vec!["a".to_string(), "posts/b".to_string()]);
}

#[test]
fn slug_canonicalization() {
    assert_eq!(trellis::renderer::canonical_slug(""), "index");
    assert_eq!(trellis::renderer::canonical_slug("/"), "index");
    assert_eq!(trellis::renderer::canonical_slug("posts/hello"), "posts/hello");
    assert_eq!(trellis::renderer::canonical_slug("docs/"), "docs/index");
    assert_eq!(trellis::renderer::canonical_slug("/a/b"), "a/b");
}

#[test]
fn quoted_scalar_loses_its_quotes() {
    let fm = FrontMatter;
    let out = fm
        .transform(page_with("---\ntitle: \"Hello\"\ndescription: \"true\"\n---\nBody"))
        .unwrap();
    assert_eq!(out.frontmatter.title.as_deref(), Some("Hello"));
    assert_eq!(out.frontmatter.description.as_deref(), Some("true"));
}
