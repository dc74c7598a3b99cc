//! The record types that flow through the render pipeline.

use vstd::prelude::*;

use crate::text::{
    find_last, last_idx, replace_char, spec_replace, spec_starts_with, starts_with_str, to_chars,
    to_string,
};

verus! {

/// A raw frontmatter value: a scalar string, a boolean, or a list of strings.
#[derive(Debug, Clone)]
pub enum FmValue {
    Str(String),
    Bool(bool),
    List(Vec<String>),
}

/// The structured metadata subset extracted from a page's frontmatter.
///
/// `created` and `updated` hold RFC 3339 timestamp text, already validated by
/// the frontmatter stage; a value that does not parse as a timestamp leaves
/// the field unset.
#[derive(Debug, Clone)]
pub struct PageMetadata {
    pub title: Option<String>,
    pub description: Option<String>,
    pub created: Option<String>,
    pub updated: Option<String>,
    pub tags: Option<Vec<String>>,
    pub word_count: Option<u64>,
    pub encrypted: Option<bool>,
    pub password: Option<String>,
    pub draft: Option<bool>,
    pub publish: Option<bool>,
}

/// The mathematical value of a metadata record.
pub struct MetaV {
    pub title: Option<Seq<char>>,
    pub description: Option<Seq<char>>,
    pub created: Option<Seq<char>>,
    pub updated: Option<Seq<char>>,
    pub tags: Option<Seq<Seq<char>>>,
    pub word_count: Option<u64>,
    pub encrypted: Option<bool>,
    pub password: Option<Seq<char>>,
    pub draft: Option<bool>,
    pub publish: Option<bool>,
}

/// The view of an optional string.
pub open spec fn opt_view(o: Option<String>) -> Option<Seq<char>> {
    match o {
        Some(s) => Some(s@),
        None => None,
    }
}

/// The deep view of an optional string list.
pub open spec fn opt_list_view(o: Option<Vec<String>>) -> Option<Seq<Seq<char>>> {
    match o {
        Some(l) => Some(l.deep_view()),
        None => None,
    }
}

impl View for PageMetadata {
    type V = MetaV;

    open spec fn view(&self) -> MetaV {
        MetaV {
            title: opt_view(self.title),
            description: opt_view(self.description),
            created: opt_view(self.created),
            updated: opt_view(self.updated),
            tags: opt_list_view(self.tags),
            word_count: self.word_count,
            encrypted: self.encrypted,
            password: opt_view(self.password),
            draft: self.draft,
            publish: self.publish,
        }
    }
}

/// All structured metadata fields unset.
pub open spec fn meta_unset(m: PageMetadata) -> bool {
    &&& m.title is None
    &&& m.description is None
    &&& m.created is None
    &&& m.updated is None
    &&& m.tags is None
    &&& m.word_count is None
    &&& m.encrypted is None
    &&& m.password is None
    &&& m.draft is None
    &&& m.publish is None
}

impl Default for PageMetadata {
    /// A metadata record with every field unset.
    fn default() -> (r: PageMetadata)
        ensures
            meta_unset(r),
    {
        PageMetadata {
            title: None,
            description: None,
            created: None,
            updated: None,
            tags: None,
            word_count: None,
            encrypted: None,
            password: None,
            draft: None,
            publish: None,
        }
    }
}

/// The mutable pipeline value: one page being rendered.
///
/// `content` is the markdown body and shrinks as frontmatter is stripped;
/// `html` is absent until the markdown rendering stage runs; `frontmatter`
/// holds the structured subset while `raw_frontmatter` preserves every parsed
/// key for plugin-specific use.
#[derive(Debug, Clone)]
pub struct Page {
    pub slug: String,
    pub source_path: String,
    pub frontmatter: PageMetadata,
    pub raw_frontmatter: Vec<(String, FmValue)>,
    pub content: String,
    pub html: Option<String>,
}

impl Page {
    /// A fresh page with no metadata and no rendered HTML yet.
    pub fn new(slug: String, source_path: String, content: String) -> (r: Page)
        ensures
            r.slug == slug,
            r.source_path == source_path,
            r.content == content,
            meta_unset(r.frontmatter),
            r.raw_frontmatter@ == Seq::<(String, FmValue)>::empty(),
            r.html is None,
    {
        Page {
            slug,
            source_path,
            frontmatter: PageMetadata::default(),
            raw_frontmatter: Vec::new(),
            content,
            html: None,
        }
    }
}

/// The finalized output record handed to the presentation layer.
///
/// `html` is never absent: a page whose markdown stage did not run yields an
/// empty string. `cached` records whether the HTML was reused from disk.
#[derive(Debug, Clone)]
pub struct RenderedPage {
    pub slug: String,
    pub html: String,
    pub frontmatter: PageMetadata,
    pub cached: Option<bool>,
}

impl RenderedPage {
    /// Finalize a transformed page, defaulting absent HTML to empty.
    pub fn from_page(page: Page) -> (r: RenderedPage)
        ensures
            r.slug == page.slug,
            r.frontmatter == page.frontmatter,
            r.cached is None,
            match page.html {
                Some(h) => r.html == h,
                None => r.html@ == Seq::<char>::empty(),
            },
    {
        let html = match page.html {
            Some(h) => h,
            None => String::new(),
        };
        RenderedPage { slug: page.slug, html, frontmatter: page.frontmatter, cached: None }
    }
}

/// The slug of a content file: its path relative to the content root, with
/// the file extension stripped and backslashes normalised to `/`. A path
/// outside the root maps to `"index"`.
pub open spec fn spec_slug_from_path(path: Seq<char>, root: Seq<char>) -> Seq<char> {
    if !spec_starts_with(path, root) {
        "index"@
    } else {
        spec_strip_ext(spec_rel_path(path, root))
    }
}

/// The path with the root prefix (and one following separator) removed and
/// backslashes replaced.
pub open spec fn spec_rel_path(path: Seq<char>, root: Seq<char>) -> Seq<char> {
    let rel = path.skip(root.len() as int);
    let rel2 = if rel.len() > 0 && (rel[0] == '/' || rel[0] == '\\') {
        rel.drop_first()
    } else {
        rel
    };
    spec_replace(rel2, '\\', '/')
}

/// The extension of the final path segment removed: everything from the last
/// `'.'`, provided it comes strictly after the segment's first character.
pub open spec fn spec_strip_ext(s: Seq<char>) -> Seq<char> {
    let dot = last_idx(s, '.');
    let slash = last_idx(s, '/');
    if dot > slash + 1 {
        s.take(dot)
    } else {
        s
    }
}

/// Derive the slug for a source path under the content root.
pub fn slug_from_path(path: &str, content_root: &str) -> (r: String)
    ensures
        r@ == spec_slug_from_path(path@, content_root@),
{
    let p = to_chars(path);
    if !starts_with_str(&p, content_root) {
        let index = "index";
        let r = index.to_owned();
        return r;
    }
    let root_len = content_root.unicode_len();
    let n = p.len();
    let mut rel: Vec<char> = Vec::new();
    let mut start: usize = root_len;
    if start < n && (p[start] == '/' || p[start] == '\\') {
        start = start + 1;
    }
    let mut i: usize = start;
    while i < n
        invariant
            start <= i <= n == p@.len(),
            rel@ =~= p@.subrange(start as int, i as int),
        decreases n - i,
    {
        rel.push(p[i]);
        assert(rel@ =~= p@.subrange(start as int, i + 1));
        i = i + 1;
    }
    let rel = replace_char(&rel, '\\', '/');
    proof {
        let tail = path@.skip(content_root@.len() as int);
        if start > root_len {
            assert(tail.drop_first() =~= p@.subrange(start as int, n as int));
        } else {
            assert(tail =~= p@.subrange(start as int, n as int));
        }
        assert(rel@ =~= spec_rel_path(path@, content_root@));
    }
    let dot = find_last(&rel, '.');
    let slash = find_last(&rel, '/');
    let strip = match dot {
        Some(d) => match slash {
            Some(s) => d > s + 1,
            None => d > 0,
        },
        None => false,
    };
    if strip {
        let d = match dot {
            Some(d) => d,
            None => 0,
        };
        let mut out: Vec<char> = Vec::new();
        let mut j: usize = 0;
        while j < d
            invariant
                j <= d < rel@.len(),
                out@ =~= rel@.take(j as int),
            decreases d - j,
        {
            out.push(rel[j]);
            assert(out@ =~= rel@.take(j + 1));
            j = j + 1;
        }
        to_string(&out)
    } else {
        to_string(&rel)
    }
}

} // verus!
