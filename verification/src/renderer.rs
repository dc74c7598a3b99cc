//! The render engine: resolve a slug to its source, decide cache freshness,
//! run the transformer and filter chain, substitute or persist cached HTML,
//! and finalize a rendered page.
//!
//! The engine works over explicit snapshots: the content tree and cache
//! state are plain values keyed by paths relative to their roots, with
//! modification times as integers. The caller reads them from disk and
//! persists cache changes afterwards.

use vstd::prelude::*;

use crate::cache::spec_is_fresh;
use crate::config::SiteConfig;
use crate::encryption::{enc_rel, needs_encryption, word_ws, EncryptCache};
use crate::errors::RenderError;
use crate::fm::{fm_rel, spec_fm_block, spec_has_fm, spec_parse_fm};
use crate::layout::{
    default_content_page_layout, default_list_page_layout, shared_layout, PageLayout, SharedLayout,
};
use crate::markdown_stage::md_rel;
use crate::plugins::{filters_allow, FilterKind, PluginRegistry};
use crate::text::{
    chars_eq_str, find_last, last_idx, push_str_chars, spec_split_at, split_at_char, str_eq,
    to_chars, to_string,
};
use crate::types::{meta_unset, spec_slug_from_path, FmValue, Page, RenderedPage};

verus! {

broadcast use crate::text::lemma_vec_char_deep_view;

/// One source file of the content tree: its path relative to the content
/// root (`/`-separated), its text, and its modification time.
#[derive(Debug, Clone)]
pub struct FileEntry {
    pub path: String,
    pub content: String,
    pub mtime: u64,
}

/// A snapshot of the content tree.
#[derive(Debug, Clone)]
pub struct ContentTree {
    pub files: Vec<FileEntry>,
}

/// One cached rendered page: its path relative to the cache root, the HTML,
/// and the cache file's modification time.
#[derive(Debug, Clone)]
pub struct CacheEntry {
    pub path: String,
    pub html: String,
    pub mtime: u64,
}

/// A snapshot of the on-disk page cache.
#[derive(Debug, Clone)]
pub struct CacheState {
    pub entries: Vec<CacheEntry>,
}

/// The auxiliary dependency timestamps a render compares cache entries
/// against: the style tree's newest mtime, the running binary's build
/// mtime, the configuration file's mtime, and the theme hash marker's
/// mtime.
#[derive(Debug, Clone, Copy)]
pub struct AuxStamps {
    pub styles_mtime: u64,
    pub binary_mtime: u64,
    pub config_mtime: u64,
    pub theme_marker_mtime: u64,
}

impl AuxStamps {
    /// The stamps as the dependency list the freshness oracle takes.
    pub open spec fn spec_deps(&self) -> Seq<u64> {
        seq![self.styles_mtime, self.binary_mtime, self.config_mtime, self.theme_marker_mtime]
    }

    /// The stamps as a dependency vector.
    pub fn deps(&self) -> (r: Vec<u64>)
        ensures
            r@ == self.spec_deps(),
    {
        let mut r: Vec<u64> = Vec::new();
        r.push(self.styles_mtime);
        r.push(self.binary_mtime);
        r.push(self.config_mtime);
        r.push(self.theme_marker_mtime);
        proof {
            assert(r@ =~= self.spec_deps());
        }
        r
    }
}

/// The first file at `path`, if any.
pub open spec fn tree_get(files: Seq<FileEntry>, path: Seq<char>) -> Option<FileEntry>
    decreases files.len(),
{
    if files.len() == 0 {
        None
    } else if files[0].path@ == path {
        Some(files[0])
    } else {
        tree_get(files.drop_first(), path)
    }
}

/// The mathematical value of the page cache: `(path, html, mtime)` triples
/// in order.
pub open spec fn cache_view(entries: Seq<CacheEntry>) -> Seq<(Seq<char>, Seq<char>, u64)> {
    Seq::new(entries.len(), |i: int| (entries[i].path@, entries[i].html@, entries[i].mtime))
}

/// The first cache entry at `path`, if any.
pub open spec fn cache_lookup(m: Seq<(Seq<char>, Seq<char>, u64)>, path: Seq<char>) -> Option<
    (Seq<char>, Seq<char>, u64),
>
    decreases m.len(),
{
    if m.len() == 0 {
        None
    } else if m[0].0 == path {
        Some(m[0])
    } else {
        cache_lookup(m.drop_first(), path)
    }
}

/// The cache with `path` bound to `html` at `mtime`: the first entry with
/// that path replaced, or a new entry appended.
pub open spec fn cache_put(
    m: Seq<(Seq<char>, Seq<char>, u64)>,
    path: Seq<char>,
    html: Seq<char>,
    mtime: u64,
) -> Seq<(Seq<char>, Seq<char>, u64)>
    decreases m.len(),
{
    if m.len() == 0 {
        seq![(path, html, mtime)]
    } else if m[0].0 == path {
        seq![(path, html, mtime)] + m.drop_first()
    } else {
        seq![m[0]] + cache_put(m.drop_first(), path, html, mtime)
    }
}

impl CacheState {
    /// An empty cache snapshot.
    pub fn new() -> (r: CacheState)
        ensures
            cache_view(r.entries@) == Seq::<(Seq<char>, Seq<char>, u64)>::empty(),
    {
        let r = CacheState { entries: Vec::new() };
        proof {
            assert(cache_view(r.entries@) =~= Seq::<(Seq<char>, Seq<char>, u64)>::empty());
        }
        r
    }

    /// The cached HTML at `path`, if any, with its timestamp.
    pub fn lookup(&self, path: &str) -> (r: Option<&CacheEntry>)
        ensures
            match r {
                Some(c) => cache_lookup(cache_view(self.entries@), path@) == Some(
                    (c.path@, c.html@, c.mtime),
                ) && c.path@ == path@,
                None => cache_lookup(cache_view(self.entries@), path@) is None,
            },
    {
        let n = self.entries.len();
        let mut i: usize = 0;
        while i < n
            invariant
                i <= n == self.entries@.len(),
                forall|j: int| 0 <= j < i ==> self.entries@[j].path@ != path@,
            decreases n - i,
        {
            if str_eq(self.entries[i].path.as_str(), path) {
                proof {
                    lemma_cache_lookup_at(cache_view(self.entries@), path@, i as int);
                }
                return Some(&self.entries[i]);
            }
            i = i + 1;
        }
        proof {
            lemma_cache_lookup_missing(cache_view(self.entries@), path@);
        }
        None
    }

    /// Bind `path` to `html` at `mtime`, replacing an earlier entry.
    pub fn put(&mut self, path: String, html: String, mtime: u64)
        ensures
            cache_view(final(self).entries@) =~~= cache_put(
                cache_view(old(self).entries@),
                path@,
                html@,
                mtime,
            ),
    {
        let n = self.entries.len();
        let mut i: usize = 0;
        while i < n
            invariant
                n == self.entries@.len(),
                self.entries@ == old(self).entries@,
                i <= n,
                forall|j: int| 0 <= j < i ==> old(self).entries@[j].path@ != path@,
            decreases n - i,
        {
            if str_eq(self.entries[i].path.as_str(), path.as_str()) {
                self.entries[i] = CacheEntry { path, html, mtime };
                proof {
                    lemma_cache_put_at(cache_view(old(self).entries@), path@, html@, mtime,
                        i as int);
                    assert(cache_view(self.entries@) =~~= cache_view(
                        old(self).entries@,
                    ).update(i as int, (path@, html@, mtime)));
                }
                return ;
            }
            i = i + 1;
        }
        self.entries.push(CacheEntry { path, html, mtime });
        proof {
            lemma_cache_put_missing(cache_view(old(self).entries@), path@, html@, mtime);
            assert(cache_view(self.entries@) =~~= cache_view(old(self).entries@).push(
                (path@, html@, mtime),
            ));
        }
    }
}

/// When `path` first occurs at `i`, lookup yields that entry.
proof fn lemma_cache_lookup_at(m: Seq<(Seq<char>, Seq<char>, u64)>, path: Seq<char>, i: int)
    requires
        0 <= i < m.len(),
        m[i].0 == path,
        forall|j: int| 0 <= j < i ==> m[j].0 != path,
    ensures
        cache_lookup(m, path) == Some(m[i]),
    decreases m.len(),
{
    if i > 0 {
        assert forall|j: int| 0 <= j < i - 1 implies m.drop_first()[j].0 != path by {
            assert(m[j + 1].0 != path);
        }
        lemma_cache_lookup_at(m.drop_first(), path, i - 1);
    }
}

/// When `path` occurs nowhere, lookup yields nothing.
proof fn lemma_cache_lookup_missing(m: Seq<(Seq<char>, Seq<char>, u64)>, path: Seq<char>)
    requires
        forall|j: int| 0 <= j < m.len() ==> m[j].0 != path,
    ensures
        cache_lookup(m, path) is None,
    decreases m.len(),
{
    if m.len() > 0 {
        assert forall|j: int| 0 <= j < m.drop_first().len() implies m.drop_first()[j].0 != path by {
            assert(m[j + 1].0 != path);
        }
        lemma_cache_lookup_missing(m.drop_first(), path);
    }
}

/// When `path` first occurs at `i`, `cache_put` updates that entry.
proof fn lemma_cache_put_at(
    m: Seq<(Seq<char>, Seq<char>, u64)>,
    path: Seq<char>,
    html: Seq<char>,
    mtime: u64,
    i: int,
)
    requires
        0 <= i < m.len(),
        m[i].0 == path,
        forall|j: int| 0 <= j < i ==> m[j].0 != path,
    ensures
        cache_put(m, path, html, mtime) =~~= m.update(i, (path, html, mtime)),
    decreases m.len(),
{
    if i > 0 {
        assert forall|j: int| 0 <= j < i - 1 implies m.drop_first()[j].0 != path by {
            assert(m[j + 1].0 != path);
        }
        lemma_cache_put_at(m.drop_first(), path, html, mtime, i - 1);
        assert((seq![m[0]] + m.drop_first().update(i - 1, (path, html, mtime))) =~~= m.update(
            i,
            (path, html, mtime),
        ));
    } else {
        assert((seq![(path, html, mtime)] + m.drop_first()) =~~= m.update(
            0,
            (path, html, mtime),
        ));
    }
}

/// When `path` occurs nowhere, `cache_put` appends.
proof fn lemma_cache_put_missing(
    m: Seq<(Seq<char>, Seq<char>, u64)>,
    path: Seq<char>,
    html: Seq<char>,
    mtime: u64,
)
    requires
        forall|j: int| 0 <= j < m.len() ==> m[j].0 != path,
    ensures
        cache_put(m, path, html, mtime) =~~= m.push((path, html, mtime)),
    decreases m.len(),
{
    if m.len() > 0 {
        assert forall|j: int| 0 <= j < m.drop_first().len() implies m.drop_first()[j].0 != path by {
            assert(m[j + 1].0 != path);
        }
        lemma_cache_put_missing(m.drop_first(), path, html, mtime);
        assert((seq![m[0]] + m.drop_first().push((path, html, mtime))) =~~= m.push(
            (path, html, mtime),
        ));
    }
}

/// A cache write binds its own path and leaves every other lookup alone.
proof fn lemma_cache_put_lookup(
    m: Seq<(Seq<char>, Seq<char>, u64)>,
    path: Seq<char>,
    html: Seq<char>,
    mtime: u64,
    q: Seq<char>,
)
    ensures
        cache_lookup(cache_put(m, path, html, mtime), q) == (if q == path {
            Some((path, html, mtime))
        } else {
            cache_lookup(m, q)
        }),
    decreases m.len(),
{
    if m.len() == 0 {
        assert(cache_put(m, path, html, mtime) =~~= seq![(path, html, mtime)]);
        assert(seq![(path, html, mtime)].drop_first() =~~= m);
    } else if m[0].0 == path {
        assert((seq![(path, html, mtime)] + m.drop_first()).drop_first() =~~= m.drop_first());
        if q != path {
            assert(cache_lookup(m, q) == cache_lookup(m.drop_first(), q));
        }
    } else {
        lemma_cache_put_lookup(m.drop_first(), path, html, mtime, q);
        assert((seq![m[0]] + cache_put(m.drop_first(), path, html, mtime)).drop_first()
            =~~= cache_put(m.drop_first(), path, html, mtime));
    }
}

/// Look up a file of the content tree by its relative path.
pub fn tree_lookup<'a>(tree: &'a ContentTree, path: &str) -> (r: Option<&'a FileEntry>)
    ensures
        match r {
            Some(f) => tree_get(tree.files@, path@) == Some(*f),
            None => tree_get(tree.files@, path@) is None,
        },
{
    let n = tree.files.len();
    let mut i: usize = 0;
    while i < n
        invariant
            i <= n == tree.files@.len(),
            forall|j: int| 0 <= j < i ==> tree.files@[j].path@ != path@,
        decreases n - i,
    {
        if str_eq(tree.files[i].path.as_str(), path) {
            proof {
                lemma_tree_get_at(tree.files@, path@, i as int);
            }
            return Some(&tree.files[i]);
        }
        i = i + 1;
    }
    proof {
        lemma_tree_get_missing(tree.files@, path@);
    }
    None
}

/// When `path` first occurs at `i`, the tree lookup yields that file.
proof fn lemma_tree_get_at(files: Seq<FileEntry>, path: Seq<char>, i: int)
    requires
        0 <= i < files.len(),
        files[i].path@ == path,
        forall|j: int| 0 <= j < i ==> files[j].path@ != path,
    ensures
        tree_get(files, path) == Some(files[i]),
    decreases files.len(),
{
    if i > 0 {
        assert forall|j: int| 0 <= j < i - 1 implies files.drop_first()[j].path@ != path by {
            assert(files[j + 1].path@ != path);
        }
        lemma_tree_get_at(files.drop_first(), path, i - 1);
    }
}

/// When `path` occurs nowhere, the tree lookup yields nothing.
proof fn lemma_tree_get_missing(files: Seq<FileEntry>, path: Seq<char>)
    requires
        forall|j: int| 0 <= j < files.len() ==> files[j].path@ != path,
    ensures
        tree_get(files, path) is None,
    decreases files.len(),
{
    if files.len() > 0 {
        assert forall|j: int|
            0 <= j < files.drop_first().len() implies files.drop_first()[j].path@ != path by {
            assert(files[j + 1].path@ != path);
        }
        lemma_tree_get_missing(files.drop_first(), path);
    }
}

/// Is every character of `s` whitespace (the page would be blank)?
pub open spec fn is_blank(s: Seq<char>) -> bool {
    forall|i: int| 0 <= i < s.len() ==> word_ws(#[trigger] s[i])
}

/// Is the text blank: empty or whitespace only?
pub fn check_blank(v: &Vec<char>) -> (r: bool)
    ensures
        r == is_blank(v@),
{
    let n = v.len();
    let mut i: usize = 0;
    while i < n
        invariant
            i <= n == v@.len(),
            forall|k: int| 0 <= k < i ==> word_ws(#[trigger] v@[k]),
        decreases n - i,
    {
        let c = v[i];
        if !(c == ' ' || c == '\t' || c == '\n' || c == '\r') {
            return false;
        }
        i = i + 1;
    }
    true
}

/// Does the final path segment carry an extension: a `.` strictly inside
/// the segment?
pub open spec fn spec_has_ext(s: Seq<char>) -> bool {
    last_idx(s, '.') > last_idx(s, '/') + 1
}

/// The content-relative source path for a slug: the slug itself, with `.md`
/// appended when it has no extension.
pub open spec fn spec_source_rel(slug: Seq<char>) -> Seq<char> {
    if spec_has_ext(slug) {
        slug
    } else {
        slug + ".md"@
    }
}

/// The content-relative source path for a slug.
pub fn source_rel_for(slug: &str) -> (r: String)
    ensures
        r@ == spec_source_rel(slug@),
{
    let v = to_chars(slug);
    let dot = find_last(&v, '.');
    let slash = find_last(&v, '/');
    let has_ext = match dot {
        Some(d) => match slash {
            Some(s) => d > s && d - s > 1,
            None => d > 0,
        },
        None => false,
    };
    let mut out: Vec<char> = Vec::new();
    push_str_chars(&mut out, slug);
    if !has_ext {
        push_str_chars(&mut out, ".md");
    }
    to_string(&out)
}

/// The cache-relative path for a slug's rendered HTML.
pub open spec fn spec_cache_rel(slug: Seq<char>) -> Seq<char> {
    slug + ".html"@
}

/// Is the relative path ignored: does any of its `/`-separated segments
/// equal one of the configured ignore patterns?
pub open spec fn spec_is_ignored(patterns: Seq<Seq<char>>, rel: Seq<char>) -> bool {
    exists|i: int, j: int|
        0 <= i < spec_split_at(rel, '/').len() && 0 <= j < patterns.len()
            && #[trigger] spec_split_at(rel, '/')[i] == #[trigger] patterns[j]
}

/// Is the relative path ignored by the configured patterns?
#[verifier::loop_isolation(false)]
pub fn is_ignored(patterns: &Vec<String>, rel_path: &str) -> (r: bool)
    ensures
        r == spec_is_ignored(patterns.deep_view(), rel_path@),
{
    let rel = to_chars(rel_path);
    let segments = split_at_char(&rel, '/');
    let ns = segments.len();
    let np = patterns.len();
    let mut i: usize = 0;
    while i < ns
        invariant
            i <= ns,
            forall|a: int, b: int|
                0 <= a < i && 0 <= b < patterns.deep_view().len() ==> #[trigger] spec_split_at(
                    rel_path@,
                    '/',
                )[a] != #[trigger] patterns.deep_view()[b],
        decreases ns - i,
    {
        let mut j: usize = 0;
        while j < np
            invariant
                i < ns,
                j <= np,
                forall|b: int|
                    0 <= b < j ==> spec_split_at(rel_path@, '/')[i as int] != #[trigger] patterns.deep_view()[b],
            decreases np - j,
        {
            if chars_eq_str(&segments[i], patterns[j].as_str()) {
                assert(spec_split_at(rel_path@, '/')[i as int] == patterns.deep_view()[j as int]);
                return true;
            }
            j = j + 1;
        }
        i = i + 1;
    }
    false
}

/// A path resolved against a base directory: absolute paths stand alone,
/// relative ones are joined under the base.
pub open spec fn spec_resolve_path(base: Seq<char>, path: Seq<char>) -> Seq<char> {
    if path.len() > 0 && path[0] == '/' {
        path
    } else {
        base + seq!['/'] + path
    }
}

/// Resolve a configured path against a base directory.
pub fn resolve_path(base: &str, path: &str) -> (r: String)
    ensures
        r@ == spec_resolve_path(base@, path@),
{
    let p = to_chars(path);
    if p.len() > 0 && p[0] == '/' {
        let r = path.to_owned();
        return r;
    }
    let mut out: Vec<char> = Vec::new();
    push_str_chars(&mut out, base);
    out.push('/');
    push_str_chars(&mut out, path);
    to_string(&out)
}

/// The canonical slug for a requested path: surrounding slashes trimmed; an
/// empty request is the index, and a request ending in `/` is that
/// directory's index.
pub open spec fn spec_canonical_slug(raw: Seq<char>) -> Seq<char> {
    let t = crate::config::drop_leading_slashes(crate::config::drop_trailing_slashes(raw));
    if t.len() == 0 {
        "index"@
    } else if raw.len() > 0 && raw.last() == '/' {
        t + "/index"@
    } else {
        t
    }
}

/// Canonicalize a requested slug path.
#[verifier::loop_isolation(false)]
pub fn canonical_slug(raw: &str) -> (r: String)
    ensures
        r@ == spec_canonical_slug(raw@),
{
    let v = to_chars(raw);
    let n = v.len();
    let mut hi: usize = n;
    while hi > 0 && v[hi - 1] == '/'
        invariant
            hi <= n,
            forall|k: int| hi <= k < n ==> v@[k] == '/',
        decreases hi,
    {
        hi = hi - 1;
    }
    proof {
        lemma_drop_trailing_slashes(v@, hi as int);
    }
    let ghost dt = crate::config::drop_trailing_slashes(v@);
    let mut lo: usize = 0;
    while lo < hi && v[lo] == '/'
        invariant
            lo <= hi,
            forall|k: int| 0 <= k < lo ==> v@[k] == '/',
        decreases hi - lo,
    {
        lo = lo + 1;
    }
    proof {
        assert(dt =~= v@.take(hi as int));
        lemma_drop_leading_slashes(dt, lo as int);
    }
    let mut out: Vec<char> = Vec::new();
    let mut i: usize = lo;
    while i < hi
        invariant
            lo <= i <= hi,
            out@ =~= v@.subrange(lo as int, i as int),
        decreases hi - i,
    {
        out.push(v[i]);
        assert(out@ =~= v@.subrange(lo as int, i + 1));
        i = i + 1;
    }
    assert(out@ =~= crate::config::drop_leading_slashes(dt));
    if out.len() == 0 {
        let r = String::from_str("index");
        return r;
    }
    if n > 0 && v[n - 1] == '/' {
        push_str_chars(&mut out, "/index");
    }
    to_string(&out)
}

/// Trailing-slash removal keeps the prefix before the final slash run.
proof fn lemma_drop_trailing_slashes(s: Seq<char>, hi: int)
    requires
        0 <= hi <= s.len(),
        forall|k: int| hi <= k < s.len() ==> s[k] == '/',
        hi > 0 ==> s[hi - 1] != '/',
    ensures
        crate::config::drop_trailing_slashes(s) =~= s.take(hi),
    decreases s.len(),
{
    if hi < s.len() {
        assert forall|k: int| hi <= k < s.drop_last().len() implies s.drop_last()[k] == '/' by {
            assert(s[k] == '/');
        }
        lemma_drop_trailing_slashes(s.drop_last(), hi);
        assert(s.drop_last().take(hi) =~= s.take(hi));
    }
}

/// Leading-slash removal keeps the suffix after the initial slash run.
proof fn lemma_drop_leading_slashes(s: Seq<char>, lo: int)
    requires
        0 <= lo <= s.len(),
        forall|k: int| 0 <= k < lo ==> s[k] == '/',
        lo < s.len() ==> s[lo] != '/',
    ensures
        crate::config::drop_leading_slashes(s) =~= s.skip(lo),
    decreases s.len(),
{
    if lo > 0 {
        assert forall|k: int| 0 <= k < lo - 1 implies s.drop_first()[k] == '/' by {
            assert(s[k + 1] == '/');
        }
        lemma_drop_leading_slashes(s.drop_first(), lo - 1);
        assert(s.drop_first().skip(lo - 1) =~= s.skip(lo));
    } else {
        assert(s.skip(0) =~= s);
    }
}

/// The render engine.
pub struct TrellisEngine {
    pub config: SiteConfig,
    pub shared_layout: SharedLayout,
    pub content_layout: PageLayout,
    pub list_layout: PageLayout,
    pub registry: PluginRegistry,
    pub content_root: String,
    pub cache_root: String,
}

/// The initial pipeline value for a slug and source file.
pub open spec fn initial_page(p0: Page, slug: Seq<char>, f: FileEntry) -> bool {
    &&& p0.slug@ == slug
    &&& p0.content == f.content
    &&& meta_unset(p0.frontmatter)
    &&& p0.raw_frontmatter@ == Seq::<(String, FmValue)>::empty()
    &&& p0.html is None
}

/// Does the content's frontmatter parse (trivially true without a block)?
pub open spec fn content_parses(content: Seq<char>) -> bool {
    spec_has_fm(content) ==> spec_parse_fm(spec_fm_block(content)) is Some
}

/// The `draft` flag the content's frontmatter yields, if any.
pub open spec fn content_draft(content: Seq<char>) -> Option<bool> {
    if spec_has_fm(content) {
        match spec_parse_fm(spec_fm_block(content)) {
            Some(m) => crate::fm::spec_meta_from_raw(m).draft,
            None => None,
        }
    } else {
        None
    }
}

/// The `password` the content's frontmatter yields, if any.
pub open spec fn content_password(content: Seq<char>) -> Option<Seq<char>> {
    if spec_has_fm(content) {
        match spec_parse_fm(spec_fm_block(content)) {
            Some(m) => crate::fm::spec_meta_from_raw(m).password,
            None => None,
        }
    } else {
        None
    }
}

/// Does one filter let content with this metadata through?
pub open spec fn filter_passes_content(f: FilterKind, content: Seq<char>) -> bool {
    match f {
        FilterKind::Draft => content_draft(content) != Some(true),
    }
}

/// Do all filters let content with this metadata through?
pub open spec fn page_allowed(fs: Seq<FilterKind>, content: Seq<char>) -> bool {
    forall|i: int| 0 <= i < fs.len() ==> filter_passes_content(#[trigger] fs[i], content)
}

/// Will the encryption stage act on a page with this content: a nonempty
/// password in its frontmatter?
pub open spec fn content_needs_encryption(content: Seq<char>) -> bool {
    content_password(content) matches Some(p) && p.len() > 0
}

/// The HTML the markdown stage renders for a page with this content.
pub open spec fn content_rendered_html(content: Seq<char>) -> Seq<char> {
    crate::markdown_stage::spec_rendered_html(crate::fm::spec_body_of(content))
}

/// The cipher-cache digest a page with this content is keyed by (meaningful
/// when the content needs encryption).
pub open spec fn content_enc_key(content: Seq<char>) -> Seq<char> {
    crate::encryption::enc_key_hex(
        vstd::utf8::encode_utf8(content_password(content).unwrap()),
        vstd::utf8::encode_utf8(content_rendered_html(content)),
    )
}

/// The frontmatter stage carries the content-level metadata into the page:
/// its `draft` and `password` fields are those the content yields.
proof fn lemma_fm_meta(p0: Page, p1: Page)
    requires
        meta_unset(p0.frontmatter),
        fm_rel(p0, p1),
    ensures
        p1.frontmatter.draft == content_draft(p0.content@),
        crate::types::opt_view(p1.frontmatter.password) == content_password(p0.content@),
{
}

/// Filters judge a transformed page exactly as its content's metadata
/// dictates.
proof fn lemma_allow_content(fs: Seq<FilterKind>, p0: Page, p1: Page)
    requires
        meta_unset(p0.frontmatter),
        fm_rel(p0, p1),
    ensures
        filters_allow(fs, p1) == page_allowed(fs, p0.content@),
{
    lemma_fm_meta(p0, p1);
    assert forall|i: int| 0 <= i < fs.len() implies (crate::plugins::filter_passes(fs[i], p1)
        == filter_passes_content(fs[i], p0.content@)) by {
        lemma_fm_meta(p0, p1);
    }
    if filters_allow(fs, p1) {
        assert forall|i: int| 0 <= i < fs.len() implies filter_passes_content(
            #[trigger] fs[i],
            p0.content@,
        ) by {
            assert(crate::plugins::filter_passes(fs[i], p1));
        }
    }
    if page_allowed(fs, p0.content@) {
        assert forall|i: int| 0 <= i < fs.len() implies crate::plugins::filter_passes(
            #[trigger] fs[i],
            p1,
        ) by {
            assert(filter_passes_content(fs[i], p0.content@));
        }
    }
}

/// After frontmatter and markdown, a page needs encryption exactly when its
/// content's frontmatter carries a nonempty password.
proof fn lemma_enc_need(p0: Page, p1: Page, p2: Page)
    requires
        meta_unset(p0.frontmatter),
        fm_rel(p0, p1),
        md_rel(p1, p2),
    ensures
        needs_encryption(p2) == content_needs_encryption(p0.content@),
{
    lemma_fm_meta(p0, p1);
}

/// A page needing encryption is keyed in the cipher cache by a digest its
/// content alone determines.
proof fn lemma_chain_enc_key(p0: Page, p1: Page, p2: Page)
    requires
        meta_unset(p0.frontmatter),
        fm_rel(p0, p1),
        md_rel(p1, p2),
        needs_encryption(p2),
    ensures
        crate::encryption::page_enc_key(p2) == content_enc_key(p0.content@),
{
    lemma_fm_meta(p0, p1);
    assert(p1.content@ == crate::fm::spec_body_of(p0.content@));
    assert(p2.html.unwrap()@ == content_rendered_html(p0.content@));
    assert(p2.frontmatter.password.unwrap()@ == content_password(p0.content@).unwrap());
}

impl TrellisEngine {
    /// The engine's ignore patterns.
    pub open spec fn spec_patterns(&self) -> Seq<Seq<char>> {
        self.config.configuration.ignore_patterns.deep_view()
    }

    /// Is this slug rejected by the configured ignore patterns (matched
    /// against every segment of its source path)?
    pub open spec fn spec_ignored_slug(&self, slug: Seq<char>) -> bool {
        spec_is_ignored(self.spec_patterns(), spec_source_rel(slug))
    }

    /// Build an engine over a configuration, resolving its content and
    /// cache roots against `base_dir` and installing the draft filter.
    pub fn new(config: SiteConfig, base_dir: &str) -> (r: TrellisEngine)
        ensures
            r.config == config,
            r.spec_content_root() == spec_resolve_path(base_dir@, config.paths.content_root@),
            r.spec_cache_root() == spec_resolve_path(base_dir@, config.paths.cache_root@),
            r.spec_reg_filters() == seq![FilterKind::Draft],
            r.spec_patterns() == config.configuration.ignore_patterns.deep_view(),
    {
        let content_root = resolve_path(base_dir, config.paths.content_root.as_str());
        let cache_root = resolve_path(base_dir, config.paths.cache_root.as_str());
        let shared = shared_layout(&config);
        let content_layout = default_content_page_layout();
        let list_layout = default_list_page_layout();
        let mut filters: Vec<FilterKind> = Vec::new();
        filters.push(FilterKind::Draft);
        let registry = PluginRegistry::bare_minimum().with_filters(filters);
        proof {
            assert(registry.spec_filters() =~= seq![FilterKind::Draft]);
        }
        TrellisEngine {
            config,
            shared_layout: shared,
            content_layout,
            list_layout,
            registry,
            content_root,
            cache_root,
        }
    }

    /// The resolved content root.
    pub open spec fn spec_content_root(&self) -> Seq<char> {
        self.content_root@
    }

    /// The resolved cache root.
    pub open spec fn spec_cache_root(&self) -> Seq<char> {
        self.cache_root@
    }

    /// The registry's installed filters.
    pub open spec fn spec_reg_filters(&self) -> Seq<FilterKind> {
        self.registry.spec_filters()
    }

    /// The configured cache root (build output).
    pub fn cache_root(&self) -> (r: &String)
        ensures
            r@ == self.spec_cache_root(),
    {
        &self.cache_root
    }

    /// The configured content root.
    pub fn content_root(&self) -> (r: &String)
        ensures
            r@ == self.spec_content_root(),
    {
        &self.content_root
    }

    /// Does a source markdown file exist for the slug? Cached HTML without
    /// a source, and any ignored slug, count as missing.
    pub fn page_exists(&self, slug: &str, tree: &ContentTree) -> (r: bool)
        ensures
            r == (!self.spec_ignored_slug(slug@) && tree_get(tree.files@, spec_source_rel(slug@))
                is Some),
    {
        let rel = source_rel_for(slug);
        if is_ignored(&self.config.configuration.ignore_patterns, rel.as_str()) {
            return false;
        }
        match tree_lookup(tree, rel.as_str()) {
            Some(_) => true,
            None => false,
        }
    }

    /// Render one page: resolve and load its source, decide cache
    /// freshness, run the full transformer and filter chain, substitute the
    /// cached HTML when fresh or persist the new HTML at `now` when not,
    /// and finalize the result.
    ///
    /// An ignored slug, a missing source and blank source content are
    /// `NotFound`, exactly; malformed frontmatter is `Parse`, exactly; a
    /// page excluded by a filter is the distinct `Filtered` signal; only a
    /// failure inside the encryption stage yields `Crypto`, and on every
    /// input whose page does not need encryption the render succeeds.
    pub fn render_page(
        &self,
        slug: &str,
        tree: &ContentTree,
        cache: &mut CacheState,
        aux: &AuxStamps,
        enc: &mut EncryptCache,
        now: u64,
    ) -> (r: Result<RenderedPage, RenderError>)
        ensures
            ({
                let ignored = self.spec_ignored_slug(slug@);
                let file = tree_get(tree.files@, spec_source_rel(slug@));
                let missing = ignored || file is None || is_blank(file.unwrap().content@);
                let fresh = !missing && match cache_lookup(
                    cache_view(old(cache).entries@),
                    spec_cache_rel(slug@),
                ) {
                    Some(c) => spec_is_fresh(file.unwrap().mtime, c.2, aux.spec_deps()),
                    None => false,
                };
                &&& ((!missing && content_parses(file.unwrap().content@) && page_allowed(
                    self.spec_reg_filters(),
                    file.unwrap().content@,
                ) && (!content_needs_encryption(file.unwrap().content@) || crate::encryption::cache_get(
                    old(enc)@,
                    content_enc_key(file.unwrap().content@),
                ) is Some)) ==> r is Ok)
                &&& match r {
                    Err(e) => {
                        &&& (e is NotFound <==> missing)
                        &&& (e is Parse <==> !missing && !content_parses(file.unwrap().content@))
                        &&& (e is Filtered <==> !missing && content_parses(
                            file.unwrap().content@,
                        ) && !page_allowed(self.spec_reg_filters(), file.unwrap().content@))
                        &&& (e is Crypto ==> !missing && content_parses(file.unwrap().content@)
                            && page_allowed(self.spec_reg_filters(), file.unwrap().content@)
                            && content_needs_encryption(file.unwrap().content@)
                            && crate::encryption::cache_get(
                            old(enc)@,
                            content_enc_key(file.unwrap().content@),
                        ) is None)
                        &&& cache_view(final(cache).entries@) == cache_view(old(cache).entries@)
                        &&& final(enc)@ == old(enc)@
                    },
                    Ok(rp) => {
                        &&& !missing
                        &&& content_parses(file.unwrap().content@)
                        &&& page_allowed(self.spec_reg_filters(), file.unwrap().content@)
                        &&& (final(enc)@ == old(enc)@ || (content_needs_encryption(
                            file.unwrap().content@,
                        ) && crate::encryption::cache_get(
                            old(enc)@,
                            content_enc_key(file.unwrap().content@),
                        ) is None))
                        &&& rp.slug@ == slug@
                        &&& rp.cached == Some(fresh)
                        &&& exists|p0: Page, p1: Page, p2: Page, p3: Page|
                            #![trigger fm_rel(p0, p1), md_rel(p1, p2), enc_rel(p2, p3, old(enc)@, final(enc)@)]
                            {
                                &&& initial_page(p0, slug@, file.unwrap())
                                &&& fm_rel(p0, p1)
                                &&& filters_allow(self.spec_reg_filters(), p1)
                                &&& md_rel(p1, p2)
                                &&& enc_rel(p2, p3, old(enc)@, final(enc)@)
                                &&& rp.frontmatter == p3.frontmatter
                                &&& rp.html@ == (if fresh {
                                    cache_lookup(
                                        cache_view(old(cache).entries@),
                                        spec_cache_rel(slug@),
                                    ).unwrap().1
                                } else {
                                    p3.html.unwrap()@
                                })
                            }
                        &&& cache_view(final(cache).entries@) == (if fresh {
                            cache_view(old(cache).entries@)
                        } else {
                            cache_put(
                                cache_view(old(cache).entries@),
                                spec_cache_rel(slug@),
                                rp.html@,
                                now,
                            )
                        })
                    },
                }
            }),
    {
        let rel = source_rel_for(slug);
        if is_ignored(&self.config.configuration.ignore_patterns, rel.as_str()) {
            return Err(RenderError::NotFound);
        }
        let file = match tree_lookup(tree, rel.as_str()) {
            Some(f) => f,
            None => {
                return Err(RenderError::NotFound);
            },
        };
        let content_chars = to_chars(file.content.as_str());
        if check_blank(&content_chars) {
            return Err(RenderError::NotFound);
        }
        let mut cache_rel_v: Vec<char> = Vec::new();
        push_str_chars(&mut cache_rel_v, slug);
        push_str_chars(&mut cache_rel_v, ".html");
        let cache_rel = to_string(&cache_rel_v);
        let deps = aux.deps();
        let fresh_entry: Option<(String, u64)> = match cache.lookup(cache_rel.as_str()) {
            Some(c) => Some((c.html.clone(), c.mtime)),
            None => None,
        };
        let source_mtime = file.mtime;
        let (use_cache, cached_html): (bool, Option<String>) = match fresh_entry {
            Some((h, m)) => {
                if crate::cache::cache_is_fresh(source_mtime, m, &deps) {
                    (true, Some(h))
                } else {
                    (false, None)
                }
            },
            None => (false, None),
        };
        let source_path = {
            let mut sp: Vec<char> = Vec::new();
            push_str_chars(&mut sp, self.content_root.as_str());
            sp.push('/');
            push_str_chars(&mut sp, rel.as_str());
            to_string(&sp)
        };
        let page = Page::new(slug.to_owned(), source_path, file.content.clone());
        let ghost page0 = page;
        let ghost fs = self.spec_reg_filters();
        let mut page = match self.registry.transform(page, enc) {
            Ok(Some(p)) => {
                proof {
                    let (p1, p2) = choose|p1: Page, p2: Page|
                        #![trigger fm_rel(page0, p1), md_rel(p1, p2)]
                        {
                            &&& fm_rel(page0, p1)
                            &&& filters_allow(fs, p1)
                            &&& md_rel(p1, p2)
                            &&& enc_rel(p2, p, old(enc)@, enc@)
                        };
                    lemma_allow_content(fs, page0, p1);
                    assert(content_parses(page0.content@));
                    lemma_enc_need(page0, p1, p2);
                    if needs_encryption(p2) {
                        lemma_chain_enc_key(page0, p1, p2);
                    }
                    assert(enc@ == old(enc)@ || (content_needs_encryption(page0.content@)
                        && crate::encryption::cache_get(
                        old(enc)@,
                        content_enc_key(page0.content@),
                    ) is None));
                }
                p
            },
            Ok(None) => {
                proof {
                    let p1 = choose|p1: Page| #[trigger] fm_rel(page0, p1) && !filters_allow(
                        fs,
                        p1,
                    );
                    lemma_allow_content(fs, page0, p1);
                    assert(content_parses(page0.content@));
                    assert(!page_allowed(fs, page0.content@));
                }
                return Err(RenderError::Filtered);
            },
            Err(e) => {
                proof {
                    if e is Crypto {
                        let (p1, p2) = choose|p1: Page, p2: Page|
                            #![trigger fm_rel(page0, p1), md_rel(p1, p2)]
                            {
                                &&& fm_rel(page0, p1)
                                &&& filters_allow(fs, p1)
                                &&& md_rel(p1, p2)
                                &&& needs_encryption(p2)
                                &&& crate::encryption::cache_get(
                                    old(enc)@,
                                    crate::encryption::page_enc_key(p2),
                                ) is None
                            };
                        lemma_allow_content(fs, page0, p1);
                        lemma_enc_need(page0, p1, p2);
                        lemma_chain_enc_key(page0, p1, p2);
                        assert(content_parses(page0.content@));
                        assert(crate::encryption::cache_get(
                            old(enc)@,
                            content_enc_key(page0.content@),
                        ) is None);
                    }
                }
                return Err(e);
            },
        };
        if use_cache {
            match cached_html {
                Some(h) => {
                    page.html = Some(h);
                },
                None => {
                },
            }
        }
        let mut rendered = RenderedPage::from_page(page);
        if !use_cache {
            cache.put(cache_rel, rendered.html.clone(), now);
        }
        rendered.cached = Some(use_cache);
        Ok(rendered)
    }
}

/// Is this a markdown file path: an `.md` extension on its final segment?
pub open spec fn is_md_file(p: Seq<char>) -> bool {
    p.len() >= 3 && p.subrange(p.len() - 3, p.len() as int) == ".md"@ && spec_has_ext(p)
}

/// The slug a content-relative path maps to.
pub open spec fn slug_of_rel(p: Seq<char>) -> Seq<char> {
    spec_slug_from_path(p, ""@)
}

/// Does the prebuild sweep consider this file: a markdown file on a path no
/// ignore pattern matches?
pub open spec fn prebuild_selects(patterns: Seq<Seq<char>>, f: FileEntry) -> bool {
    is_md_file(f.path@) && !spec_is_ignored(patterns, f.path@)
}

/// Does the prebuild sweep include this file's slug: the sweep considers
/// it, its slug resolves back to a present, nonblank source whose
/// frontmatter parses, and the draft filter lets that source through?
pub open spec fn prebuild_includes(
    files: Seq<FileEntry>,
    patterns: Seq<Seq<char>>,
    f: FileEntry,
) -> bool {
    &&& prebuild_selects(patterns, f)
    &&& match tree_get(files, spec_source_rel(slug_of_rel(f.path@))) {
        Some(src) => {
            &&& !is_blank(src.content@)
            &&& content_parses(src.content@)
            &&& page_allowed(seq![FilterKind::Draft], src.content@)
        },
        None => false,
    }
}

/// What any non-aborting render of a swept file guarantees of its source:
/// its slug resolves to a present, nonblank source, not ignored, whose
/// frontmatter parses.
pub open spec fn prebuild_loaded(
    files: Seq<FileEntry>,
    patterns: Seq<Seq<char>>,
    f: FileEntry,
) -> bool {
    let slug = slug_of_rel(f.path@);
    &&& !spec_is_ignored(patterns, spec_source_rel(slug))
    &&& match tree_get(files, spec_source_rel(slug)) {
        Some(src) => !is_blank(src.content@) && content_parses(src.content@),
        None => false,
    }
}

/// Can the sweep's render of this file only succeed or be filtered: its
/// source loads and parses, and it either needs no encryption or its
/// cipher data already sits in the given cache, so no outside call can
/// fail?
pub open spec fn prebuild_ready(
    files: Seq<FileEntry>,
    patterns: Seq<Seq<char>>,
    enc0: Seq<(Seq<char>, crate::encryption::CipherV)>,
    f: FileEntry,
) -> bool {
    let slug = slug_of_rel(f.path@);
    &&& !spec_is_ignored(patterns, spec_source_rel(slug))
    &&& match tree_get(files, spec_source_rel(slug)) {
        Some(src) => {
            &&& !is_blank(src.content@)
            &&& content_parses(src.content@)
            &&& (!content_needs_encryption(src.content@) || crate::encryption::cache_get(
                enc0,
                content_enc_key(src.content@),
            ) is Some)
        },
        None => false,
    }
}

/// Is every file the sweep considers ready against the given cipher cache?
pub open spec fn prebuild_all_ready(
    files: Seq<FileEntry>,
    patterns: Seq<Seq<char>>,
    enc0: Seq<(Seq<char>, crate::encryption::CipherV)>,
) -> bool {
    forall|j: int|
        0 <= j < files.len() ==> (prebuild_selects(patterns, #[trigger] files[j])
            ==> prebuild_ready(files, patterns, enc0, files[j]))
}

/// The source condition under which a swept file's render returns this
/// error.
pub open spec fn prebuild_error_at(
    files: Seq<FileEntry>,
    patterns: Seq<Seq<char>>,
    f: FileEntry,
    e: RenderError,
) -> bool {
    let slug = slug_of_rel(f.path@);
    let src = tree_get(files, spec_source_rel(slug));
    match e {
        RenderError::NotFound => spec_is_ignored(patterns, spec_source_rel(slug)) || src is None
            || is_blank(src.unwrap().content@),
        RenderError::Parse => {
            &&& !spec_is_ignored(patterns, spec_source_rel(slug))
            &&& src is Some
            &&& !is_blank(src.unwrap().content@)
            &&& !content_parses(src.unwrap().content@)
        },
        RenderError::Crypto => src is Some && content_needs_encryption(src.unwrap().content@),
        RenderError::Filtered => false,
    }
}

/// The slugs a prebuild sweep of `files` yields, in file order.
pub open spec fn spec_prebuild_slugs(
    files: Seq<FileEntry>,
    all_files: Seq<FileEntry>,
    patterns: Seq<Seq<char>>,
) -> Seq<Seq<char>>
    decreases files.len(),
{
    if files.len() == 0 {
        Seq::empty()
    } else {
        spec_prebuild_slugs(files.drop_last(), all_files, patterns) + (if prebuild_includes(
            all_files,
            patterns,
            files.last(),
        ) {
            seq![slug_of_rel(files.last().path@)]
        } else {
            Seq::empty()
        })
    }
}

/// Is this a markdown file path?
#[verifier::loop_isolation(false)]
pub fn check_md_file(path: &str) -> (r: bool)
    ensures
        r == is_md_file(path@),
{
    let v = to_chars(path);
    let n = v.len();
    if n < 3 {
        return false;
    }
    proof {
        reveal_strlit(".md");
    }
    let suffix_ok = v[n - 3] == '.' && v[n - 2] == 'm' && v[n - 1] == 'd';
    proof {
        let sub = v@.subrange(n - 3, n as int);
        assert(sub[0] == v@[n - 3] && sub[1] == v@[n - 2] && sub[2] == v@[n - 1]);
        if suffix_ok {
            assert(sub =~= ".md"@);
        } else {
            assert(sub != ".md"@);
        }
    }
    if !suffix_ok {
        return false;
    }
    let dot = find_last(&v, '.');
    let slash = find_last(&v, '/');
    match dot {
        Some(d) => match slash {
            Some(s) => d > s && d - s > 1,
            None => d > 0,
        },
        None => false,
    }
}

impl TrellisEngine {
    /// Pre-render every markdown file under the content root into the
    /// cache, returning the slugs rendered. A filtered (draft) page is
    /// skipped without failing the sweep; any other render error aborts it
    /// and is returned with the file it arose on, every earlier swept file
    /// having loaded and parsed. On success every returned slug has a cache
    /// entry; and the sweep is owed success whenever every swept file's
    /// source loads, parses, and either needs no encryption or already has
    /// its cipher data cached, so that no outside call decides.
    #[verifier::loop_isolation(false)]
    pub fn prebuild_all(
        &self,
        tree: &ContentTree,
        cache: &mut CacheState,
        aux: &AuxStamps,
        enc: &mut EncryptCache,
        now: u64,
    ) -> (r: Result<Vec<String>, RenderError>)
        requires
            self.spec_reg_filters() == seq![FilterKind::Draft],
        ensures
            match r {
                Ok(slugs) => {
                    &&& slugs.deep_view() == spec_prebuild_slugs(
                        tree.files@,
                        tree.files@,
                        self.spec_patterns(),
                    )
                    &&& forall|si: int|
                        0 <= si < slugs@.len() ==> cache_lookup(
                            cache_view(final(cache).entries@),
                            (#[trigger] slugs.deep_view()[si]) + ".html"@,
                        ) is Some
                },
                Err(e) => {
                    &&& !(e is Filtered)
                    &&& exists|j: int|
                        #![trigger prebuild_error_at(tree.files@, self.spec_patterns(), tree.files@[j], e)]
                        {
                            &&& 0 <= j < tree.files@.len()
                            &&& prebuild_selects(self.spec_patterns(), tree.files@[j])
                            &&& prebuild_error_at(
                                tree.files@,
                                self.spec_patterns(),
                                tree.files@[j],
                                e,
                            )
                            &&& (forall|k: int|
                                0 <= k < j && prebuild_selects(
                                    self.spec_patterns(),
                                    #[trigger] tree.files@[k],
                                ) ==> prebuild_loaded(
                                    tree.files@,
                                    self.spec_patterns(),
                                    tree.files@[k],
                                ))
                        }
                },
            },
            prebuild_all_ready(tree.files@, self.spec_patterns(), old(enc)@) ==> r is Ok,
    {
        let mut slugs: Vec<String> = Vec::new();
        let n = tree.files.len();
        let mut i: usize = 0;
        proof {
            assert(slugs.deep_view() =~~= spec_prebuild_slugs(
                tree.files@.take(0),
                tree.files@,
                self.spec_patterns(),
            ));
        }
        while i < n
            invariant
                i <= n == tree.files@.len(),
                slugs.deep_view() =~~= spec_prebuild_slugs(
                    tree.files@.take(i as int),
                    tree.files@,
                    self.spec_patterns(),
                ),
                forall|si: int|
                    0 <= si < slugs@.len() ==> cache_lookup(
                        cache_view(cache.entries@),
                        (#[trigger] slugs.deep_view()[si]) + ".html"@,
                    ) is Some,
                forall|k: int|
                    0 <= k < i && prebuild_selects(
                        self.spec_patterns(),
                        #[trigger] tree.files@[k],
                    ) ==> prebuild_loaded(tree.files@, self.spec_patterns(), tree.files@[k]),
                prebuild_all_ready(tree.files@, self.spec_patterns(), old(enc)@) ==> enc@ == old(
                    enc,
                )@,
            decreases n - i,
        {
            let ghost prefix = tree.files@.take(i + 1);
            proof {
                assert(prefix.drop_last() =~~= tree.files@.take(i as int));
                assert(prefix.last() == tree.files@[i as int]);
            }
            let f = &tree.files[i];
            let selected = check_md_file(f.path.as_str()) && !is_ignored(
                &self.config.configuration.ignore_patterns,
                f.path.as_str(),
            );
            if selected {
                let slug = crate::types::slug_from_path(f.path.as_str(), "");
                let ghost enc_before = enc@;
                let ghost cache_before = cache_view(cache.entries@);
                match self.render_page(slug.as_str(), tree, cache, aux, enc, now) {
                    Ok(rp) => {
                        proof {
                            assert(prebuild_includes(
                                tree.files@,
                                self.spec_patterns(),
                                tree.files@[i as int],
                            ));
                            if prebuild_all_ready(tree.files@, self.spec_patterns(), old(enc)@) {
                                assert(prebuild_ready(
                                    tree.files@,
                                    self.spec_patterns(),
                                    old(enc)@,
                                    tree.files@[i as int],
                                ));
                                assert(enc@ == old(enc)@);
                            }
                            assert forall|si: int| 0 <= si < slugs@.len() implies cache_lookup(
                                cache_view(cache.entries@),
                                (#[trigger] slugs.deep_view()[si]) + ".html"@,
                            ) is Some by {
                                if rp.cached != Some(true) {
                                    lemma_cache_put_lookup(
                                        cache_before,
                                        spec_cache_rel(slug@),
                                        rp.html@,
                                        now,
                                        slugs.deep_view()[si] + ".html"@,
                                    );
                                }
                            }
                            if rp.cached != Some(true) {
                                lemma_cache_put_lookup(
                                    cache_before,
                                    spec_cache_rel(slug@),
                                    rp.html@,
                                    now,
                                    spec_cache_rel(slug@),
                                );
                            }
                            assert(cache_lookup(
                                cache_view(cache.entries@),
                                spec_cache_rel(slug@),
                            ) is Some);
                        }
                        let ghost dv = slugs.deep_view();
                        slugs.push(slug);
                        proof {
                            assert(slugs.deep_view() =~~= dv.push(
                                slug_of_rel(tree.files@[i as int].path@),
                            ));
                            assert forall|si: int| 0 <= si < slugs@.len() implies cache_lookup(
                                cache_view(cache.entries@),
                                (#[trigger] slugs.deep_view()[si]) + ".html"@,
                            ) is Some by {
                                if si < dv.len() {
                                    assert(slugs.deep_view()[si] == dv[si]);
                                } else {
                                    assert(slugs.deep_view()[si] + ".html"@ == spec_cache_rel(
                                        slug@,
                                    ));
                                }
                            }
                        }
                    },
                    Err(e) => {
                        if matches!(e, RenderError::Filtered) {
                            proof {
                                assert(!prebuild_includes(
                                    tree.files@,
                                    self.spec_patterns(),
                                    tree.files@[i as int],
                                ));
                            }
                        } else {
                            proof {
                                assert(prebuild_error_at(
                                    tree.files@,
                                    self.spec_patterns(),
                                    tree.files@[i as int],
                                    e,
                                ));
                                if prebuild_all_ready(tree.files@, self.spec_patterns(), old(
                                    enc,
                                )@) {
                                    assert(prebuild_ready(
                                        tree.files@,
                                        self.spec_patterns(),
                                        old(enc)@,
                                        tree.files@[i as int],
                                    ));
                                    assert(enc_before == old(enc)@);
                                    assert(false);
                                }
                            }
                            return Err(e);
                        }
                    },
                }
            } else {
                proof {
                    assert(!prebuild_includes(
                        tree.files@,
                        self.spec_patterns(),
                        tree.files@[i as int],
                    ));
                }
            }
            i = i + 1;
        }
        assert(tree.files@.take(n as int) =~~= tree.files@);
        Ok(slugs)
    }

    /// The slugs of the cache entries currently present: every `.html`
    /// entry, its extension stripped, one leading slash removed, an empty
    /// result standing for the index.
    pub fn cached_slugs(&self, cache: &CacheState) -> (r: Vec<String>)
        ensures
            r.deep_view() == spec_cached_slugs(cache.entries@),
    {
        let mut slugs: Vec<String> = Vec::new();
        let n = cache.entries.len();
        let mut i: usize = 0;
        proof {
            assert(slugs.deep_view() =~~= spec_cached_slugs(cache.entries@.take(0)));
        }
        while i < n
            invariant
                i <= n == cache.entries@.len(),
                slugs.deep_view() =~~= spec_cached_slugs(cache.entries@.take(i as int)),
            decreases n - i,
        {
            let ghost prefix = cache.entries@.take(i + 1);
            proof {
                assert(prefix.drop_last() =~~= cache.entries@.take(i as int));
                assert(prefix.last() == cache.entries@[i as int]);
            }
            let e = &cache.entries[i];
            if check_html_file(e.path.as_str()) {
                let s = cache_entry_slug(e.path.as_str());
                let ghost dv = slugs.deep_view();
                slugs.push(s);
                proof {
                    assert(slugs.deep_view() =~~= dv.push(
                        spec_cache_entry_slug(cache.entries@[i as int].path@),
                    ));
                }
            }
            i = i + 1;
        }
        assert(cache.entries@.take(n as int) =~~= cache.entries@);
        slugs
    }
}

/// Is this an `.html` cache file path?
pub open spec fn is_html_file(p: Seq<char>) -> bool {
    p.len() >= 5 && p.subrange(p.len() - 5, p.len() as int) == ".html"@ && spec_has_ext(p)
}

/// Is this an `.html` cache file path?
#[verifier::loop_isolation(false)]
pub fn check_html_file(path: &str) -> (r: bool)
    ensures
        r == is_html_file(path@),
{
    let v = to_chars(path);
    let n = v.len();
    if n < 5 {
        return false;
    }
    proof {
        reveal_strlit(".html");
    }
    let suffix_ok = v[n - 5] == '.' && v[n - 4] == 'h' && v[n - 3] == 't' && v[n - 2] == 'm'
        && v[n - 1] == 'l';
    proof {
        let sub = v@.subrange(n - 5, n as int);
        assert(sub[0] == v@[n - 5] && sub[1] == v@[n - 4] && sub[2] == v@[n - 3] && sub[3]
            == v@[n - 2] && sub[4] == v@[n - 1]);
        if suffix_ok {
            assert(sub =~= ".html"@);
        } else {
            assert(sub != ".html"@);
        }
    }
    if !suffix_ok {
        return false;
    }
    let dot = find_last(&v, '.');
    let slash = find_last(&v, '/');
    match dot {
        Some(d) => match slash {
            Some(s) => d > s && d - s > 1,
            None => d > 0,
        },
        None => false,
    }
}

/// The slug named by a cache file path.
pub open spec fn spec_cache_entry_slug(p: Seq<char>) -> Seq<char> {
    let s0 = crate::types::spec_strip_ext(crate::text::spec_replace(p, '\\', '/'));
    let s1 = if s0.len() > 0 && s0[0] == '/' {
        s0.drop_first()
    } else {
        s0
    };
    if s1.len() == 0 {
        "index"@
    } else {
        s1
    }
}

/// The slug named by a cache file path.
#[verifier::loop_isolation(false)]
pub fn cache_entry_slug(path: &str) -> (r: String)
    ensures
        r@ == spec_cache_entry_slug(path@),
{
    let v = to_chars(path);
    let v = crate::text::replace_char(&v, '\\', '/');
    let dot = find_last(&v, '.');
    let slash = find_last(&v, '/');
    let strip = match dot {
        Some(d) => match slash {
            Some(s) => d > s && d - s > 1,
            None => d > 0,
        },
        None => false,
    };
    let end: usize = if strip {
        match dot {
            Some(d) => d,
            None => v.len(),
        }
    } else {
        v.len()
    };
    let start: usize = if end > 0 && v[0] == '/' {
        1
    } else {
        0
    };
    if start >= end {
        let ghost s0 = crate::types::spec_strip_ext(crate::text::spec_replace(path@, '\\', '/'));
        proof {
            assert(s0 =~= v@.take(end as int));
        }
        let r = String::from_str("index");
        return r;
    }
    let out = crate::text::copy_range(&v, start, end);
    let ghost s0 = crate::types::spec_strip_ext(crate::text::spec_replace(path@, '\\', '/'));
    proof {
        assert(s0 =~= v@.take(end as int));
        if start == 1 {
            assert(out@ =~= s0.drop_first());
        } else {
            assert(out@ =~= s0);
        }
    }
    to_string(&out)
}

/// The slugs of the `.html` entries of the cache, in order.
pub open spec fn spec_cached_slugs(entries: Seq<CacheEntry>) -> Seq<Seq<char>>
    decreases entries.len(),
{
    if entries.len() == 0 {
        Seq::empty()
    } else {
        spec_cached_slugs(entries.drop_last()) + (if is_html_file(entries.last().path@) {
            seq![spec_cache_entry_slug(entries.last().path@)]
        } else {
            Seq::empty()
        })
    }
}

} // verus!
