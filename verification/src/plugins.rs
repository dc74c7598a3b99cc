//! The plugin registry: the ordered transformer chain and the filters that
//! gate a page after its metadata is known.
//!
//! The stage order is a hard invariant: frontmatter first, so filters can
//! read metadata; then markdown rendering; then encryption. Filters run
//! strictly between the first stage and the rest; a filtered page is
//! discarded with a distinct signal, not an error.

use vstd::prelude::*;

use crate::encryption::{enc_rel, needs_encryption, EncryptCache, EncryptContent};
use crate::errors::RenderError;
use crate::fm::{fm_fails, fm_rel, FrontMatter};
use crate::markdown_stage::{md_rel, MarkdownRenderer};
use crate::types::Page;

verus! {

/// A metadata filter the registry can hold.
#[derive(Debug, Clone, Copy, PartialEq, Eq, Structural)]
pub enum FilterKind {
    Draft,
}

/// Does one filter let the page through?
pub open spec fn filter_passes(f: FilterKind, page: Page) -> bool {
    match f {
        FilterKind::Draft => page.frontmatter.draft != Some(true),
    }
}

/// Do all filters let the page through?
pub open spec fn filters_allow(fs: Seq<FilterKind>, page: Page) -> bool {
    forall|i: int| 0 <= i < fs.len() ==> filter_passes(#[trigger] fs[i], page)
}

/// The registry of pipeline stages and filters. The transformer chain is
/// the fixed ordered sequence frontmatter, markdown, encryption; the
/// filters are configurable.
pub struct PluginRegistry {
    filters: Vec<FilterKind>,
}

impl PluginRegistry {
    /// The stages every page needs, with no filters.
    pub fn bare_minimum() -> (r: PluginRegistry)
        ensures
            r.spec_filters() == Seq::<FilterKind>::empty(),
    {
        let r = PluginRegistry { filters: Vec::new() };
        proof {
            assert(r.filters@ =~= Seq::<FilterKind>::empty());
        }
        r
    }

    /// The registry with the given filters installed.
    pub fn with_filters(self, filters: Vec<FilterKind>) -> (r: PluginRegistry)
        ensures
            r.spec_filters() == filters@,
    {
        PluginRegistry { filters }
    }

    /// The installed filters.
    pub closed spec fn spec_filters(&self) -> Seq<FilterKind> {
        self.filters@
    }

    /// Do all installed filters let the page through?
    pub fn allow(&self, page: &Page) -> (r: bool)
        ensures
            r == filters_allow(self.spec_filters(), *page),
    {
        let n = self.filters.len();
        let mut i: usize = 0;
        while i < n
            invariant
                i <= n == self.filters@.len(),
                forall|k: int| 0 <= k < i ==> filter_passes(#[trigger] self.filters@[k], *page),
            decreases n - i,
        {
            let pass = match self.filters[i] {
                FilterKind::Draft => {
                    let d = crate::fm::DraftFilter;
                    d.includes(page)
                },
            };
            if !pass {
                return false;
            }
            i = i + 1;
        }
        true
    }

    /// Run the transformer chain in order while honoring filters. The
    /// frontmatter stage runs first; the filters then see its metadata, and
    /// a page they exclude yields `Ok(None)` with nothing else run; the
    /// remaining stages transform the page to completion.
    pub fn transform(&self, page: Page, cache: &mut EncryptCache) -> (r: Result<
        Option<Page>,
        RenderError,
    >)
        ensures
            match r {
                Ok(Some(p)) => exists|p1: Page, p2: Page|
                    {
                        &&& #[trigger] fm_rel(page, p1)
                        &&& filters_allow(self.spec_filters(), p1)
                        &&& #[trigger] md_rel(p1, p2)
                        &&& enc_rel(p2, p, old(cache)@, final(cache)@)
                    },
                Ok(None) => (exists|p1: Page|
                    #[trigger] fm_rel(page, p1) && !filters_allow(self.spec_filters(), p1))
                    && final(cache)@ == old(cache)@,
                Err(e) => {
                    ||| (e is Parse && fm_fails(page) && final(cache)@ == old(cache)@)
                    ||| (e is Crypto && final(cache)@ == old(cache)@ && exists|p1: Page, p2: Page|
                        {
                            &&& #[trigger] fm_rel(page, p1)
                            &&& filters_allow(self.spec_filters(), p1)
                            &&& #[trigger] md_rel(p1, p2)
                            &&& needs_encryption(p2)
                            &&& crate::encryption::cache_get(
                                old(cache)@,
                                crate::encryption::page_enc_key(p2),
                            ) is None
                        })
                },
            },
    {
        let fm = FrontMatter;
        let p1 = match fm.transform(page) {
            Ok(p) => p,
            Err(e) => {
                return Err(e);
            },
        };
        if !self.allow(&p1) {
            return Ok(None);
        }
        let md = MarkdownRenderer;
        let p2 = match md.transform(p1) {
            Ok(p) => p,
            Err(e) => {
                return Err(e);
            },
        };
        let enc = EncryptContent;
        let p3 = match enc.transform(p2, cache) {
            Ok(p) => p,
            Err(e) => {
                return Err(e);
            },
        };
        Ok(Some(p3))
    }
}

} // verus!
