//! The inline-script bundle cache: one compiled string per named script
//! kind, guarded by the same freshness pattern as the page cache, at the
//! coarser granularity of the whole template tree.
//!
//! Compiling and minifying the scripts is the caller's work; this module
//! owns the cache decision and the per-page selection.

use vstd::prelude::*;

use crate::cache::FreshSlot;

verus! {

/// The named client-script bundles.
#[derive(Debug, Clone, Copy, PartialEq, Eq, Structural)]
pub enum ScriptKind {
    Explorer,
    OverlayExplorer,
    EncryptedNote,
    Mermaid,
    Callouts,
    Graph,
}

/// The compiled inline scripts a page may embed, by kind.
#[derive(Debug, Clone)]
pub struct InlineScripts {
    pub explorer: Option<String>,
    pub overlay_explorer: Option<String>,
    pub encrypted_note: Option<String>,
    pub mermaid: Option<String>,
    pub callouts: Option<String>,
    pub graph: Option<String>,
}

impl Default for InlineScripts {
    /// No compiled scripts.
    fn default() -> (r: InlineScripts)
        ensures
            r.explorer is None,
            r.overlay_explorer is None,
            r.encrypted_note is None,
            r.mermaid is None,
            r.callouts is None,
            r.graph is None,
    {
        InlineScripts {
            explorer: None,
            overlay_explorer: None,
            encrypted_note: None,
            mermaid: None,
            callouts: None,
            graph: None,
        }
    }
}

/// Which script bundles a page needs.
#[derive(Debug, Clone, Copy)]
pub struct ScriptNeeds {
    pub explorer: bool,
    pub overlay_explorer: bool,
    pub encrypted_note: bool,
    pub mermaid: bool,
    pub callouts: bool,
    pub graph: bool,
}

impl Default for ScriptNeeds {
    /// No bundles needed.
    fn default() -> (r: ScriptNeeds)
        ensures
            !r.explorer && !r.overlay_explorer && !r.encrypted_note && !r.mermaid && !r.callouts
                && !r.graph,
    {
        ScriptNeeds {
            explorer: false,
            overlay_explorer: false,
            encrypted_note: false,
            mermaid: false,
            callouts: false,
            graph: false,
        }
    }
}

/// A clone of an optional compiled script.
fn clone_opt(s: &Option<String>) -> (r: Option<String>)
    ensures
        r == *s,
{
    match s {
        Some(v) => Some(v.clone()),
        None => None,
    }
}

/// The bundles a page needs, taken from the cached set when the cache is
/// still fresh against the newest template modification time; a stale
/// cache yields nothing and the caller rebuilds, stores, and selects
/// again.
pub fn inline_scripts(cache: &FreshSlot<InlineScripts>, needs: ScriptNeeds, newest_mtime: u64) -> (r:
    Option<InlineScripts>)
    ensures
        cache.stamp < newest_mtime ==> r is None,
        cache.stamp >= newest_mtime ==> (r matches Some(s) && {
            &&& s.explorer == (if needs.explorer {
                cache.value.explorer
            } else {
                None
            })
            &&& s.overlay_explorer == (if needs.overlay_explorer {
                cache.value.overlay_explorer
            } else {
                None
            })
            &&& s.encrypted_note == (if needs.encrypted_note {
                cache.value.encrypted_note
            } else {
                None
            })
            &&& s.mermaid == (if needs.mermaid {
                cache.value.mermaid
            } else {
                None
            })
            &&& s.callouts == (if needs.callouts {
                cache.value.callouts
            } else {
                None
            })
            &&& s.graph == (if needs.graph {
                cache.value.graph
            } else {
                None
            })
        }),
{
    let bundles = match cache.read_fresh(newest_mtime) {
        Some(b) => b,
        None => {
            return None;
        },
    };
    Some(
        InlineScripts {
            explorer: if needs.explorer {
                clone_opt(&bundles.explorer)
            } else {
                None
            },
            overlay_explorer: if needs.overlay_explorer {
                clone_opt(&bundles.overlay_explorer)
            } else {
                None
            },
            encrypted_note: if needs.encrypted_note {
                clone_opt(&bundles.encrypted_note)
            } else {
                None
            },
            mermaid: if needs.mermaid {
                clone_opt(&bundles.mermaid)
            } else {
                None
            },
            callouts: if needs.callouts {
                clone_opt(&bundles.callouts)
            } else {
                None
            },
            graph: if needs.graph {
                clone_opt(&bundles.graph)
            } else {
                None
            },
        },
    )
}

} // verus!
