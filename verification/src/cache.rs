//! The cache freshness model: where a page's cached HTML lives, when it may
//! be reused, and the monotonic in-memory cache slot that concurrent
//! recomputations write through.
//!
//! Timestamps are modification times as integers; the caller reads them from
//! the filesystem and hands them in.

use vstd::prelude::*;

use crate::text::{push_str_chars, to_string};

verus! {

/// The cache file path for a slug: the cache root, the slug's own directory
/// structure, and an `.html` extension.
pub open spec fn spec_cache_path(root: Seq<char>, slug: Seq<char>) -> Seq<char> {
    root + seq!['/'] + slug + ".html"@
}

/// Where the rendered HTML of `slug` is cached under `cache_root`.
pub fn cache_path(cache_root: &str, slug: &str) -> (r: String)
    ensures
        r@ == spec_cache_path(cache_root@, slug@),
{
    let mut out: Vec<char> = Vec::new();
    push_str_chars(&mut out, cache_root);
    out.push('/');
    push_str_chars(&mut out, slug);
    push_str_chars(&mut out, ".html");
    to_string(&out)
}

/// Is a cached artifact fresh: its timestamp is at least the source's and at
/// least every auxiliary dependency's?
pub open spec fn spec_is_fresh(source_mtime: u64, cache_mtime: u64, deps: Seq<u64>) -> bool {
    cache_mtime >= source_mtime && forall|i: int| 0 <= i < deps.len() ==> cache_mtime >= #[trigger] deps[i]
}

/// The freshness oracle: a cache entry may be reused exactly when its
/// timestamp dominates the source's and every auxiliary dependency's.
/// Lowering the cache timestamp below any one of them flips the answer.
pub fn cache_is_fresh(source_mtime: u64, cache_mtime: u64, deps: &Vec<u64>) -> (r: bool)
    ensures
        r == spec_is_fresh(source_mtime, cache_mtime, deps@),
{
    if cache_mtime < source_mtime {
        return false;
    }
    let n = deps.len();
    let mut i: usize = 0;
    while i < n
        invariant
            i <= n == deps@.len(),
            cache_mtime >= source_mtime,
            forall|k: int| 0 <= k < i ==> cache_mtime >= #[trigger] deps@[k],
        decreases n - i,
    {
        if cache_mtime < deps[i] {
            return false;
        }
        i = i + 1;
    }
    true
}

/// The largest of a list of timestamps (zero for an empty list).
pub open spec fn spec_max_mtime(deps: Seq<u64>) -> u64
    decreases deps.len(),
{
    if deps.len() == 0 {
        0u64
    } else if deps.first() >= spec_max_mtime(deps.drop_first()) {
        deps.first()
    } else {
        spec_max_mtime(deps.drop_first())
    }
}

/// The freshness oracle answers by comparison with the dependency maximum:
/// fresh exactly when the cache timestamp is at least the source's and at
/// least the largest auxiliary timestamp.
pub proof fn lemma_fresh_iff_max(source_mtime: u64, cache_mtime: u64, deps: Seq<u64>)
    ensures
        spec_is_fresh(source_mtime, cache_mtime, deps) == (cache_mtime >= source_mtime
            && cache_mtime >= spec_max_mtime(deps)),
    decreases deps.len(),
{
    if deps.len() > 0 {
        lemma_fresh_iff_max(source_mtime, cache_mtime, deps.drop_first());
        assert(deps[0] == deps.first());
        assert forall|i: int| 0 <= i < deps.drop_first().len() implies deps.drop_first()[i]
            == deps[i + 1] by {}
        if spec_is_fresh(source_mtime, cache_mtime, deps) {
            assert forall|i: int|
                0 <= i < deps.drop_first().len() implies cache_mtime >= #[trigger] deps.drop_first()[i] by {
                assert(deps.drop_first()[i] == deps[i + 1]);
            }
        }
        if cache_mtime >= source_mtime && cache_mtime >= spec_max_mtime(deps) {
            assert forall|i: int| 0 <= i < deps.len() implies cache_mtime >= #[trigger] deps[i] by {
                if i > 0 {
                    assert(deps.drop_first()[i - 1] == deps[i]);
                }
            }
        }
    }
}

/// The newest of a list of timestamps.
pub fn max_mtime(deps: &Vec<u64>) -> (r: u64)
    ensures
        r == spec_max_mtime(deps@),
{
    let n = deps.len();
    let mut best: u64 = 0;
    let mut i: usize = n;
    while i > 0
        invariant
            i <= n == deps@.len(),
            best == spec_max_mtime(deps@.skip(i as int)),
        decreases i,
    {
        i = i - 1;
        let ghost tail = deps@.skip(i as int);
        proof {
            assert(tail.drop_first() =~= deps@.skip(i + 1));
            assert(tail.first() == deps@[i as int]);
        }
        if deps[i] >= best {
            best = deps[i];
        }
    }
    assert(deps@.skip(0) =~= deps@);
    best
}

/// A read-mostly cached value stamped with the freshness timestamp it was
/// computed against. Writers replace the value only when their stamp is at
/// least as fresh as the stored one, so a slow, stale recomputation can
/// never clobber a newer result: stored stamps only grow.
pub struct FreshSlot<T> {
    pub value: T,
    pub stamp: u64,
}

/// The slot that results from offering `(stamp, value)` to `s`: the offer is
/// taken exactly when it is at least as fresh.
pub open spec fn spec_store<T>(s: FreshSlot<T>, stamp: u64, value: T) -> FreshSlot<T> {
    if stamp >= s.stamp {
        FreshSlot { value, stamp }
    } else {
        s
    }
}

impl<T> FreshSlot<T> {
    /// A slot holding `value` computed against `stamp`.
    pub fn new(value: T, stamp: u64) -> (r: FreshSlot<T>)
        ensures
            r.value == value,
            r.stamp == stamp,
    {
        FreshSlot { value, stamp }
    }

    /// Offer a recomputed value; it is stored only if at least as fresh as
    /// what the slot already holds.
    pub fn store_if_fresher(&mut self, stamp: u64, value: T)
        ensures
            *final(self) == spec_store(*old(self), stamp, value),
            final(self).stamp >= old(self).stamp,
    {
        if stamp >= self.stamp {
            self.value = value;
            self.stamp = stamp;
        }
    }

    /// The held value, provided it is fresh against `current`.
    pub fn read_fresh(&self, current: u64) -> (r: Option<&T>)
        ensures
            self.stamp >= current ==> r == Some(&self.value),
            self.stamp < current ==> r is None,
    {
        if self.stamp >= current {
            Some(&self.value)
        } else {
            None
        }
    }
}

/// Cache monotonicity: two recomputations with stamps `f1 < f2` leave the
/// slot holding the `f2` entry whichever order their writes complete in;
/// the earlier-stamped value never survives the later one. (When the slot
/// already holds something fresher than both, both writes are refused,
/// again in either order.)
pub proof fn lemma_store_monotonic<T>(s0: FreshSlot<T>, f1: u64, v1: T, f2: u64, v2: T)
    requires
        f1 < f2,
    ensures
        spec_store(spec_store(s0, f1, v1), f2, v2) == spec_store(s0, f2, v2),
        spec_store(spec_store(s0, f2, v2), f1, v1) == spec_store(s0, f2, v2),
        spec_store(s0, f2, v2).stamp >= f2 || spec_store(s0, f2, v2) == s0,
{
}

} // verus!
