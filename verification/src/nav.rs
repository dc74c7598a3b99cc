//! The navigation model the presentation layer renders: grouped items with
//! children, the open-state marking for the current page, and the backlink
//! target set.

use vstd::prelude::*;

use crate::config::drop_leading_slashes;
use crate::text::{
    chars_eq_str, push_str_chars, replace_char, spec_replace, spec_starts_with, starts_with_str,
    to_chars, to_string,
};

verus! {

broadcast use crate::text::lemma_vec_char_deep_view;

/// One navigation group: a top-level section and its pages.
#[derive(Debug, Clone)]
pub struct NavItem {
    pub title: String,
    pub path: String,
    pub is_open: bool,
    pub children: Option<Vec<NavLeaf>>,
}

/// One navigation leaf: a page within a group.
#[derive(Debug, Clone)]
pub struct NavLeaf {
    pub title: String,
    pub path: String,
}

/// One rendered footer link.
#[derive(Debug, Clone)]
pub struct FooterLink {
    pub text: String,
    pub href: String,
}

/// The `-` separators of a path segment turned into spaces for display.
pub fn humanize_segment(segment: &str) -> (r: String)
    ensures
        r@ == spec_replace(segment@, '-', ' '),
{
    let v = to_chars(segment);
    let r = replace_char(&v, '-', ' ');
    to_string(&r)
}

/// The footer links as renderable entries, or nothing when the
/// configuration has none.
pub fn links_from_config(links: &Vec<(String, String)>) -> (r: Option<Vec<FooterLink>>)
    ensures
        links@.len() == 0 ==> r is None,
        links@.len() > 0 ==> (r matches Some(l) && l@.len() == links@.len() && forall|i: int|
            0 <= i < l@.len() ==> (#[trigger] l@[i]).text == links@[i].0 && l@[i].href
                == links@[i].1),
{
    if links.len() == 0 {
        return None;
    }
    let mut r: Vec<FooterLink> = Vec::new();
    let n = links.len();
    let mut i: usize = 0;
    while i < n
        invariant
            i <= n == links@.len(),
            r@.len() == i,
            forall|k: int|
                0 <= k < i ==> (#[trigger] r@[k]).text == links@[k].0 && r@[k].href
                    == links@[k].1,
        decreases n - i,
    {
        r.push(FooterLink { text: links[i].0.clone(), href: links[i].1.clone() });
        i = i + 1;
    }
    Some(r)
}

/// The current slug with trailing slashes removed, as open-state marking
/// compares it.
pub open spec fn spec_nav_normalized(slug: Seq<char>) -> Seq<char> {
    crate::config::drop_trailing_slashes(slug)
}

/// The leaves of an optional children list.
pub open spec fn leaves_of(o: Option<Vec<NavLeaf>>) -> Option<Seq<NavLeaf>> {
    match o {
        Some(v) => Some(v@),
        None => None,
    }
}

/// Is this navigation item open for the normalized current slug: the slug
/// is the group itself, lies under it, or is one of its children?
pub open spec fn spec_nav_item_open(item: NavItem, normalized: Seq<char>) -> bool {
    ||| normalized == item.path@
    ||| spec_starts_with(normalized, item.path@ + seq!['/'])
    ||| match item.children {
        Some(cs) => exists|i: int| 0 <= i < cs@.len() && (#[trigger] cs@[i]).path@ == normalized,
        None => false,
    }
}

/// Mark each navigation item open exactly when the current slug is the
/// group, lies under it, or matches one of its children; nothing else
/// changes.
#[verifier::loop_isolation(false)]
pub fn mark_nav_open(nav: &mut Vec<NavItem>, current_slug: &str)
    ensures
        final(nav)@.len() == old(nav)@.len(),
        forall|i: int|
            0 <= i < final(nav)@.len() ==> {
                &&& (#[trigger] final(nav)@[i]).title == old(nav)@[i].title
                &&& final(nav)@[i].path == old(nav)@[i].path
                &&& leaves_of(final(nav)@[i].children) == leaves_of(old(nav)@[i].children)
                &&& final(nav)@[i].is_open == spec_nav_item_open(
                    old(nav)@[i],
                    spec_nav_normalized(current_slug@),
                )
            },
{
    let slug_chars = to_chars(current_slug);
    let n0 = slug_chars.len();
    let mut hi: usize = n0;
    while hi > 0 && slug_chars[hi - 1] == '/'
        invariant
            hi <= n0,
            forall|k: int| hi <= k < n0 ==> slug_chars@[k] == '/',
        decreases hi,
    {
        hi = hi - 1;
    }
    proof {
        lemma_drop_trailing(slug_chars@, hi as int);
    }
    let normalized = crate::text::copy_range(&slug_chars, 0, hi);
    assert(normalized@ == spec_nav_normalized(current_slug@));
    let n = nav.len();
    let mut i: usize = 0;
    while i < n
        invariant
            i <= n == nav@.len(),
            nav@.len() == old(nav)@.len(),
            forall|k: int|
                i <= k < nav@.len() ==> #[trigger] nav@[k] == old(nav)@[k],
            forall|k: int|
                0 <= k < i ==> {
                    &&& (#[trigger] nav@[k]).title == old(nav)@[k].title
                    &&& nav@[k].path == old(nav)@[k].path
                    &&& leaves_of(nav@[k].children) == leaves_of(old(nav)@[k].children)
                    &&& nav@[k].is_open == spec_nav_item_open(
                        old(nav)@[k],
                        spec_nav_normalized(current_slug@),
                    )
                },
        decreases n - i,
    {
        let mut prefix: Vec<char> = Vec::new();
        push_str_chars(&mut prefix, nav[i].path.as_str());
        prefix.push('/');
        assert(prefix@ =~= nav@[i as int].path@ + seq!['/']);
        let path_eq = chars_eq_str(&normalized, nav[i].path.as_str());
        let under = starts_with_str(&normalized, to_string(&prefix).as_str());
        let child_hit = match &nav[i].children {
            Some(children) => leaf_match(children, &normalized),
            None => false,
        };
        let is_open = path_eq || under || child_hit;
        let title = nav[i].title.clone();
        let path = nav[i].path.clone();
        let children = match &nav[i].children {
            Some(c) => Some(clone_leaves(c)),
            None => None,
        };
        proof {
            assert(is_open == spec_nav_item_open(
                old(nav)@[i as int],
                spec_nav_normalized(current_slug@),
            ));
        }
        nav[i] = NavItem { title, path, is_open, children };
        i = i + 1;
    }
}

/// Does any leaf's path equal the normalized slug?
fn leaf_match(children: &Vec<NavLeaf>, normalized: &Vec<char>) -> (r: bool)
    ensures
        r == exists|i: int|
            0 <= i < children@.len() && (#[trigger] children@[i]).path@ == normalized@,
{
    let cn = children.len();
    let mut j: usize = 0;
    while j < cn
        invariant
            j <= cn == children@.len(),
            forall|q: int| 0 <= q < j ==> (#[trigger] children@[q]).path@ != normalized@,
        decreases cn - j,
    {
        if chars_eq_str(normalized, children[j].path.as_str()) {
            assert(children@[j as int].path@ == normalized@);
            return true;
        }
        j = j + 1;
    }
    false
}

/// A pairwise copy of navigation leaves.
fn clone_leaves(c: &Vec<NavLeaf>) -> (r: Vec<NavLeaf>)
    ensures
        r@ == c@,
{
    let mut r: Vec<NavLeaf> = Vec::new();
    let n = c.len();
    let mut i: usize = 0;
    while i < n
        invariant
            i <= n == c@.len(),
            r@ =~= c@.take(i as int),
        decreases n - i,
    {
        r.push(NavLeaf { title: c[i].title.clone(), path: c[i].path.clone() });
        assert(r@[i as int] == c@[i as int]);
        assert(r@ =~= c@.take(i + 1));
        i = i + 1;
    }
    assert(r@ =~= c@);
    r
}

/// Trailing-slash removal keeps the prefix before the final slash run.
proof fn lemma_drop_trailing(s: Seq<char>, hi: int)
    requires
        0 <= hi <= s.len(),
        forall|k: int| hi <= k < s.len() ==> s[k] == '/',
        hi > 0 ==> s[hi - 1] != '/',
    ensures
        crate::config::drop_trailing_slashes(s) =~= s.take(hi),
    decreases s.len(),
{
    if hi < s.len() {
        assert forall|k: int| hi <= k < s.drop_last().len() implies s.drop_last()[k] == '/' by {
            assert(s[k] == '/');
        }
        lemma_drop_trailing(s.drop_last(), hi);
        assert(s.drop_last().take(hi) =~= s.take(hi));
    }
}

/// The link targets that count as backlinks to a slug: the slug itself
/// (surrounding slashes trimmed, empty standing for the index), its
/// directory form when it names an index page, and the site root when it
/// is the index.
pub open spec fn spec_backlink_targets(slug: Seq<char>) -> Seq<Seq<char>> {
    let t = drop_leading_slashes(crate::config::drop_trailing_slashes(slug));
    let normalized = if t.len() == 0 {
        "index"@
    } else {
        t
    };
    seq![normalized] + (if normalized.len() > 6 && normalized.subrange(
        normalized.len() - 6,
        normalized.len() as int,
    ) == "/index"@ {
        seq![normalized.take(normalized.len() - 6)]
    } else {
        Seq::<Seq<char>>::empty()
    }) + (if normalized == "index"@ {
        seq!["."@]
    } else {
        Seq::<Seq<char>>::empty()
    })
}

/// The link targets that count as backlinks to a slug.
#[verifier::loop_isolation(false)]
pub fn backlink_targets(slug: &str) -> (r: Vec<String>)
    ensures
        r.deep_view() == spec_backlink_targets(slug@),
{
    let v = to_chars(slug);
    let n0 = v.len();
    let mut hi: usize = n0;
    while hi > 0 && v[hi - 1] == '/'
        invariant
            hi <= n0,
            forall|k: int| hi <= k < n0 ==> v@[k] == '/',
        decreases hi,
    {
        hi = hi - 1;
    }
    proof {
        lemma_drop_trailing(v@, hi as int);
    }
    let mut lo: usize = 0;
    while lo < hi && v[lo] == '/'
        invariant
            lo <= hi,
            forall|k: int| 0 <= k < lo ==> v@[k] == '/',
        decreases hi - lo,
    {
        lo = lo + 1;
    }
    proof {
        let dt = crate::config::drop_trailing_slashes(v@);
        assert(dt =~= v@.take(hi as int));
        lemma_drop_leading(dt, lo as int);
    }
    let t = crate::text::copy_range(&v, lo, hi);
    let ghost tv = t@;
    proof {
        let dt = crate::config::drop_trailing_slashes(slug@);
        assert(dt =~= v@.take(hi as int));
        assert(dt.skip(lo as int) =~= v@.subrange(lo as int, hi as int));
        assert(tv =~= drop_leading_slashes(dt));
    }
    let normalized: Vec<char> = if t.len() == 0 {
        to_chars("index")
    } else {
        t
    };
    let ghost norm = normalized@;
    proof {
        if tv.len() == 0 {
            assert(norm == "index"@);
        } else {
            assert(norm == tv);
        }
    }
    let mut targets: Vec<String> = Vec::new();
    targets.push(to_string(&normalized));
    let nn = normalized.len();
    let has_index_suffix: bool = if nn > 6 {
        proof {
            reveal_strlit("/index");
        }
        let m = normalized[nn - 6] == '/' && normalized[nn - 5] == 'i' && normalized[nn - 4]
            == 'n' && normalized[nn - 3] == 'd' && normalized[nn - 2] == 'e' && normalized[nn - 1]
            == 'x';
        proof {
            let sub = norm.subrange(nn - 6, nn as int);
            assert(sub[0] == norm[nn - 6] && sub[1] == norm[nn - 5] && sub[2] == norm[nn - 4]
                && sub[3] == norm[nn - 3] && sub[4] == norm[nn - 2] && sub[5] == norm[nn - 1]);
            if m {
                assert(sub =~= "/index"@);
            } else {
                assert(sub != "/index"@);
            }
        }
        m
    } else {
        false
    };
    if has_index_suffix {
        let stripped = crate::text::copy_range(&normalized, 0, nn - 6);
        targets.push(to_string(&stripped));
    }
    if chars_eq_str(&normalized, "index") {
        let dot = String::from_str(".");
        targets.push(dot);
    }
    proof {
        assert(targets.deep_view() =~~= spec_backlink_targets(slug@));
    }
    targets
}

/// Leading-slash removal keeps the suffix after the initial slash run.
proof fn lemma_drop_leading(s: Seq<char>, lo: int)
    requires
        0 <= lo <= s.len(),
        forall|k: int| 0 <= k < lo ==> s[k] == '/',
        lo < s.len() ==> s[lo] != '/',
    ensures
        drop_leading_slashes(s) =~= s.skip(lo),
    decreases s.len(),
{
    if lo > 0 {
        assert forall|k: int| 0 <= k < lo - 1 implies s.drop_first()[k] == '/' by {
            assert(s[k + 1] == '/');
        }
        lemma_drop_leading(s.drop_first(), lo - 1);
        assert(s.drop_first().skip(lo - 1) =~= s.skip(lo));
    } else {
        assert(s.skip(0) =~= s);
    }
}

} // verus!
