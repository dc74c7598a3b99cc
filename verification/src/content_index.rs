//! The content index: for every page, its slug, path, title, tags and the
//! link targets its body mentions, extracted from wikilinks and local
//! markdown links.

use vstd::prelude::*;

use crate::errors::RenderError;
use crate::fm::FrontMatter;
use crate::text::{first_idx, spec_starts_with, spec_trim, starts_with_str, to_chars, to_string, trim};
use crate::types::Page;

verus! {

broadcast use crate::text::lemma_vec_char_deep_view;

/// All leading and trailing occurrences of `c` removed.
pub open spec fn drop_edge(s: Seq<char>, c: char) -> Seq<char> {
    drop_lead(drop_trail(s, c), c)
}

/// All leading occurrences of `c` removed.
pub open spec fn drop_lead(s: Seq<char>, c: char) -> Seq<char>
    decreases s.len(),
{
    if s.len() > 0 && s[0] == c {
        drop_lead(s.drop_first(), c)
    } else {
        s
    }
}

/// All trailing occurrences of `c` removed.
pub open spec fn drop_trail(s: Seq<char>, c: char) -> Seq<char>
    decreases s.len(),
{
    if s.len() > 0 && s.last() == c {
        drop_trail(s.drop_last(), c)
    } else {
        s
    }
}

proof fn lemma_drop_lead_at(s: Seq<char>, c: char, lo: int)
    requires
        0 <= lo <= s.len(),
        forall|k: int| 0 <= k < lo ==> s[k] == c,
        lo < s.len() ==> s[lo] != c,
    ensures
        drop_lead(s, c) =~= s.skip(lo),
    decreases s.len(),
{
    if lo > 0 {
        assert forall|k: int| 0 <= k < lo - 1 implies s.drop_first()[k] == c by {
            assert(s[k + 1] == c);
        }
        lemma_drop_lead_at(s.drop_first(), c, lo - 1);
        assert(s.drop_first().skip(lo - 1) =~= s.skip(lo));
    } else {
        assert(s.skip(0) =~= s);
    }
}

proof fn lemma_drop_trail_at(s: Seq<char>, c: char, hi: int)
    requires
        0 <= hi <= s.len(),
        forall|k: int| hi <= k < s.len() ==> s[k] == c,
        hi > 0 ==> s[hi - 1] != c,
    ensures
        drop_trail(s, c) =~= s.take(hi),
    decreases s.len(),
{
    if hi < s.len() {
        assert forall|k: int| hi <= k < s.drop_last().len() implies s.drop_last()[k] == c by {
            assert(s[k] == c);
        }
        lemma_drop_trail_at(s.drop_last(), c, hi);
        assert(s.drop_last().take(hi) =~= s.take(hi));
    }
}

/// Both edges of `v` stripped of `c`.
#[verifier::loop_isolation(false)]
fn trim_matches(v: &Vec<char>, c: char) -> (r: Vec<char>)
    ensures
        r@ =~= drop_edge(v@, c),
{
    let n = v.len();
    let mut hi: usize = n;
    while hi > 0 && v[hi - 1] == c
        invariant
            hi <= n,
            forall|k: int| hi <= k < n ==> v@[k] == c,
        decreases hi,
    {
        hi = hi - 1;
    }
    proof {
        lemma_drop_trail_at(v@, c, hi as int);
    }
    let mut lo: usize = 0;
    while lo < hi && v[lo] == c
        invariant
            lo <= hi,
            forall|k: int| 0 <= k < lo ==> v@[k] == c,
        decreases hi - lo,
    {
        lo = lo + 1;
    }
    proof {
        let dt = drop_trail(v@, c);
        assert(dt =~= v@.take(hi as int));
        lemma_drop_lead_at(dt, c, lo as int);
        assert(dt.skip(lo as int) =~= v@.subrange(lo as int, hi as int));
    }
    crate::text::copy_range(v, lo, hi)
}

/// Does `s` end with suffix `p`?
pub open spec fn spec_ends_with(s: Seq<char>, p: Seq<char>) -> bool {
    s.len() >= p.len() && s.skip(s.len() - p.len()) =~= p
}

/// The suffix `p` removed from `s` when present.
pub open spec fn strip_suffix_if(s: Seq<char>, p: Seq<char>) -> Seq<char> {
    if spec_ends_with(s, p) {
        s.take(s.len() - p.len())
    } else {
        s
    }
}

/// Does `v` end with the characters of `p`?
#[verifier::loop_isolation(false)]
fn ends_with_str(v: &Vec<char>, p: &str) -> (r: bool)
    ensures
        r == spec_ends_with(v@, p@),
{
    let m = p.unicode_len();
    let n = v.len();
    if n < m {
        return false;
    }
    let mut i: usize = 0;
    while i < m
        invariant
            i <= m,
            forall|k: int| 0 <= k < i ==> v@[n - m + k] == p@[k],
        decreases m - i,
    {
        if v[n - m + i] != p.get_char(i) {
            assert(v@.skip(n - m) != p@) by {
                assert(v@.skip(n - m)[i as int] == v@[n - m + i]);
            }
            return false;
        }
        i = i + 1;
    }
    assert(v@.skip(n - m) =~= p@);
    true
}

/// A raw link target cleaned to a slug-like form: the fragment dropped,
/// whitespace, dots and slashes stripped from the edges, an `.md` or
/// `.html` extension removed, a trailing `/index` removed, and an empty
/// result standing for the page itself.
pub open spec fn spec_clean_link(raw: Seq<char>) -> Seq<char> {
    let no_anchor = raw.take(first_idx(raw, '#'));
    let t1 = drop_edge(drop_edge(spec_trim(no_anchor), '.'), '/');
    let t2 = strip_suffix_if(strip_suffix_if(t1, ".md"@), ".html"@);
    let t3 = strip_suffix_if(t2, "/index"@);
    if t3.len() == 0 {
        "."@
    } else {
        t3
    }
}

/// Clean a raw link target to its slug-like form.
#[verifier::loop_isolation(false)]
pub fn clean_link_target(raw: &str) -> (r: String)
    ensures
        r@ == spec_clean_link(raw@),
{
    let v = to_chars(raw);
    let cut = match crate::text::find_first(&v, '#') {
        Some(i) => i,
        None => v.len(),
    };
    let no_anchor = crate::text::copy_range(&v, 0, cut);
    let t0 = trim(&no_anchor);
    let t0 = trim_matches(&t0, '.');
    let t1 = trim_matches(&t0, '/');
    let t2: Vec<char> = if ends_with_str(&t1, ".md") {
        proof {
            reveal_strlit(".md");
        }
        crate::text::copy_range(&t1, 0, t1.len() - 3)
    } else {
        proof {
            reveal_strlit(".md");
        }
        t1
    };
    let ghost t2v = strip_suffix_if(
        drop_edge(drop_edge(spec_trim(raw@.take(first_idx(raw@, '#'))), '.'), '/'),
        ".md"@,
    );
    assert(t2@ =~= t2v);
    let t3: Vec<char> = if ends_with_str(&t2, ".html") {
        proof {
            reveal_strlit(".html");
        }
        crate::text::copy_range(&t2, 0, t2.len() - 5)
    } else {
        proof {
            reveal_strlit(".html");
        }
        t2
    };
    assert(t3@ =~= strip_suffix_if(t2v, ".html"@));
    let t4: Vec<char> = if ends_with_str(&t3, "/index") {
        proof {
            reveal_strlit("/index");
        }
        crate::text::copy_range(&t3, 0, t3.len() - 6)
    } else {
        proof {
            reveal_strlit("/index");
        }
        t3
    };
    assert(t4@ =~= strip_suffix_if(strip_suffix_if(t2v, ".html"@), "/index"@));
    if t4.len() == 0 {
        let r = String::from_str(".");
        return r;
    }
    to_string(&t4)
}

/// May `c` appear in a wikilink target (anything but `]`, `|`, `#`)?
pub open spec fn wiki_char(c: char) -> bool {
    c != ']' && c != '|' && c != '#'
}

/// The end of the run of wikilink target characters starting at `i`.
pub open spec fn wiki_end(s: Seq<char>, i: int) -> int
    decreases s.len() - i,
{
    if 0 <= i < s.len() && wiki_char(s[i]) {
        wiki_end(s, i + 1)
    } else {
        i
    }
}

/// The raw wikilink targets of `s` from position `i` on: each `[[` opens a
/// target running to the first `]`, `|` or `#`.
pub open spec fn wiki_targets_from(s: Seq<char>, i: int) -> Seq<Seq<char>>
    decreases s.len() - i,
{
    if i < 0 || i >= s.len() {
        Seq::empty()
    } else if i + 1 < s.len() && s[i] == '[' && s[i + 1] == '[' {
        let e0 = wiki_end(s, i + 2);
        let e = if e0 < i + 2 {
            i + 2
        } else if e0 > s.len() {
            s.len() as int
        } else {
            e0
        };
        if e > i + 2 {
            seq![s.subrange(i + 2, e)] + wiki_targets_from(s, e)
        } else {
            wiki_targets_from(s, i + 1)
        }
    } else {
        wiki_targets_from(s, i + 1)
    }
}

/// The raw local markdown link targets of `s` from position `i` on: each
/// `[text](target)` yields its nonempty target.
pub open spec fn md_targets_from(s: Seq<char>, i: int) -> Seq<Seq<char>>
    decreases s.len() - i,
{
    if i < 0 || i >= s.len() {
        Seq::empty()
    } else if s[i] == '[' {
        let b0 = close_bracket(s, i + 1);
        let b = if b0 < i + 1 {
            i + 1
        } else if b0 > s.len() {
            s.len() as int
        } else {
            b0
        };
        if b < s.len() && b + 1 < s.len() && s[b + 1] == '(' {
            let p0 = close_paren(s, b + 2);
            let p = if p0 < b + 2 {
                b + 2
            } else if p0 > s.len() {
                s.len() as int
            } else {
                p0
            };
            if p < s.len() && p > b + 2 {
                seq![s.subrange(b + 2, p)] + md_targets_from(s, p + 1)
            } else {
                md_targets_from(s, i + 1)
            }
        } else {
            md_targets_from(s, i + 1)
        }
    } else {
        md_targets_from(s, i + 1)
    }
}

/// Index of the first `]` at or after `i`, or the length.
pub open spec fn close_bracket(s: Seq<char>, i: int) -> int
    decreases s.len() - i,
{
    if 0 <= i < s.len() && s[i] != ']' {
        close_bracket(s, i + 1)
    } else if i < 0 {
        0
    } else {
        i
    }
}

/// Index of the first `)` at or after `i`, or the length.
pub open spec fn close_paren(s: Seq<char>, i: int) -> int
    decreases s.len() - i,
{
    if 0 <= i < s.len() && s[i] != ')' {
        close_paren(s, i + 1)
    } else if i < 0 {
        0
    } else {
        i
    }
}

/// Does the target name a remote resource the index skips?
pub open spec fn is_remote(t: Seq<char>) -> bool {
    spec_starts_with(t, "http://"@) || spec_starts_with(t, "https://"@)
}

/// Is `a` lexicographically before `b`, by character codes?
pub open spec fn spec_lex_lt(a: Seq<char>, b: Seq<char>) -> bool
    decreases a.len(),
{
    if b.len() == 0 {
        false
    } else if a.len() == 0 {
        true
    } else if (a[0] as u32) < (b[0] as u32) {
        true
    } else if (a[0] as u32) > (b[0] as u32) {
        false
    } else {
        spec_lex_lt(a.drop_first(), b.drop_first())
    }
}

/// `sorted` with `x` inserted at its place, unless already present.
pub open spec fn sorted_insert(sorted: Seq<Seq<char>>, x: Seq<char>) -> Seq<Seq<char>>
    decreases sorted.len(),
{
    if sorted.len() == 0 {
        seq![x]
    } else if x == sorted[0] {
        sorted
    } else if spec_lex_lt(x, sorted[0]) {
        seq![x] + sorted
    } else {
        seq![sorted[0]] + sorted_insert(sorted.drop_first(), x)
    }
}

/// The links sorted with duplicates removed, by repeated insertion.
pub open spec fn spec_sort_dedup(links: Seq<Seq<char>>) -> Seq<Seq<char>>
    decreases links.len(),
{
    if links.len() == 0 {
        Seq::empty()
    } else {
        sorted_insert(spec_sort_dedup(links.drop_last()), links.last())
    }
}

/// The cleaned link targets of a page body: wikilink targets, then local
/// markdown link targets, each cleaned, sorted and deduplicated.
pub open spec fn spec_extract_links(s: Seq<char>) -> Seq<Seq<char>> {
    spec_sort_dedup(
        wiki_targets_from(s, 0).map_values(|t: Seq<char>| spec_clean_link(t))
            + md_targets_from(s, 0).filter(|t: Seq<char>| !is_remote(t)).map_values(
            |t: Seq<char>| spec_clean_link(t),
        ),
    )
}

/// Is `a` lexicographically before `b`?
fn lex_lt(a: &Vec<char>, b: &Vec<char>) -> (r: bool)
    ensures
        r == spec_lex_lt(a@, b@),
    decreases a@.len(),
{
    let n = a.len();
    let m = b.len();
    let mut i: usize = 0;
    proof {
        assert(a@.skip(0) =~= a@);
        assert(b@.skip(0) =~= b@);
    }
    loop
        invariant
            i <= n && i <= m,
            n == a@.len() && m == b@.len(),
            spec_lex_lt(a@, b@) == spec_lex_lt(a@.skip(i as int), b@.skip(i as int)),
        decreases n - i,
    {
        if i >= m {
            assert(b@.skip(i as int) =~= Seq::<char>::empty());
            return false;
        }
        if i >= n {
            assert(a@.skip(i as int) =~= Seq::<char>::empty());
            return true;
        }
        let ca = a[i] as u32;
        let cb = b[i] as u32;
        proof {
            let sa = a@.skip(i as int);
            let sb = b@.skip(i as int);
            assert(sa[0] == a@[i as int] && sb[0] == b@[i as int]);
            assert(sa.drop_first() =~= a@.skip(i + 1));
            assert(sb.drop_first() =~= b@.skip(i + 1));
        }
        if ca < cb {
            return true;
        }
        if ca > cb {
            return false;
        }
        i = i + 1;
    }
}

/// Insert a link into a sorted, duplicate-free list at its place.
#[verifier::loop_isolation(false)]
fn insert_sorted(sorted: &mut Vec<String>, x: String)
    ensures
        final(sorted).deep_view() =~~= sorted_insert(old(sorted).deep_view(), x@),
{
    let n = sorted.len();
    let xv = to_chars(x.as_str());
    let mut i: usize = 0;
    proof {
        assert(sorted.deep_view().skip(0) =~~= sorted.deep_view());
        assert(sorted.deep_view().take(0) =~~= Seq::<Seq<char>>::empty());
        assert(sorted.deep_view().take(0) + sorted_insert(sorted.deep_view(), x@)
            =~~= sorted_insert(sorted.deep_view(), x@));
    }
    while i < n
        invariant
            i <= n == sorted@.len(),
            sorted@ == old(sorted)@,
            xv@ == x@,
            forall|k: int|
                0 <= k < i ==> sorted.deep_view()[k] != x@ && !spec_lex_lt(
                    x@,
                    #[trigger] sorted.deep_view()[k],
                ),
            sorted_insert(old(sorted).deep_view(), x@) =~~= sorted.deep_view().take(i as int)
                + sorted_insert(sorted.deep_view().skip(i as int), x@),
        decreases n - i,
    {
        let ghost tail = sorted.deep_view().skip(i as int);
        proof {
            assert(tail[0] == sorted.deep_view()[i as int]);
            assert(tail.drop_first() =~~= sorted.deep_view().skip(i + 1));
        }
        let ev = to_chars(sorted[i].as_str());
        if crate::text::chars_eq_str(&xv, sorted[i].as_str()) {
            proof {
                assert(sorted_insert(tail, x@) =~~= tail);
                assert(sorted.deep_view().take(i as int) + sorted.deep_view().skip(i as int)
                    =~~= sorted.deep_view());
            }
            return ;
        }
        if lex_lt(&xv, &ev) {
            sorted.insert(i, x);
            proof {
                assert(sorted_insert(tail, x@) =~~= seq![x@] + tail);
                assert(sorted.deep_view() =~~= old(sorted).deep_view().take(i as int) + (seq![x@]
                    + old(sorted).deep_view().skip(i as int)));
            }
            return ;
        }
        proof {
            assert(sorted_insert(tail, x@) =~~= seq![tail[0]] + sorted_insert(
                tail.drop_first(),
                x@,
            ));
            assert(sorted.deep_view().take(i as int) + (seq![tail[0]] + sorted_insert(
                tail.drop_first(),
                x@,
            )) =~~= sorted.deep_view().take(i + 1) + sorted_insert(
                sorted.deep_view().skip(i + 1),
                x@,
            ));
        }
        i = i + 1;
    }
    proof {
        assert(sorted.deep_view().skip(n as int) =~~= Seq::<Seq<char>>::empty());
        assert(sorted_insert(Seq::<Seq<char>>::empty(), x@) =~~= seq![x@]);
    }
    sorted.push(x);
    proof {
        assert(sorted.deep_view() =~~= old(sorted).deep_view().take(n as int) + seq![x@]);
        assert(old(sorted).deep_view().take(n as int) =~~= old(sorted).deep_view());
    }
}

/// Extract the cleaned, sorted, duplicate-free link targets of a page
/// body: wikilinks and local markdown links.
#[verifier::loop_isolation(false)]
#[verifier::rlimit(90)]
pub fn extract_links(content: &str) -> (r: Vec<String>)
    ensures
        r.deep_view() == spec_extract_links(content@),
{
    let v = to_chars(content);
    let n = v.len();
    let mut raw: Vec<String> = Vec::new();
    let mut i: usize = 0;
    while i < n
        invariant
            i <= n == v@.len(),
            wiki_targets_from(v@, 0).map_values(|t: Seq<char>| spec_clean_link(t))
                =~~= raw.deep_view() + wiki_targets_from(v@, i as int).map_values(
                |t: Seq<char>| spec_clean_link(t),
            ),
        decreases n - i,
    {
        if i + 1 < n && v[i] == '[' && v[i + 1] == '[' {
            let e = scan_wiki(&v, i + 2);
            if e > i + 2 {
                let target = crate::text::copy_range(&v, i + 2, e);
                let cleaned = clean_link_target(to_string(&target).as_str());
                let ghost dv = raw.deep_view();
                raw.push(cleaned);
                proof {
                    assert(wiki_targets_from(v@, i as int) =~~= seq![v@.subrange(i + 2, e as int)]
                        + wiki_targets_from(v@, e as int));
                    assert(raw.deep_view() =~~= dv.push(
                        spec_clean_link(v@.subrange(i + 2, e as int)),
                    ));
                }
                i = e;
            } else {
                assert(wiki_targets_from(v@, i as int) =~~= wiki_targets_from(v@, i + 1));
                i = i + 1;
            }
        } else {
            assert(wiki_targets_from(v@, i as int) =~~= wiki_targets_from(v@, i + 1));
            i = i + 1;
        }
    }
    assert(wiki_targets_from(v@, n as int) =~~= Seq::<Seq<char>>::empty());
    let ghost wiki_cleaned = wiki_targets_from(v@, 0).map_values(
        |t: Seq<char>| spec_clean_link(t),
    );
    assert(raw.deep_view() =~~= wiki_cleaned);
    let mut j: usize = 0;
    while j < n
        invariant
            j <= n == v@.len(),
            wiki_cleaned + md_targets_from(v@, 0).filter(|t: Seq<char>| !is_remote(t)).map_values(
                |t: Seq<char>| spec_clean_link(t),
            ) =~~= raw.deep_view() + md_targets_from(v@, j as int).filter(
                |t: Seq<char>| !is_remote(t),
            ).map_values(|t: Seq<char>| spec_clean_link(t)),
        decreases n - j,
    {
        if v[j] == '[' {
            let b = scan_close(&v, j + 1, ']');
            if b < n && b + 1 < n && v[b + 1] == '(' {
                let p = scan_close(&v, b + 2, ')');
                if p < n && p > b + 2 {
                    let target = crate::text::copy_range(&v, b + 2, p);
                    let remote = starts_with_str(&target, "http://") || starts_with_str(
                        &target,
                        "https://",
                    );
                    let ghost tv = v@.subrange(b + 2, p as int);
                    proof {
                        assert(md_targets_from(v@, j as int) =~~= seq![tv] + md_targets_from(
                            v@,
                            p + 1,
                        ));
                        let cons = seq![tv] + md_targets_from(v@, p + 1);
                        lemma_filter_cons(cons);
                        assert(cons[0] == tv);
                        assert(cons.drop_first() =~~= md_targets_from(v@, p + 1));
                        assert(md_targets_from(v@, j as int).filter(
                            |t: Seq<char>| !is_remote(t),
                        ) =~~= (if !is_remote(tv) {
                            seq![tv]
                        } else {
                            Seq::<Seq<char>>::empty()
                        }) + md_targets_from(v@, p + 1).filter(|t: Seq<char>| !is_remote(t)));
                    }
                    if !remote {
                        let cleaned = clean_link_target(to_string(&target).as_str());
                        let ghost dv = raw.deep_view();
                        raw.push(cleaned);
                        proof {
                            assert(raw.deep_view() =~~= dv.push(spec_clean_link(tv)));
                        }
                    }
                    j = p + 1;
                } else {
                    assert(md_targets_from(v@, j as int) =~~= md_targets_from(v@, j + 1));
                    j = j + 1;
                }
            } else {
                assert(md_targets_from(v@, j as int) =~~= md_targets_from(v@, j + 1));
                j = j + 1;
            }
        } else {
            assert(md_targets_from(v@, j as int) =~~= md_targets_from(v@, j + 1));
            j = j + 1;
        }
    }
    proof {
        assert(md_targets_from(v@, n as int) =~~= Seq::<Seq<char>>::empty());
        assert(md_targets_from(v@, n as int).filter(|t: Seq<char>| !is_remote(t))
            =~~= Seq::<Seq<char>>::empty());
    }
    let ghost all_links = raw.deep_view();
    let mut out: Vec<String> = Vec::new();
    let rn = raw.len();
    let mut k: usize = 0;
    proof {
        assert(out.deep_view() =~~= spec_sort_dedup(all_links.take(0)));
    }
    while k < rn
        invariant
            k <= rn == raw@.len(),
            all_links == raw.deep_view(),
            out.deep_view() =~~= spec_sort_dedup(all_links.take(k as int)),
        decreases rn - k,
    {
        proof {
            assert(all_links.take(k + 1).drop_last() =~~= all_links.take(k as int));
            assert(all_links.take(k + 1).last() == all_links[k as int]);
        }
        insert_sorted(&mut out, raw[k].clone());
        k = k + 1;
    }
    assert(all_links.take(rn as int) =~~= all_links);
    out
}

/// Filtering a nonempty list treats its head and tail separately.
proof fn lemma_filter_cons(s: Seq<Seq<char>>)
    requires
        s.len() > 0,
    ensures
        s.filter(|t: Seq<char>| !is_remote(t)) =~~= (if !is_remote(s[0]) {
            seq![s[0]]
        } else {
            Seq::<Seq<char>>::empty()
        }) + s.drop_first().filter(|t: Seq<char>| !is_remote(t)),
    decreases s.len(),
{
    if s.len() == 1 {
        assert(s.drop_first() =~~= Seq::<Seq<char>>::empty());
        reveal(Seq::filter);
    } else {
        lemma_filter_cons(s.drop_last());
        assert(s.drop_last().drop_first() =~~= s.drop_first().drop_last());
        reveal(Seq::filter);
        assert(s.filter(|t: Seq<char>| !is_remote(t)) =~~= s.drop_last().filter(
            |t: Seq<char>| !is_remote(t),
        ) + (if !is_remote(s.last()) {
            seq![s.last()]
        } else {
            Seq::<Seq<char>>::empty()
        }));
        assert(s.drop_first().filter(|t: Seq<char>| !is_remote(t)) =~~= s.drop_first().drop_last().filter(
            |t: Seq<char>| !is_remote(t),
        ) + (if !is_remote(s.drop_first().last()) {
            seq![s.drop_first().last()]
        } else {
            Seq::<Seq<char>>::empty()
        }));
        assert(s.drop_first().last() == s.last());
        assert(s[0] == s.drop_last()[0]);
    }
}

/// The end of the run of wikilink target characters starting at `from`.
fn scan_wiki(v: &Vec<char>, from: usize) -> (r: usize)
    requires
        from <= v@.len(),
    ensures
        from <= r <= v@.len(),
        r as int == wiki_end(v@, from as int),
{
    let n = v.len();
    let mut i: usize = from;
    while i < n
        invariant
            from <= i <= n == v@.len(),
            forall|k: int| from <= k < i ==> wiki_char(#[trigger] v@[k]),
            wiki_end(v@, from as int) == wiki_end(v@, i as int),
        decreases n - i,
    {
        if v[i] == ']' || v[i] == '|' || v[i] == '#' {
            assert(wiki_end(v@, i as int) == i as int);
            return i;
        }
        assert(wiki_end(v@, i as int) == wiki_end(v@, i + 1));
        i = i + 1;
    }
    assert(wiki_end(v@, n as int) == n as int);
    i
}

/// The index of the first `close` character at or after `from`.
pub(crate) fn scan_close(v: &Vec<char>, from: usize, close: char) -> (r: usize)
    requires
        from <= v@.len(),
        close == ']' || close == ')',
    ensures
        from <= r <= v@.len(),
        close == ']' ==> r as int == close_bracket(v@, from as int),
        close == ')' ==> r as int == close_paren(v@, from as int),
{
    let n = v.len();
    let mut i: usize = from;
    while i < n
        invariant
            from <= i <= n == v@.len(),
            close == ']' ==> close_bracket(v@, from as int) == close_bracket(v@, i as int),
            close == ')' ==> close_paren(v@, from as int) == close_paren(v@, i as int),
        decreases n - i,
    {
        if v[i] == close {
            return i;
        }
        i = i + 1;
    }
    i
}

/// One entry of the content index.
#[derive(Debug, Clone)]
pub struct ContentIndexEntry {
    pub slug: String,
    pub file_path: String,
    pub title: Option<String>,
    pub links: Option<Vec<String>>,
    pub tags: Option<Vec<String>>,
}

/// The title the content's frontmatter yields, if any.
pub open spec fn content_title(content: Seq<char>) -> Option<Seq<char>> {
    if crate::fm::spec_has_fm(content) {
        match crate::fm::spec_parse_fm(crate::fm::spec_fm_block(content)) {
            Some(m) => crate::fm::spec_meta_from_raw(m).title,
            None => None,
        }
    } else {
        None
    }
}

/// The tag list the content's frontmatter yields, if any.
pub open spec fn content_tags(content: Seq<char>) -> Option<Seq<Seq<char>>> {
    if crate::fm::spec_has_fm(content) {
        match crate::fm::spec_parse_fm(crate::fm::spec_fm_block(content)) {
            Some(m) => crate::fm::spec_meta_from_raw(m).tags,
            None => None,
        }
    } else {
        None
    }
}

/// The last `/`-separated segment of a slug.
pub open spec fn spec_last_segment(slug: Seq<char>) -> Seq<char> {
    if crate::text::last_idx(slug, '/') >= 0 {
        slug.skip(crate::text::last_idx(slug, '/') + 1)
    } else {
        slug
    }
}

/// Build the content-index entry for one source file: its frontmatter
/// parsed for a title and tags (a missing title falls back to the slug's
/// last segment with dashes spaced), and the body's link targets
/// extracted. Exactly a malformed frontmatter block fails the entry.
pub fn content_index_entry(slug: String, file_path: String, content: String) -> (r: Result<
    ContentIndexEntry,
    RenderError,
>)
    ensures
        r is Err <==> crate::fm::spec_has_fm(content@) && crate::fm::spec_parse_fm(
            crate::fm::spec_fm_block(content@),
        ) is None,
        match r {
            Ok(entry) => {
                &&& entry.slug == slug
                &&& entry.file_path == file_path
                &&& entry.title matches Some(t) && t@ == (match content_title(content@) {
                    Some(tt) => tt,
                    None => crate::text::spec_replace(spec_last_segment(slug@), '-', ' '),
                })
                &&& (match content_tags(content@) {
                    Some(l) => entry.tags matches Some(tl) && tl.deep_view() == l,
                    None => entry.tags is None,
                })
                &&& (entry.links matches Some(l) ==> l.deep_view() == spec_extract_links(
                    crate::fm::spec_body_of(content@),
                ) && l@.len() > 0)
                &&& (entry.links is None ==> spec_extract_links(crate::fm::spec_body_of(content@)).len()
                    == 0)
            },
            Err(e) => e is Parse,
        },
{
    let fm = FrontMatter;
    let ghost content_v = content@;
    let page = Page::new(slug.clone(), file_path.clone(), content);
    let ghost page0 = page;
    let page = match fm.transform(page) {
        Ok(p) => p,
        Err(e) => {
            return Err(e);
        },
    };
    proof {
        lemma_fm_entry_meta(page0, page);
    }
    let title: Option<String> = match &page.frontmatter.title {
        Some(t) => Some(t.clone()),
        None => {
            let seg = last_segment(slug.as_str());
            Some(crate::nav::humanize_segment(seg.as_str()))
        },
    };
    let tags: Option<Vec<String>> = match &page.frontmatter.tags {
        Some(l) => Some(crate::fm::clone_string_vec(l)),
        None => None,
    };
    let links = extract_links(page.content.as_str());
    let links_opt: Option<Vec<String>> = if links.len() == 0 {
        None
    } else {
        Some(links)
    };
    Ok(
        ContentIndexEntry {
            slug,
            file_path,
            title,
            links: links_opt,
            tags,
        },
    )
}

/// The frontmatter stage hands an index entry its title, tags and body.
proof fn lemma_fm_entry_meta(p0: Page, p1: Page)
    requires
        crate::types::meta_unset(p0.frontmatter),
        crate::fm::fm_rel(p0, p1),
    ensures
        crate::types::opt_view(p1.frontmatter.title) == content_title(p0.content@),
        crate::types::opt_list_view(p1.frontmatter.tags) == content_tags(p0.content@),
        p1.content@ == crate::fm::spec_body_of(p0.content@),
{
}

/// The last `/`-separated segment of a slug.
fn last_segment(slug: &str) -> (r: String)
    ensures
        r@ == spec_last_segment(slug@),
{
    let v = to_chars(slug);
    match crate::text::find_last(&v, '/') {
        Some(i) => {
            assert(i < v@.len());
            let end = v.len();
            let seg = crate::text::copy_range(&v, i + 1, end);
            to_string(&seg)
        },
        None => to_string(&v),
    }
}

} // verus!
