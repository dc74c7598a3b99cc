//! Wikilinks: `[[target]]` and `[[target|label]]` tokens become markdown
//! links to the target's slug, so the markdown stage renders them as
//! anchors.
//!
//! The token is `[[`, then an inner text without `]`, then `]]`. The part
//! before the first `|` names the target (its fragment and extension are
//! cleaned away as for the content index); the part after it, if any, is
//! the shown label, which otherwise is the raw inner text. The destination
//! is wrapped in angle brackets so targets with spaces still parse as
//! links.

use vstd::prelude::*;

use crate::content_index::{clean_link_target, close_bracket, scan_close, spec_clean_link};
use crate::text::{copy_range, first_idx, push_chars, push_str_chars, to_chars, to_string};

verus! {

/// The wikilink rewrite of `s` from position `i` to the end.
pub open spec fn wikilink_rewrite_from(s: Seq<char>, i: int) -> Seq<char>
    decreases s.len() - i,
{
    if i < 0 || i >= s.len() {
        Seq::empty()
    } else if i + 1 < s.len() && s[i] == '[' && s[i + 1] == '[' {
        let b0 = close_bracket(s, i + 2);
        let b = if b0 < i + 2 {
            i + 2
        } else if b0 > s.len() {
            s.len() as int
        } else {
            b0
        };
        if b + 1 < s.len() && s[b + 1] == ']' && b > i + 2 {
            let inner = s.subrange(i + 2, b);
            let cut = first_idx(inner, '|');
            let target = inner.take(if 0 <= cut <= inner.len() {
                cut
            } else {
                inner.len() as int
            });
            let label = if 0 <= cut < inner.len() {
                inner.skip(cut + 1)
            } else {
                inner
            };
            seq!['['] + label + "](</"@ + spec_clean_link(target) + ">)"@
                + wikilink_rewrite_from(s, b + 2)
        } else {
            seq!['['] + wikilink_rewrite_from(s, i + 1)
        }
    } else {
        seq![s[i]] + wikilink_rewrite_from(s, i + 1)
    }
}

/// The wikilink rewrite of a whole text.
pub open spec fn spec_rewrite_wikilinks(s: Seq<char>) -> Seq<char> {
    wikilink_rewrite_from(s, 0)
}

/// Replace `[[target]]` and `[[target|label]]` tokens with markdown links
/// to the target's slug; unclosed or empty tokens stay as written.
#[verifier::loop_isolation(false)]
pub fn rewrite_wikilinks(input: &str) -> (r: String)
    ensures
        r@ == spec_rewrite_wikilinks(input@),
{
    let v = to_chars(input);
    let n = v.len();
    let mut out: Vec<char> = Vec::new();
    let mut i: usize = 0;
    while i < n
        invariant
            i <= n,
            spec_rewrite_wikilinks(v@) =~= out@ + wikilink_rewrite_from(v@, i as int),
        decreases n - i,
    {
        let c = v[i];
        if c == '[' && i + 1 < n && v[i + 1] == '[' {
            let b = scan_close(&v, i + 2, ']');
            if b < n && n - b > 1 && v[b + 1] == ']' && b > i + 2 {
                let inner = copy_range(&v, i + 2, b);
                let cut = crate::text::find_first(&inner, '|');
                let (target, label): (Vec<char>, Vec<char>) = match cut {
                    Some(p) => (copy_range(&inner, 0, p), copy_range(&inner, p + 1, inner.len())),
                    None => {
                        let whole = copy_range(&inner, 0, inner.len());
                        (whole, inner)
                    },
                };
                proof {
                    assert(target@ =~= inner@.take(first_idx(inner@, '|')));
                    if cut is Some {
                        assert(label@ =~= inner@.skip(first_idx(inner@, '|') + 1));
                    } else {
                        assert(label@ =~= inner@);
                    }
                }
                let cleaned = clean_link_target(to_string(&target).as_str());
                out.push('[');
                push_chars(&mut out, &label);
                push_str_chars(&mut out, "](</");
                push_str_chars(&mut out, cleaned.as_str());
                push_str_chars(&mut out, ">)");
                i = b + 2;
            } else {
                out.push('[');
                i = i + 1;
            }
        } else {
            out.push(c);
            i = i + 1;
        }
    }
    assert(wikilink_rewrite_from(v@, n as int) =~= Seq::<char>::empty());
    to_string(&out)
}

} // verus!
