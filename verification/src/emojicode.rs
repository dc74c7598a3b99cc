//! Emoji shortcodes: `:name:` tokens become their Unicode glyphs.
//!
//! A token is a `:`, a nonempty maximal run of shortcode characters
//! (lowercase letters, digits, `_`, `+`, `-`), and a closing `:`. A token
//! whose shortcode is unknown is kept as written; scanning resumes after its
//! closing colon either way.

use vstd::prelude::*;

use crate::text::{push_chars, push_str_chars, to_chars, to_string};

verus! {

/// The glyph that the emoji table assigns to a shortcode, if any.
pub uninterp spec fn emoji_glyph(code: Seq<char>) -> Option<Seq<char>>;

/// Relies on `emojis::get_by_shortcode`: a pure lookup in a fixed table from
/// shortcode to emoji, depending on the argument alone.
#[verifier::external_body]
fn emoji_for_shortcode(code: &str) -> (r: Option<String>)
    ensures
        match r {
            Some(g) => emoji_glyph(code@) == Some(g@),
            None => emoji_glyph(code@) is None,
        },
{
    emojis::get_by_shortcode(code).map(|e| e.as_str().to_string())
}

/// May `c` appear in an emoji shortcode?
pub open spec fn shortcode_char(c: char) -> bool {
    (97 <= c as u32 <= 122) || (48 <= c as u32 <= 57) || c == '_' || c == '+' || c == '-'
}

/// The end of the maximal run of shortcode characters starting at `i`.
pub open spec fn shortcode_end(s: Seq<char>, i: int) -> int
    decreases s.len() - i,
{
    if 0 <= i < s.len() && shortcode_char(s[i]) {
        shortcode_end(s, i + 1)
    } else {
        i
    }
}

/// The emoji rewrite of `s` from position `i` to the end.
pub open spec fn emoji_rewrite_from(s: Seq<char>, i: int) -> Seq<char>
    decreases s.len() - i,
{
    if i < 0 || i >= s.len() {
        Seq::empty()
    } else if s[i] == ':' {
        let e0 = shortcode_end(s, i + 1);
        let e = if e0 < i + 1 {
            i + 1
        } else {
            e0
        };
        if e < s.len() && e > i + 1 && s[e] == ':' {
            match emoji_glyph(s.subrange(i + 1, e)) {
                Some(g) => g + emoji_rewrite_from(s, e + 1),
                None => s.subrange(i, e + 1) + emoji_rewrite_from(s, e + 1),
            }
        } else {
            seq![':'] + emoji_rewrite_from(s, i + 1)
        }
    } else {
        seq![s[i]] + emoji_rewrite_from(s, i + 1)
    }
}

/// The emoji rewrite of a whole text.
pub open spec fn spec_rewrite_emojis(s: Seq<char>) -> Seq<char> {
    emoji_rewrite_from(s, 0)
}

/// Replace `:shortcode:` tokens with their Unicode emoji; unknown shortcodes
/// stay as written.
#[verifier::loop_isolation(false)]
pub fn rewrite_emojis(input: &str) -> (r: String)
    ensures
        r@ == spec_rewrite_emojis(input@),
{
    let v = to_chars(input);
    let n = v.len();
    let mut out: Vec<char> = Vec::new();
    let mut i: usize = 0;
    while i < n
        invariant
            i <= n,
            spec_rewrite_emojis(v@) =~= out@ + emoji_rewrite_from(v@, i as int),
        decreases n - i,
    {
        let c = v[i];
        if c == ':' {
            let j = scan_shortcode(&v, i + 1);
            proof {
                lemma_shortcode_end_at(v@, i + 1, j as int);
            }
            if j < n && j > i + 1 && v[j] == ':' {
                let mut code: Vec<char> = Vec::new();
                let mut p: usize = i + 1;
                while p < j
                    invariant
                        i + 1 <= p <= j <= n,
                        code@ =~= v@.subrange(i + 1, p as int),
                    decreases j - p,
                {
                    code.push(v[p]);
                    assert(code@ =~= v@.subrange(i + 1, p + 1));
                    p = p + 1;
                }
                let code_s = to_string(&code);
                match emoji_for_shortcode(code_s.as_str()) {
                    Some(g) => {
                        push_str_chars(&mut out, g.as_str());
                    },
                    None => {
                        let mut q: usize = i;
                        let ghost out0 = out@;
                        while q <= j
                            invariant
                                i <= q <= j + 1 <= n,
                                out@ =~= out0 + v@.subrange(i as int, q as int),
                            decreases j + 1 - q,
                        {
                            out.push(v[q]);
                            assert(out@ =~= out0 + v@.subrange(i as int, q + 1));
                            q = q + 1;
                        }
                    },
                }
                i = j + 1;
            } else {
                out.push(':');
                i = i + 1;
            }
        } else {
            out.push(c);
            i = i + 1;
        }
    }
    assert(emoji_rewrite_from(v@, n as int) =~= Seq::<char>::empty());
    to_string(&out)
}

/// The end of the run of shortcode characters starting at `from`.
fn scan_shortcode(v: &Vec<char>, from: usize) -> (r: usize)
    requires
        from <= v@.len(),
    ensures
        from <= r <= v@.len(),
        forall|k: int| from <= k < r ==> shortcode_char(#[trigger] v@[k]),
        r < v@.len() ==> !shortcode_char(v@[r as int]),
{
    let n = v.len();
    let mut j: usize = from;
    while j < n
        invariant
            from <= j <= n == v@.len(),
            forall|k: int| from <= k < j ==> shortcode_char(#[trigger] v@[k]),
        decreases n - j,
    {
        let d = v[j] as u32;
        if !((97 <= d && d <= 122) || (48 <= d && d <= 57) || v[j] == '_' || v[j] == '+' || v[j]
            == '-') {
            return j;
        }
        j = j + 1;
    }
    j
}

/// If no shortcode character sits before `j` (starting at `i`) and `j` stops
/// the run, then `j` is the run's end.
pub proof fn lemma_shortcode_end_at(s: Seq<char>, i: int, j: int)
    requires
        0 <= i <= j <= s.len(),
        forall|k: int| i <= k < j ==> shortcode_char(#[trigger] s[k]),
        j < s.len() ==> !shortcode_char(s[j]),
    ensures
        shortcode_end(s, i) == j,
    decreases j - i,
{
    if i < j {
        lemma_shortcode_end_at(s, i + 1, j);
    }
}

} // verus!
