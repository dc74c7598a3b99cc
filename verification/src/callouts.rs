//! Callout blocks: a blockquote whose first line carries a `[!kind]` marker
//! becomes a styled callout `<div>` instead of a plain quote.
//!
//! A header line is optional whitespace, `>`, optional whitespace, then
//! `[!kind]` with an optional `|metadata` part, an optional `+` or `-`
//! collapse marker, and an optional title separated by whitespace. The
//! following lines that keep starting with `>` form the callout's body.

use vstd::prelude::*;

use crate::markdown_stage::{markdown_html, render_md};
use crate::text::{
    chars_eq_str, copy_range, html_escape, lemma_trim_start_of_skip, push_chars, push_str_chars,
    scan_ws, spec_html_escape, spec_lines, spec_trim, spec_trim_start, split_lines, to_chars,
    to_string, trim, ws_char,
};

verus! {

broadcast use crate::text::lemma_vec_char_deep_view;

/// May `c` appear in a callout kind (letters, digits, `_`, `-`)?
pub open spec fn kind_char(c: char) -> bool {
    (65 <= c as u32 <= 90) || (97 <= c as u32 <= 122) || (48 <= c as u32 <= 57) || c == '_' || c
        == '-'
}

/// An uppercase ASCII letter mapped to lowercase; all else unchanged.
pub open spec fn lower_char(c: char) -> char {
    if 65 <= c as u32 <= 90 {
        ((c as u32) + 32) as char
    } else {
        c
    }
}

/// A lowercase ASCII letter mapped to uppercase; all else unchanged.
pub open spec fn upper_char(c: char) -> char {
    if 97 <= c as u32 <= 122 {
        ((c as u32) - 32) as char
    } else {
        c
    }
}

/// The text with ASCII letters lowercased.
pub open spec fn spec_lower(s: Seq<char>) -> Seq<char> {
    Seq::new(s.len(), |i: int| lower_char(s[i]))
}

/// The text with its first character uppercased; empty text becomes `Note`.
pub open spec fn spec_capitalize(s: Seq<char>) -> Seq<char> {
    if s.len() == 0 {
        seq!['N', 'o', 't', 'e']
    } else {
        seq![upper_char(s[0])] + s.drop_first()
    }
}

/// The parsed pieces of a callout header line. `collapse` is 0 for none,
/// 1 for `+` (collapsible, open) and 2 for `-` (collapsible, collapsed).
pub struct CalloutV {
    pub kind: Seq<char>,
    pub meta: Seq<char>,
    pub collapse: int,
    pub title: Seq<char>,
}

/// The end of the run of kind characters starting at `i`.
pub open spec fn kind_end(s: Seq<char>, i: int) -> int
    decreases s.len() - i,
{
    if 0 <= i < s.len() && kind_char(s[i]) {
        kind_end(s, i + 1)
    } else {
        i
    }
}

/// Index of the first `]` at or after `i`, or the length if there is none.
pub open spec fn bracket_end(s: Seq<char>, i: int) -> int
    decreases s.len() - i,
{
    if i < 0 || i >= s.len() {
        s.len() as int
    } else if s[i] == ']' {
        i
    } else {
        bracket_end(s, i + 1)
    }
}

/// The parse of a callout header line, if it is one.
pub open spec fn spec_parse_callout(l: Seq<char>) -> Option<CalloutV> {
    let p = spec_trim_start(l);
    if p.len() == 0 || p[0] != '>' {
        None
    } else {
        let q = spec_trim_start(p.drop_first());
        if q.len() < 2 || q[0] != '[' || q[1] != '!' {
            None
        } else {
            let r = q.skip(2);
            let ke = kind_end(r, 0);
            if ke <= 0 || ke > r.len() {
                None
            } else {
                let kind = r.subrange(0, ke);
                let rest0 = r.skip(ke);
                spec_parse_after_kind(kind, rest0)
            }
        }
    }
}

/// The parse of a header after its kind: metadata, `]`, collapse marker and
/// title.
pub open spec fn spec_parse_after_kind(kind: Seq<char>, rest0: Seq<char>) -> Option<CalloutV> {
    if rest0.len() == 0 {
        None
    } else if rest0[0] == '|' {
        let j = bracket_end(rest0, 1);
        if j <= 1 || j >= rest0.len() {
            None
        } else {
            spec_parse_tail(kind, rest0.subrange(1, j), rest0.skip(j + 1))
        }
    } else if rest0[0] == ']' {
        spec_parse_tail(kind, Seq::empty(), rest0.skip(1))
    } else {
        None
    }
}

/// The parse of a header after its closing bracket: collapse marker and
/// title.
pub open spec fn spec_parse_tail(kind: Seq<char>, meta: Seq<char>, after: Seq<char>) -> Option<
    CalloutV,
> {
    let collapse: int = if after.len() > 0 && after[0] == '+' {
        1
    } else if after.len() > 0 && after[0] == '-' {
        2
    } else {
        0
    };
    let t0 = if collapse == 0 {
        after
    } else {
        after.drop_first()
    };
    if t0.len() > 0 && !ws_char(t0[0]) {
        None
    } else {
        Some(
            CalloutV {
                kind,
                meta: spec_trim(meta),
                collapse,
                title: spec_trim(t0),
            },
        )
    }
}

/// Is this line part of a blockquote (its first non-blank character `>`)?
pub open spec fn is_quote_line(l: Seq<char>) -> bool {
    spec_trim_start(l).len() > 0 && spec_trim_start(l)[0] == '>'
}

/// Index of the first non-quote line at or after `i`, or the line count.
pub open spec fn quote_end(ls: Seq<Seq<char>>, i: int) -> int
    decreases ls.len() - i,
{
    if i < 0 || i >= ls.len() {
        ls.len() as int
    } else if !is_quote_line(ls[i]) {
        i
    } else {
        quote_end(ls, i + 1)
    }
}

/// All leading `>` characters removed.
pub open spec fn drop_gt(s: Seq<char>) -> Seq<char>
    decreases s.len(),
{
    if s.len() > 0 && s[0] == '>' {
        drop_gt(s.drop_first())
    } else {
        s
    }
}

/// All leading spaces removed.
pub open spec fn drop_sp(s: Seq<char>) -> Seq<char>
    decreases s.len(),
{
    if s.len() > 0 && s[0] == ' ' {
        drop_sp(s.drop_first())
    } else {
        s
    }
}

/// A body line with its quote marker stripped: leading whitespace, then all
/// `>`s, then all spaces.
pub open spec fn strip_quote(l: Seq<char>) -> Seq<char> {
    drop_sp(drop_gt(spec_trim_start(l)))
}

/// The body lines stripped and concatenated, each with a trailing newline.
pub open spec fn spec_body_md(ls: Seq<Seq<char>>) -> Seq<char>
    decreases ls.len(),
{
    if ls.len() == 0 {
        Seq::empty()
    } else {
        strip_quote(ls[0]) + seq!['\n'] + spec_body_md(ls.drop_first())
    }
}

/// The canonical kind for a lowercased callout kind; unknown kinds stand for
/// themselves.
pub open spec fn canon_kind(k: Seq<char>) -> Seq<char> {
    if k == "abstract"@ || k == "summary"@ || k == "tldr"@ {
        "abstract"@
    } else if k == "tip"@ || k == "hint"@ || k == "important"@ {
        "tip"@
    } else if k == "success"@ || k == "check"@ || k == "done"@ {
        "success"@
    } else if k == "question"@ || k == "help"@ || k == "faq"@ {
        "question"@
    } else if k == "warning"@ || k == "attention"@ || k == "caution"@ {
        "warning"@
    } else if k == "failure"@ || k == "missing"@ || k == "fail"@ {
        "failure"@
    } else if k == "danger"@ || k == "error"@ {
        "danger"@
    } else if k == "quote"@ || k == "cite"@ {
        "quote"@
    } else {
        k
    }
}

/// The rendered HTML of one callout block, followed by a blank line.
pub open spec fn callout_block_html(v: CalloutV, body: Seq<char>) -> Seq<char> {
    let kl = spec_lower(v.kind);
    let ck = canon_kind(kl);
    let collapsible = v.collapse != 0;
    let collapsed = v.collapse == 2;
    let title = if v.title.len() == 0 {
        spec_capitalize(kl)
    } else {
        v.title
    };
    let fold = if collapsed {
        "true"@
    } else {
        "false"@
    };
    "<div class=\"callout "@ + ck + (if collapsible {
        " is-collapsible"@
    } else {
        Seq::empty()
    }) + (if collapsed {
        " is-collapsed"@
    } else {
        Seq::empty()
    }) + "\" data-callout=\""@ + ck + "\" data-callout-fold=\""@ + fold
        + "\" data-callout-metadata=\""@ + spec_html_escape(v.meta) + "\">"@
        + "<div class=\"callout-title\"><div class=\"callout-icon\"></div><div class=\"callout-title-inner\">"@
        + markdown_html(title) + "</div>"@ + (if collapsible {
        "<div class=\"fold-callout-icon\"></div>"@
    } else {
        Seq::empty()
    }) + "</div>"@ + "<div class=\"callout-content\"><div class=\"callout-content-inner\">"@
        + markdown_html(body) + "</div></div></div>"@ + "\n\n"@
}

/// The callout rewrite of the lines from index `i` on.
pub open spec fn callouts_rewrite_from(ls: Seq<Seq<char>>, i: int) -> Seq<char>
    decreases ls.len() - i,
{
    if i < 0 || i >= ls.len() {
        Seq::empty()
    } else {
        match spec_parse_callout(ls[i]) {
            Some(v) => {
                let e0 = quote_end(ls, i + 1);
                let e = if e0 < i + 1 {
                    i + 1
                } else if e0 > ls.len() {
                    ls.len() as int
                } else {
                    e0
                };
                let body = spec_body_md(ls.subrange(i + 1, e));
                let lead = if i == 0 {
                    seq!['\n']
                } else {
                    Seq::<char>::empty()
                };
                lead + callout_block_html(v, body) + callouts_rewrite_from(ls, e)
            },
            None => ls[i] + seq!['\n'] + callouts_rewrite_from(ls, i + 1),
        }
    }
}

/// The callout rewrite of a whole text.
pub open spec fn spec_rewrite_callouts(s: Seq<char>) -> Seq<char> {
    callouts_rewrite_from(spec_lines(s), 0)
}

/// If kind characters fill `[i, j)` and `j` stops the run, `j` is its end.
proof fn lemma_kind_end_at(s: Seq<char>, i: int, j: int)
    requires
        0 <= i <= j <= s.len(),
        forall|k: int| i <= k < j ==> kind_char(#[trigger] s[k]),
        j < s.len() ==> !kind_char(s[j]),
    ensures
        kind_end(s, i) == j,
    decreases j - i,
{
    if i < j {
        lemma_kind_end_at(s, i + 1, j);
    }
}

/// If no `]` sits in `[i, j)` and `j` holds one (or is the end), `j` is the
/// first bracket.
proof fn lemma_bracket_end_at(s: Seq<char>, i: int, j: int)
    requires
        0 <= i <= j <= s.len(),
        forall|k: int| i <= k < j ==> s[k] != ']',
        j < s.len() ==> s[j] == ']',
    ensures
        bracket_end(s, i) == (if j < s.len() {
            j
        } else {
            s.len() as int
        }),
    decreases j - i,
{
    if i < j {
        lemma_bracket_end_at(s, i + 1, j);
    }
}

/// Dropping leading `>`s from a suffix.
proof fn lemma_drop_gt_of(s: Seq<char>, to: int)
    requires
        0 <= to <= s.len(),
        forall|k: int| 0 <= k < to ==> s[k] == '>',
        to < s.len() ==> s[to] != '>',
    ensures
        drop_gt(s) =~= s.skip(to),
    decreases s.len(),
{
    if to > 0 {
        assert forall|k: int| 0 <= k < to - 1 implies s.drop_first()[k] == '>' by {
            assert(s[k + 1] == '>');
        }
        lemma_drop_gt_of(s.drop_first(), to - 1);
        assert(s.drop_first().skip(to - 1) =~= s.skip(to));
    } else {
        assert(s.skip(0) =~= s);
    }
}

/// Dropping leading spaces from a suffix.
proof fn lemma_drop_sp_of(s: Seq<char>, to: int)
    requires
        0 <= to <= s.len(),
        forall|k: int| 0 <= k < to ==> s[k] == ' ',
        to < s.len() ==> s[to] != ' ',
    ensures
        drop_sp(s) =~= s.skip(to),
    decreases s.len(),
{
    if to > 0 {
        assert forall|k: int| 0 <= k < to - 1 implies s.drop_first()[k] == ' ' by {
            assert(s[k + 1] == ' ');
        }
        lemma_drop_sp_of(s.drop_first(), to - 1);
        assert(s.drop_first().skip(to - 1) =~= s.skip(to));
    } else {
        assert(s.skip(0) =~= s);
    }
}

/// Parse a callout header line into kind, metadata, collapse marker and
/// title.
#[verifier::loop_isolation(false)]
#[verifier::rlimit(60)]
pub fn parse_callout(l: &Vec<char>) -> (r: Option<(Vec<char>, Vec<char>, u8, Vec<char>)>)
    ensures
        match r {
            Some(h) => {
                &&& spec_parse_callout(l@) matches Some(v)
                &&& v.kind == h.0@
                &&& v.meta == h.1@
                &&& v.collapse == h.2 as int
                &&& v.title == h.3@
            },
            None => spec_parse_callout(l@) is None,
        },
{
    let n = l.len();
    let a = scan_ws(l, 0);
    proof {
        lemma_trim_start_of_skip(l@, 0, a as int);
        assert(l@.skip(0) =~= l@);
    }
    if a >= n || !(l[a] == '>') {
        return None;
    }
    let ghost p = spec_trim_start(l@);
    let b = scan_ws(l, a + 1);
    proof {
        lemma_trim_start_of_skip(l@, a + 1, b as int);
        assert(p.drop_first() =~= l@.skip(a + 1));
    }
    let ghost q = spec_trim_start(p.drop_first());
    assert(q =~= l@.skip(b as int));
    if n - b < 2 || !(l[b] == '[') || !(l[b + 1] == '!') {
        return None;
    }
    let ghost rr = q.skip(2);
    assert(rr =~= l@.skip(b + 2));
    let ke = scan_kind(l, b + 2);
    proof {
        assert forall|k: int| 0 <= k < ke - (b + 2) implies kind_char(rr[k]) by {
            assert(kind_char(l@[k + b + 2]));
        }
        lemma_kind_end_at(rr, 0, ke - (b + 2));
    }
    if ke == b + 2 {
        return None;
    }
    let kind = copy_range(l, b + 2, ke);
    assert(kind@ =~= rr.subrange(0, ke - (b + 2)));
    let ghost rest0 = rr.skip(ke - (b + 2));
    assert(rest0 =~= l@.skip(ke as int));
    if ke >= n {
        return None;
    }
    if l[ke] == '|' {
        let j = scan_to_bracket(l, ke + 1);
        proof {
            assert forall|k: int| 1 <= k < j - ke implies rest0[k] != ']' by {
                assert(l@[k + ke] != ']');
            }
            lemma_bracket_end_at(rest0, 1, j - ke);
        }
        if j >= n || j == ke + 1 {
            return None;
        }
        let meta = copy_range(l, ke + 1, j);
        assert(meta@ =~= rest0.subrange(1, j - ke));
        let ghost after = rest0.skip(j - ke + 1);
        assert(after =~= l@.skip(j + 1));
        parse_callout_tail(l, kind, meta, j + 1, Ghost(rest0))
    } else if l[ke] == ']' {
        let meta: Vec<char> = Vec::new();
        let ghost after = rest0.skip(1);
        assert(after =~= l@.skip(ke + 1));
        parse_callout_tail(l, kind, meta, ke + 1, Ghost(rest0))
    } else {
        return None;
    }
}

/// The end of the run of kind characters starting at `from`.
fn scan_kind(v: &Vec<char>, from: usize) -> (r: usize)
    requires
        from <= v@.len(),
    ensures
        from <= r <= v@.len(),
        forall|k: int| from <= k < r ==> kind_char(#[trigger] v@[k]),
        r < v@.len() ==> !kind_char(v@[r as int]),
{
    let n = v.len();
    let mut i: usize = from;
    while i < n
        invariant
            from <= i <= n == v@.len(),
            forall|k: int| from <= k < i ==> kind_char(#[trigger] v@[k]),
        decreases n - i,
    {
        let u = v[i] as u32;
        if !((65 <= u && u <= 90) || (97 <= u && u <= 122) || (48 <= u && u <= 57) || v[i] == '_'
            || v[i] == '-') {
            return i;
        }
        i = i + 1;
    }
    i
}

/// The index of the first `]` at or after `from`, or the length.
fn scan_to_bracket(v: &Vec<char>, from: usize) -> (r: usize)
    requires
        from <= v@.len(),
    ensures
        from <= r <= v@.len(),
        forall|k: int| from <= k < r ==> v@[k] != ']',
        r < v@.len() ==> v@[r as int] == ']',
{
    let n = v.len();
    let mut i: usize = from;
    while i < n
        invariant
            from <= i <= n == v@.len(),
            forall|k: int| from <= k < i ==> v@[k] != ']',
        decreases n - i,
    {
        if v[i] == ']' {
            return i;
        }
        i = i + 1;
    }
    i
}

/// Parse the collapse marker and title that follow a header's `]`, at
/// absolute position `pos` of `l`.
#[verifier::loop_isolation(false)]
fn parse_callout_tail(l: &Vec<char>, kind: Vec<char>, meta: Vec<char>, pos: usize, Ghost(
    rest0,
): Ghost<Seq<char>>) -> (r: Option<(Vec<char>, Vec<char>, u8, Vec<char>)>)
    requires
        pos <= l@.len(),
    ensures
        match r {
            Some(h) => {
                &&& spec_parse_tail(kind@, meta@, l@.skip(pos as int)) matches Some(v)
                &&& v.kind == h.0@
                &&& v.meta == spec_trim(meta@) && h.1@ == spec_trim(meta@)
                &&& v.collapse == h.2 as int
                &&& v.title == h.3@
            },
            None => spec_parse_tail(kind@, meta@, l@.skip(pos as int)) is None,
        },
{
    let ghost after = l@.skip(pos as int);
    let n = l.len();
    let collapse: u8 = if pos < n && l[pos] == '+' {
        1
    } else if pos < n && l[pos] == '-' {
        2
    } else {
        0
    };
    let t_start: usize = if collapse == 0 {
        pos
    } else {
        pos + 1
    };
    let ghost t0 = if collapse == 0 {
        after
    } else {
        after.drop_first()
    };
    assert(t0 =~= l@.skip(t_start as int));
    if t_start < n && !(l[t_start] == ' ' || l[t_start] == '\t' || l[t_start] == '\n'
        || l[t_start] == '\r') {
        return None;
    }
    let t_vec = copy_range(l, t_start, n);
    assert(t_vec@ =~= t0);
    let title = trim(&t_vec);
    let trimmed_meta = trim(&meta);
    Some((kind, trimmed_meta, collapse, title))
}

/// The text with ASCII letters lowercased.
pub fn lower_chars(v: &Vec<char>) -> (r: Vec<char>)
    ensures
        r@ =~= spec_lower(v@),
{
    let n = v.len();
    let mut r: Vec<char> = Vec::new();
    let mut i: usize = 0;
    while i < n
        invariant
            i <= n == v@.len(),
            r@ =~= spec_lower(v@).take(i as int),
        decreases n - i,
    {
        let u = v[i] as u32;
        if 65 <= u && u <= 90 {
            r.push(((u + 32) as u8) as char);
        } else {
            r.push(v[i]);
        }
        assert(r@ =~= spec_lower(v@).take(i + 1));
        i = i + 1;
    }
    assert(spec_lower(v@).take(n as int) =~= spec_lower(v@));
    r
}

/// The canonical kind for a lowercased callout kind.
pub fn canonicalize(k: &Vec<char>) -> (r: Vec<char>)
    ensures
        r@ =~= canon_kind(k@),
{
    if chars_eq_str(k, "abstract") || chars_eq_str(k, "summary") || chars_eq_str(k, "tldr") {
        return to_chars("abstract");
    }
    if chars_eq_str(k, "tip") || chars_eq_str(k, "hint") || chars_eq_str(k, "important") {
        return to_chars("tip");
    }
    if chars_eq_str(k, "success") || chars_eq_str(k, "check") || chars_eq_str(k, "done") {
        return to_chars("success");
    }
    if chars_eq_str(k, "question") || chars_eq_str(k, "help") || chars_eq_str(k, "faq") {
        return to_chars("question");
    }
    if chars_eq_str(k, "warning") || chars_eq_str(k, "attention") || chars_eq_str(k, "caution") {
        return to_chars("warning");
    }
    if chars_eq_str(k, "failure") || chars_eq_str(k, "missing") || chars_eq_str(k, "fail") {
        return to_chars("failure");
    }
    if chars_eq_str(k, "danger") || chars_eq_str(k, "error") {
        return to_chars("danger");
    }
    if chars_eq_str(k, "quote") || chars_eq_str(k, "cite") {
        return to_chars("quote");
    }
    copy_range(k, 0, k.len())
}

/// The text with its first character uppercased; empty becomes `Note`.
pub fn capitalize(v: &Vec<char>) -> (r: Vec<char>)
    ensures
        r@ =~= spec_capitalize(v@),
{
    proof {
        reveal_strlit("Note");
    }
    if v.len() == 0 {
        let r = to_chars("Note");
        assert(r@ =~= seq!['N', 'o', 't', 'e']);
        return r;
    }
    let mut r: Vec<char> = Vec::new();
    let u = v[0] as u32;
    if 97 <= u && u <= 122 {
        r.push(((u - 32) as u8) as char);
    } else {
        r.push(v[0]);
    }
    let rest = copy_range(v, 1, v.len());
    push_chars(&mut r, &rest);
    proof {
        reveal_strlit("Note");
        assert(r@ =~= spec_capitalize(v@));
    }
    r
}

/// A body line with its quote marker stripped.
pub fn strip_quote_line(l: &Vec<char>) -> (r: Vec<char>)
    ensures
        r@ =~= strip_quote(l@),
{
    let n = l.len();
    let a = scan_ws(l, 0);
    proof {
        lemma_trim_start_of_skip(l@, 0, a as int);
        assert(l@.skip(0) =~= l@);
    }
    let mut b: usize = a;
    while b < n && l[b] == '>'
        invariant
            a <= b <= n == l@.len(),
            forall|k: int| a <= k < b ==> l@[k] == '>',
        decreases n - b,
    {
        b = b + 1;
    }
    assert(b == n || l@[b as int] != '>');
    proof {
        let ts = spec_trim_start(l@);
        assert(ts =~= l@.skip(a as int));
        assert forall|k: int| 0 <= k < b - a implies ts[k] == '>' by {
            assert(l@[k + a] == '>');
        }
        lemma_drop_gt_of(ts, b - a);
        assert(drop_gt(ts) =~= l@.skip(b as int));
    }
    let mut c: usize = b;
    while c < n && l[c] == ' '
        invariant
            b <= c <= n == l@.len(),
            forall|k: int| b <= k < c ==> l@[k] == ' ',
        decreases n - c,
    {
        c = c + 1;
    }
    assert(c == n || l@[c as int] != ' ');
    proof {
        let dg = drop_gt(spec_trim_start(l@));
        assert forall|k: int| 0 <= k < c - b implies dg[k] == ' ' by {
            assert(l@[k + b] == ' ');
        }
        lemma_drop_sp_of(dg, c - b);
        assert(drop_sp(dg) =~= l@.skip(c as int));
    }
    copy_range(l, c, n)
}

/// Index of the first non-quote line at or after `from`.
fn find_quote_end(lines: &Vec<Vec<char>>, from: usize) -> (r: usize)
    requires
        from <= lines@.len(),
    ensures
        from <= r <= lines@.len(),
        r as int == quote_end(lines.deep_view(), from as int),
{
    let ghost dv = lines.deep_view();
    let n = lines.len();
    let mut e: usize = from;
    while e < n
        invariant
            from <= e <= n == lines@.len(),
            dv == lines.deep_view(),
            quote_end(dv, from as int) == quote_end(dv, e as int),
        decreases n - e,
    {
        let a = scan_ws(&lines[e], 0);
        proof {
            lemma_trim_start_of_skip(lines@[e as int]@, 0, a as int);
            assert(lines@[e as int]@.skip(0) =~= lines@[e as int]@);
        }
        if a >= lines[e].len() || !(lines[e][a] == '>') {
            assert(!is_quote_line(dv[e as int]));
            assert(quote_end(dv, e as int) == e as int);
            return e;
        }
        assert(is_quote_line(dv[e as int]));
        assert(quote_end(dv, e as int) == quote_end(dv, e + 1));
        e = e + 1;
    }
    assert(quote_end(dv, n as int) == n as int);
    e
}

/// Rewrite callout blockquotes into styled callout HTML; all other lines
/// pass through, each restored with a trailing newline.
#[verifier::loop_isolation(false)]
#[verifier::rlimit(90)]
pub fn rewrite_callouts(input: &str) -> (r: String)
    ensures
        r@ == spec_rewrite_callouts(input@),
{
    let chars = to_chars(input);
    let lines = split_lines(&chars);
    let ghost dv = lines.deep_view();
    let n = lines.len();
    let mut out: Vec<char> = Vec::new();
    let mut i: usize = 0;
    while i < n
        invariant
            i <= n,
            spec_rewrite_callouts(input@) =~= out@ + callouts_rewrite_from(dv, i as int),
            i > 0 ==> out@.len() > 0,
        decreases n - i,
    {
        match parse_callout(&lines[i]) {
            Some((kind, meta, collapse, title)) => {
                let ghost v = spec_parse_callout(dv[i as int]).unwrap();
                let e = find_quote_end(&lines, i + 1);
                let mut body: Vec<char> = Vec::new();
                let mut q: usize = i + 1;
                while q < e
                    invariant
                        i + 1 <= q <= e <= n,
                        body@ =~= spec_body_md(dv.subrange(i + 1, q as int)),
                    decreases e - q,
                {
                    let stripped = strip_quote_line(&lines[q]);
                    push_chars(&mut body, &stripped);
                    body.push('\n');
                    proof {
                        lemma_body_md_snoc(dv.subrange(i + 1, q + 1));
                        assert(dv.subrange(i + 1, q + 1).drop_last() =~~= dv.subrange(
                            i + 1,
                            q as int,
                        ));
                        assert(body@ =~= spec_body_md(dv.subrange(i + 1, q + 1)));
                    }
                    q = q + 1;
                }
                let blk = build_callout_block(
                    &kind,
                    &meta,
                    collapse,
                    title,
                    &body,
                    Ghost(v),
                );
                proof {
                    assert(callouts_rewrite_from(dv, i as int) =~= (if i == 0 {
                        seq!['\n']
                    } else {
                        Seq::<char>::empty()
                    }) + callout_block_html(v, spec_body_md(dv.subrange(i + 1, e as int)))
                        + callouts_rewrite_from(dv, e as int));
                }
                if i == 0 {
                    out.push('\n');
                }
                push_chars(&mut out, &blk);
                i = e;
            },
            None => {
                push_chars(&mut out, &lines[i]);
                out.push('\n');
                i = i + 1;
            },
        }
    }
    assert(callouts_rewrite_from(dv, n as int) =~= Seq::<char>::empty());
    to_string(&out)
}

/// Assemble the HTML of one callout block from its parsed header and body.
#[verifier::rlimit(60)]
fn build_callout_block(
    kind: &Vec<char>,
    meta: &Vec<char>,
    collapse: u8,
    title: Vec<char>,
    body: &Vec<char>,
    Ghost(v): Ghost<CalloutV>,
) -> (r: Vec<char>)
    requires
        v.kind == kind@,
        v.meta == meta@,
        v.collapse == collapse as int,
        v.title == title@,
    ensures
        r@ =~= callout_block_html(v, body@),
{
    let kl = lower_chars(kind);
    let ck = canonicalize(&kl);
    let collapsible = collapse != 0;
    let collapsed = collapse == 2;
    let title_final = if title.len() == 0 {
        capitalize(&kl)
    } else {
        title
    };
    let title_html = render_md(to_string(&title_final).as_str());
    let inner_html = render_md(to_string(body).as_str());
    let esc_meta = html_escape(meta);
    let mut out: Vec<char> = Vec::new();
    push_str_chars(&mut out, "<div class=\"callout ");
    push_chars(&mut out, &ck);
    if collapsible {
        push_str_chars(&mut out, " is-collapsible");
    }
    if collapsed {
        push_str_chars(&mut out, " is-collapsed");
    }
    push_str_chars(&mut out, "\" data-callout=\"");
    push_chars(&mut out, &ck);
    push_str_chars(&mut out, "\" data-callout-fold=\"");
    if collapsed {
        push_str_chars(&mut out, "true");
    } else {
        push_str_chars(&mut out, "false");
    }
    push_str_chars(&mut out, "\" data-callout-metadata=\"");
    push_chars(&mut out, &esc_meta);
    push_str_chars(&mut out, "\">");
    push_str_chars(
        &mut out,
        "<div class=\"callout-title\"><div class=\"callout-icon\"></div><div class=\"callout-title-inner\">",
    );
    push_str_chars(&mut out, title_html.as_str());
    push_str_chars(&mut out, "</div>");
    if collapsible {
        push_str_chars(&mut out, "<div class=\"fold-callout-icon\"></div>");
    }
    push_str_chars(&mut out, "</div>");
    push_str_chars(
        &mut out,
        "<div class=\"callout-content\"><div class=\"callout-content-inner\">",
    );
    push_str_chars(&mut out, inner_html.as_str());
    push_str_chars(&mut out, "</div></div></div>");
    push_str_chars(&mut out, "\n\n");
    out
}

/// Appending one line to a body appends its stripped text and a newline.
proof fn lemma_body_md_snoc(ls: Seq<Seq<char>>)
    requires
        ls.len() > 0,
    ensures
        spec_body_md(ls) =~= spec_body_md(ls.drop_last()) + strip_quote(ls.last()) + seq!['\n'],
    decreases ls.len(),
{
    if ls.len() > 1 {
        lemma_body_md_snoc(ls.drop_first());
        assert(ls.drop_first().drop_last() =~~= ls.drop_last().drop_first());
        assert(spec_body_md(ls) =~= strip_quote(ls[0]) + seq!['\n'] + spec_body_md(
            ls.drop_first(),
        ));
        assert(spec_body_md(ls.drop_first()) =~= spec_body_md(ls.drop_first().drop_last())
            + strip_quote(ls.drop_first().last()) + seq!['\n']);
        assert(spec_body_md(ls.drop_last()) =~= strip_quote(ls[0]) + seq!['\n'] + spec_body_md(
            ls.drop_last().drop_first(),
        ));
        assert(ls.drop_first().last() == ls.last());
        assert(spec_body_md(ls) =~= (strip_quote(ls[0]) + seq!['\n'] + spec_body_md(
            ls.drop_last().drop_first(),
        )) + strip_quote(ls.last()) + seq!['\n']);
    } else {
        assert(spec_body_md(ls) =~= strip_quote(ls[0]) + seq!['\n'] + spec_body_md(
            ls.drop_first(),
        ));
        assert(ls.drop_first() =~~= Seq::<Seq<char>>::empty());
        assert(ls.drop_last() =~~= Seq::<Seq<char>>::empty());
        assert(spec_body_md(ls.drop_first()) =~= Seq::<char>::empty());
        assert(spec_body_md(ls.drop_last()) =~= Seq::<char>::empty());
    }
}

} // verus!
