//! Fenced diagram blocks: ```` ```mermaid ```` fences become the HTML shell
//! that the client-side diagram script renders and expands.

use vstd::prelude::*;

use crate::text::{
    html_escape, push_chars, push_str_chars, spec_html_escape, spec_lines, split_lines, to_chars,
    to_string, ws_char,
};

verus! {

broadcast use crate::text::lemma_vec_char_deep_view;

/// The opening of the diagram shell, up to the escaped body used as a
/// clipboard attribute.
pub const MERMAID_PREFIX: &'static str =
    "<pre class=\"mermaid-block\"><button class=\"expand-button\" aria-label=\"Expand mermaid diagram\" data-view-component=\"true\"><svg width=\"16\" height=\"16\" viewBox=\"0 0 16 16\" fill=\"currentColor\"><path fill-rule=\"evenodd\" d=\"M3.72 3.72a.75.75 0 011.06 1.06L2.56 7h10.88l-2.22-2.22a.75.75 0 011.06-1.06l3.5 3.5a.75.75 0 010 1.06l-3.5 3.5a.75.75 0 11-1.06-1.06l2.22-2.22H2.56l2.22 2.22a.75.75 0 11-1.06 1.06l-3.5-3.5a.75.75 0 010-1.06l3.5-3.5z\"></path></svg></button><code class=\"mermaid\" data-clipboard=\"";

/// Between the clipboard attribute and the visible escaped body.
pub const MERMAID_MID: &'static str = "\">";

/// The closing of the diagram shell.
pub const MERMAID_SUFFIX: &'static str =
    "</code><div id=\"mermaid-container\" role=\"dialog\"><div id=\"mermaid-space\"><div class=\"mermaid-content\"></div></div></div></pre>";

/// Is `c` the character `a` or its uppercase form `b`?
pub open spec fn eq_ci(c: char, a: char, b: char) -> bool {
    c == a || c == b
}

/// Does the line open a mermaid fence: three backticks, `mermaid` in any
/// case, then only trailing whitespace?
pub open spec fn is_mermaid_start(l: Seq<char>) -> bool {
    &&& l.len() >= 10
    &&& l[0] == '`' && l[1] == '`' && l[2] == '`'
    &&& eq_ci(l[3], 'm', 'M')
    &&& eq_ci(l[4], 'e', 'E')
    &&& eq_ci(l[5], 'r', 'R')
    &&& eq_ci(l[6], 'm', 'M')
    &&& eq_ci(l[7], 'a', 'A')
    &&& eq_ci(l[8], 'i', 'I')
    &&& eq_ci(l[9], 'd', 'D')
    &&& forall|k: int| 10 <= k < l.len() ==> ws_char(#[trigger] l[k])
}

/// The end of the run of backticks at the start of `l`.
pub open spec fn backtick_run(l: Seq<char>, i: int) -> int
    decreases l.len() - i,
{
    if 0 <= i < l.len() && l[i] == '`' {
        backtick_run(l, i + 1)
    } else {
        i
    }
}

/// Does the line close a fence: three or more backticks, then only trailing
/// whitespace?
pub open spec fn is_fence_end(l: Seq<char>) -> bool {
    let b = backtick_run(l, 0);
    b >= 3 && forall|k: int| b <= k < l.len() ==> ws_char(#[trigger] l[k])
}

/// Index of the first fence-closing line at or after `i`, or the line count.
pub open spec fn fence_end_idx(ls: Seq<Seq<char>>, i: int) -> int
    decreases ls.len() - i,
{
    if i < 0 || i >= ls.len() {
        ls.len() as int
    } else if is_fence_end(ls[i]) {
        i
    } else {
        fence_end_idx(ls, i + 1)
    }
}

/// The lines concatenated, each followed by a newline.
pub open spec fn spec_cat_lines_nl(ls: Seq<Seq<char>>) -> Seq<char>
    decreases ls.len(),
{
    if ls.len() == 0 {
        Seq::empty()
    } else {
        ls[0] + seq!['\n'] + spec_cat_lines_nl(ls.drop_first())
    }
}

/// The diagram shell around an escaped body.
pub open spec fn mermaid_block_html(esc: Seq<char>) -> Seq<char> {
    MERMAID_PREFIX@ + esc + MERMAID_MID@ + esc + MERMAID_SUFFIX@
}

/// The mermaid rewrite of the lines from index `i` on.
pub open spec fn mermaid_rewrite_from(ls: Seq<Seq<char>>, i: int) -> Seq<char>
    decreases ls.len() - i,
{
    if i < 0 || i >= ls.len() {
        Seq::empty()
    } else if is_mermaid_start(ls[i]) {
        let e0 = fence_end_idx(ls, i + 1);
        let e = if e0 < i + 1 {
            i + 1
        } else if e0 > ls.len() {
            ls.len() as int
        } else {
            e0
        };
        let body = spec_cat_lines_nl(ls.subrange(i + 1, e));
        let esc = spec_html_escape(body);
        let next = if e < ls.len() {
            e + 1
        } else {
            e
        };
        mermaid_block_html(esc) + seq!['\n'] + mermaid_rewrite_from(ls, next)
    } else {
        ls[i] + seq!['\n'] + mermaid_rewrite_from(ls, i + 1)
    }
}

/// The mermaid rewrite of a whole text.
pub open spec fn spec_rewrite_mermaid(s: Seq<char>) -> Seq<char> {
    mermaid_rewrite_from(spec_lines(s), 0)
}

/// Is this line a mermaid fence opener?
fn check_mermaid_start(l: &Vec<char>) -> (r: bool)
    ensures
        r == is_mermaid_start(l@),
{
    let n = l.len();
    if n < 10 {
        return false;
    }
    if !(l[0] == '`' && l[1] == '`' && l[2] == '`') {
        return false;
    }
    if !((l[3] == 'm' || l[3] == 'M') && (l[4] == 'e' || l[4] == 'E') && (l[5] == 'r' || l[5]
        == 'R') && (l[6] == 'm' || l[6] == 'M') && (l[7] == 'a' || l[7] == 'A') && (l[8] == 'i'
        || l[8] == 'I') && (l[9] == 'd' || l[9] == 'D')) {
        return false;
    }
    let mut k: usize = 10;
    while k < n
        invariant
            10 <= k <= n == l@.len(),
            forall|q: int| 10 <= q < k ==> ws_char(#[trigger] l@[q]),
        decreases n - k,
    {
        if !(l[k] == ' ' || l[k] == '\t' || l[k] == '\n' || l[k] == '\r') {
            return false;
        }
        k = k + 1;
    }
    true
}

/// Is this line a fence closer?
fn check_fence_end(l: &Vec<char>) -> (r: bool)
    ensures
        r == is_fence_end(l@),
{
    let n = l.len();
    let mut b: usize = 0;
    while b < n && l[b] == '`'
        invariant
            b <= n == l@.len(),
            forall|q: int| 0 <= q < b ==> l@[q] == '`',
        decreases n - b,
    {
        b = b + 1;
    }
    proof {
        lemma_backtick_run_at(l@, 0, b as int);
    }
    if b < 3 {
        return false;
    }
    let mut k: usize = b;
    while k < n
        invariant
            b <= k <= n == l@.len(),
            3 <= b,
            backtick_run(l@, 0) == b as int,
            forall|q: int| b <= q < k ==> ws_char(#[trigger] l@[q]),
        decreases n - k,
    {
        if !(l[k] == ' ' || l[k] == '\t' || l[k] == '\n' || l[k] == '\r') {
            return false;
        }
        k = k + 1;
    }
    true
}

/// If backticks fill `[i, j)` and `j` stops the run, `j` is the run's end.
proof fn lemma_backtick_run_at(l: Seq<char>, i: int, j: int)
    requires
        0 <= i <= j <= l.len(),
        forall|k: int| i <= k < j ==> l[k] == '`',
        j < l.len() ==> l[j] != '`',
    ensures
        backtick_run(l, i) == j,
    decreases j - i,
{
    if i < j {
        lemma_backtick_run_at(l, i + 1, j);
    }
}

/// Rewrite ```` ```mermaid ```` fenced blocks into the diagram shell; all
/// other lines pass through, each restored with a trailing newline.
#[verifier::loop_isolation(false)]
pub fn rewrite_mermaid(input: &str) -> (r: String)
    ensures
        r@ == spec_rewrite_mermaid(input@),
{
    let chars = to_chars(input);
    let lines = split_lines(&chars);
    let ghost dv = lines.deep_view();
    let n = lines.len();
    let mut out: Vec<char> = Vec::new();
    let mut i: usize = 0;
    while i < n
        invariant
            i <= n,
            spec_rewrite_mermaid(input@) =~= out@ + mermaid_rewrite_from(dv, i as int),
        decreases n - i,
    {
        if check_mermaid_start(&lines[i]) {
            let e = find_fence_end(&lines, i + 1);
            let mut body: Vec<char> = Vec::new();
            let mut q: usize = i + 1;
            while q < e
                invariant
                    i + 1 <= q <= e,
                    body@ =~= spec_cat_lines_nl(dv.subrange(i + 1, q as int)),
                decreases e - q,
            {
                push_chars(&mut body, &lines[q]);
                body.push('\n');
                proof {
                    lemma_cat_lines_snoc(dv.subrange(i + 1, q + 1));
                    assert(dv.subrange(i + 1, q + 1).drop_last() =~~= dv.subrange(
                        i + 1,
                        q as int,
                    ));
                    assert(body@ =~= spec_cat_lines_nl(dv.subrange(i + 1, q + 1)));
                }
                q = q + 1;
            }
            let esc = html_escape(&body);
            push_str_chars(&mut out, MERMAID_PREFIX);
            push_chars(&mut out, &esc);
            push_str_chars(&mut out, MERMAID_MID);
            push_chars(&mut out, &esc);
            push_str_chars(&mut out, MERMAID_SUFFIX);
            out.push('\n');
            if e < n {
                i = e + 1;
            } else {
                i = e;
            }
        } else {
            push_chars(&mut out, &lines[i]);
            out.push('\n');
            i = i + 1;
        }
    }
    assert(mermaid_rewrite_from(dv, n as int) =~= Seq::<char>::empty());
    to_string(&out)
}

/// The index of the first fence-closing line at or after `from`.
fn find_fence_end(lines: &Vec<Vec<char>>, from: usize) -> (r: usize)
    requires
        from <= lines@.len(),
    ensures
        from <= r <= lines@.len(),
        r as int == fence_end_idx(lines.deep_view(), from as int),
{
    let ghost dv = lines.deep_view();
    let n = lines.len();
    let mut e: usize = from;
    while e < n
        invariant
            from <= e <= n == lines@.len(),
            dv == lines.deep_view(),
            fence_end_idx(dv, from as int) == fence_end_idx(dv, e as int),
        decreases n - e,
    {
        if check_fence_end(&lines[e]) {
            assert(fence_end_idx(dv, e as int) == e as int);
            return e;
        }
        assert(fence_end_idx(dv, e as int) == fence_end_idx(dv, e + 1));
        e = e + 1;
    }
    assert(fence_end_idx(dv, n as int) == n as int);
    e
}

/// Appending one line to a concatenation appends the line and a newline.
proof fn lemma_cat_lines_snoc(ls: Seq<Seq<char>>)
    requires
        ls.len() > 0,
    ensures
        spec_cat_lines_nl(ls) =~= spec_cat_lines_nl(ls.drop_last()) + ls.last() + seq!['\n'],
    decreases ls.len(),
{
    if ls.len() > 1 {
        lemma_cat_lines_snoc(ls.drop_first());
        assert(ls.drop_first().drop_last() =~~= ls.drop_last().drop_first());
        assert(spec_cat_lines_nl(ls) =~= ls[0] + seq!['\n'] + spec_cat_lines_nl(
            ls.drop_first(),
        ));
        assert(spec_cat_lines_nl(ls.drop_first()) =~= spec_cat_lines_nl(
            ls.drop_first().drop_last(),
        ) + ls.drop_first().last() + seq!['\n']);
        assert(spec_cat_lines_nl(ls.drop_last()) =~= ls[0] + seq!['\n'] + spec_cat_lines_nl(
            ls.drop_last().drop_first(),
        ));
        assert(ls.drop_first().last() == ls.last());
        assert(spec_cat_lines_nl(ls) =~= (ls[0] + seq!['\n'] + spec_cat_lines_nl(
            ls.drop_last().drop_first(),
        )) + ls.last() + seq!['\n']);
    } else {
        assert(spec_cat_lines_nl(ls) =~= ls[0] + seq!['\n'] + spec_cat_lines_nl(
            ls.drop_first(),
        ));
        assert(ls.drop_first() =~~= Seq::<Seq<char>>::empty());
        assert(ls.drop_last() =~~= Seq::<Seq<char>>::empty());
        assert(spec_cat_lines_nl(ls.drop_first()) =~= Seq::<char>::empty());
        assert(spec_cat_lines_nl(ls.drop_last()) =~= Seq::<char>::empty());
    }
}

} // verus!
