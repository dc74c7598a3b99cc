//! Character- and line-level text helpers shared by the pipeline stages.
//!
//! Content is processed as `Vec<char>` between `String` boundaries; line
//! splitting follows `str::lines`: lines end at `'\n'`, a `'\r'` directly
//! before the `'\n'` is stripped, and the final line ending is optional.

use vstd::prelude::*;
use vstd::string::StrSliceExecFns;

verus! {

/// For character vectors the deep view and the view agree.
pub broadcast proof fn lemma_vec_char_deep_view(v: Vec<char>)
    ensures
        #[trigger] v.deep_view() == v@,
{
    assert(v.deep_view() =~= v@);
}

/// Whitespace recognised by the pipeline's trimming (space, tab, and the
/// line-break characters, which only edge positions can carry).
pub open spec fn ws_char(c: char) -> bool {
    c == ' ' || c == '\t' || c == '\n' || c == '\r'
}

/// Index of the first `'\n'` in `s`, or `s.len()` if there is none.
pub open spec fn first_nl(s: Seq<char>) -> int
    decreases s.len(),
{
    if s.len() == 0 {
        0
    } else if s[0] == '\n' {
        0
    } else {
        1 + first_nl(s.drop_first())
    }
}

/// If no `'\n'` occurs before `i` and `i` is a `'\n'` (or the end), then `i`
/// is exactly `first_nl(s)`.
pub proof fn lemma_first_nl_at(s: Seq<char>, i: int)
    requires
        0 <= i <= s.len(),
        forall|k: int| 0 <= k < i ==> s[k] != '\n',
        i < s.len() ==> s[i] == '\n',
    ensures
        first_nl(s) == i,
    decreases s.len(),
{
    if s.len() != 0 && i > 0 {
        assert forall|k: int| 0 <= k < i - 1 implies s.drop_first()[k] != '\n' by {
            assert(s[k + 1] != '\n');
        }
        lemma_first_nl_at(s.drop_first(), i - 1);
    }
}

/// Index of the first occurrence of `c` in `s`, or `s.len()` if there is
/// none.
pub open spec fn first_idx(s: Seq<char>, c: char) -> int
    decreases s.len(),
{
    if s.len() == 0 {
        0
    } else if s[0] == c {
        0
    } else {
        1 + first_idx(s.drop_first(), c)
    }
}

/// If no `c` occurs before `i` and `i` holds a `c` (or is the end), then `i`
/// is exactly `first_idx(s, c)`.
pub proof fn lemma_first_idx_at(s: Seq<char>, c: char, i: int)
    requires
        0 <= i <= s.len(),
        forall|k: int| 0 <= k < i ==> s[k] != c,
        i < s.len() ==> s[i] == c,
    ensures
        first_idx(s, c) == i,
    decreases s.len(),
{
    if s.len() != 0 && i > 0 {
        assert forall|k: int| 0 <= k < i - 1 implies s.drop_first()[k] != c by {
            assert(s[k + 1] != c);
        }
        lemma_first_idx_at(s.drop_first(), c, i - 1);
    }
}

/// Index of the first occurrence of `c` at or after `from`, executably.
pub fn find_first(v: &Vec<char>, c: char) -> (r: Option<usize>)
    ensures
        match r {
            Some(i) => first_idx(v@, c) == i as int && i < v@.len(),
            None => first_idx(v@, c) == v@.len(),
        },
{
    let n = v.len();
    let mut i: usize = 0;
    while i < n
        invariant
            n == v@.len(),
            i <= n,
            forall|k: int| 0 <= k < i ==> v@[k] != c,
        decreases n - i,
    {
        if v[i] == c {
            proof {
                lemma_first_idx_at(v@, c, i as int);
            }
            return Some(i);
        }
        i = i + 1;
    }
    proof {
        lemma_first_idx_at(v@, c, n as int);
    }
    None
}

/// The fields of `s` split at every `c` (an empty input yields one empty
/// field, as `str::split` does).
pub open spec fn spec_split_at(s: Seq<char>, c: char) -> Seq<Seq<char>>
    decreases s.len(),
{
    let i = first_idx(s, c);
    if 0 <= i < s.len() {
        seq![s.take(i)] + spec_split_at(s.skip(i + 1), c)
    } else {
        seq![s]
    }
}

/// The fields of `v` split at every `c`, executably.
pub fn split_at_char(v: &Vec<char>, c: char) -> (r: Vec<Vec<char>>)
    ensures
        r.deep_view() =~~= spec_split_at(v@, c),
{
    let mut r: Vec<Vec<char>> = Vec::new();
    let mut cur: Vec<char> = Vec::new();
    let n = v.len();
    let mut start: usize = 0;
    let mut i: usize = 0;
    proof {
        assert(v@.skip(0) =~= v@);
        assert(r.deep_view() =~= Seq::<Seq<char>>::empty());
    }
    while i < n
        invariant
            n == v@.len(),
            start <= i <= n,
            cur@ =~= v@.subrange(start as int, i as int),
            forall|k: int| start <= k < i ==> v@[k] != c,
            spec_split_at(v@, c) =~~= r.deep_view() + spec_split_at(v@.skip(start as int), c),
        decreases n - i,
    {
        let ch = v[i];
        if ch == c {
            let ghost tail = v@.skip(start as int);
            proof {
                lemma_first_idx_at(tail, c, i - start);
                assert(tail.take(i - start) =~= cur@);
                assert(tail.skip(i - start + 1) =~= v@.skip(i + 1));
                assert(spec_split_at(tail, c) =~= seq![cur@] + spec_split_at(v@.skip(i + 1), c));
            }
            let ghost dv = r.deep_view();
            let line = cur;
            r.push(line);
            proof {
                assert(r.deep_view() =~~= dv.push(cur@));
            }
            cur = Vec::new();
            start = i + 1;
            assert(cur@ =~= v@.subrange(start as int, i + 1));
        } else {
            cur.push(ch);
            assert(cur@ =~= v@.subrange(start as int, i + 1));
        }
        i = i + 1;
    }
    let ghost tail = v@.skip(start as int);
    proof {
        lemma_first_idx_at(tail, c, n - start);
        assert(tail =~= cur@);
        assert(spec_split_at(tail, c) =~= seq![cur@]);
    }
    let ghost dv = r.deep_view();
    r.push(cur);
    proof {
        assert(r.deep_view() =~~= dv.push(tail));
    }
    r
}

/// A line with a trailing carriage return stripped.
pub open spec fn strip_cr(l: Seq<char>) -> Seq<char> {
    if l.len() > 0 && l.last() == '\r' {
        l.drop_last()
    } else {
        l
    }
}

/// The lines of `s`, as `str::lines` yields them.
pub open spec fn spec_lines(s: Seq<char>) -> Seq<Seq<char>>
    decreases s.len(),
{
    if s.len() == 0 {
        Seq::empty()
    } else {
        let i = first_nl(s);
        if 0 <= i < s.len() {
            seq![strip_cr(s.take(i))] + spec_lines(s.skip(i + 1))
        } else {
            seq![s]
        }
    }
}

/// Lines joined back with a single `'\n'` separator (and no trailing one).
pub open spec fn spec_join_nl(ls: Seq<Seq<char>>) -> Seq<char>
    decreases ls.len(),
{
    if ls.len() == 0 {
        Seq::empty()
    } else if ls.len() == 1 {
        ls[0]
    } else {
        ls[0] + seq!['\n'] + spec_join_nl(ls.drop_first())
    }
}

/// Leading whitespace removed.
pub open spec fn spec_trim_start(s: Seq<char>) -> Seq<char>
    decreases s.len(),
{
    if s.len() > 0 && ws_char(s[0]) {
        spec_trim_start(s.drop_first())
    } else {
        s
    }
}

/// Trailing whitespace removed.
pub open spec fn spec_trim_end(s: Seq<char>) -> Seq<char>
    decreases s.len(),
{
    if s.len() > 0 && ws_char(s.last()) {
        spec_trim_end(s.drop_last())
    } else {
        s
    }
}

/// Both ends trimmed.
pub open spec fn spec_trim(s: Seq<char>) -> Seq<char> {
    spec_trim_end(spec_trim_start(s))
}

pub proof fn lemma_trim_start_skip(s: Seq<char>, i: int)
    requires
        0 <= i <= s.len(),
        forall|k: int| 0 <= k < i ==> ws_char(s[k]),
        i < s.len() ==> !ws_char(s[i]),
    ensures
        spec_trim_start(s) =~= s.skip(i),
    decreases s.len(),
{
    if i > 0 {
        assert(ws_char(s[0]));
        assert forall|k: int| 0 <= k < i - 1 implies ws_char(s.drop_first()[k]) by {
            assert(ws_char(s[k + 1]));
        }
        lemma_trim_start_skip(s.drop_first(), i - 1);
        assert(s.drop_first().skip(i - 1) =~= s.skip(i));
    }
}

pub proof fn lemma_trim_end_take(s: Seq<char>, j: int)
    requires
        0 <= j <= s.len(),
        forall|k: int| j <= k < s.len() ==> ws_char(s[k]),
        j > 0 ==> !ws_char(s[j - 1]),
    ensures
        spec_trim_end(s) =~= s.take(j),
    decreases s.len(),
{
    if j < s.len() {
        assert(ws_char(s.last()));
        assert forall|k: int| j <= k < s.drop_last().len() implies ws_char(s.drop_last()[k]) by {
            assert(ws_char(s[k]));
        }
        lemma_trim_end_take(s.drop_last(), j);
        assert(s.drop_last().take(j) =~= s.take(j));
    }
}

/// Trimming the start never lengthens a text.
pub proof fn lemma_trim_start_len(s: Seq<char>)
    ensures
        spec_trim_start(s).len() <= s.len(),
    decreases s.len(),
{
    if s.len() > 0 && ws_char(s[0]) {
        lemma_trim_start_len(s.drop_first());
    }
}

/// Trimming the end never lengthens a text.
pub proof fn lemma_trim_end_len(s: Seq<char>)
    ensures
        spec_trim_end(s).len() <= s.len(),
    decreases s.len(),
{
    if s.len() > 0 && ws_char(s.last()) {
        lemma_trim_end_len(s.drop_last());
    }
}

/// A nonempty text equal to its own trim has no whitespace at either end.
pub proof fn lemma_trimmed_ends(s: Seq<char>)
    requires
        spec_trim(s) == s,
        s.len() > 0,
    ensures
        !ws_char(s[0]),
        !ws_char(s[s.len() - 1]),
{
    if ws_char(s[0]) {
        assert(spec_trim_start(s) == spec_trim_start(s.drop_first()));
        lemma_trim_start_len(s.drop_first());
        lemma_trim_end_len(spec_trim_start(s));
        assert(spec_trim(s).len() < s.len());
    }
    if ws_char(s[s.len() - 1]) {
        assert(spec_trim_start(s) == s);
        assert(s.last() == s[s.len() - 1]);
        assert(spec_trim_end(s) == spec_trim_end(s.drop_last()));
        lemma_trim_end_len(s.drop_last());
        assert(spec_trim(s).len() < s.len());
    }
}

/// The characters of `s`, as a vector.
pub fn to_chars(s: &str) -> (r: Vec<char>)
    ensures
        r@ == s@,
{
    let n = s.unicode_len();
    let mut r: Vec<char> = Vec::new();
    for i in 0..n
        invariant
            n == s@.len(),
            r@ =~= s@.take(i as int),
    {
        r.push(s.get_char(i));
        assert(r@ =~= s@.take(i + 1));
    }
    assert(r@ =~= s@);
    r
}

/// Relies on `String::push`: appends one character to the string.
#[verifier::external_body]
fn push_char(s: &mut String, c: char)
    ensures
        final(s)@ == old(s)@.push(c),
{
    s.push(c)
}

/// A `String` holding exactly the characters of `v`.
pub fn to_string(v: &Vec<char>) -> (r: String)
    ensures
        r@ == v@,
{
    let mut r = String::new();
    let n = v.len();
    for i in 0..n
        invariant
            n == v@.len(),
            r@ =~= v@.take(i as int),
    {
        push_char(&mut r, v[i]);
        assert(r@ =~= v@.take(i + 1));
    }
    assert(r@ =~= v@);
    r
}

/// The lines of `v`, following `str::lines`.
pub fn split_lines(v: &Vec<char>) -> (r: Vec<Vec<char>>)
    ensures
        r.deep_view() =~= spec_lines(v@),
{
    let mut r: Vec<Vec<char>> = Vec::new();
    let mut cur: Vec<char> = Vec::new();
    let n = v.len();
    let mut start: usize = 0;
    let mut i: usize = 0;
    proof {
        assert(v@.skip(0) =~= v@);
        assert(r.deep_view() =~= Seq::<Seq<char>>::empty());
    }
    while i < n
        invariant
            n == v@.len(),
            start <= i <= n,
            cur@ =~= v@.subrange(start as int, i as int),
            forall|k: int| start <= k < i ==> v@[k] != '\n',
            spec_lines(v@) =~= r.deep_view() + spec_lines(v@.skip(start as int)),
        decreases n - i,
    {
        let c = v[i];
        if c == '\n' {
            let ghost tail = v@.skip(start as int);
            proof {
                lemma_first_nl_at(tail, i - start);
                assert(tail.take(i - start) =~= cur@);
                assert(tail.skip(i - start + 1) =~= v@.skip(i + 1));
                assert(spec_lines(tail) =~= seq![strip_cr(cur@)] + spec_lines(v@.skip(i + 1)));
            }
            let mut line = cur;
            if line.len() > 0 && line[line.len() - 1] == '\r' {
                let _last = line.pop();
            }
            assert(line@ =~= strip_cr(cur@));
            let ghost dv = r.deep_view();
            r.push(line);
            proof {
                assert(r.deep_view() =~~= dv.push(strip_cr(cur@)));
                assert(dv + spec_lines(tail) =~= r.deep_view() + spec_lines(v@.skip(i + 1)));
            }
            cur = Vec::new();
            start = i + 1;
            assert(cur@ =~= v@.subrange(start as int, i + 1));
        } else {
            cur.push(c);
            assert(cur@ =~= v@.subrange(start as int, i + 1));
        }
        i = i + 1;
    }
    let ghost tail = v@.skip(start as int);
    if cur.len() > 0 {
        proof {
            lemma_first_nl_at(tail, n - start);
            assert(tail =~= cur@);
            assert(spec_lines(tail) =~= seq![cur@]);
        }
        let ghost dv = r.deep_view();
        r.push(cur);
        proof {
            assert(r.deep_view() =~~= dv.push(tail));
        }
    } else {
        proof {
            assert(tail =~= Seq::<char>::empty());
            assert(r.deep_view() + spec_lines(tail) =~= r.deep_view());
        }
    }
    r
}

/// Lines joined with `'\n'`.
pub fn join_nl(lines: &Vec<Vec<char>>) -> (r: Vec<char>)
    ensures
        r@ =~= spec_join_nl(lines.deep_view()),
{
    let mut r: Vec<char> = Vec::new();
    let n = lines.len();
    if n == 0 {
        return r;
    }
    let mut i: usize = 0;
    while i < n
        invariant
            0 < n == lines@.len(),
            i <= n,
            i == 0 ==> r@ =~= Seq::<char>::empty(),
            i > 0 ==> spec_join_nl(lines.deep_view()) =~= r@ + join_tail(
                lines.deep_view().skip(i as int)),
        decreases n - i,
    {
        if i > 0 {
            r.push('\n');
        }
        let mut j: usize = 0;
        let line = &lines[i];
        let m = line.len();
        let ghost r_before = r@;
        while j < m
            invariant
                m == line@.len(),
                j <= m,
                r@ =~= r_before + line@.take(j as int),
            decreases m - j,
        {
            r.push(line[j]);
            assert(r@ =~= r_before + line@.take(j + 1));
            j = j + 1;
        }
        assert(line@.take(m as int) =~= line@);
        proof {
            if i == 0 {
                lemma_join_tail(lines.deep_view());
            } else {
                assert(join_tail(lines.deep_view().skip(i as int)) =~= seq!['\n']
                    + lines.deep_view().skip(i as int)[0] + join_tail(
                    lines.deep_view().skip(i as int).drop_first()));
                assert(lines.deep_view().skip(i as int).drop_first() =~= lines.deep_view().skip(
                    i + 1));
                assert(lines.deep_view().skip(i as int)[0] == lines.deep_view()[i as int]);
            }
        }
        i = i + 1;
    }
    assert(join_tail(lines.deep_view().skip(n as int)) =~= Seq::<char>::empty());
    r
}

/// The suffix of a join: each line preceded by a `'\n'` separator.
pub open spec fn join_tail(ls: Seq<Seq<char>>) -> Seq<char>
    decreases ls.len(),
{
    if ls.len() == 0 {
        Seq::empty()
    } else {
        seq!['\n'] + ls[0] + join_tail(ls.drop_first())
    }
}

pub proof fn lemma_join_tail(ls: Seq<Seq<char>>)
    requires
        ls.len() > 0,
    ensures
        spec_join_nl(ls) =~= ls[0] + join_tail(ls.drop_first()),
    decreases ls.len(),
{
    if ls.len() > 1 {
        lemma_join_tail(ls.drop_first());
    }
}

/// Both ends trimmed, executably.
pub fn trim(v: &Vec<char>) -> (r: Vec<char>)
    ensures
        r@ =~= spec_trim(v@),
{
    let n = v.len();
    let mut lo: usize = 0;
    while lo < n && (v[lo] == ' ' || v[lo] == '\t' || v[lo] == '\n' || v[lo] == '\r')
        invariant
            n == v@.len(),
            lo <= n,
            forall|k: int| 0 <= k < lo ==> ws_char(v@[k]),
        decreases n - lo,
    {
        lo = lo + 1;
    }
    proof {
        lemma_trim_start_skip(v@, lo as int);
    }
    let mut hi: usize = n;
    while hi > lo && (v[hi - 1] == ' ' || v[hi - 1] == '\t' || v[hi - 1] == '\n' || v[hi - 1]
        == '\r')
        invariant
            n == v@.len(),
            lo <= hi <= n,
            forall|k: int| hi <= k < n ==> ws_char(v@[k]),
        decreases hi,
    {
        hi = hi - 1;
    }
    proof {
        let s = v@.skip(lo as int);
        lemma_trim_end_take(s, hi - lo);
    }
    let mut r: Vec<char> = Vec::new();
    let mut i: usize = lo;
    while i < hi
        invariant
            lo <= i <= hi <= n == v@.len(),
            r@ =~= v@.subrange(lo as int, i as int),
        decreases hi - i,
    {
        r.push(v[i]);
        assert(r@ =~= v@.subrange(lo as int, i + 1));
        i = i + 1;
    }
    assert(r@ =~= v@.skip(lo as int).take(hi - lo as int));
    r
}

/// Does `s` start with prefix `p`?
pub open spec fn spec_starts_with(s: Seq<char>, p: Seq<char>) -> bool {
    s.len() >= p.len() && s.take(p.len() as int) =~= p
}

/// Index of the last occurrence of `c` in `s`, or `-1` if there is none.
pub open spec fn last_idx(s: Seq<char>, c: char) -> int
    decreases s.len(),
{
    if s.len() == 0 {
        -1
    } else if s.last() == c {
        s.len() - 1
    } else {
        last_idx(s.drop_last(), c)
    }
}

pub proof fn lemma_last_idx_at(s: Seq<char>, c: char, i: int)
    requires
        -1 <= i < s.len(),
        i >= 0 ==> s[i] == c,
        forall|k: int| i < k < s.len() ==> s[k] != c,
    ensures
        last_idx(s, c) == i,
    decreases s.len(),
{
    if s.len() > 0 && !(i == s.len() - 1) {
        assert(s.last() != c);
        assert forall|k: int| i < k < s.drop_last().len() implies s.drop_last()[k] != c by {
            assert(s[k] != c);
        }
        if i >= 0 {
            assert(s.drop_last()[i] == c);
        }
        lemma_last_idx_at(s.drop_last(), c, i);
    }
}

/// Index of the last occurrence of `c`, executably.
pub fn find_last(v: &Vec<char>, c: char) -> (r: Option<usize>)
    ensures
        match r {
            Some(i) => last_idx(v@, c) == i as int && i < v@.len(),
            None => last_idx(v@, c) == -1,
        },
{
    let n = v.len();
    let mut i: usize = n;
    while i > 0
        invariant
            n == v@.len(),
            i <= n,
            forall|k: int| i <= k < n ==> v@[k] != c,
        decreases i,
    {
        i = i - 1;
        if v[i] == c {
            proof {
                lemma_last_idx_at(v@, c, i as int);
            }
            return Some(i);
        }
    }
    proof {
        lemma_last_idx_at(v@, c, -1);
    }
    None
}

/// Every occurrence of `a` replaced by `b`.
pub open spec fn spec_replace(s: Seq<char>, a: char, b: char) -> Seq<char> {
    Seq::new(
        s.len(),
        |i: int|
            if s[i] == a {
                b
            } else {
                s[i]
            },
    )
}

/// Every occurrence of `a` replaced by `b`, executably.
pub fn replace_char(v: &Vec<char>, a: char, b: char) -> (r: Vec<char>)
    ensures
        r@ =~= spec_replace(v@, a, b),
{
    let n = v.len();
    let mut r: Vec<char> = Vec::new();
    let mut i: usize = 0;
    while i < n
        invariant
            n == v@.len(),
            i <= n,
            r@ =~= spec_replace(v@, a, b).take(i as int),
        decreases n - i,
    {
        let c = v[i];
        if c == a {
            r.push(b);
        } else {
            r.push(c);
        }
        assert(r@ =~= spec_replace(v@, a, b).take(i + 1));
        i = i + 1;
    }
    assert(spec_replace(v@, a, b).take(n as int) =~= spec_replace(v@, a, b));
    r
}

/// Does `v` start with the characters of the string `p`?
pub fn starts_with_str(v: &Vec<char>, p: &str) -> (r: bool)
    ensures
        r == spec_starts_with(v@, p@),
{
    let m = p.unicode_len();
    if v.len() < m {
        return false;
    }
    let mut i: usize = 0;
    while i < m
        invariant
            m == p@.len() <= v@.len(),
            i <= m,
            forall|k: int| 0 <= k < i ==> v@[k] == p@[k],
        decreases m - i,
    {
        if v[i] != p.get_char(i) {
            return false;
        }
        i = i + 1;
    }
    assert(v@.take(m as int) =~= p@);
    true
}

/// Do the characters of `v` equal the string `s`?
pub fn chars_eq_str(v: &Vec<char>, s: &str) -> (r: bool)
    ensures
        r == (v@ =~= s@),
{
    let n = s.unicode_len();
    if v.len() != n {
        return false;
    }
    let mut i: usize = 0;
    while i < n
        invariant
            n == s@.len() == v@.len(),
            i <= n,
            forall|k: int| 0 <= k < i ==> v@[k] == s@[k],
        decreases n - i,
    {
        if v[i] != s.get_char(i) {
            return false;
        }
        i = i + 1;
    }
    true
}

/// The characters of `v` in `[from, to)`, as a fresh vector.
pub fn copy_range(v: &Vec<char>, from: usize, to: usize) -> (r: Vec<char>)
    requires
        from <= to <= v@.len(),
    ensures
        r@ =~= v@.subrange(from as int, to as int),
{
    let mut r: Vec<char> = Vec::new();
    let mut i: usize = from;
    while i < to
        invariant
            from <= i <= to <= v@.len(),
            r@ =~= v@.subrange(from as int, i as int),
        decreases to - i,
    {
        r.push(v[i]);
        assert(r@ =~= v@.subrange(from as int, i + 1));
        i = i + 1;
    }
    r
}

/// The end of the run of whitespace characters starting at `from`.
pub fn scan_ws(v: &Vec<char>, from: usize) -> (r: usize)
    requires
        from <= v@.len(),
    ensures
        from <= r <= v@.len(),
        forall|k: int| from <= k < r ==> ws_char(#[trigger] v@[k]),
        r < v@.len() ==> !ws_char(v@[r as int]),
{
    let n = v.len();
    let mut i: usize = from;
    while i < n
        invariant
            from <= i <= n == v@.len(),
            forall|k: int| from <= k < i ==> ws_char(#[trigger] v@[k]),
        decreases n - i,
    {
        if !(v[i] == ' ' || v[i] == '\t' || v[i] == '\n' || v[i] == '\r') {
            return i;
        }
        i = i + 1;
    }
    i
}

/// Trimming the start of a suffix drops its leading whitespace run.
pub proof fn lemma_trim_start_of_skip(s: Seq<char>, from: int, to: int)
    requires
        0 <= from <= to <= s.len(),
        forall|k: int| from <= k < to ==> ws_char(#[trigger] s[k]),
        to < s.len() ==> !ws_char(s[to]),
    ensures
        spec_trim_start(s.skip(from)) =~= s.skip(to),
{
    let sub = s.skip(from);
    assert forall|k: int| 0 <= k < to - from implies ws_char(sub[k]) by {
        assert(ws_char(s[k + from]));
    }
    lemma_trim_start_skip(sub, to - from);
    assert(sub.skip(to - from) =~= s.skip(to));
}

/// The HTML escape of one character.
pub open spec fn escape_char(c: char) -> Seq<char> {
    if c == '&' {
        seq!['&', 'a', 'm', 'p', ';']
    } else if c == '<' {
        seq!['&', 'l', 't', ';']
    } else if c == '>' {
        seq!['&', 'g', 't', ';']
    } else if c == '"' {
        seq!['&', 'q', 'u', 'o', 't', ';']
    } else if c == '\'' {
        seq!['&', '#', '3', '9', ';']
    } else {
        seq![c]
    }
}

/// The HTML escape of a text: `& < > " '` replaced by entities.
pub open spec fn spec_html_escape(s: Seq<char>) -> Seq<char>
    decreases s.len(),
{
    if s.len() == 0 {
        Seq::empty()
    } else {
        escape_char(s[0]) + spec_html_escape(s.drop_first())
    }
}

/// Escape `& < > " '` for safe embedding in HTML text and attributes.
pub fn html_escape(v: &Vec<char>) -> (r: Vec<char>)
    ensures
        r@ =~= spec_html_escape(v@),
{
    let n = v.len();
    let mut out: Vec<char> = Vec::new();
    let mut i: usize = 0;
    proof {
        assert(v@.skip(0) =~= v@);
    }
    while i < n
        invariant
            i <= n == v@.len(),
            spec_html_escape(v@) =~= out@ + spec_html_escape(v@.skip(i as int)),
        decreases n - i,
    {
        let ghost tail = v@.skip(i as int);
        proof {
            assert(tail.drop_first() =~= v@.skip(i + 1));
            assert(spec_html_escape(tail) =~= escape_char(v@[i as int]) + spec_html_escape(
                v@.skip(i + 1),
            ));
        }
        let c = v[i];
        if c == '&' {
            out.push('&');
            out.push('a');
            out.push('m');
            out.push('p');
            out.push(';');
        } else if c == '<' {
            out.push('&');
            out.push('l');
            out.push('t');
            out.push(';');
        } else if c == '>' {
            out.push('&');
            out.push('g');
            out.push('t');
            out.push(';');
        } else if c == '"' {
            out.push('&');
            out.push('q');
            out.push('u');
            out.push('o');
            out.push('t');
            out.push(';');
        } else if c == '\'' {
            out.push('&');
            out.push('#');
            out.push('3');
            out.push('9');
            out.push(';');
        } else {
            out.push(c);
        }
        i = i + 1;
    }
    assert(spec_html_escape(v@.skip(n as int)) =~= Seq::<char>::empty());
    out
}

/// Are two string slices equal, by their characters?
pub fn str_eq(a: &str, b: &str) -> (r: bool)
    ensures
        r == (a@ == b@),
{
    let n = a.unicode_len();
    if b.unicode_len() != n {
        return false;
    }
    let mut i: usize = 0;
    while i < n
        invariant
            n == a@.len() == b@.len(),
            i <= n,
            forall|k: int| 0 <= k < i ==> a@[k] == b@[k],
        decreases n - i,
    {
        if a.get_char(i) != b.get_char(i) {
            return false;
        }
        i = i + 1;
    }
    assert(a@ =~= b@);
    true
}

/// Append every character of `s` to `out`.
pub fn push_str_chars(out: &mut Vec<char>, s: &str)
    ensures
        final(out)@ =~= old(out)@ + s@,
{
    let n = s.unicode_len();
    let mut i: usize = 0;
    while i < n
        invariant
            n == s@.len(),
            i <= n,
            out@ =~= old(out)@ + s@.take(i as int),
        decreases n - i,
    {
        out.push(s.get_char(i));
        assert(out@ =~= old(out)@ + s@.take(i + 1));
        i = i + 1;
    }
    assert(out@ =~= old(out)@ + s@);
}

/// Append every character of `v` to `out`.
pub fn push_chars(out: &mut Vec<char>, v: &Vec<char>)
    ensures
        final(out)@ =~= old(out)@ + v@,
{
    let n = v.len();
    let mut i: usize = 0;
    while i < n
        invariant
            n == v@.len(),
            i <= n,
            out@ =~= old(out)@ + v@.take(i as int),
        decreases n - i,
    {
        out.push(v[i]);
        assert(out@ =~= old(out)@ + v@.take(i + 1));
        i = i + 1;
    }
    assert(out@ =~= old(out)@ + v@);
}

} // verus!
