//! Frontmatter: a leading delimiter-bounded metadata block at the very start
//! of a page's content.
//!
//! The block is a key–value document, one `key: value` pair per line. A value
//! is `true` or `false` (a boolean), `[a, b, c]` (a list of strings), or a
//! scalar: trimmed text, with one pair of surrounding double quotes
//! stripped. Blank lines and `#` comment lines are skipped.
//! A line without a key, or a broken list, is malformed and aborts the render
//! of that page. Later occurrences of a key replace earlier ones.

use vstd::prelude::*;

use crate::errors::RenderError;
use crate::text::{
    chars_eq_str, find_first, first_idx, join_nl, spec_join_nl, spec_lines, spec_split_at,
    spec_trim, spec_trim_end, spec_trim_start, split_at_char, split_lines, str_eq, to_chars,
    to_string, trim, ws_char,
};
use crate::types::{FmValue, MetaV, Page, PageMetadata};

verus! {

broadcast use crate::text::lemma_vec_char_deep_view;

/// The mathematical value of a frontmatter entry.
pub enum FmVal {
    Str(Seq<char>),
    Bool(bool),
    List(Seq<Seq<char>>),
}

impl View for FmValue {
    type V = FmVal;

    open spec fn view(&self) -> FmVal {
        match self {
            FmValue::Str(s) => FmVal::Str(s@),
            FmValue::Bool(b) => FmVal::Bool(*b),
            FmValue::List(l) => FmVal::List(l.deep_view()),
        }
    }
}

/// The mathematical value of a parsed frontmatter mapping: the entries in
/// order, later entries having already replaced earlier ones with their key.
pub open spec fn raw_map_view(v: Seq<(String, FmValue)>) -> Seq<(Seq<char>, FmVal)> {
    Seq::new(v.len(), |i: int| (v[i].0@, v[i].1@))
}

/// `m` with the entry for `k` replaced in place, or appended.
pub open spec fn assoc_set(m: Seq<(Seq<char>, FmVal)>, k: Seq<char>, v: FmVal) -> Seq<
    (Seq<char>, FmVal),
>
    decreases m.len(),
{
    if m.len() == 0 {
        seq![(k, v)]
    } else if m[0].0 == k {
        seq![(k, v)] + m.drop_first()
    } else {
        seq![m[0]] + assoc_set(m.drop_first(), k, v)
    }
}

/// The value stored for `k`, if any.
pub open spec fn assoc_get(m: Seq<(Seq<char>, FmVal)>, k: Seq<char>) -> Option<FmVal>
    decreases m.len(),
{
    if m.len() == 0 {
        None
    } else if m[0].0 == k {
        Some(m[0].1)
    } else {
        assoc_get(m.drop_first(), k)
    }
}

/// The parse of one frontmatter value: a double-quoted scalar loses its
/// surrounding quotes; `true` and `false` are booleans; a bracketed list
/// holds comma-separated items (each trimmed and nonempty); anything else
/// is a trimmed scalar.
pub open spec fn spec_parse_value(raw: Seq<char>) -> Option<FmVal> {
    let v = spec_trim(raw);
    if v.len() >= 2 && v[0] == '"' && v.last() == '"' {
        Some(FmVal::Str(v.subrange(1, v.len() - 1)))
    } else if v == seq!['t', 'r', 'u', 'e'] {
        Some(FmVal::Bool(true))
    } else if v == seq!['f', 'a', 'l', 's', 'e'] {
        Some(FmVal::Bool(false))
    } else if v.len() > 0 && v[0] == '[' {
        if v.len() >= 2 && v.last() == ']' {
            let inner = v.subrange(1, v.len() - 1);
            if spec_trim(inner).len() == 0 {
                Some(FmVal::List(Seq::empty()))
            } else {
                let items = spec_split_at(inner, ',').map_values(|x: Seq<char>| spec_trim(x));
                if forall|i: int| 0 <= i < items.len() ==> items[i].len() > 0 {
                    Some(FmVal::List(items))
                } else {
                    None
                }
            }
        } else {
            None
        }
    } else {
        Some(FmVal::Str(v))
    }
}

/// The parse of one `key: value` line: the trimmed, nonempty key before the
/// first colon and the raw text after it.
pub open spec fn spec_parse_kv(l: Seq<char>) -> Option<(Seq<char>, Seq<char>)> {
    let i = first_idx(l, ':');
    if 0 <= i < l.len() {
        let k = spec_trim(l.take(i));
        if k.len() > 0 {
            Some((k, l.skip(i + 1)))
        } else {
            None
        }
    } else {
        None
    }
}

/// Is this line skipped by the block parser (blank or a `#` comment)?
pub open spec fn line_skipped(l: Seq<char>) -> bool {
    spec_trim(l).len() == 0 || spec_trim(l)[0] == '#'
}

/// The parse of a whole frontmatter block, line by line, later keys winning.
pub open spec fn spec_parse_fm(lines: Seq<Seq<char>>) -> Option<Seq<(Seq<char>, FmVal)>>
    decreases lines.len(),
{
    if lines.len() == 0 {
        Some(Seq::empty())
    } else {
        match spec_parse_fm(lines.drop_last()) {
            None => None,
            Some(m) => {
                let l = lines.last();
                if line_skipped(l) {
                    Some(m)
                } else {
                    match spec_parse_kv(l) {
                        None => None,
                        Some((k, raw)) => match spec_parse_value(raw) {
                            None => None,
                            Some(v) => Some(assoc_set(m, k, v)),
                        },
                    }
                }
            },
        }
    }
}

/// Parse one frontmatter value.
#[verifier::loop_isolation(false)]
pub fn parse_value(raw: &Vec<char>) -> (r: Option<FmValue>)
    ensures
        match r {
            Some(v) => spec_parse_value(raw@) == Some(v@),
            None => spec_parse_value(raw@) is None,
        },
{
    let v = trim(raw);
    if v.len() >= 2 && v[0] == '"' && v[v.len() - 1] == '"' {
        let inner = crate::text::copy_range(&v, 1, v.len() - 1);
        return Some(FmValue::Str(to_string(&inner)));
    }
    if chars_eq_lit(&v, 't', 'r', 'u', 'e') {
        return Some(FmValue::Bool(true));
    }
    if v.len() == 5 && v[0] == 'f' && v[1] == 'a' && v[2] == 'l' && v[3] == 's' && v[4] == 'e' {
        assert(v@ =~= seq!['f', 'a', 'l', 's', 'e']);
        return Some(FmValue::Bool(false));
    }
    assert(v@ != seq!['f', 'a', 'l', 's', 'e']);
    if v.len() > 0 && v[0] == '[' {
        if v.len() >= 2 && v[v.len() - 1] == ']' {
            let mut inner: Vec<char> = Vec::new();
            let mut i: usize = 1;
            let hi = v.len() - 1;
            while i < hi
                invariant
                    1 <= i <= hi == v@.len() - 1,
                    inner@ =~= v@.subrange(1, i as int),
                decreases hi - i,
            {
                inner.push(v[i]);
                assert(inner@ =~= v@.subrange(1, i + 1));
                i = i + 1;
            }
            assert(inner@ =~= v@.subrange(1, v@.len() - 1));
            let inner_trimmed = trim(&inner);
            if inner_trimmed.len() == 0 {
                let empty_items: Vec<String> = Vec::new();
                assert(empty_items.deep_view() =~~= Seq::<Seq<char>>::empty());
                return Some(FmValue::List(empty_items));
            }
            let parts = split_at_char(&inner, ',');
            let mut items: Vec<String> = Vec::new();
            let ghost spec_items = spec_split_at(inner@, ',').map_values(
                |x: Seq<char>| spec_trim(x),
            );
            let n = parts.len();
            let mut j: usize = 0;
            while j < n
                invariant
                    n == parts@.len(),
                    j <= n,
                    parts.deep_view() =~~= spec_split_at(inner@, ','),
                    spec_items == spec_split_at(inner@, ',').map_values(
                        |x: Seq<char>| spec_trim(x),
                    ),
                    items.deep_view() =~~= spec_items.take(j as int),
                    forall|k: int| 0 <= k < j ==> spec_items[k].len() > 0,
                decreases n - j,
            {
                let item = trim(&parts[j]);
                assert(item@ == spec_items[j as int]);
                if item.len() == 0 {
                    proof {
                        assert(0 <= j < spec_items.len() && spec_items[j as int].len() == 0);
                        assert(exists|q: int|
                            0 <= q < spec_items.len() && #[trigger] spec_items[q].len() == 0)
                            by {
                            assert(spec_items[j as int].len() == 0);
                        }
                        assert(spec_parse_value(raw@) is None);
                    }
                    return None;
                }
                let ghost dv = items.deep_view();
                items.push(to_string(&item));
                proof {
                    assert(items.deep_view() =~~= dv.push(item@));
                    assert(items.deep_view() =~~= spec_items.take(j + 1));
                }
                j = j + 1;
            }
            assert(items.deep_view() =~~= spec_items);
            return Some(FmValue::List(items));
        }
        return None;
    }
    Some(FmValue::Str(to_string(&v)))
}

/// Do the characters of `v` spell the four given characters?
fn chars_eq_lit(v: &Vec<char>, a: char, b: char, c: char, d: char) -> (r: bool)
    ensures
        r == (v@ == seq![a, b, c, d]),
{
    if v.len() == 4 && v[0] == a && v[1] == b && v[2] == c && v[3] == d {
        assert(v@ =~= seq![a, b, c, d]);
        true
    } else {
        assert(v@ != seq![a, b, c, d]);
        false
    }
}

/// Parse one `key: value` line.
pub fn parse_kv(l: &Vec<char>) -> (r: Option<(String, Vec<char>)>)
    ensures
        match r {
            Some(kv) => spec_parse_kv(l@) == Some((kv.0@, kv.1@)),
            None => spec_parse_kv(l@) is None,
        },
{
    match find_first(l, ':') {
        None => None,
        Some(i) => {
            let mut key_part: Vec<char> = Vec::new();
            let mut j: usize = 0;
            while j < i
                invariant
                    j <= i < l@.len(),
                    key_part@ =~= l@.take(i as int).take(j as int),
                decreases i - j,
            {
                key_part.push(l[j]);
                assert(key_part@ =~= l@.take(i as int).take(j + 1));
                j = j + 1;
            }
            assert(key_part@ =~= l@.take(i as int));
            let k = trim(&key_part);
            if k.len() == 0 {
                return None;
            }
            let mut rest: Vec<char> = Vec::new();
            let n = l.len();
            let mut p: usize = i + 1;
            while p < n
                invariant
                    i + 1 <= p <= n == l@.len(),
                    rest@ =~= l@.subrange(i + 1, p as int),
                decreases n - p,
            {
                rest.push(l[p]);
                assert(rest@ =~= l@.subrange(i + 1, p as int + 1));
                p = p + 1;
            }
            assert(rest@ =~= l@.skip(i + 1));
            Some((to_string(&k), rest))
        },
    }
}

/// Is this line skipped (blank or a comment)?
pub fn is_skipped_line(l: &Vec<char>) -> (r: bool)
    ensures
        r == line_skipped(l@),
{
    let t = trim(l);
    t.len() == 0 || t[0] == '#'
}

/// Store `v` under `k`, replacing an earlier entry with the same key.
pub fn raw_map_set(m: &mut Vec<(String, FmValue)>, k: String, v: FmValue)
    ensures
        raw_map_view(final(m)@) =~~= assoc_set(raw_map_view(old(m)@), k@, v@),
{
    let n = m.len();
    let mut i: usize = 0;
    while i < n
        invariant
            n == m@.len(),
            i <= n,
            m@ == old(m)@,
            forall|j: int| 0 <= j < i ==> old(m)@[j].0@ != k@,
        decreases n - i,
    {
        if string_eq(&m[i].0, &k) {
            m[i] = (k, v);
            proof {
                lemma_assoc_set_at(raw_map_view(old(m)@), k@, v@, i as int);
                assert(raw_map_view(m@) =~~= raw_map_view(old(m)@).update(
                    i as int,
                    (k@, v@),
                ));
            }
            return ;
        }
        i = i + 1;
    }
    m.push((k, v));
    proof {
        lemma_assoc_set_missing(raw_map_view(old(m)@), k@, v@);
        assert(raw_map_view(m@) =~~= raw_map_view(old(m)@).push((k@, v@)));
    }
}

/// When `k` first occurs at index `i`, `assoc_set` updates that entry.
proof fn lemma_assoc_set_at(m: Seq<(Seq<char>, FmVal)>, k: Seq<char>, v: FmVal, i: int)
    requires
        0 <= i < m.len(),
        m[i].0 == k,
        forall|j: int| 0 <= j < i ==> m[j].0 != k,
    ensures
        assoc_set(m, k, v) =~~= m.update(i, (k, v)),
    decreases m.len(),
{
    if i > 0 {
        assert forall|j: int| 0 <= j < i - 1 implies m.drop_first()[j].0 != k by {
            assert(m[j + 1].0 != k);
        }
        lemma_assoc_set_at(m.drop_first(), k, v, i - 1);
        assert((seq![m[0]] + m.drop_first().update(i - 1, (k, v))) =~~= m.update(i, (k, v)));
    } else {
        assert((seq![(k, v)] + m.drop_first()) =~~= m.update(0, (k, v)));
    }
}

/// When `k` occurs nowhere, `assoc_set` appends.
proof fn lemma_assoc_set_missing(m: Seq<(Seq<char>, FmVal)>, k: Seq<char>, v: FmVal)
    requires
        forall|j: int| 0 <= j < m.len() ==> m[j].0 != k,
    ensures
        assoc_set(m, k, v) =~~= m.push((k, v)),
    decreases m.len(),
{
    if m.len() > 0 {
        assert forall|j: int| 0 <= j < m.drop_first().len() implies m.drop_first()[j].0 != k by {
            assert(m[j + 1].0 != k);
        }
        lemma_assoc_set_missing(m.drop_first(), k, v);
        assert((seq![m[0]] + m.drop_first().push((k, v))) =~~= m.push((k, v)));
    }
}

/// String equality by view.
pub fn string_eq(a: &String, b: &String) -> (r: bool)
    ensures
        r == (a@ == b@),
{
    a.eq(b)
}

/// Parse a whole frontmatter block.
pub fn parse_fm_block(lines: &Vec<Vec<char>>) -> (r: Result<Vec<(String, FmValue)>, RenderError>)
    ensures
        match r {
            Ok(m) => spec_parse_fm(lines.deep_view()) == Some(raw_map_view(m@)),
            Err(e) => spec_parse_fm(lines.deep_view()) is None && e is Parse,
        },
{
    let mut m: Vec<(String, FmValue)> = Vec::new();
    let n = lines.len();
    let mut i: usize = 0;
    proof {
        assert(lines.deep_view().take(0) =~~= Seq::<Seq<char>>::empty());
        assert(raw_map_view(m@) =~~= Seq::<(Seq<char>, FmVal)>::empty());
    }
    while i < n
        invariant
            n == lines@.len(),
            i <= n,
            spec_parse_fm(lines.deep_view().take(i as int)) == Some(raw_map_view(m@)),
        decreases n - i,
    {
        let ghost prefix = lines.deep_view().take(i + 1);
        proof {
            assert(prefix.drop_last() =~~= lines.deep_view().take(i as int));
            assert(prefix.last() == lines.deep_view()[i as int]);
        }
        let line = &lines[i];
        assert(line@ == lines.deep_view()[i as int]);
        if !is_skipped_line(line) {
            match parse_kv(line) {
                None => {
                    proof {
                        assert(spec_parse_fm(prefix) is None);
                        lemma_parse_fm_prefix_none(lines.deep_view(), i + 1);
                    }
                    return Err(RenderError::Parse);
                },
                Some((k, raw)) => {
                    match parse_value(&raw) {
                        None => {
                            proof {
                                assert(spec_parse_kv(line@) == Some((k@, raw@)));
                                assert(spec_parse_fm(prefix) is None);
                                lemma_parse_fm_prefix_none(lines.deep_view(), i + 1);
                            }
                            return Err(RenderError::Parse);
                        },
                        Some(v) => {
                            let ghost before = raw_map_view(m@);
                            raw_map_set(&mut m, k, v);
                            proof {
                                assert(spec_parse_fm(prefix) == Some(
                                    assoc_set(before, k@, v@),
                                ));
                            }
                        },
                    }
                },
            }
        }
        i = i + 1;
    }
    assert(lines.deep_view().take(n as int) =~~= lines.deep_view());
    Ok(m)
}

/// The frontmatter delimiter line.
pub open spec fn fm_delim() -> Seq<char> {
    seq!['-', '-', '-']
}

/// Does the content open with a frontmatter block: is its first line exactly
/// the delimiter?
pub open spec fn spec_has_fm(content: Seq<char>) -> bool {
    let lines = spec_lines(content);
    lines.len() > 0 && lines[0] == fm_delim()
}

/// Index of the closing delimiter line (a line that trims to the delimiter)
/// at or after `i`, or the line count if there is none.
pub open spec fn fm_close_idx(lines: Seq<Seq<char>>, i: int) -> int
    decreases lines.len() - i,
{
    if i < 0 || i >= lines.len() {
        lines.len() as int
    } else if spec_trim(lines[i]) == fm_delim() {
        i
    } else {
        fm_close_idx(lines, i + 1)
    }
}

/// The lines of the frontmatter block (between the delimiters).
pub open spec fn spec_fm_block(content: Seq<char>) -> Seq<Seq<char>> {
    let lines = spec_lines(content);
    lines.subrange(1, fm_close_idx(lines, 1))
}

/// The lines after the closing delimiter: the page's remaining content.
pub open spec fn spec_fm_rest(content: Seq<char>) -> Seq<Seq<char>> {
    let lines = spec_lines(content);
    let end = fm_close_idx(lines, 1);
    if end < lines.len() {
        lines.skip(end + 1)
    } else {
        Seq::empty()
    }
}

/// What the frontmatter stage produces for an input page, when it succeeds:
/// a page without a leading delimiter passes through untouched; otherwise
/// the block parses, the structured metadata and the preserved raw mapping
/// are populated from it, and the remaining content replaces `content`.
pub open spec fn fm_rel(page: Page, p: Page) -> bool {
    if !spec_has_fm(page.content@) {
        p == page
    } else {
        match spec_parse_fm(spec_fm_block(page.content@)) {
            Some(m) => {
                &&& p.slug == page.slug
                &&& p.source_path == page.source_path
                &&& p.html == page.html
                &&& raw_map_view(p.raw_frontmatter@) == m
                &&& p.frontmatter@ == spec_meta_from_raw(m)
                &&& p.content@ == spec_join_nl(spec_fm_rest(page.content@))
            },
            None => false,
        }
    }
}

/// Does the frontmatter stage reject this page: a present block whose
/// key–value document is malformed?
pub open spec fn fm_fails(page: Page) -> bool {
    spec_has_fm(page.content@) && spec_parse_fm(spec_fm_block(page.content@)) is None
}

/// The body a page's content leaves once a frontmatter block is stripped
/// (the content itself when there is none).
pub open spec fn spec_body_of(content: Seq<char>) -> Seq<char> {
    if spec_has_fm(content) {
        crate::text::spec_join_nl(spec_fm_rest(content))
    } else {
        content
    }
}

/// The frontmatter stage: strip and parse a leading delimiter-bounded
/// metadata block.
pub struct FrontMatter;

impl FrontMatter {
    /// Detect a leading frontmatter block. Without one the page passes
    /// through unchanged; with one, the block is parsed (malformed content
    /// is a hard error), the structured metadata is populated, every parsed
    /// key is preserved, and the content after the closing delimiter
    /// replaces the page's content.
    pub fn transform(&self, page: Page) -> (r: Result<Page, RenderError>)
        ensures
            match r {
                Ok(p) => fm_rel(page, p),
                Err(e) => e is Parse && fm_fails(page),
            },
    {
        let content_chars = to_chars(page.content.as_str());
        let lines = split_lines(&content_chars);
        proof {
            reveal_strlit("---");
            assert("---"@ =~= fm_delim());
        }
        if lines.len() == 0 {
            return Ok(page);
        }
        if !chars_eq_str(&lines[0], "---") {
            assert(lines.deep_view()[0] == lines@[0]@);
            return Ok(page);
        }
        assert(spec_has_fm(page.content@));
        let ghost dv = lines.deep_view();
        let n = lines.len();
        let end = find_fm_close(&lines);
        assert(fm_close_idx(dv, 1) == end as int);
        let mut block: Vec<Vec<char>> = Vec::new();
        let mut i: usize = 1;
        while i < end
            invariant
                1 <= i <= end <= n == lines@.len(),
                dv == lines.deep_view(),
                block.deep_view() =~~= dv.subrange(1, i as int),
            decreases end - i,
        {
            let ghost bdv = block.deep_view();
            block.push(clone_chars(&lines[i]));
            proof {
                assert(block.deep_view() =~~= bdv.push(dv[i as int]));
                assert(block.deep_view() =~~= dv.subrange(1, i + 1));
            }
            i = i + 1;
        }
        assert(block.deep_view() =~~= spec_fm_block(page.content@));
        let map = match parse_fm_block(&block) {
            Ok(m) => m,
            Err(e) => {
                return Err(e);
            },
        };
        let meta = meta_from_raw(&map);
        let mut rest: Vec<Vec<char>> = Vec::new();
        let start_rest: usize = if end < n {
            end + 1
        } else {
            n
        };
        let mut j: usize = start_rest;
        while j < n
            invariant
                start_rest <= j <= n == lines@.len(),
                dv == lines.deep_view(),
                rest.deep_view() =~~= dv.subrange(start_rest as int, j as int),
            decreases n - j,
        {
            let ghost rdv = rest.deep_view();
            rest.push(clone_chars(&lines[j]));
            proof {
                assert(rest.deep_view() =~~= rdv.push(dv[j as int]));
                assert(rest.deep_view() =~~= dv.subrange(start_rest as int, j + 1));
            }
            j = j + 1;
        }
        proof {
            if end < n {
                assert(dv.subrange(start_rest as int, n as int) =~~= dv.skip(end + 1));
                assert(rest.deep_view() =~~= spec_fm_rest(page.content@));
            } else {
                assert(rest.deep_view() =~~= spec_fm_rest(page.content@));
            }
        }
        let rest_chars = join_nl(&rest);
        let new_content = to_string(&rest_chars);
        let mut page = page;
        page.content = new_content;
        page.raw_frontmatter = map;
        page.frontmatter = meta;
        Ok(page)
    }
}

/// The index of the closing frontmatter delimiter line, scanning from line 1.
fn find_fm_close(lines: &Vec<Vec<char>>) -> (r: usize)
    requires
        lines@.len() >= 1,
    ensures
        1 <= r <= lines@.len(),
        r as int == fm_close_idx(lines.deep_view(), 1),
{
    let ghost dv = lines.deep_view();
    let n = lines.len();
    let mut end: usize = 1;
    proof {
        reveal_strlit("---");
    }
    while end < n
        invariant
            1 <= end <= n == lines@.len(),
            dv == lines.deep_view(),
            fm_close_idx(dv, 1) == fm_close_idx(dv, end as int),
        decreases n - end,
    {
        let t = trim(&lines[end]);
        if chars_eq_str(&t, "---") {
            proof {
                reveal_strlit("---");
                assert("---"@ =~= fm_delim());
                assert(spec_trim(dv[end as int]) == fm_delim());
                assert(fm_close_idx(dv, end as int) == end as int);
            }
            return end;
        }
        proof {
            reveal_strlit("---");
            assert("---"@ =~= fm_delim());
            assert(spec_trim(dv[end as int]) != fm_delim());
            assert(fm_close_idx(dv, end as int) == fm_close_idx(dv, end + 1));
        }
        end = end + 1;
    }
    assert(fm_close_idx(dv, n as int) == n as int);
    end
}

/// A copy of a character vector.
pub fn clone_chars(v: &Vec<char>) -> (r: Vec<char>)
    ensures
        r@ == v@,
{
    let mut r: Vec<char> = Vec::new();
    let n = v.len();
    let mut i: usize = 0;
    while i < n
        invariant
            n == v@.len(),
            i <= n,
            r@ =~= v@.take(i as int),
        decreases n - i,
    {
        r.push(v[i]);
        assert(r@ =~= v@.take(i + 1));
        i = i + 1;
    }
    assert(r@ =~= v@);
    r
}

/// The draft filter: a page whose metadata carries `draft: true` is excluded
/// from rendering and listing.
pub struct DraftFilter;

impl DraftFilter {
    /// Include the page unless its frontmatter says `draft: true`.
    pub fn includes(&self, page: &Page) -> (r: bool)
        ensures
            r == (page.frontmatter.draft != Some(true)),
    {
        match page.frontmatter.draft {
            Some(d) => !d,
            None => true,
        }
    }
}

/// The list items joined with `", "`.
pub open spec fn spec_join_comma(items: Seq<Seq<char>>) -> Seq<char>
    decreases items.len(),
{
    if items.len() == 0 {
        Seq::empty()
    } else if items.len() == 1 {
        items[0]
    } else {
        items[0] + ", "@ + spec_join_comma(items.drop_first())
    }
}

/// The serialized form of a tag list.
pub open spec fn spec_tags_value(tags: Seq<Seq<char>>) -> Seq<char> {
    "["@ + spec_join_comma(tags) + "]"@
}

/// One serialized `key: value` line.
pub open spec fn spec_kv_line(key: Seq<char>, val: Seq<char>) -> Seq<char> {
    key + ": "@ + val
}

/// The serialized lines of the structured metadata fields, in a fixed
/// order, absent fields omitted.
pub open spec fn spec_serialize_meta(m: MetaV) -> Seq<Seq<char>> {
    (match m.title {
        Some(t) => seq![spec_kv_line("title"@, t)],
        None => Seq::empty(),
    }) + (match m.description {
        Some(t) => seq![spec_kv_line("description"@, t)],
        None => Seq::empty(),
    }) + (match m.created {
        Some(t) => seq![spec_kv_line("created"@, t)],
        None => Seq::empty(),
    }) + (match m.updated {
        Some(t) => seq![spec_kv_line("updated"@, t)],
        None => Seq::empty(),
    }) + (match m.tags {
        Some(l) => seq![spec_kv_line("tags"@, spec_tags_value(l))],
        None => Seq::empty(),
    })
}

/// May the character sit inside a serialized line (no line breaks)?
pub open spec fn plain_char(c: char) -> bool {
    c != '\n' && c != '\r'
}

/// Is a scalar safe to serialize and parse back unchanged: trimmed, on one
/// line, not spelled like a boolean, not opening a bracket list, and not
/// wrapped in the quotes the parser would strip?
pub open spec fn fm_safe_scalar(s: Seq<char>) -> bool {
    &&& spec_trim(s) == s
    &&& forall|i: int| 0 <= i < s.len() ==> plain_char(#[trigger] s[i])
    &&& s != seq!['t', 'r', 'u', 'e']
    &&& s != seq!['f', 'a', 'l', 's', 'e']
    &&& s.len() > 0 ==> s[0] != '['
    &&& !(s.len() >= 2 && s[0] == '"' && s[s.len() - 1] == '"')
}

/// Is a tag safe to serialize in a list: trimmed, nonempty, on one line,
/// and free of the list separator?
pub open spec fn fm_safe_tag(s: Seq<char>) -> bool {
    &&& spec_trim(s) == s
    &&& s.len() > 0
    &&& forall|i: int| 0 <= i < s.len() ==> plain_char(#[trigger] s[i]) && s[i] != ','
}

/// Trimming leaves a text with no whitespace at either end unchanged.
proof fn lemma_trim_id(s: Seq<char>)
    requires
        s.len() > 0 ==> !ws_char(s[0]) && !ws_char(s[s.len() - 1]),
    ensures
        spec_trim(s) == s,
{
    crate::text::lemma_trim_start_skip(s, 0);
    assert(s.skip(0) =~= s);
    crate::text::lemma_trim_end_take(s, s.len() as int);
    assert(s.take(s.len() as int) =~= s);
}

/// A run of spaces before a trimmed text trims away.
proof fn lemma_trim_spaces_before(sp: Seq<char>, v: Seq<char>)
    requires
        forall|i: int| 0 <= i < sp.len() ==> #[trigger] sp[i] == ' ',
        spec_trim(v) == v,
    ensures
        spec_trim(sp + v) == v,
{
    let s = sp + v;
    assert forall|i: int| 0 <= i < sp.len() implies ws_char(s[i]) by {
        assert(s[i] == ' ');
    }
    if v.len() == 0 {
        crate::text::lemma_trim_start_skip(s, sp.len() as int);
        assert(s.skip(sp.len() as int) =~= v);
        assert(spec_trim_end(Seq::<char>::empty()) =~= Seq::<char>::empty());
    } else {
        crate::text::lemma_trimmed_ends(v);
        assert(s[sp.len() as int] == v[0]);
        crate::text::lemma_trim_start_skip(s, sp.len() as int);
        assert(s.skip(sp.len() as int) =~= v);
        assert(spec_trim_start(v) == v);
        assert(spec_trim_end(v) == v);
    }
}

/// Splitting a comma join of safe items, after an optional run of leading
/// spaces, recovers the items.
proof fn lemma_split_join(sp: Seq<char>, items: Seq<Seq<char>>)
    requires
        items.len() > 0,
        forall|i: int| 0 <= i < sp.len() ==> #[trigger] sp[i] == ' ',
        forall|i: int| 0 <= i < items.len() ==> fm_safe_tag(#[trigger] items[i]),
    ensures
        spec_split_at(sp + spec_join_comma(items), ',').map_values(|x: Seq<char>| spec_trim(x))
            =~~= items,
    decreases items.len(),
{
    let s = sp + spec_join_comma(items);
    let head = items[0];
    if items.len() == 1 {
        assert(s =~= sp + head);
        assert forall|k: int| 0 <= k < s.len() implies s[k] != ',' by {
            if k < sp.len() {
                assert(s[k] == ' ');
            } else {
                assert(s[k] == head[k - sp.len()]);
            }
        }
        crate::text::lemma_first_idx_at(s, ',', s.len() as int);
        assert(spec_split_at(s, ',') =~~= seq![s]);
        lemma_trim_spaces_before(sp, head);
        assert(spec_split_at(s, ',').map_values(|x: Seq<char>| spec_trim(x)) =~~= seq![head]);
    } else {
        let rest = items.drop_first();
        assert(spec_join_comma(items) =~= head + ", "@ + spec_join_comma(rest));
        reveal_strlit(", ");
        let cut: int = sp.len() as int + head.len() as int;
        assert forall|k: int| 0 <= k < cut implies s[k] != ',' by {
            if k < sp.len() {
                assert(s[k] == ' ');
            } else {
                assert(s[k] == head[k - sp.len()]);
            }
        }
        assert(s[cut] == ',');
        crate::text::lemma_first_idx_at(s, ',', cut);
        assert(s.take(cut) =~= sp + head);
        assert(s.skip(cut + 1) =~= seq![' '] + spec_join_comma(rest));
        lemma_split_join(seq![' '], rest);
        lemma_trim_spaces_before(sp, head);
        assert(spec_split_at(s, ',') =~~= seq![sp + head] + spec_split_at(
            seq![' '] + spec_join_comma(rest),
            ',',
        ));
        assert(spec_split_at(s, ',').map_values(|x: Seq<char>| spec_trim(x)) =~~= seq![head]
            + spec_split_at(seq![' '] + spec_join_comma(rest), ',').map_values(
            |x: Seq<char>| spec_trim(x),
        ));
    }
}

/// Is a key text plain: nonempty, no colon, nothing a line parse would
/// trim or skip?
pub open spec fn plain_key(key: Seq<char>) -> bool {
    &&& key.len() > 0
    &&& !ws_char(key[0]) && !ws_char(key[key.len() - 1])
    &&& key[0] != '#'
    &&& forall|i: int| 0 <= i < key.len() ==> #[trigger] key[i] != ':' && plain_char(key[i])
}

/// Parsing a serialized `key: value` line recovers the key and a value
/// whose trim is the serialized value's trim.
proof fn lemma_kv_line_round_trip(key: Seq<char>, val: Seq<char>)
    requires
        plain_key(key),
    ensures
        !line_skipped(spec_kv_line(key, val)),
        spec_parse_kv(spec_kv_line(key, val)) matches Some(kv) && kv.0 == key && kv.1 == seq![' ']
            + val,
{
    let line = spec_kv_line(key, val);
    reveal_strlit(": ");
    assert forall|k: int| 0 <= k < key.len() implies line[k] != ':' by {
        assert(line[k] == key[k]);
    }
    assert(line[key.len() as int] == ':');
    crate::text::lemma_first_idx_at(line, ':', key.len() as int);
    assert(line.take(key.len() as int) =~= key);
    lemma_trim_id(key);
    assert(line.skip(key.len() as int + 1) =~= seq![' '] + val);
    assert(!ws_char(line[0]));
    crate::text::lemma_trim_start_skip(line, 0);
    assert(line.skip(0) =~= line);
    assert(spec_trim_start(line) == line);
    assert(spec_trim(line).len() > 0 && spec_trim(line)[0] == key[0]) by {
        lemma_trim_end_keeps_head(line);
    }
}

/// Trimming the end of a text that starts with non-whitespace keeps its
/// head.
proof fn lemma_trim_end_keeps_head(s: Seq<char>)
    requires
        s.len() > 0,
        !ws_char(s[0]),
    ensures
        spec_trim_end(s).len() > 0,
        spec_trim_end(s)[0] == s[0],
    decreases s.len(),
{
    if s.len() > 0 && ws_char(s.last()) {
        lemma_trim_end_keeps_head(s.drop_last());
    }
}

/// Parsing a serialized scalar value recovers it.
proof fn lemma_scalar_value_round_trip(val: Seq<char>)
    requires
        fm_safe_scalar(val),
    ensures
        spec_parse_value(seq![' '] + val) == Some(FmVal::Str(val)),
{
    lemma_trim_spaces_before(seq![' '], val);
}

/// Parsing a serialized tag list recovers the tags.
proof fn lemma_tags_value_round_trip(tags: Seq<Seq<char>>)
    requires
        forall|i: int| 0 <= i < tags.len() ==> fm_safe_tag(#[trigger] tags[i]),
    ensures
        spec_parse_value(seq![' '] + spec_tags_value(tags)) == Some(FmVal::List(tags)),
{
    let val = spec_tags_value(tags);
    reveal_strlit("[");
    reveal_strlit("]");
    assert(val[0] == '[');
    assert(val.last() == ']');
    assert forall|i: int| 0 <= i < val.len() implies !ws_char(#[trigger] val[i]) || (0 < i < val.len()
        - 1) by {}
    assert(!ws_char(val[0]));
    assert(!ws_char(val[val.len() - 1]));
    lemma_trim_spaces_before_loose(seq![' '], val);
    assert(spec_trim(seq![' '] + val) == val);
    assert(val != seq!['t', 'r', 'u', 'e']);
    assert(val != seq!['f', 'a', 'l', 's', 'e']);
    let inner = val.subrange(1, val.len() - 1);
    assert(inner =~= spec_join_comma(tags));
    if tags.len() == 0 {
        assert(inner =~= Seq::<char>::empty());
        assert(spec_trim(inner).len() == 0);
        assert(spec_parse_value(seq![' '] + val) == Some(FmVal::List(Seq::<Seq<char>>::empty())));
        assert(tags =~~= Seq::<Seq<char>>::empty());
    } else {
        assert(spec_trim(inner).len() > 0) by {
            assert(inner.len() > 0);
            assert(!ws_char(inner[0])) by {
                assert(inner[0] == tags[0][0]);
                assert(fm_safe_tag(tags[0]));
                lemma_safe_tag_head(tags[0]);
            }
            assert(!ws_char(inner[inner.len() - 1])) by {
                lemma_join_comma_last(tags);
            }
            lemma_trim_id(inner);
        }
        assert(inner.skip(0) =~= inner);
        lemma_split_join(Seq::<char>::empty(), tags);
        assert(Seq::<char>::empty() + spec_join_comma(tags) =~= inner);
        let items = spec_split_at(inner, ',').map_values(|x: Seq<char>| spec_trim(x));
        assert(items =~~= tags);
        assert(forall|i: int| 0 <= i < items.len() ==> items[i].len() > 0) by {
            assert forall|i: int| 0 <= i < items.len() implies items[i].len() > 0 by {
                assert(items[i] == tags[i]);
                assert(fm_safe_tag(tags[i]));
            }
        }
    }
}

/// A safe tag starts and ends with non-whitespace.
proof fn lemma_safe_tag_head(t: Seq<char>)
    requires
        fm_safe_tag(t),
    ensures
        !ws_char(t[0]),
        !ws_char(t[t.len() - 1]),
{
    crate::text::lemma_trimmed_ends(t);
}

/// The join of safe tags ends with the last tag's final character.
proof fn lemma_join_comma_last(tags: Seq<Seq<char>>)
    requires
        tags.len() > 0,
        forall|i: int| 0 <= i < tags.len() ==> fm_safe_tag(#[trigger] tags[i]),
    ensures
        spec_join_comma(tags).len() > 0,
        spec_join_comma(tags).last() == tags.last().last(),
        !ws_char(spec_join_comma(tags).last()),
    decreases tags.len(),
{
    if tags.len() == 1 {
        lemma_safe_tag_head(tags[0]);
    } else {
        lemma_join_comma_last(tags.drop_first());
        assert(tags.drop_first().last() == tags.last());
        let j = spec_join_comma(tags);
        assert(j =~= tags[0] + ", "@ + spec_join_comma(tags.drop_first()));
        assert(j.last() == spec_join_comma(tags.drop_first()).last());
    }
}

/// A run of spaces before a text with non-whitespace ends trims to it.
proof fn lemma_trim_spaces_before_loose(sp: Seq<char>, v: Seq<char>)
    requires
        forall|i: int| 0 <= i < sp.len() ==> #[trigger] sp[i] == ' ',
        v.len() > 0,
        !ws_char(v[0]),
        !ws_char(v[v.len() - 1]),
    ensures
        spec_trim(sp + v) == v,
{
    lemma_trim_id(v);
    lemma_trim_spaces_before(sp, v);
}

/// Setting a key makes it readable.
proof fn lemma_assoc_get_set_same(m: Seq<(Seq<char>, FmVal)>, k: Seq<char>, v: FmVal)
    ensures
        assoc_get(assoc_set(m, k, v), k) == Some(v),
    decreases m.len(),
{
    if m.len() > 0 && m[0].0 != k {
        lemma_assoc_get_set_same(m.drop_first(), k, v);
        assert((seq![m[0]] + assoc_set(m.drop_first(), k, v)).drop_first() =~~= assoc_set(
            m.drop_first(),
            k,
            v,
        ));
    } else if m.len() > 0 {
        assert((seq![(k, v)] + m.drop_first())[0] == (k, v));
    }
}

/// Setting one key leaves every other key's value alone.
proof fn lemma_assoc_get_set_other(m: Seq<(Seq<char>, FmVal)>, k: Seq<char>, v: FmVal, k2: Seq<
    char,
>)
    requires
        k2 != k,
    ensures
        assoc_get(assoc_set(m, k, v), k2) == assoc_get(m, k2),
    decreases m.len(),
{
    if m.len() == 0 {
        assert(assoc_set(m, k, v) =~~= seq![(k, v)]);
        assert(seq![(k, v)].drop_first() =~~= Seq::<(Seq<char>, FmVal)>::empty());
        assert(assoc_get(Seq::<(Seq<char>, FmVal)>::empty(), k2) is None);
        assert(assoc_get(seq![(k, v)], k2) is None);
    } else if m[0].0 == k {
        assert((seq![(k, v)] + m.drop_first()).drop_first() =~~= m.drop_first());
    } else {
        lemma_assoc_get_set_other(m.drop_first(), k, v, k2);
        assert((seq![m[0]] + assoc_set(m.drop_first(), k, v)).drop_first() =~~= assoc_set(
            m.drop_first(),
            k,
            v,
        ));
    }
}

/// Appending one serialized line to a block extends its parse by one entry.
proof fn lemma_parse_fm_snoc(
    lines: Seq<Seq<char>>,
    m0: Seq<(Seq<char>, FmVal)>,
    key: Seq<char>,
    val: Seq<char>,
    fmv: FmVal,
)
    requires
        spec_parse_fm(lines) == Some(m0),
        plain_key(key),
        spec_parse_value(seq![' '] + val) == Some(fmv),
    ensures
        spec_parse_fm(lines.push(spec_kv_line(key, val))) == Some(assoc_set(m0, key, fmv)),
{
    let ls = lines.push(spec_kv_line(key, val));
    assert(ls.drop_last() =~~= lines);
    assert(ls.last() == spec_kv_line(key, val));
    lemma_kv_line_round_trip(key, val);
}

/// The five serialized keys, each in the shape a line parse preserves, and
/// pairwise distinct.
proof fn lemma_serialized_keys()
    ensures
        plain_key("title"@),
        plain_key("description"@),
        plain_key("created"@),
        plain_key("updated"@),
        plain_key("tags"@),
        "title"@ != "description"@ && "title"@ != "created"@ && "title"@ != "updated"@ && "title"@
            != "tags"@,
        "description"@ != "created"@ && "description"@ != "updated"@ && "description"@
            != "tags"@,
        "created"@ != "updated"@ && "created"@ != "tags"@,
        "updated"@ != "tags"@,
{
    reveal_strlit("title");
    reveal_strlit("description");
    reveal_strlit("created");
    reveal_strlit("updated");
    reveal_strlit("tags");
}

/// Law: re-serializing the structured metadata fields and parsing the
/// result again yields the same values: the round trip holds for title,
/// description, created, updated and tags, whenever each present value is
/// safe to write on a frontmatter line (trimmed single-line text that is
/// not spelled like a boolean or a bracket list and not quote-wrapped;
/// timestamps valid; tags trimmed, nonempty and comma-free).
pub proof fn lemma_frontmatter_round_trip(m: MetaV)
    requires
        m.title matches Some(t) ==> fm_safe_scalar(t),
        m.description matches Some(t) ==> fm_safe_scalar(t),
        m.created matches Some(t) ==> fm_safe_scalar(t) && spec_is_rfc3339(t),
        m.updated matches Some(t) ==> fm_safe_scalar(t) && spec_is_rfc3339(t),
        m.tags matches Some(l) ==> forall|i: int| 0 <= i < l.len() ==> fm_safe_tag(
            #[trigger] l[i],
        ),
    ensures
        spec_parse_fm(spec_serialize_meta(m)) matches Some(raw) && {
            let m2 = spec_meta_from_raw(raw);
            &&& m2.title == m.title
            &&& m2.description == m.description
            &&& m2.created == m.created
            &&& m2.updated == m.updated
            &&& m2.tags == m.tags
        },
{
    lemma_serialized_keys();
    let empty_map = Seq::<(Seq<char>, FmVal)>::empty();
    let l0 = Seq::<Seq<char>>::empty();
    assert(spec_parse_fm(l0) == Some(empty_map));
    let (l1, m1): (Seq<Seq<char>>, Seq<(Seq<char>, FmVal)>) = match m.title {
        Some(t) => {
            lemma_scalar_value_round_trip(t);
            lemma_parse_fm_snoc(l0, empty_map, "title"@, t, FmVal::Str(t));
            assert(l0.push(spec_kv_line("title"@, t)) =~~= seq![spec_kv_line("title"@, t)]);
            (seq![spec_kv_line("title"@, t)], assoc_set(empty_map, "title"@, FmVal::Str(t)))
        },
        None => (l0, empty_map),
    };
    assert(spec_parse_fm(l1) == Some(m1));
    let (l2, m2): (Seq<Seq<char>>, Seq<(Seq<char>, FmVal)>) = match m.description {
        Some(t) => {
            lemma_scalar_value_round_trip(t);
            lemma_parse_fm_snoc(l1, m1, "description"@, t, FmVal::Str(t));
            (l1.push(spec_kv_line("description"@, t)), assoc_set(m1, "description"@,
                FmVal::Str(t)))
        },
        None => (l1, m1),
    };
    assert(spec_parse_fm(l2) == Some(m2));
    let (l3, m3): (Seq<Seq<char>>, Seq<(Seq<char>, FmVal)>) = match m.created {
        Some(t) => {
            lemma_scalar_value_round_trip(t);
            lemma_parse_fm_snoc(l2, m2, "created"@, t, FmVal::Str(t));
            (l2.push(spec_kv_line("created"@, t)), assoc_set(m2, "created"@, FmVal::Str(t)))
        },
        None => (l2, m2),
    };
    assert(spec_parse_fm(l3) == Some(m3));
    let (l4, m4): (Seq<Seq<char>>, Seq<(Seq<char>, FmVal)>) = match m.updated {
        Some(t) => {
            lemma_scalar_value_round_trip(t);
            lemma_parse_fm_snoc(l3, m3, "updated"@, t, FmVal::Str(t));
            (l3.push(spec_kv_line("updated"@, t)), assoc_set(m3, "updated"@, FmVal::Str(t)))
        },
        None => (l3, m3),
    };
    assert(spec_parse_fm(l4) == Some(m4));
    let (l5, m5): (Seq<Seq<char>>, Seq<(Seq<char>, FmVal)>) = match m.tags {
        Some(l) => {
            lemma_tags_value_round_trip(l);
            lemma_parse_fm_snoc(l4, m4, "tags"@, spec_tags_value(l), FmVal::List(l));
            (l4.push(spec_kv_line("tags"@, spec_tags_value(l))), assoc_set(m4, "tags"@,
                FmVal::List(l)))
        },
        None => (l4, m4),
    };
    assert(spec_parse_fm(l5) == Some(m5));
    assert(l5 =~~= spec_serialize_meta(m));
    assert(assoc_get(m5, "title"@) == (match m.title {
        Some(t) => Some(FmVal::Str(t)),
        None => None,
    })) by {
        lemma_get_through(m, m1, m2, m3, m4, m5, "title"@);
        if m.title is Some {
            lemma_assoc_get_set_same(empty_map, "title"@, FmVal::Str(m.title.unwrap()));
        }
    }
    assert(assoc_get(m5, "description"@) == (match m.description {
        Some(t) => Some(FmVal::Str(t)),
        None => None,
    })) by {
        lemma_get_through(m, m1, m2, m3, m4, m5, "description"@);
        if m.description is Some {
            lemma_assoc_get_set_same(m1, "description"@, FmVal::Str(m.description.unwrap()));
        }
        if m.description is None && m.title is Some {
            lemma_assoc_get_set_other(empty_map, "title"@, FmVal::Str(m.title.unwrap()),
                "description"@);
        }
    }
    assert(assoc_get(m5, "created"@) == (match m.created {
        Some(t) => Some(FmVal::Str(t)),
        None => None,
    })) by {
        lemma_get_through(m, m1, m2, m3, m4, m5, "created"@);
        if m.created is Some {
            lemma_assoc_get_set_same(m2, "created"@, FmVal::Str(m.created.unwrap()));
        } else {
            lemma_get_back_through(m, m1, m2, "created"@);
        }
    }
    assert(assoc_get(m5, "updated"@) == (match m.updated {
        Some(t) => Some(FmVal::Str(t)),
        None => None,
    })) by {
        lemma_get_through(m, m1, m2, m3, m4, m5, "updated"@);
        if m.updated is Some {
            lemma_assoc_get_set_same(m3, "updated"@, FmVal::Str(m.updated.unwrap()));
        } else {
            lemma_get_back_through(m, m1, m2, "updated"@);
            if m.created is Some {
                lemma_assoc_get_set_other(m2, "created"@, FmVal::Str(m.created.unwrap()),
                    "updated"@);
            }
        }
    }
    assert(assoc_get(m5, "tags"@) == (match m.tags {
        Some(l) => Some(FmVal::List(l)),
        None => None,
    })) by {
        if m.tags is Some {
            lemma_assoc_get_set_same(m4, "tags"@, FmVal::List(m.tags.unwrap()));
        } else {
            lemma_get_back_through(m, m1, m2, "tags"@);
            if m.created is Some {
                lemma_assoc_get_set_other(m2, "created"@, FmVal::Str(m.created.unwrap()),
                    "tags"@);
            }
            if m.updated is Some {
                lemma_assoc_get_set_other(m3, "updated"@, FmVal::Str(m.updated.unwrap()),
                    "tags"@);
            }
        }
    }
    let raw = m5;
    assert(opt_fm_str(raw, "title"@) == m.title);
    assert(opt_fm_str(raw, "description"@) == m.description);
    assert(opt_fm_ts(raw, "created"@) == m.created);
    assert(opt_fm_ts(raw, "updated"@) == m.updated);
    assert(opt_fm_list(raw, "tags"@) == m.tags);
}

/// Reads of the last two keys pass unchanged through the later sets.
proof fn lemma_get_through(
    m: MetaV,
    m1: Seq<(Seq<char>, FmVal)>,
    m2: Seq<(Seq<char>, FmVal)>,
    m3: Seq<(Seq<char>, FmVal)>,
    m4: Seq<(Seq<char>, FmVal)>,
    m5: Seq<(Seq<char>, FmVal)>,
    k: Seq<char>,
)
    requires
        k != "created"@ || !(m.created is Some) || m3 == assoc_set(m2, "created"@, FmVal::Str(
            m.created.unwrap(),
        )),
        m.description is Some ==> m2 == assoc_set(m1, "description"@, FmVal::Str(
            m.description.unwrap(),
        )),
        m.description is None ==> m2 == m1,
        m.created is Some ==> m3 == assoc_set(m2, "created"@, FmVal::Str(m.created.unwrap())),
        m.created is None ==> m3 == m2,
        m.updated is Some ==> m4 == assoc_set(m3, "updated"@, FmVal::Str(m.updated.unwrap())),
        m.updated is None ==> m4 == m3,
        m.tags is Some ==> m5 == assoc_set(m4, "tags"@, FmVal::List(m.tags.unwrap())),
        m.tags is None ==> m5 == m4,
        k != "tags"@,
        k == "title"@ || k == "description"@ || k == "created"@ || k == "updated"@,
    ensures
        k == "title"@ || k == "description"@ ==> (m.created is Some ==> assoc_get(m5, k)
            == assoc_get(m2, k)) && (m.created is None ==> assoc_get(m5, k) == assoc_get(m2, k)),
        k == "created"@ ==> assoc_get(m5, k) == assoc_get(m3, k),
        k == "updated"@ ==> assoc_get(m5, k) == assoc_get(m4, k),
        k == "title"@ ==> assoc_get(m2, k) == assoc_get(m1, k),
{
    lemma_serialized_keys();
    if m.tags is Some && k != "tags"@ {
        lemma_assoc_get_set_other(m4, "tags"@, FmVal::List(m.tags.unwrap()), k);
    }
    if m.updated is Some && (k == "title"@ || k == "description"@ || k == "created"@) {
        lemma_assoc_get_set_other(m3, "updated"@, FmVal::Str(m.updated.unwrap()), k);
    }
    if m.created is Some && (k == "title"@ || k == "description"@) {
        lemma_assoc_get_set_other(m2, "created"@, FmVal::Str(m.created.unwrap()), k);
    }
    if m.description is Some && k == "title"@ {
        lemma_assoc_get_set_other(m1, "description"@, FmVal::Str(m.description.unwrap()), k);
    }
}

/// A key that was never among the first two sets reads as absent from them.
proof fn lemma_get_back_through(
    m: MetaV,
    m1: Seq<(Seq<char>, FmVal)>,
    m2: Seq<(Seq<char>, FmVal)>,
    k: Seq<char>,
)
    requires
        m.title is Some ==> m1 == assoc_set(
            Seq::<(Seq<char>, FmVal)>::empty(),
            "title"@,
            FmVal::Str(m.title.unwrap()),
        ),
        m.title is None ==> m1 == Seq::<(Seq<char>, FmVal)>::empty(),
        m.description is Some ==> m2 == assoc_set(m1, "description"@, FmVal::Str(
            m.description.unwrap(),
        )),
        m.description is None ==> m2 == m1,
        k == "created"@ || k == "updated"@ || k == "tags"@,
    ensures
        assoc_get(m2, k) is None,
{
    lemma_serialized_keys();
    if m.description is Some {
        lemma_assoc_get_set_other(m1, "description"@, FmVal::Str(m.description.unwrap()), k);
    }
    if m.title is Some {
        lemma_assoc_get_set_other(
            Seq::<(Seq<char>, FmVal)>::empty(),
            "title"@,
            FmVal::Str(m.title.unwrap()),
            k,
        );
    }
}

/// Law: a page whose content has no leading frontmatter delimiter passes
/// the frontmatter stage untouched: its content is unchanged and its
/// structured metadata fields stay as they were (in particular unset, for
/// a freshly loaded page).
pub proof fn lemma_no_frontmatter_unchanged(page: Page, p: Page)
    requires
        !spec_has_fm(page.content@),
        fm_rel(page, p),
    ensures
        p == page,
        p.content == page.content,
        crate::types::meta_unset(page.frontmatter) ==> crate::types::meta_unset(p.frontmatter),
{
}

/// Serialize the structured metadata fields back to frontmatter lines, in
/// the fixed field order, absent fields omitted.
pub fn serialize_meta_lines(m: &PageMetadata) -> (r: Vec<String>)
    ensures
        r.deep_view() == spec_serialize_meta(m@),
{
    let mut r: Vec<String> = Vec::new();
    let ghost mut expect = Seq::<Seq<char>>::empty();
    match &m.title {
        Some(t) => {
            r.push(render_kv_line("title", t.as_str()));
            proof {
                expect = expect.push(spec_kv_line("title"@, t@));
            }
        },
        None => {
        },
    }
    match &m.description {
        Some(t) => {
            r.push(render_kv_line("description", t.as_str()));
            proof {
                expect = expect.push(spec_kv_line("description"@, t@));
            }
        },
        None => {
        },
    }
    match &m.created {
        Some(t) => {
            r.push(render_kv_line("created", t.as_str()));
            proof {
                expect = expect.push(spec_kv_line("created"@, t@));
            }
        },
        None => {
        },
    }
    match &m.updated {
        Some(t) => {
            r.push(render_kv_line("updated", t.as_str()));
            proof {
                expect = expect.push(spec_kv_line("updated"@, t@));
            }
        },
        None => {
        },
    }
    match &m.tags {
        Some(l) => {
            r.push(render_tags_line(l));
            proof {
                expect = expect.push(spec_kv_line("tags"@, spec_tags_value(l.deep_view())));
            }
        },
        None => {
        },
    }
    proof {
        assert(r.deep_view() =~~= expect);
        assert(expect =~~= spec_serialize_meta(m@));
    }
    r
}

/// One serialized `key: value` line.
fn render_kv_line(key: &str, val: &str) -> (r: String)
    ensures
        r@ == spec_kv_line(key@, val@),
{
    let mut out: Vec<char> = Vec::new();
    crate::text::push_str_chars(&mut out, key);
    crate::text::push_str_chars(&mut out, ": ");
    crate::text::push_str_chars(&mut out, val);
    to_string(&out)
}

/// One serialized tags line.
fn render_tags_line(tags: &Vec<String>) -> (r: String)
    ensures
        r@ == spec_kv_line("tags"@, spec_tags_value(tags.deep_view())),
{
    let mut out: Vec<char> = Vec::new();
    crate::text::push_str_chars(&mut out, "tags: [");
    let n = tags.len();
    let mut i: usize = 0;
    let ghost open_prefix = "tags: ["@;
    while i < n
        invariant
            i <= n == tags@.len(),
            out@ =~= open_prefix + spec_join_comma(tags.deep_view().take(i as int)),
        decreases n - i,
    {
        if i > 0 {
            crate::text::push_str_chars(&mut out, ", ");
        }
        crate::text::push_str_chars(&mut out, tags[i].as_str());
        proof {
            lemma_join_comma_snoc(tags.deep_view().take(i + 1));
            assert(tags.deep_view().take(i + 1).drop_last() =~~= tags.deep_view().take(i as int));
            assert(tags.deep_view().take(i + 1).last() == tags.deep_view()[i as int]);
            if i == 0 {
                assert(out@ =~= open_prefix + spec_join_comma(tags.deep_view().take(1)));
            } else {
                assert(out@ =~= open_prefix + spec_join_comma(tags.deep_view().take(i + 1)));
            }
        }
        i = i + 1;
    }
    assert(tags.deep_view().take(n as int) =~~= tags.deep_view());
    crate::text::push_str_chars(&mut out, "]");
    proof {
        reveal_strlit("tags: [");
        reveal_strlit("tags: ");
        reveal_strlit("tags");
        reveal_strlit(": ");
        reveal_strlit("[");
        reveal_strlit("]");
        assert(out@ =~= spec_kv_line("tags"@, spec_tags_value(tags.deep_view())));
    }
    to_string(&out)
}

/// Appending one tag to a comma join appends a separator and the tag.
proof fn lemma_join_comma_snoc(items: Seq<Seq<char>>)
    requires
        items.len() > 0,
    ensures
        items.len() == 1 ==> spec_join_comma(items) == items[0],
        items.len() > 1 ==> spec_join_comma(items) =~= spec_join_comma(items.drop_last()) + ", "@
            + items.last(),
    decreases items.len(),
{
    if items.len() > 1 {
        lemma_join_comma_snoc(items.drop_first());
        assert(spec_join_comma(items) =~= items[0] + ", "@ + spec_join_comma(
            items.drop_first(),
        ));
        if items.len() == 2 {
            assert(items.drop_last() =~~= seq![items[0]]);
            assert(spec_join_comma(items.drop_last()) == items[0]);
        } else {
            assert(items.drop_first().drop_last() =~~= items.drop_last().drop_first());
            assert(spec_join_comma(items.drop_first()) =~= spec_join_comma(
                items.drop_first().drop_last(),
            ) + ", "@ + items.drop_first().last());
            assert(spec_join_comma(items.drop_last()) =~= items[0] + ", "@ + spec_join_comma(
                items.drop_last().drop_first(),
            ));
            assert(items.drop_first().last() == items.last());
        }
    }
}

/// The numeric value of an ASCII digit, or an out-of-range marker.
pub open spec fn digit_val(c: char) -> int {
    (c as u32) as int - 48
}

/// Is `c` an ASCII digit?
pub open spec fn spec_is_digit(c: char) -> bool {
    48 <= (c as u32) <= 57
}

/// Are the characters of `s` in `[from, to)` all digits?
pub open spec fn digits_in(s: Seq<char>, from: int, to: int) -> bool {
    forall|k: int| from <= k < to ==> spec_is_digit(#[trigger] s[k])
}

/// The number spelled by two digits at `i`.
pub open spec fn two_digits(s: Seq<char>, i: int) -> int {
    digit_val(s[i]) * 10 + digit_val(s[i + 1])
}

/// Is `y` a leap year (Gregorian rules)?
pub open spec fn spec_is_leap(y: int) -> bool {
    y % 4 == 0 && (y % 100 != 0 || y % 400 == 0)
}

/// The number of days in month `m` of year `y`.
pub open spec fn spec_days_in_month(y: int, m: int) -> int {
    if m == 2 {
        if spec_is_leap(y) {
            29
        } else {
            28
        }
    } else if m == 4 || m == 6 || m == 9 || m == 11 {
        30
    } else {
        31
    }
}

/// Does the suffix of `s` starting at `i` form a valid RFC 3339 numeric or
/// `Z` offset ending the string?
pub open spec fn spec_rfc3339_offset(s: Seq<char>, i: int) -> bool {
    if i + 1 == s.len() && (s[i] == 'Z' || s[i] == 'z') {
        true
    } else {
        &&& i + 6 == s.len()
        &&& (s[i] == '+' || s[i] == '-')
        &&& digits_in(s, i + 1, i + 3)
        &&& s[i + 3] == ':'
        &&& digits_in(s, i + 4, i + 6)
        &&& two_digits(s, i + 1) <= 23
        &&& two_digits(s, i + 4) <= 59
    }
}

/// Is `s` an RFC 3339 timestamp: `YYYY-MM-DDTHH:MM:SS`, an optional
/// fractional-second part, and a `Z` or `±HH:MM` offset, with all fields in
/// range?
pub open spec fn spec_is_rfc3339(s: Seq<char>) -> bool {
    &&& s.len() >= 20
    &&& digits_in(s, 0, 4)
    &&& s[4] == '-'
    &&& digits_in(s, 5, 7)
    &&& s[7] == '-'
    &&& digits_in(s, 8, 10)
    &&& (s[10] == 'T' || s[10] == 't' || s[10] == ' ')
    &&& digits_in(s, 11, 13)
    &&& s[13] == ':'
    &&& digits_in(s, 14, 16)
    &&& s[16] == ':'
    &&& digits_in(s, 17, 19)
    &&& 1 <= two_digits(s, 5) <= 12
    &&& 1 <= two_digits(s, 8) <= spec_days_in_month(
        digit_val(s[0]) * 1000 + digit_val(s[1]) * 100 + digit_val(s[2]) * 10 + digit_val(s[3]),
        two_digits(s, 5),
    )
    &&& two_digits(s, 11) <= 23
    &&& two_digits(s, 14) <= 59
    &&& two_digits(s, 17) <= 60
    &&& if s[19] == '.' {
        exists|f: int|
            #![trigger spec_rfc3339_offset(s, f)]
            21 <= f <= s.len() && digits_in(s, 20, f) && f > 20 && spec_rfc3339_offset(s, f)
    } else {
        spec_rfc3339_offset(s, 19)
    }
}

/// Check that `v` is an RFC 3339 timestamp.
#[verifier::loop_isolation(false)]
pub fn is_rfc3339(v: &Vec<char>) -> (r: bool)
    ensures
        r == spec_is_rfc3339(v@),
{
    let n = v.len();
    if n < 20 {
        return false;
    }
    let mut i: usize = 0;
    while i < 19
        invariant
            i <= 19,
            forall|k: int|
                0 <= k < i && k != 4 && k != 7 && k != 10 && k != 13 && k != 16 ==> spec_is_digit(
                    #[trigger] v@[k],
                ),
        decreases 19 - i,
    {
        if i == 4 || i == 7 || i == 10 || i == 13 || i == 16 {
            i = i + 1;
            continue ;
        }
        let c = v[i] as u32;
        if !(48 <= c && c <= 57) {
            return false;
        }
        i = i + 1;
    }
    if !(v[4] == '-' && v[7] == '-' && (v[10] == 'T' || v[10] == 't' || v[10] == ' ') && v[13]
        == ':' && v[16] == ':') {
        return false;
    }
    let year = (v[0] as u32 - 48) * 1000 + (v[1] as u32 - 48) * 100 + (v[2] as u32 - 48) * 10 + (
    v[3] as u32 - 48);
    let month = (v[5] as u32 - 48) * 10 + (v[6] as u32 - 48);
    let day = (v[8] as u32 - 48) * 10 + (v[9] as u32 - 48);
    let hour = (v[11] as u32 - 48) * 10 + (v[12] as u32 - 48);
    let minute = (v[14] as u32 - 48) * 10 + (v[15] as u32 - 48);
    let sec = (v[17] as u32 - 48) * 10 + (v[18] as u32 - 48);
    if !(1 <= month && month <= 12) {
        return false;
    }
    let dim: u32 = if month == 2 {
        if year % 4 == 0 && (year % 100 != 0 || year % 400 == 0) {
            29
        } else {
            28
        }
    } else if month == 4 || month == 6 || month == 9 || month == 11 {
        30
    } else {
        31
    };
    if !(1 <= day && day <= dim) {
        return false;
    }
    if !(hour <= 23 && minute <= 59 && sec <= 60) {
        return false;
    }
    if v[19] == '.' {
        let f = scan_digits(v, 20);
        if f == 20 {
            return false;
        }
        let ok = check_offset(v, f);
        proof {
            if ok {
                assert(spec_rfc3339_offset(v@, f as int));
            } else {
                assert forall|g: int|
                    21 <= g <= v@.len() && digits_in(v@, 20, g) && g > 20 implies
                    !spec_rfc3339_offset(v@, g) by {
                    if g != f as int {
                        if g < f as int {
                            assert(spec_is_digit(v@[g]));
                            assert(!spec_rfc3339_offset(v@, g));
                        } else {
                            assert(f < n ==> !spec_is_digit(v@[f as int]));
                            assert(!digits_in(v@, 20, g));
                        }
                    }
                }
            }
        }
        ok
    } else {
        check_offset(v, 19)
    }
}

/// The end of the run of digits starting at `from`.
fn scan_digits(v: &Vec<char>, from: usize) -> (r: usize)
    requires
        from <= v@.len(),
    ensures
        from <= r <= v@.len(),
        digits_in(v@, from as int, r as int),
        r < v@.len() ==> !spec_is_digit(v@[r as int]),
{
    let n = v.len();
    let mut f: usize = from;
    while f < n
        invariant
            from <= f <= n == v@.len(),
            digits_in(v@, from as int, f as int),
        decreases n - f,
    {
        let c = v[f] as u32;
        if !(48 <= c && c <= 57) {
            return f;
        }
        f = f + 1;
    }
    f
}

/// Check an RFC 3339 offset at position `i`.
#[verifier::loop_isolation(false)]
fn check_offset(v: &Vec<char>, i: usize) -> (r: bool)
    requires
        i <= v@.len(),
    ensures
        r == spec_rfc3339_offset(v@, i as int),
{
    let n = v.len();
    if i >= n {
        return false;
    }
    if n - i == 1 && (v[i] == 'Z' || v[i] == 'z') {
        return true;
    }
    if !(n - i == 6) {
        return false;
    }
    if !(v[i] == '+' || v[i] == '-') {
        return false;
    }
    let d1 = v[i + 1] as u32;
    let d2 = v[i + 2] as u32;
    let d4 = v[i + 4] as u32;
    let d5 = v[i + 5] as u32;
    if !(48 <= d1 && d1 <= 57 && 48 <= d2 && d2 <= 57 && 48 <= d4 && d4 <= 57 && 48 <= d5 && d5
        <= 57) {
        return false;
    }
    if !(v[i + 3] == ':') {
        return false;
    }
    let oh = (d1 - 48) * 10 + (d2 - 48);
    let om = (d4 - 48) * 10 + (d5 - 48);
    oh <= 23 && om <= 59
}

/// The scalar stored under `k`, if any.
pub open spec fn opt_fm_str(m: Seq<(Seq<char>, FmVal)>, k: Seq<char>) -> Option<Seq<char>> {
    match assoc_get(m, k) {
        Some(FmVal::Str(s)) => Some(s),
        _ => None,
    }
}

/// The boolean stored under `k`, if any.
pub open spec fn opt_fm_bool(m: Seq<(Seq<char>, FmVal)>, k: Seq<char>) -> Option<bool> {
    match assoc_get(m, k) {
        Some(FmVal::Bool(b)) => Some(b),
        _ => None,
    }
}

/// The string list stored under `k`, if any.
pub open spec fn opt_fm_list(m: Seq<(Seq<char>, FmVal)>, k: Seq<char>) -> Option<Seq<Seq<char>>> {
    match assoc_get(m, k) {
        Some(FmVal::List(l)) => Some(l),
        _ => None,
    }
}

/// The scalar stored under `k`, provided it is an RFC 3339 timestamp.
pub open spec fn opt_fm_ts(m: Seq<(Seq<char>, FmVal)>, k: Seq<char>) -> Option<Seq<char>> {
    match opt_fm_str(m, k) {
        Some(s) => if spec_is_rfc3339(s) {
            Some(s)
        } else {
            None
        },
        None => None,
    }
}

/// The structured metadata extracted from a parsed frontmatter mapping.
/// `word_count` and `encrypted` are never set here: they belong to the
/// encryption stage.
pub open spec fn spec_meta_from_raw(m: Seq<(Seq<char>, FmVal)>) -> MetaV {
    MetaV {
        title: opt_fm_str(m, "title"@),
        description: opt_fm_str(m, "description"@),
        created: opt_fm_ts(m, "created"@),
        updated: opt_fm_ts(m, "updated"@),
        tags: opt_fm_list(m, "tags"@),
        word_count: None,
        encrypted: None,
        password: opt_fm_str(m, "password"@),
        draft: opt_fm_bool(m, "draft"@),
        publish: opt_fm_bool(m, "publish"@),
    }
}

/// Look up `k` in a parsed frontmatter mapping.
pub fn fm_get<'a>(m: &'a Vec<(String, FmValue)>, k: &str) -> (r: Option<&'a FmValue>)
    ensures
        match r {
            Some(v) => assoc_get(raw_map_view(m@), k@) == Some(v@),
            None => assoc_get(raw_map_view(m@), k@) is None,
        },
{
    let n = m.len();
    let mut i: usize = 0;
    while i < n
        invariant
            n == m@.len(),
            i <= n,
            forall|j: int| 0 <= j < i ==> m@[j].0@ != k@,
        decreases n - i,
    {
        if str_eq(m[i].0.as_str(), k) {
            proof {
                lemma_assoc_get_at(raw_map_view(m@), k@, i as int);
            }
            return Some(&m[i].1);
        }
        i = i + 1;
    }
    proof {
        lemma_assoc_get_missing(raw_map_view(m@), k@);
    }
    None
}

/// When `k` first occurs at `i`, `assoc_get` yields that entry.
proof fn lemma_assoc_get_at(m: Seq<(Seq<char>, FmVal)>, k: Seq<char>, i: int)
    requires
        0 <= i < m.len(),
        m[i].0 == k,
        forall|j: int| 0 <= j < i ==> m[j].0 != k,
    ensures
        assoc_get(m, k) == Some(m[i].1),
    decreases m.len(),
{
    if i > 0 {
        assert forall|j: int| 0 <= j < i - 1 implies m.drop_first()[j].0 != k by {
            assert(m[j + 1].0 != k);
        }
        lemma_assoc_get_at(m.drop_first(), k, i - 1);
    }
}

/// When `k` occurs nowhere, `assoc_get` yields nothing.
proof fn lemma_assoc_get_missing(m: Seq<(Seq<char>, FmVal)>, k: Seq<char>)
    requires
        forall|j: int| 0 <= j < m.len() ==> m[j].0 != k,
    ensures
        assoc_get(m, k) is None,
    decreases m.len(),
{
    if m.len() > 0 {
        assert forall|j: int| 0 <= j < m.drop_first().len() implies m.drop_first()[j].0 != k by {
            assert(m[j + 1].0 != k);
        }
        lemma_assoc_get_missing(m.drop_first(), k);
    }
}

/// Extract the structured metadata from a parsed frontmatter mapping.
pub fn meta_from_raw(m: &Vec<(String, FmValue)>) -> (r: PageMetadata)
    ensures
        r@ == spec_meta_from_raw(raw_map_view(m@)),
{
    let title = match fm_get(m, "title") {
        Some(FmValue::Str(s)) => Some(s.clone()),
        _ => None,
    };
    let description = match fm_get(m, "description") {
        Some(FmValue::Str(s)) => Some(s.clone()),
        _ => None,
    };
    let created = match fm_get(m, "created") {
        Some(FmValue::Str(s)) => {
            let cs = to_chars(s.as_str());
            if is_rfc3339(&cs) {
                Some(s.clone())
            } else {
                None
            }
        },
        _ => None,
    };
    let updated = match fm_get(m, "updated") {
        Some(FmValue::Str(s)) => {
            let cs = to_chars(s.as_str());
            if is_rfc3339(&cs) {
                Some(s.clone())
            } else {
                None
            }
        },
        _ => None,
    };
    let tags = match fm_get(m, "tags") {
        Some(FmValue::List(l)) => Some(clone_string_vec(l)),
        _ => None,
    };
    let password = match fm_get(m, "password") {
        Some(FmValue::Str(s)) => Some(s.clone()),
        _ => None,
    };
    let draft = match fm_get(m, "draft") {
        Some(FmValue::Bool(b)) => Some(*b),
        _ => None,
    };
    let publish = match fm_get(m, "publish") {
        Some(FmValue::Bool(b)) => Some(*b),
        _ => None,
    };
    PageMetadata {
        title,
        description,
        created,
        updated,
        tags,
        word_count: None,
        encrypted: None,
        password,
        draft,
        publish,
    }
}

/// A copy of a string list, equal element by element.
pub fn clone_string_vec(l: &Vec<String>) -> (r: Vec<String>)
    ensures
        r@ == l@,
        r.deep_view() == l.deep_view(),
{
    let mut r: Vec<String> = Vec::new();
    let n = l.len();
    let mut i: usize = 0;
    while i < n
        invariant
            n == l@.len(),
            i <= n,
            r@ =~= l@.take(i as int),
        decreases n - i,
    {
        r.push(l[i].clone());
        assert(r@ =~= l@.take(i + 1));
        i = i + 1;
    }
    assert(r@ =~= l@);
    r
}

/// A failed prefix makes the whole block parse fail.
proof fn lemma_parse_fm_prefix_none(lines: Seq<Seq<char>>, i: int)
    requires
        0 <= i <= lines.len(),
        spec_parse_fm(lines.take(i)) is None,
    ensures
        spec_parse_fm(lines) is None,
    decreases lines.len() - i,
{
    if i < lines.len() {
        assert(lines.take(i + 1).drop_last() =~~= lines.take(i));
        lemma_parse_fm_prefix_none(lines, i + 1);
    } else {
        assert(lines.take(i) =~~= lines);
    }
}

} // verus!
