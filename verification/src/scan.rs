//! Line-level scanning of taskfile text: splitting into lines, reading the
//! indentation, splitting directives and same-level expressions.
use vstd::prelude::*;

use crate::text::{
    char_is_ws, chars_trim, chars_trim_start, is_ws, subvec, trim, trim_start, ws_prefix_len,
};

verus! {

/// A line with one trailing carriage return removed.
pub open spec fn strip_cr(s: Seq<char>) -> Seq<char> {
    if s.len() > 0 && s.last() == '\r' {
        s.drop_last()
    } else {
        s
    }
}

/// Lines found so far and the text of the line being read.
pub open spec fn lines_fold(s: Seq<char>) -> (Seq<Seq<char>>, Seq<char>)
    decreases s.len(),
{
    if s.len() == 0 {
        (seq![], seq![])
    } else {
        let (done, cur) = lines_fold(s.drop_last());
        if s.last() == '\n' {
            (done.push(strip_cr(strip_cr(cur))), seq![])
        } else {
            (done, cur.push(s.last()))
        }
    }
}

/// The lines of a text as the taskfile reader sees them: `str::lines` (a
/// line ends at `\n`, a `\r` before it is dropped, a final empty line is not
/// a line) and then one more trailing `\r` removed from each.
pub open spec fn source_lines(s: Seq<char>) -> Seq<Seq<char>> {
    let (done, cur) = lines_fold(s);
    if cur.len() > 0 {
        done.push(strip_cr(cur))
    } else {
        done
    }
}

proof fn lemma_lines_fold_len(s: Seq<char>)
    ensures
        forall|k: int|
            0 <= k < lines_fold(s).0.len() ==> #[trigger] lines_fold(s).0[k].len() <= s.len(),
        lines_fold(s).1.len() <= s.len(),
    decreases s.len(),
{
    if s.len() > 0 {
        lemma_lines_fold_len(s.drop_last());
    }
}

/// No line is longer than the text.
pub proof fn lemma_source_lines_len(s: Seq<char>)
    ensures
        forall|k: int|
            0 <= k < source_lines(s).len() ==> #[trigger] source_lines(s)[k].len() <= s.len(),
{
    lemma_lines_fold_len(s);
}

fn strip_cr_vec(v: Vec<char>) -> (r: Vec<char>)
    ensures
        r@ == strip_cr(v@),
{
    let mut v = v;
    if v.len() > 0 && v[v.len() - 1] == '\r' {
        v.pop();
    }
    v
}

pub fn split_source_lines(s: &Vec<char>) -> (r: Vec<Vec<char>>)
    ensures
        r@.map_values(|x: Vec<char>| x@) == source_lines(s@),
{
    let mut done: Vec<Vec<char>> = Vec::new();
    let mut cur: Vec<char> = Vec::new();
    let mut i: usize = 0;
    assert(done@.map_values(|x: Vec<char>| x@) =~= seq![]);
    assert(cur@ =~= seq![]);
    while i < s.len()
        invariant
            i <= s.len(),
            lines_fold(s@.take(i as int)) == (done@.map_values(|x: Vec<char>| x@), cur@),
        decreases s.len() - i,
    {
        assert(s@.take(i + 1).drop_last() =~= s@.take(i as int));
        let c = s[i];
        if c == '\n' {
            let ghost before = done@.map_values(|x: Vec<char>| x@);
            let line = strip_cr_vec(strip_cr_vec(cur));
            let ghost lv = line@;
            done.push(line);
            cur = Vec::new();
            assert(done@.map_values(|x: Vec<char>| x@) =~= before.push(lv));
            assert(cur@ =~= seq![]);
        } else {
            cur.push(c);
        }
        i = i + 1;
    }
    assert(s@.take(s.len() as int) =~= s@);
    if cur.len() > 0 {
        let ghost before = done@.map_values(|x: Vec<char>| x@);
        let line = strip_cr_vec(cur);
        let ghost lv = line@;
        done.push(line);
        assert(done@.map_values(|x: Vec<char>| x@) =~= before.push(lv));
    }
    done
}

pub open spec fn is_indent_char(c: char) -> bool {
    c == ' ' || c == '\t'
}

/// Number of leading spaces and tabs.
pub open spec fn indent_count(s: Seq<char>) -> nat
    decreases s.len(),
{
    if s.len() > 0 && is_indent_char(s[0]) {
        1 + indent_count(s.drop_first())
    } else {
        0
    }
}

/// Indentation width: a space counts one column, a tab two.
pub open spec fn indent_width(s: Seq<char>) -> nat
    decreases s.len(),
{
    if s.len() > 0 && is_indent_char(s[0]) {
        (if s[0] == '\t' {
            2nat
        } else {
            1nat
        }) + indent_width(s.drop_first())
    } else {
        0
    }
}

/// Whether the leading indentation holds the given char.
pub open spec fn indent_has(s: Seq<char>, c: char) -> bool {
    exists|i: int| 0 <= i < indent_count(s) && s[i] == c
}

pub proof fn lemma_indent_count_bound(s: Seq<char>)
    ensures
        indent_count(s) <= s.len(),
        forall|i: int| 0 <= i < indent_count(s) ==> is_indent_char(#[trigger] s[i]),
        indent_count(s) < s.len() ==> !is_indent_char(s[indent_count(s) as int]),
    decreases s.len(),
{
    if s.len() > 0 && is_indent_char(s[0]) {
        lemma_indent_count_bound(s.drop_first());
        assert forall|i: int| 0 <= i < indent_count(s) implies is_indent_char(#[trigger] s[i]) by {
            if i > 0 {
                assert(s[i] == s.drop_first()[i - 1]);
            }
        }
    }
}

/// The leading indentation of a line.
pub struct Indent {
    pub width: usize,
    pub count: usize,
    pub has_spaces: bool,
    pub has_tabs: bool,
}

pub fn leading_indent(s: &Vec<char>) -> (r: Indent)
    requires
        s.len() <= usize::MAX / 2,
    ensures
        r.count == indent_count(s@),
        r.width == indent_width(s@),
        r.has_spaces == indent_has(s@, ' '),
        r.has_tabs == indent_has(s@, '\t'),
        r.count <= s.len(),
        r.width <= 2 * r.count,
{
    let mut i: usize = 0;
    let mut width: usize = 0;
    let mut spaces = false;
    let mut tabs = false;
    assert(s@.skip(0) =~= s@);
    while i < s.len() && (s[i] == ' ' || s[i] == '\t')
        invariant
            i <= s.len(),
            s.len() <= usize::MAX / 2,
            width <= 2 * i,
            indent_count(s@) == i + indent_count(s@.skip(i as int)),
            indent_width(s@) == width + indent_width(s@.skip(i as int)),
            forall|j: int| 0 <= j < i ==> is_indent_char(#[trigger] s@[j]),
            spaces == exists|j: int| 0 <= j < i && s@[j] == ' ',
            tabs == exists|j: int| 0 <= j < i && s@[j] == '\t',
        decreases s.len() - i,
    {
        assert(s@.skip(i as int).drop_first() =~= s@.skip(i + 1));
        if s[i] == ' ' {
            spaces = true;
            width = width + 1;
        } else {
            tabs = true;
            width = width + 2;
        }
        i = i + 1;
    }
    proof {
        lemma_indent_count_bound(s@);
        assert(indent_count(s@) == i);
    }
    Indent { width, count: i, has_spaces: spaces, has_tabs: tabs }
}

/// The line with leading indentation removed up to `width` columns (a tab
/// takes two columns); deeper indentation is kept.
pub open spec fn strip_indent_width(s: Seq<char>, width: nat) -> Seq<char>
    decreases s.len(),
{
    if width > 0 && s.len() > 0 && is_indent_char(s[0]) {
        let w: nat = if s[0] == '\t' {
            2
        } else {
            1
        };
        strip_indent_width(s.drop_first(), if width > w { (width - w) as nat } else { 0 })
    } else {
        s
    }
}

pub fn strip_indent(s: &Vec<char>, width: usize) -> (r: Vec<char>)
    ensures
        r@ == strip_indent_width(s@, width as nat),
{
    let mut i: usize = 0;
    let mut remaining = width;
    assert(s@.skip(0) =~= s@);
    while remaining > 0 && i < s.len() && (s[i] == ' ' || s[i] == '\t')
        invariant
            i <= s.len(),
            strip_indent_width(s@, width as nat) == strip_indent_width(
                s@.skip(i as int),
                remaining as nat,
            ),
        decreases s.len() - i,
    {
        assert(s@.skip(i as int).drop_first() =~= s@.skip(i + 1));
        let w: usize = if s[i] == '\t' {
            2
        } else {
            1
        };
        remaining = if remaining > w {
            remaining - w
        } else {
            0
        };
        i = i + 1;
    }
    subvec(s, i, s.len())
}

/// Index of the first whitespace char.
pub open spec fn find_ws(s: Seq<char>) -> Option<int>
    decreases s.len(),
{
    if s.len() == 0 {
        None
    } else if is_ws(s[0]) {
        Some(0)
    } else {
        match find_ws(s.drop_first()) {
            Some(i) => Some(i + 1),
            None => None,
        }
    }
}

pub proof fn lemma_find_ws(s: Seq<char>)
    ensures
        find_ws(s) matches Some(i) ==> 0 <= i < s.len() && is_ws(s[i]),
    decreases s.len(),
{
    if s.len() > 0 && !is_ws(s[0]) {
        lemma_find_ws(s.drop_first());
    }
}

pub fn chars_find_ws(s: &Vec<char>) -> (r: Option<usize>)
    ensures
        match r {
            Some(i) => find_ws(s@) == Some(i as int) && i < s.len(),
            None => find_ws(s@) is None,
        },
{
    let mut i: usize = 0;
    assert(s@.skip(0) =~= s@);
    while i < s.len()
        invariant
            i <= s.len(),
            find_ws(s@) == match find_ws(s@.skip(i as int)) {
                Some(k) => Some(k + i),
                None => None,
            },
        decreases s.len() - i,
    {
        if char_is_ws(s[i]) {
            return Some(i);
        }
        assert(s@.skip(i as int).drop_first() =~= s@.skip(i + 1));
        i = i + 1;
    }
    None
}

/// A directive body split into its name and its arguments: leading
/// whitespace skipped, the name runs to the first whitespace, the arguments
/// start after the whitespace that follows.
pub open spec fn split_directive_spec(d: Seq<char>) -> (Seq<char>, Seq<char>) {
    let t = trim_start(d);
    match find_ws(t) {
        Some(i) => (t.take(i), trim_start(t.skip(i))),
        None => (t, seq![]),
    }
}

pub fn split_directive(d: &Vec<char>) -> (r: (Vec<char>, Vec<char>))
    ensures
        (r.0@, r.1@) == split_directive_spec(d@),
{
    let t = chars_trim_start(d);
    match chars_find_ws(&t) {
        Some(i) => {
            let name = subvec(&t, 0, i);
            let rest = subvec(&t, i, t.len());
            let args = chars_trim_start(&rest);
            (name, args)
        },
        None => (t, Vec::new()),
    }
}

/// Words separated by runs of whitespace, as `str::split_whitespace`.
pub open spec fn ws_words_fold(s: Seq<char>) -> (Seq<Seq<char>>, Seq<char>)
    decreases s.len(),
{
    if s.len() == 0 {
        (seq![], seq![])
    } else {
        let (done, cur) = ws_words_fold(s.drop_last());
        if is_ws(s.last()) {
            if cur.len() > 0 {
                (done.push(cur), seq![])
            } else {
                (done, cur)
            }
        } else {
            (done, cur.push(s.last()))
        }
    }
}

pub open spec fn ws_words(s: Seq<char>) -> Seq<Seq<char>> {
    let (done, cur) = ws_words_fold(s);
    if cur.len() > 0 {
        done.push(cur)
    } else {
        done
    }
}

pub fn split_whitespace(s: &Vec<char>) -> (r: Vec<Vec<char>>)
    ensures
        r@.map_values(|x: Vec<char>| x@) == ws_words(s@),
{
    let mut done: Vec<Vec<char>> = Vec::new();
    let mut cur: Vec<char> = Vec::new();
    let mut i: usize = 0;
    assert(done@.map_values(|x: Vec<char>| x@) =~= seq![]);
    assert(cur@ =~= seq![]);
    while i < s.len()
        invariant
            i <= s.len(),
            ws_words_fold(s@.take(i as int)) == (done@.map_values(|x: Vec<char>| x@), cur@),
        decreases s.len() - i,
    {
        assert(s@.take(i + 1).drop_last() =~= s@.take(i as int));
        let c = s[i];
        if char_is_ws(c) {
            if cur.len() > 0 {
                let ghost before = done@.map_values(|x: Vec<char>| x@);
                let ghost cv = cur@;
                done.push(cur);
                cur = Vec::new();
                assert(done@.map_values(|x: Vec<char>| x@) =~= before.push(cv));
                assert(cur@ =~= seq![]);
            }
        } else {
            cur.push(c);
        }
        i = i + 1;
    }
    assert(s@.take(s.len() as int) =~= s@);
    if cur.len() > 0 {
        let ghost before = done@.map_values(|x: Vec<char>| x@);
        let ghost cv = cur@;
        done.push(cur);
        assert(done@.map_values(|x: Vec<char>| x@) =~= before.push(cv));
    }
    done
}

/// A value without its surrounding matching quotes (`'...'` or `"..."`).
pub open spec fn strip_matching_quotes_spec(v: Seq<char>) -> Seq<char> {
    if v.len() >= 2 && ((v[0] == '\'' && v.last() == '\'') || (v[0] == '"' && v.last() == '"')) {
        v.subrange(1, v.len() - 1)
    } else {
        v
    }
}

pub fn strip_matching_quotes(v: &Vec<char>) -> (r: Vec<char>)
    ensures
        r@ == strip_matching_quotes_spec(v@),
{
    let n = v.len();
    if n >= 2 && ((v[0] == '\'' && v[n - 1] == '\'') || (v[0] == '"' && v[n - 1] == '"')) {
        subvec(v, 1, n - 1)
    } else {
        v.clone()
    }
}

/// A value without one leading space.
pub open spec fn strip_one_leading_space_spec(v: Seq<char>) -> Seq<char> {
    if v.len() > 0 && v[0] == ' ' {
        v.drop_first()
    } else {
        v
    }
}

pub fn strip_one_leading_space(v: &Vec<char>) -> (r: Vec<char>)
    ensures
        r@ == strip_one_leading_space_spec(v@),
{
    if v.len() > 0 && v[0] == ' ' {
        subvec(v, 1, v.len())
    } else {
        v.clone()
    }
}

/// Where the expression splitter stands between two chars.
pub struct ExprState {
    pub parts: Seq<Seq<char>>,
    pub cur: Seq<char>,
    pub quote: Option<char>,
    pub escaped: bool,
}

pub open spec fn expr_step(st: ExprState, c: char) -> ExprState {
    if st.escaped {
        ExprState { cur: st.cur.push(c), escaped: false, ..st }
    } else if c == '\\' {
        ExprState { cur: st.cur.push(c), escaped: true, ..st }
    } else {
        match st.quote {
            Some(q) => if c == q {
                ExprState { quote: None, cur: st.cur.push(c), ..st }
            } else {
                ExprState { cur: st.cur.push(c), ..st }
            },
            None => if c == '\'' || c == '"' {
                ExprState { quote: Some(c), cur: st.cur.push(c), ..st }
            } else if c == ';' {
                let t = trim(st.cur);
                ExprState {
                    parts: if t.len() > 0 {
                        st.parts.push(t)
                    } else {
                        st.parts
                    },
                    cur: seq![],
                    ..st
                }
            } else {
                ExprState { cur: st.cur.push(c), ..st }
            },
        }
    }
}

pub open spec fn expr_fold(s: Seq<char>) -> ExprState
    decreases s.len(),
{
    if s.len() == 0 {
        ExprState { parts: seq![], cur: seq![], quote: None, escaped: false }
    } else {
        expr_step(expr_fold(s.drop_last()), s.last())
    }
}

/// The expressions of one task line: `;` outside quotes separates them,
/// each is trimmed, empty ones are dropped; a `\` keeps the next char.
pub open spec fn line_expressions(s: Seq<char>) -> Seq<Seq<char>> {
    let st = expr_fold(s);
    let t = trim(st.cur);
    if t.len() > 0 {
        st.parts.push(t)
    } else {
        st.parts
    }
}

pub fn split_line_expressions(text: &Vec<char>) -> (r: Vec<Vec<char>>)
    ensures
        r@.map_values(|x: Vec<char>| x@) == line_expressions(text@),
{
    let mut parts: Vec<Vec<char>> = Vec::new();
    let mut cur: Vec<char> = Vec::new();
    let mut quote: Option<char> = None;
    let mut escaped = false;
    let mut i: usize = 0;
    assert(parts@.map_values(|x: Vec<char>| x@) =~= seq![]);
    assert(cur@ =~= seq![]);
    while i < text.len()
        invariant
            i <= text.len(),
            expr_fold(text@.take(i as int)) == (ExprState {
                parts: parts@.map_values(|x: Vec<char>| x@),
                cur: cur@,
                quote,
                escaped,
            }),
        decreases text.len() - i,
    {
        assert(text@.take(i + 1).drop_last() =~= text@.take(i as int));
        let c = text[i];
        if escaped {
            cur.push(c);
            escaped = false;
        } else if c == '\\' {
            cur.push(c);
            escaped = true;
        } else {
            match quote {
                Some(q) => {
                    if c == q {
                        quote = None;
                    }
                    cur.push(c);
                },
                None => {
                    if c == '\'' || c == '"' {
                        quote = Some(c);
                        cur.push(c);
                    } else if c == ';' {
                        let t = chars_trim(&cur);
                        if t.len() > 0 {
                            let ghost before = parts@.map_values(|x: Vec<char>| x@);
                            let ghost tv = t@;
                            parts.push(t);
                            assert(parts@.map_values(|x: Vec<char>| x@) =~= before.push(tv));
                        }
                        cur = Vec::new();
                        assert(cur@ =~= seq![]);
                    } else {
                        cur.push(c);
                    }
                },
            }
        }
        i = i + 1;
    }
    assert(text@.take(text.len() as int) =~= text@);
    let t = chars_trim(&cur);
    if t.len() > 0 {
        let ghost before = parts@.map_values(|x: Vec<char>| x@);
        let ghost tv = t@;
        parts.push(t);
        assert(parts@.map_values(|x: Vec<char>| x@) =~= before.push(tv));
    }
    parts
}

/// Number of leading empty lines.
pub open spec fn leading_empty(lines: Seq<Seq<char>>) -> nat
    decreases lines.len(),
{
    if lines.len() > 0 && lines[0].len() == 0 {
        1 + leading_empty(lines.drop_first())
    } else {
        0
    }
}

/// Number of trailing empty lines.
pub open spec fn trailing_empty(lines: Seq<Seq<char>>) -> nat
    decreases lines.len(),
{
    if lines.len() > 0 && lines.last().len() == 0 {
        1 + trailing_empty(lines.drop_last())
    } else {
        0
    }
}

/// The lines joined with `\n`.
pub open spec fn join_lines(lines: Seq<Seq<char>>) -> Seq<char>
    decreases lines.len(),
{
    if lines.len() == 0 {
        seq![]
    } else if lines.len() == 1 {
        lines[0]
    } else {
        join_lines(lines.drop_last()) + seq!['\n'] + lines.last()
    }
}

/// Help text: the lines without leading and trailing empty lines, joined
/// with `\n`.
pub open spec fn finish_help_spec(lines: Seq<Seq<char>>) -> Seq<char> {
    let a = lines.skip(leading_empty(lines) as int);
    join_lines(a.take(a.len() - trailing_empty(a)))
}

proof fn lemma_leading_empty(lines: Seq<Seq<char>>)
    ensures
        leading_empty(lines) <= lines.len(),
    decreases lines.len(),
{
    if lines.len() > 0 && lines[0].len() == 0 {
        lemma_leading_empty(lines.drop_first());
    }
}

proof fn lemma_trailing_empty(lines: Seq<Seq<char>>)
    ensures
        trailing_empty(lines) <= lines.len(),
    decreases lines.len(),
{
    if lines.len() > 0 && lines.last().len() == 0 {
        lemma_trailing_empty(lines.drop_last());
    }
}

pub fn finish_help(lines: &Vec<Vec<char>>) -> (r: Vec<char>)
    ensures
        r@ == finish_help_spec(lines@.map_values(|x: Vec<char>| x@)),
{
    let ghost ls = lines@.map_values(|x: Vec<char>| x@);
    let mut lo: usize = 0;
    assert(ls.skip(0) =~= ls);
    while lo < lines.len() && lines[lo].len() == 0
        invariant
            lo <= lines.len(),
            ls == lines@.map_values(|x: Vec<char>| x@),
            leading_empty(ls) == lo + leading_empty(ls.skip(lo as int)),
        decreases lines.len() - lo,
    {
        assert(ls.skip(lo as int).drop_first() =~= ls.skip(lo + 1));
        lo = lo + 1;
    }
    let ghost a = ls.skip(lo as int);
    let mut hi = lines.len();
    assert(a.take(a.len() as int) =~= a);
    while hi > lo && lines[hi - 1].len() == 0
        invariant
            lo <= hi <= lines.len(),
            ls == lines@.map_values(|x: Vec<char>| x@),
            a == ls.skip(lo as int),
            trailing_empty(a) == (lines.len() - hi) + trailing_empty(a.take(hi - lo)),
        decreases hi,
    {
        assert(a.take(hi - lo).drop_last() =~= a.take(hi - lo - 1));
        hi = hi - 1;
    }
    proof {
        lemma_trailing_empty(a.take(hi - lo));
    }
    let ghost kept = a.take(hi - lo);
    assert(kept =~= a.take(a.len() - trailing_empty(a)));
    let mut out: Vec<char> = Vec::new();
    let mut k = lo;
    while k < hi
        invariant
            lo <= k <= hi <= lines.len(),
            ls == lines@.map_values(|x: Vec<char>| x@),
            kept == ls.subrange(lo as int, hi as int),
            out@ == join_lines(kept.take(k - lo)),
        decreases hi - k,
    {
        let ghost before = out@;
        if k > lo {
            out.push('\n');
        }
        crate::text::append(&mut out, &lines[k]);
        proof {
            let t = kept.take(k - lo + 1);
            assert(t.drop_last() =~= kept.take(k - lo));
            assert(t.last() == lines@[k as int]@);
            if k == lo {
                assert(out@ =~= join_lines(t));
            } else {
                assert(out@ =~= join_lines(t));
            }
        }
        k = k + 1;
    }
    assert(kept.take(hi - lo) =~= kept);
    out
}

} // verus!
