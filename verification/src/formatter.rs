//! `cj --format`: trailing blanks removed, indentation rewritten with spaces
//! (a tab is two columns, an odd width rounds down, the least indentation is
//! one level), and argument lists of task headers spaced as `name (A, B):`.
use vstd::prelude::*;

use crate::names::{split_chars, split_on};
use crate::scan::{indent_count, indent_width, leading_indent, source_lines, split_source_lines, lemma_source_lines_len};
use crate::names::lemma_split_on_nonempty;
use crate::scan::{is_indent_char, lines_fold, strip_cr};
use crate::text::{
    append, append_str, chars_trim, find_char, is_ws, lemma_find_char, lemma_find_char_first, str_chars, subvec,
    trim, trim_end, trim_start,
};

verus! {

/// Text with trailing spaces and tabs removed.
pub open spec fn trim_blank_end(s: Seq<char>) -> Seq<char>
    decreases s.len(),
{
    if s.len() > 0 && (s.last() == ' ' || s.last() == '\t') {
        trim_blank_end(s.drop_last())
    } else {
        s
    }
}

/// The indentation a line gets: at least one level, odd widths rounded down.
pub open spec fn normalize_indent_spec(width: nat) -> nat {
    if width <= 2 {
        2
    } else {
        (width - width % 2) as nat
    }
}

pub open spec fn spaces(n: nat) -> Seq<char> {
    Seq::new(n, |i: int| ' ')
}

/// Pieces joined with `, `.
pub open spec fn join_commas(parts: Seq<Seq<char>>) -> Seq<char>
    decreases parts.len(),
{
    if parts.len() == 0 {
        seq![]
    } else if parts.len() == 1 {
        parts[0]
    } else {
        join_commas(parts.drop_last()) + ", "@ + parts.last()
    }
}

pub open spec fn trimmed_all(parts: Seq<Seq<char>>) -> Seq<Seq<char>> {
    parts.map_values(|p: Seq<char>| trim(p))
}

/// `name ( A ,B ):` spaced as `name (A, B):`; other text as it is.
pub open spec fn header_spacing(c: Seq<char>) -> Seq<char> {
    if c.len() >= 2 && c.last() == ':' && c[0] != '@' {
        let body = trim_blank_end(c.drop_last());
        if body.len() > 0 && body.last() == ')' {
            match find_char(body, '(') {
                Some(i) => if trim(body.take(i)).len() > 0 {
                    trim(body.take(i)) + " ("@ + join_commas(
                        trimmed_all(split_on(body.subrange(i + 1, body.len() - 1), ',')),
                    ) + "):"@
                } else {
                    c
                },
                None => c,
            }
        } else {
            c
        }
    } else {
        c
    }
}

/// One formatted line, without its newline.
pub open spec fn format_line(line: Seq<char>) -> Seq<char> {
    let t = trim_blank_end(line);
    let w = indent_width(t);
    let c = header_spacing(t.skip(indent_count(t) as int));
    if t.len() == 0 {
        seq![]
    } else if w == 0 {
        c
    } else {
        spaces(normalize_indent_spec(w)) + c
    }
}

/// Lines, each formatted and followed by a newline.
pub open spec fn format_lines(lines: Seq<Seq<char>>) -> Seq<char>
    decreases lines.len(),
{
    if lines.len() == 0 {
        seq![]
    } else {
        format_lines(lines.drop_last()) + format_line(lines.last()) + "\n"@
    }
}

/// The formatted text of a taskfile.
pub open spec fn format_spec(source: Seq<char>) -> Seq<char> {
    if source.len() == 0 {
        seq![]
    } else {
        format_lines(source_lines(source))
    }
}

pub fn normalize_indent(width: usize) -> (r: usize)
    ensures
        r == normalize_indent_spec(width as nat),
{
    if width <= 2 {
        2
    } else {
        width - width % 2
    }
}

fn trim_blank_end_exec(s: &Vec<char>) -> (r: Vec<char>)
    ensures
        r@ == trim_blank_end(s@),
        r@.len() <= s@.len(),
{
    let mut n = s.len();
    assert(s@.take(n as int) =~= s@);
    while n > 0 && (s[n - 1] == ' ' || s[n - 1] == '\t')
        invariant
            n <= s.len(),
            trim_blank_end(s@) == trim_blank_end(s@.take(n as int)),
        decreases n,
    {
        assert(s@.take(n as int).drop_last() =~= s@.take(n - 1));
        n = n - 1;
    }
    let r = subvec(s, 0, n);
    assert(r@ =~= s@.take(n as int));
    r
}

fn push_spaces(out: &mut Vec<char>, n: usize)
    ensures
        final(out)@ == old(out)@ + spaces(n as nat),
{
    let ghost start = out@;
    let mut i: usize = 0;
    while i < n
        invariant
            i <= n,
            out@ == start + spaces(i as nat),
        decreases n - i,
    {
        out.push(' ');
        i = i + 1;
        assert(out@ =~= start + spaces(i as nat));
    }
}

fn header_spacing_exec(c: &Vec<char>) -> (r: Vec<char>)
    ensures
        r@ == header_spacing(c@),
{
    if !(c.len() >= 2 && c[c.len() - 1] == ':' && c[0] != '@') {
        return c.clone();
    }
    let head = subvec(c, 0, c.len() - 1);
    assert(head@ =~= c@.drop_last());
    let body = trim_blank_end_exec(&head);
    if !(body.len() > 0 && body[body.len() - 1] == ')') {
        return c.clone();
    }
    let i = match crate::text::chars_find(&body, '(') {
        Some(i) => i,
        None => {
            return c.clone();
        },
    };
    proof {
        lemma_find_char(body@, '(');
    }
    let name = chars_trim(&subvec(&body, 0, i));
    if name.len() == 0 {
        return c.clone();
    }
    assert(i < body.len() - 1) by {
        if i == body.len() - 1 {
            assert(body@[i as int] == '(');
        }
    }
    let inner = subvec(&body, i + 1, body.len() - 1);
    let parts = split_chars(&inner, ',');
    let ghost ps = split_on(inner@, ',');
    let ghost tp = trimmed_all(ps);
    let mut out = name;
    append_str(&mut out, " (");
    let ghost prefix = out@;
    let mut k: usize = 0;
    assert(tp.take(0) =~= seq![]);
    while k < parts.len()
        invariant
            k <= parts@.len(),
            parts@.len() == ps.len(),
            tp == trimmed_all(ps),
            forall|q: int| 0 <= q < parts@.len() ==> #[trigger] parts@[q]@ == ps[q],
            out@ == prefix + join_commas(tp.take(k as int)),
        decreases parts@.len() - k,
    {
        if k > 0 {
            append_str(&mut out, ", ");
        }
        let piece = chars_trim(&parts[k]);
        append(&mut out, &piece);
        assert(tp.take(k + 1).drop_last() =~= tp.take(k as int));
        assert(tp[k as int] == piece@);
        if k == 0 {
            assert(tp.take(1) =~= seq![tp[0]]);
        }
        assert(out@ =~= prefix + join_commas(tp.take(k + 1)));
        k = k + 1;
    }
    assert(tp.take(parts@.len() as int) =~= tp);
    append_str(&mut out, "):");
    out
}

/// One line formatted.
pub fn format_line_exec(line: &Vec<char>) -> (r: Vec<char>)
    requires
        line.len() <= usize::MAX / 2,
    ensures
        r@ == format_line(line@),
{
    let t = trim_blank_end_exec(line);
    if t.len() == 0 {
        return Vec::new();
    }
    let ind = leading_indent(&t);
    let content = subvec(&t, ind.count, t.len());
    let c = header_spacing_exec(&content);
    if ind.width == 0 {
        c
    } else {
        let mut out: Vec<char> = Vec::new();
        push_spaces(&mut out, normalize_indent(ind.width));
        append(&mut out, &c);
        assert(out@ =~= spaces(normalize_indent_spec(ind.width as nat)) + c@);
        out
    }
}

/// Formats a taskfile's text.
pub fn format_taskfile_source(source: &str) -> (r: String)
    requires
        source@.len() <= usize::MAX / 2,
    ensures
        r@ == format_spec(source@),
{
    let src = str_chars(source);
    if src.len() == 0 {
        return String::new();
    }
    let lines = split_source_lines(&src);
    let ghost lv = lines@.map_values(|x: Vec<char>| x@);
    proof {
        lemma_source_lines_len(src@);
    }
    let mut out: Vec<char> = Vec::new();
    let mut k: usize = 0;
    assert(lv.take(0) =~= seq![]);
    while k < lines.len()
        invariant
            k <= lines@.len(),
            lv == lines@.map_values(|x: Vec<char>| x@),
            lv == source_lines(src@),
            src@.len() <= usize::MAX / 2,
            forall|q: int| 0 <= q < lv.len() ==> #[trigger] lv[q].len() <= src@.len(),
            out@ == format_lines(lv.take(k as int)),
        decreases lines@.len() - k,
    {
        assert(lv[k as int] == lines@[k as int]@);
        assert(lines@[k as int]@.len() <= src@.len());
        let l = format_line_exec(&lines[k]);
        append(&mut out, &l);
        out.push('\n');
        assert(lv.take(k + 1).drop_last() =~= lv.take(k as int));
        assert(out@ =~= format_lines(lv.take(k + 1))) by {
            reveal_strlit("\n");
        }
        k = k + 1;
    }
    assert(lv.take(lines@.len() as int) =~= lv);
    crate::text::string_from(&out)
}

/// Text with no whitespace at either end.
pub open spec fn trimmed(s: Seq<char>) -> bool {
    s.len() == 0 || (!is_ws(s[0]) && !is_ws(s.last()))
}

proof fn lemma_trim_start_suffix(s: Seq<char>)
    ensures
        trim_start(s).len() <= s.len(),
        trim_start(s) == s.skip(s.len() - trim_start(s).len()),
        trim_start(s).len() > 0 ==> !is_ws(trim_start(s)[0]),
    decreases s.len(),
{
    if s.len() > 0 && is_ws(s[0]) {
        lemma_trim_start_suffix(s.drop_first());
        assert(s.drop_first().skip(s.drop_first().len() - trim_start(s).len()) =~= s.skip(
            s.len() - trim_start(s).len(),
        ));
    } else {
        assert(s.skip(0) =~= s);
    }
}

proof fn lemma_trim_end_prefix(s: Seq<char>)
    ensures
        trim_end(s).len() <= s.len(),
        trim_end(s) == s.take(trim_end(s).len() as int),
        trim_end(s).len() > 0 ==> !is_ws(trim_end(s).last()),
    decreases s.len(),
{
    if s.len() > 0 && is_ws(s.last()) {
        lemma_trim_end_prefix(s.drop_last());
        assert(s.drop_last().take(trim_end(s).len() as int) =~= s.take(trim_end(s).len() as int));
    } else {
        assert(s.take(s.len() as int) =~= s);
    }
}

/// Trimmed text: a piece of the text, with no whitespace at its ends.
pub(crate) proof fn lemma_trim_facts(s: Seq<char>)
    ensures
        trimmed(trim(s)),
        forall|c: char| #[trigger] trim(s).contains(c) ==> s.contains(c),
{
    let a = trim_start(s);
    lemma_trim_start_suffix(s);
    lemma_trim_end_prefix(a);
    let t = trim(s);
    if t.len() > 0 {
        assert(t[0] == a[0]);
    }
    assert forall|c: char| #[trigger] t.contains(c) implies s.contains(c) by {
        let i = choose|i: int| 0 <= i < t.len() && t[i] == c;
        assert(a[i] == c);
        assert(s[s.len() - a.len() + i] == c);
    }
}

pub(crate) proof fn lemma_trim_of_trimmed(s: Seq<char>)
    requires
        trimmed(s),
    ensures
        trim(s) == s,
{
}

/// A space before trimmed text is trimmed away.
proof fn lemma_trim_space_before(p: Seq<char>)
    requires
        trimmed(p),
    ensures
        trim(seq![' '] + p) == p,
{
    let q = seq![' '] + p;
    assert(q.drop_first() =~= p);
    assert(is_ws(' '));
    assert(trim_start(q) == trim_start(p));
    assert(trim_start(p) == p);
    assert(trim_end(p) == p);
}

/// A space after trimmed text is trimmed away.
proof fn lemma_trim_space_after(p: Seq<char>)
    requires
        trimmed(p),
        p.len() > 0,
    ensures
        trim(p + seq![' ']) == p,
{
    let q = p + seq![' '];
    assert(q[0] == p[0]);
    assert(q.drop_last() =~= p);
    assert(is_ws(' '));
    assert(trim_start(q) == q);
    assert(trim_end(q) == trim_end(p));
    assert(trim_end(p) == p);
}

/// `join_commas` read from the front.
proof fn lemma_join_commas_front(ps: Seq<Seq<char>>)
    requires
        ps.len() >= 2,
    ensures
        join_commas(ps) == ps[0] + ", "@ + join_commas(ps.drop_first()),
    decreases ps.len(),
{
    if ps.len() == 2 {
        assert(ps.drop_last() =~= seq![ps[0]]);
        assert(ps.drop_first() =~= seq![ps[1]]);
        assert(join_commas(ps.drop_last()) == ps[0]);
        assert(join_commas(ps.drop_first()) == ps[1]);
    } else {
        lemma_join_commas_front(ps.drop_last());
        let a = ps.drop_last();
        let b = ps.drop_first();
        assert(a.drop_first() =~= b.drop_last());
        assert(a[0] == ps[0]);
        assert(b.last() == ps.last());
        assert(join_commas(ps) == join_commas(a) + ", "@ + ps.last());
        assert(join_commas(b) == join_commas(b.drop_last()) + ", "@ + b.last());
        assert(join_commas(ps) =~= ps[0] + ", "@ + join_commas(ps.drop_first()));
    }
}

/// Splitting `x`, the separator, then `y`, where `x` has no separator.
proof fn lemma_split_at_first(x: Seq<char>, y: Seq<char>, sep: char)
    requires
        !x.contains(sep),
    ensures
        split_on(x + seq![sep] + y, sep) == seq![x] + split_on(y, sep),
{
    let s = x + seq![sep] + y;
    assert forall|j: int| 0 <= j < x.len() implies s[j] != sep by {
        assert(s[j] == x[j]);
    }
    lemma_find_char_first(s, sep, x.len() as int);
    assert(s.take(x.len() as int) =~= x);
    assert(s.skip(x.len() as int + 1) =~= y);
}

/// Trimmed pieces without commas, joined with `, ` (after an optional
/// space), split at commas and trimmed again, are the same pieces.
proof fn lemma_split_join_commas(ps: Seq<Seq<char>>, pad: bool)
    requires
        ps.len() > 0,
        forall|k: int| 0 <= k < ps.len() ==> trimmed(#[trigger] ps[k]) && !ps[k].contains(','),
    ensures
        trimmed_all(split_on((if pad { seq![' '] } else { seq![] }) + join_commas(ps), ',')) == ps,
    decreases ps.len(),
{
    let pre: Seq<char> = if pad { seq![' '] } else { seq![] };
    if ps.len() == 1 {
        let x = pre + ps[0];
        assert(join_commas(ps) == ps[0]);
        assert(!x.contains(',')) by {
            assert forall|i: int| 0 <= i < x.len() implies x[i] != ',' by {
                if pad && i == 0 {
                } else {
                    assert(x[i] == ps[0][i - pre.len()]);
                }
            }
        }
        lemma_find_char_first(x, ',', x.len() as int);
        assert(split_on(x, ',') == seq![x]);
        if pad {
            lemma_trim_space_before(ps[0]);
        } else {
            assert(x =~= ps[0]);
            lemma_trim_of_trimmed(ps[0]);
        }
        assert(trimmed_all(seq![x]) =~= ps);
    } else {
        lemma_join_commas_front(ps);
        let rest = ps.drop_first();
        let x = pre + ps[0];
        assert(!x.contains(',')) by {
            assert forall|i: int| 0 <= i < x.len() implies x[i] != ',' by {
                if pad && i == 0 {
                } else {
                    assert(x[i] == ps[0][i - pre.len()]);
                }
            }
        }
        let y = seq![' '] + join_commas(rest);
        reveal_strlit(", ");
        assert(", "@ =~= seq![',', ' ']);
        assert(pre + join_commas(ps) =~= x + seq![','] + y);
        lemma_split_at_first(x, y, ',');
        assert forall|k: int| 0 <= k < rest.len() implies trimmed(#[trigger] rest[k]) && !rest[k].contains(',') by {
            assert(rest[k] == ps[k + 1]);
        }
        lemma_split_join_commas(rest, true);
        if pad {
            lemma_trim_space_before(ps[0]);
        } else {
            assert(x =~= ps[0]);
            lemma_trim_of_trimmed(ps[0]);
        }
        assert(trimmed_all(seq![x] + split_on(y, ',')) =~= seq![trim(x)] + trimmed_all(split_on(y, ',')));
        assert(seq![ps[0]] + rest =~= ps);
    }
}

/// No piece of a split holds the separator.
proof fn lemma_split_pieces(s: Seq<char>, sep: char)
    ensures
        forall|k: int| 0 <= k < split_on(s, sep).len() ==> !(#[trigger] split_on(s, sep)[k]).contains(sep),
    decreases s.len(),
{
    lemma_find_char(s, sep);
    match find_char(s, sep) {
        None => {},
        Some(i) => {
            lemma_split_pieces(s.skip(i + 1), sep);
            let head = s.take(i);
            assert(!head.contains(sep)) by {
                assert forall|j: int| 0 <= j < head.len() implies head[j] != sep by {
                    assert(head[j] == s[j]);
                }
            }
            let r = split_on(s, sep);
            assert(r == seq![head] + split_on(s.skip(i + 1), sep));
            assert forall|k: int| 0 <= k < r.len() implies !(#[trigger] r[k]).contains(sep) by {
                if k > 0 {
                    assert(r[k] == split_on(s.skip(i + 1), sep)[k - 1]);
                }
            }
        },
    }
}

/// The trimmed pieces of a split: trimmed, without the separator.
proof fn lemma_trimmed_pieces(s: Seq<char>, sep: char)
    ensures
        trimmed_all(split_on(s, sep)).len() > 0,
        forall|k: int| 0 <= k < trimmed_all(split_on(s, sep)).len() ==> trimmed(
            #[trigger] trimmed_all(split_on(s, sep))[k],
        ) && !trimmed_all(split_on(s, sep))[k].contains(sep),
{
    lemma_split_on_nonempty(s, sep);
    lemma_split_pieces(s, sep);
    let ps = split_on(s, sep);
    assert forall|k: int| 0 <= k < trimmed_all(ps).len() implies trimmed(#[trigger] trimmed_all(ps)[k])
        && !trimmed_all(ps)[k].contains(sep) by {
        lemma_trim_facts(ps[k]);
        assert(!ps[k].contains(sep));
    }
}

/// Header spacing changes nothing the second time.
pub proof fn lemma_header_spacing_idempotent(c: Seq<char>)
    ensures
        header_spacing(header_spacing(c)) == header_spacing(c),
{
    let r = header_spacing(c);
    if r != c {
        let body = trim_blank_end(c.drop_last());
        let i = find_char(body, '(')->0;
        lemma_find_char(body, '(');
        let name = trim(body.take(i));
        let ps = trimmed_all(split_on(body.subrange(i + 1, body.len() - 1), ','));
        let j = join_commas(ps);
        reveal_strlit(" (");
        reveal_strlit("):");
        assert(r == name + " ("@ + j + "):"@);
        lemma_trim_facts(body.take(i));
        assert(!body.take(i).contains('(')) by {
            assert forall|q: int| 0 <= q < body.take(i).len() implies body.take(i)[q] != '(' by {
                assert(body.take(i)[q] == body[q]);
            }
        }
        assert(!name.contains('('));
        if r[0] != '@' {
            let body2 = r.drop_last() ;
            assert(body2 =~= name + seq![' ', '('] + j + seq![')']);
            assert(trim_blank_end(body2) == body2);
            assert forall|q: int| 0 <= q < name.len() + 1 implies body2[q] != '(' by {
                if q < name.len() {
                    assert(body2[q] == name[q]);
                }
            }
            lemma_find_char_first(body2, '(', name.len() as int + 1);
            assert(body2.take(name.len() as int + 1) =~= name + seq![' ']);
            lemma_trim_space_after(name);
            assert(body2.subrange(name.len() as int + 2, body2.len() - 1) =~= j);
            lemma_trimmed_pieces(body.subrange(i + 1, body.len() - 1), ',');
            lemma_split_join_commas(ps, false);
            assert(seq![] + j =~= j);
            assert(header_spacing(r) == name + " ("@ + join_commas(ps) + "):"@);
        }
    }
}

/// What is left after trailing blanks are removed ends in no blank.
proof fn lemma_trim_blank_end(s: Seq<char>)
    ensures
        trim_blank_end(s).len() <= s.len(),
        trim_blank_end(s).len() > 0 ==> !is_indent_char(trim_blank_end(s).last()),
        trim_blank_end(s) == s.take(trim_blank_end(s).len() as int),
    decreases s.len(),
{
    if s.len() > 0 && (s.last() == ' ' || s.last() == '\t') {
        lemma_trim_blank_end(s.drop_last());
        assert(s.drop_last().take(trim_blank_end(s).len() as int) =~= s.take(trim_blank_end(s).len() as int));
    } else {
        assert(s.take(s.len() as int) =~= s);
    }
}

/// Leading spaces before text that starts with no blank.
proof fn lemma_indent_of_spaces(n: nat, c: Seq<char>)
    requires
        c.len() == 0 || !is_indent_char(c[0]),
    ensures
        indent_count(spaces(n) + c) == n,
        indent_width(spaces(n) + c) == n,
        (spaces(n) + c).skip(n as int) == c,
    decreases n,
{
    let s = spaces(n) + c;
    if n > 0 {
        assert(s[0] == ' ');
        assert(s.drop_first() =~= spaces((n - 1) as nat) + c);
        lemma_indent_of_spaces((n - 1) as nat, c);
    } else {
        assert(s =~= c);
    }
    assert(s.skip(n as int) =~= c);
}

/// The indentation ends before a char that is no blank; no indentation
/// chars means no width.
proof fn lemma_indent_end(s: Seq<char>)
    ensures
        indent_count(s) <= s.len(),
        indent_count(s) < s.len() ==> !is_indent_char(s[indent_count(s) as int]),
        s.len() > 0 && !is_indent_char(s.last()) ==> indent_count(s) < s.len(),
        (indent_width(s) == 0) == (indent_count(s) == 0),
    decreases s.len(),
{
    if s.len() > 0 && is_indent_char(s[0]) {
        lemma_indent_end(s.drop_first());
        if indent_count(s) < s.len() {
            assert(s[indent_count(s) as int] == s.drop_first()[indent_count(s.drop_first()) as int]);
        }
        if s.len() > 1 {
            assert(s.last() == s.drop_first().last());
        }
    }
}

/// Normalizing a normalized width changes nothing.
proof fn lemma_normalize_twice(w: nat)
    requires
        w > 0,
    ensures
        normalize_indent_spec(normalize_indent_spec(w)) == normalize_indent_spec(w),
        normalize_indent_spec(w) > 0,
{
    if w > 2 {
        assert((w - w % 2) % 2 == 0);
    }
}

/// What header spacing gives a text without blanks at its ends: no blank
/// at either end.
proof fn lemma_header_spacing_ends(x: Seq<char>)
    requires
        x.len() > 0,
        !is_indent_char(x[0]),
        !is_indent_char(x.last()),
    ensures
        header_spacing(x).len() > 0,
        !is_indent_char(header_spacing(x)[0]),
        !is_indent_char(header_spacing(x).last()),
{
    let r = header_spacing(x);
    if r != x {
        let body = trim_blank_end(x.drop_last());
        let i = find_char(body, '(')->0;
        let name = trim(body.take(i));
        lemma_trim_facts(body.take(i));
        reveal_strlit(" (");
        reveal_strlit("):");
        let ps = trimmed_all(split_on(body.subrange(i + 1, body.len() - 1), ','));
        assert(r == name + " ("@ + join_commas(ps) + "):"@);
        assert(r[0] == name[0]);
        assert(r.last() == ':');
    }
}

/// Formatting a formatted line changes nothing.
pub proof fn lemma_format_line_idempotent(line: Seq<char>)
    ensures
        format_line(format_line(line)) == format_line(line),
{
    let t = trim_blank_end(line);
    lemma_trim_blank_end(line);
    if t.len() > 0 {
        lemma_indent_end(t);
        let ic = indent_count(t);
        let w = indent_width(t);
        let x = t.skip(ic as int);
        assert(x[0] == t[ic as int]);
        assert(x.last() == t.last());
        let c = header_spacing(x);
        lemma_header_spacing_ends(x);
        lemma_header_spacing_idempotent(x);
        let out = format_line(line);
        if w == 0 {
            assert(out == c);
            lemma_trim_blank_end(c);
            assert(trim_blank_end(c) == c);
            lemma_indent_end(c);
            assert(indent_count(c) == 0);
            assert(c.skip(0) =~= c);
        } else {
            let n = normalize_indent_spec(w);
            lemma_normalize_twice(w);
            assert(out == spaces(n) + c);
            assert(out.last() == c.last());
            assert(trim_blank_end(out) == out);
            lemma_indent_of_spaces(n, c);
        }
    }
}

/// Pieces of a text that lacks a char lack it too.
proof fn lemma_split_lacks(s: Seq<char>, sep: char, d: char)
    requires
        !s.contains(d),
    ensures
        forall|k: int| 0 <= k < split_on(s, sep).len() ==> !(#[trigger] split_on(s, sep)[k]).contains(d),
    decreases s.len(),
{
    lemma_find_char(s, sep);
    match find_char(s, sep) {
        None => {},
        Some(i) => {
            let rest = s.skip(i + 1);
            assert(!rest.contains(d)) by {
                assert forall|j: int| 0 <= j < rest.len() implies rest[j] != d by {
                    assert(rest[j] == s[j + i + 1]);
                }
            }
            lemma_split_lacks(rest, sep, d);
            let head = s.take(i);
            assert(!head.contains(d)) by {
                assert forall|j: int| 0 <= j < head.len() implies head[j] != d by {
                    assert(head[j] == s[j]);
                }
            }
            let r = split_on(s, sep);
            assert(r == seq![head] + split_on(rest, sep));
            assert forall|k: int| 0 <= k < r.len() implies !(#[trigger] r[k]).contains(d) by {
                if k > 0 {
                    assert(r[k] == split_on(rest, sep)[k - 1]);
                }
            }
        },
    }
}

/// Pieces that lack a char, joined with `, `, lack it.
proof fn lemma_join_commas_lacks(ps: Seq<Seq<char>>, d: char)
    requires
        d != ',' && d != ' ',
        forall|k: int| 0 <= k < ps.len() ==> !(#[trigger] ps[k]).contains(d),
    ensures
        !join_commas(ps).contains(d),
    decreases ps.len(),
{
    if ps.len() > 1 {
        assert forall|k: int| 0 <= k < ps.drop_last().len() implies !(#[trigger] ps.drop_last()[k]).contains(d) by {
            assert(ps.drop_last()[k] == ps[k]);
        }
        lemma_join_commas_lacks(ps.drop_last(), d);
        let a = join_commas(ps.drop_last());
        let j = join_commas(ps);
        reveal_strlit(", ");
        assert(j == a + ", "@ + ps.last());
        assert(!ps.last().contains(d));
        assert forall|i: int| 0 <= i < j.len() implies j[i] != d by {
            if i < a.len() {
                assert(j[i] == a[i]);
            } else if i >= a.len() + 2 {
                assert(j[i] == ps.last()[i - a.len() - 2]);
            }
        }
    } else if ps.len() == 1 {
        assert(!ps[0].contains(d));
    }
}

/// A formatted line holds no char that the line lacks, other than the
/// blanks and punctuation of indentation and header spacing.
proof fn lemma_format_line_lacks(line: Seq<char>, d: char)
    requires
        !line.contains(d),
        d != ' ' && d != '(' && d != ')' && d != ',' && d != ':',
    ensures
        !format_line(line).contains(d),
{
    let t = trim_blank_end(line);
    lemma_trim_blank_end(line);
    assert(!t.contains(d)) by {
        assert forall|i: int| 0 <= i < t.len() implies t[i] != d by {
            assert(t[i] == line[i]);
        }
    }
    if t.len() > 0 {
        let x = t.skip(indent_count(t) as int);
        lemma_indent_end(t);
        assert(!x.contains(d)) by {
            assert forall|i: int| 0 <= i < x.len() implies x[i] != d by {
                assert(x[i] == t[i + indent_count(t)]);
            }
        }
        let c = header_spacing(x);
        if c != x {
            let body = trim_blank_end(x.drop_last());
            lemma_trim_blank_end(x.drop_last());
            assert(!body.contains(d)) by {
                assert forall|i: int| 0 <= i < body.len() implies body[i] != d by {
                    assert(body[i] == x[i]);
                }
            }
            let i = find_char(body, '(')->0;
            lemma_find_char(body, '(');
            let name = trim(body.take(i));
            lemma_trim_facts(body.take(i));
            assert(!body.take(i).contains(d)) by {
                assert forall|q: int| 0 <= q < body.take(i).len() implies body.take(i)[q] != d by {
                    assert(body.take(i)[q] == body[q]);
                }
            }
            let inner = body.subrange(i + 1, body.len() - 1);
            assert(!inner.contains(d)) by {
                assert forall|q: int| 0 <= q < inner.len() implies inner[q] != d by {
                    assert(inner[q] == body[q + i + 1]);
                }
            }
            lemma_split_lacks(inner, ',', d);
            let ps = trimmed_all(split_on(inner, ','));
            assert forall|k: int| 0 <= k < ps.len() implies !(#[trigger] ps[k]).contains(d) by {
                lemma_trim_facts(split_on(inner, ',')[k]);
            }
            lemma_join_commas_lacks(ps, d);
            let j = join_commas(ps);
            reveal_strlit(" (");
            reveal_strlit("):");
            assert(c == name + " ("@ + j + "):"@);
            assert(" ("@ =~= seq![' ', '(']);
            assert("):"@ =~= seq![')', ':']);
            assert(!name.contains(d));
            assert(!j.contains(d));
            assert forall|q: int| 0 <= q < c.len() implies c[q] != d by {
                if q < name.len() {
                    assert(c[q] == name[q]);
                    assert(name[q] != d);
                } else if q == name.len() {
                    assert(c[q] == ' ');
                } else if q == name.len() + 1 {
                    assert(c[q] == '(');
                } else if q < name.len() + 2 + j.len() {
                    assert(c[q] == j[q - name.len() - 2]);
                    assert(j[q - name.len() - 2] != d);
                } else if q == name.len() + 2 + j.len() {
                    assert(c[q] == ')');
                } else {
                    assert(c[q] == ':');
                }
            }
        }
        let out = format_line(line);
        assert forall|q: int| 0 <= q < out.len() implies out[q] != d by {
            if indent_width(t) != 0 {
                let n = normalize_indent_spec(indent_width(t));
                assert(out == spaces(n) + c);
                if q >= n {
                    assert(out[q] == c[q - n]);
                }
            }
        }
    }
}

/// A formatted line that ends in a carriage return comes from a line that
/// does so once its trailing blanks are removed.
proof fn lemma_format_line_last(line: Seq<char>)
    ensures
        format_line(line).len() > 0 ==> trim_blank_end(line).len() > 0 && (format_line(line).last() == ':'
            || format_line(line).last() == trim_blank_end(line).last()),
{
    let t = trim_blank_end(line);
    lemma_trim_blank_end(line);
    if t.len() > 0 {
        lemma_indent_end(t);
        let x = t.skip(indent_count(t) as int);
        assert(x.last() == t.last());
        assert(x[0] == t[indent_count(t) as int]);
        lemma_header_spacing_ends(x);
        let c = header_spacing(x);
        if c != x {
            let body = trim_blank_end(x.drop_last());
            let i = find_char(body, '(')->0;
            let name = trim(body.take(i));
            let ps = trimmed_all(split_on(body.subrange(i + 1, body.len() - 1), ','));
            reveal_strlit(" (");
            reveal_strlit("):");
            assert(c == name + " ("@ + join_commas(ps) + "):"@);
        }
        if indent_width(t) != 0 {
            let n = normalize_indent_spec(indent_width(t));
            assert(format_line(line) == spaces(n) + c);
        }
    }
}

/// Lines, each followed by a newline.
pub open spec fn lines_text(ls: Seq<Seq<char>>) -> Seq<char>
    decreases ls.len(),
{
    if ls.len() == 0 {
        seq![]
    } else {
        lines_text(ls.drop_last()) + ls.last() + "\n"@
    }
}

/// Reading a line with no newline after finished lines.
proof fn lemma_lines_fold_line(x: Seq<char>, l: Seq<char>)
    requires
        lines_fold(x).1 == Seq::<char>::empty(),
        !l.contains('\n'),
    ensures
        lines_fold(x + l) == (lines_fold(x).0, l),
    decreases l.len(),
{
    if l.len() == 0 {
        assert(x + l =~= x);
    } else {
        let l0 = l.drop_last();
        assert(!l0.contains('\n')) by {
            assert forall|i: int| 0 <= i < l0.len() implies l0[i] != '\n' by {
                assert(l0[i] == l[i]);
            }
        }
        lemma_lines_fold_line(x, l0);
        assert((x + l).drop_last() =~= x + l0);
        assert((x + l).last() == l.last());
        assert(l0.push(l.last()) =~= l);
    }
}

/// The lines of lines each followed by a newline are those lines, when
/// none holds a newline or ends in a carriage return.
proof fn lemma_lines_text_reads_back(ls: Seq<Seq<char>>)
    requires
        forall|k: int| 0 <= k < ls.len() ==> !(#[trigger] ls[k]).contains('\n') && !(ls[k].len() > 0
            && ls[k].last() == '\r'),
    ensures
        lines_fold(lines_text(ls)) == (ls, Seq::<char>::empty()),
        source_lines(lines_text(ls)) == ls,
    decreases ls.len(),
{
    if ls.len() == 0 {
        assert(lines_fold(seq![]) == (Seq::<Seq<char>>::empty(), Seq::<char>::empty()));
        assert(ls =~= Seq::<Seq<char>>::empty());
    } else {
        let p = ls.drop_last();
        assert forall|k: int| 0 <= k < p.len() implies !(#[trigger] p[k]).contains('\n') && !(p[k].len() > 0
            && p[k].last() == '\r') by {
            assert(p[k] == ls[k]);
        }
        lemma_lines_text_reads_back(p);
        let l = ls.last();
        lemma_lines_fold_line(lines_text(p), l);
        reveal_strlit("\n");
        let whole = lines_text(ls);
        assert(whole == lines_text(p) + l + seq!['\n']);
        assert(whole.drop_last() =~= lines_text(p) + l);
        assert(strip_cr(l) == l);
        assert(p.push(l) =~= ls);
    }
}

pub open spec fn formatted_all(ls: Seq<Seq<char>>) -> Seq<Seq<char>> {
    ls.map_values(|l: Seq<char>| format_line(l))
}

proof fn lemma_format_lines_text(ls: Seq<Seq<char>>)
    ensures
        format_lines(ls) == lines_text(formatted_all(ls)),
    decreases ls.len(),
{
    if ls.len() > 0 {
        lemma_format_lines_text(ls.drop_last());
        assert(formatted_all(ls).drop_last() =~= formatted_all(ls.drop_last()));
    }
}

proof fn lemma_format_lines_twice(ls: Seq<Seq<char>>)
    ensures
        format_lines(formatted_all(ls)) == format_lines(ls),
    decreases ls.len(),
{
    if ls.len() > 0 {
        lemma_format_lines_twice(ls.drop_last());
        assert(formatted_all(ls).drop_last() =~= formatted_all(ls.drop_last()));
        lemma_format_line_idempotent(ls.last());
    }
}

proof fn lemma_lines_fold_no_newline(s: Seq<char>)
    ensures
        forall|k: int| 0 <= k < lines_fold(s).0.len() ==> !(#[trigger] lines_fold(s).0[k]).contains('\n'),
        !lines_fold(s).1.contains('\n'),
    decreases s.len(),
{
    if s.len() > 0 {
        lemma_lines_fold_no_newline(s.drop_last());
        let (done, cur) = lines_fold(s.drop_last());
        if s.last() == '\n' {
            let l = strip_cr(strip_cr(cur));
            assert(!l.contains('\n')) by {
                assert forall|i: int| 0 <= i < l.len() implies l[i] != '\n' by {
                    assert(l[i] == cur[i]);
                }
            }
            assert forall|k: int| 0 <= k < done.push(l).len() implies !(#[trigger] done.push(l)[k]).contains('\n') by {
                if k < done.len() {
                    assert(done.push(l)[k] == done[k]);
                }
            }
        } else {
            assert forall|i: int| 0 <= i < cur.push(s.last()).len() implies cur.push(s.last())[i] != '\n' by {
                if i < cur.len() {
                    assert(cur.push(s.last())[i] == cur[i]);
                }
            }
        }
    }
}

/// Whether a line ends in a carriage return once its trailing blanks are
/// removed: the one kind of line that formatting twice changes again.
pub open spec fn ends_in_stray_cr(line: Seq<char>) -> bool {
    trim_blank_end(line).len() > 0 && trim_blank_end(line).last() == '\r'
}

/// Formatting a formatted taskfile changes nothing, where no line ends in a
/// carriage return once its trailing blanks are removed.
pub proof fn lemma_format_idempotent(source: Seq<char>)
    requires
        forall|k: int| 0 <= k < source_lines(source).len() ==> !ends_in_stray_cr(#[trigger] source_lines(source)[k]),
    ensures
        format_spec(format_spec(source)) == format_spec(source),
{
    if source.len() > 0 {
        let ls = source_lines(source);
        let fs = formatted_all(ls);
        lemma_format_lines_text(ls);
        let (done, cur) = lines_fold(source);
        lemma_lines_fold_no_newline(source);
        assert forall|k: int| 0 <= k < ls.len() implies !(#[trigger] ls[k]).contains('\n') by {
            if cur.len() > 0 && k == ls.len() - 1 {
                let l = strip_cr(cur);
                assert(ls[k] == l);
                assert forall|i: int| 0 <= i < l.len() implies l[i] != '\n' by {
                    assert(l[i] == cur[i]);
                }
            } else {
                assert(ls[k] == done[k]);
            }
        }
        assert forall|k: int| 0 <= k < fs.len() implies !(#[trigger] fs[k]).contains('\n') && !(fs[k].len() > 0
            && fs[k].last() == '\r') by {
            lemma_format_line_lacks(ls[k], '\n');
            lemma_format_line_last(ls[k]);
            assert(!ends_in_stray_cr(ls[k]));
        }
        lemma_lines_text_reads_back(fs);
        let f = format_spec(source);
        assert(f == lines_text(fs));
        if f.len() > 0 {
            assert(source_lines(f) == fs);
            lemma_format_lines_twice(ls);
        }
    }
}


/// The indentation that a formatted line gets from its width: none for an
/// unindented line, else at least one level with odd widths rounded down.
pub open spec fn formatted_indent(width: nat) -> nat {
    if width == 0 {
        0
    } else {
        normalize_indent_spec(width)
    }
}

/// A line without `(` as the formatter writes it: trailing spaces and tabs
/// removed, a blank line left empty, else its leading spaces and tabs
/// replaced by `formatted_indent` spaces; then a newline.
pub open spec fn plain_formatted_line(line: Seq<char>) -> Seq<char> {
    let t = trim_blank_end(line);
    if t.len() == 0 {
        "\n"@
    } else {
        spaces(formatted_indent(indent_width(t))) + t.skip(indent_count(t) as int) + "\n"@
    }
}

pub open spec fn plain_formatted_lines(lines: Seq<Seq<char>>) -> Seq<char>
    decreases lines.len(),
{
    if lines.len() == 0 {
        seq![]
    } else {
        plain_formatted_lines(lines.drop_last()) + plain_formatted_line(lines.last())
    }
}

proof fn lemma_trim_blank_end_prefix(s: Seq<char>)
    ensures
        trim_blank_end(s) == s.take(trim_blank_end(s).len() as int),
        trim_blank_end(s).len() <= s.len(),
    decreases s.len(),
{
    if s.len() > 0 && (s.last() == ' ' || s.last() == '\t') {
        lemma_trim_blank_end_prefix(s.drop_last());
        assert(s.drop_last().take(trim_blank_end(s).len() as int) =~= s.take(trim_blank_end(s).len() as int));
    } else {
        assert(s.take(s.len() as int) =~= s);
    }
}

proof fn lemma_lacks_sub(s: Seq<char>, t: Seq<char>, off: int, d: char)
    requires
        !s.contains(d),
        0 <= off,
        off + t.len() <= s.len(),
        forall|i: int| 0 <= i < t.len() ==> t[i] == s[i + off],
    ensures
        !t.contains(d),
{
    if t.contains(d) {
        let i = choose|i: int| 0 <= i < t.len() && t[i] == d;
        assert(s[i + off] == d);
    }
}

/// A header without `(` keeps its spacing.
proof fn lemma_header_spacing_plain(c: Seq<char>)
    requires
        !c.contains('('),
    ensures
        header_spacing(c) == c,
{
    if c.len() >= 2 && c.last() == ':' && c[0] != '@' {
        let body = trim_blank_end(c.drop_last());
        lemma_trim_blank_end_prefix(c.drop_last());
        lemma_lacks_sub(c, body, 0, '(');
        lemma_find_char(body, '(');
    }
}

proof fn lemma_lines_fold_lack(s: Seq<char>, d: char)
    requires
        !s.contains(d),
    ensures
        forall|k: int| 0 <= k < lines_fold(s).0.len() ==> !(#[trigger] lines_fold(s).0[k]).contains(d),
        !lines_fold(s).1.contains(d),
    decreases s.len(),
{
    if s.len() > 0 {
        let p = s.drop_last();
        lemma_lacks_sub(s, p, 0, d);
        lemma_lines_fold_lack(p, d);
        let (done, cur) = lines_fold(p);
        assert(s[s.len() - 1] == s.last());
        let c1 = strip_cr(cur);
        lemma_lacks_sub(cur, c1, 0, d);
        let c2 = strip_cr(c1);
        lemma_lacks_sub(c1, c2, 0, d);
        if s.last() != '\n' {
            if cur.push(s.last()).contains(d) {
                let i = choose|i: int| 0 <= i < cur.push(s.last()).len() && cur.push(s.last())[i] == d;
                if i < cur.len() {
                    assert(cur[i] == d);
                }
            }
        }
    }
}

/// The lines of a text without a char hold none of it.
pub proof fn lemma_source_lines_lack(s: Seq<char>, d: char)
    requires
        !s.contains(d),
    ensures
        forall|k: int| 0 <= k < source_lines(s).len() ==> !(#[trigger] source_lines(s)[k]).contains(d),
{
    lemma_lines_fold_lack(s, d);
    let (done, cur) = lines_fold(s);
    lemma_lacks_sub(cur, strip_cr(cur), 0, d);
}

proof fn lemma_plain_line(line: Seq<char>)
    requires
        !line.contains('('),
    ensures
        format_line(line) + "\n"@ == plain_formatted_line(line),
{
    let t = trim_blank_end(line);
    lemma_trim_blank_end_prefix(line);
    lemma_lacks_sub(line, t, 0, '(');
    let k = indent_count(t) as int;
    if t.len() > 0 {
        lemma_indent_count_le(t);
        lemma_lacks_sub(t, t.skip(k), k, '(');
        lemma_header_spacing_plain(t.skip(k));
    }
}

proof fn lemma_indent_count_le(s: Seq<char>)
    ensures
        indent_count(s) <= s.len(),
    decreases s.len(),
{
    if s.len() > 0 && is_indent_char(s[0]) {
        lemma_indent_count_le(s.drop_first());
    }
}

proof fn lemma_plain_lines(lines: Seq<Seq<char>>)
    requires
        forall|k: int| 0 <= k < lines.len() ==> !(#[trigger] lines[k]).contains('('),
    ensures
        format_lines(lines) == plain_formatted_lines(lines),
    decreases lines.len(),
{
    if lines.len() > 0 {
        lemma_plain_lines(lines.drop_last());
        lemma_plain_line(lines.last());
        assert(format_lines(lines) =~= format_lines(lines.drop_last()) + (format_line(lines.last()) + "\n"@));
    }
}

/// What the formatter does to a taskfile without `(` (so without argument
/// lists to respace): each line of the source, read as `str::lines` reads
/// it, becomes `plain_formatted_line`, and an empty source stays empty.
pub proof fn lemma_format_plain_source_per_line(source: Seq<char>)
    requires
        !source.contains('('),
    ensures
        format_spec(source) == if source.len() == 0 {
            Seq::<char>::empty()
        } else {
            plain_formatted_lines(source_lines(source))
        },
{
    if source.len() > 0 {
        lemma_source_lines_lack(source, '(');
        lemma_plain_lines(source_lines(source));
    }
}


/// Formatting a formatted taskfile changes nothing, for every text without
/// a carriage return.
pub proof fn lemma_format_idempotent_without_cr(source: Seq<char>)
    requires
        !source.contains('\r'),
    ensures
        format_spec(format_spec(source)) == format_spec(source),
{
    lemma_source_lines_lack(source, '\r');
    let ls = source_lines(source);
    assert forall|k: int| 0 <= k < ls.len() implies !ends_in_stray_cr(#[trigger] ls[k]) by {
        let t = trim_blank_end(ls[k]);
        lemma_trim_blank_end_prefix(ls[k]);
        lemma_lacks_sub(ls[k], t, 0, '\r');
        if t.len() > 0 {
            assert(t[t.len() - 1] == t.last());
        }
    }
    lemma_format_idempotent(source);
}

/// The indentation rule spelled out: an unindented line stays so, widths
/// one and two become two spaces, and a wider indentation keeps its width
/// rounded down to an even number.
pub proof fn lemma_formatted_indent_rule(w: nat)
    ensures
        w == 0 ==> formatted_indent(w) == 0,
        (w == 1 || w == 2) ==> formatted_indent(w) == 2,
        w > 2 ==> formatted_indent(w) == w - w % 2,
{
}

/// A formatted plain line spelled out: `line` with trailing spaces and tabs
/// removed is `t`; a blank `t` gives a bare newline; else `t`'s leading run
/// of spaces and tabs (width one per space, two per tab) becomes
/// `formatted_indent` of its width in spaces, followed by the rest of `t`
/// and a newline.
pub proof fn lemma_plain_formatted_line_rule(line: Seq<char>)
    ensures
        ({
            let t = trim_blank_end(line);
            &&& t.len() == 0 ==> plain_formatted_line(line) == "\n"@
            &&& t.len() > 0 ==> plain_formatted_line(line) == Seq::new(formatted_indent(indent_width(t)), |i: int| ' ')
                + t.skip(indent_count(t) as int) + "\n"@
        }),
{
}

} // verus!
