//! `cj --auto`: the tasks that a Makefile, a Justfile, `package.json` or
//! `deno.json` declare, turned into taskfile tasks.
use serde_json::Value;
use vstd::prelude::*;

use crate::command_text::{shell_quoted, shlex_try_quote};
use crate::help_output::{lines_view, text_lines, text_lines_exec};
use crate::error::CjError;
use crate::task_file::{parse_task_file, parse_task_file_spec, FileModel, TaskFile, TaskModel};
use crate::names::{task_name_error, validate_task_name};
use crate::scan::{source_lines, split_source_lines, split_whitespace, ws_words};
use crate::semver::{
    compare_text, lemma_order_text_equal, lemma_order_text_flip, lemma_order_text_trans,
    order_text, Precedence,
};
use crate::text::{
    append, append_str, char_is_ascii_alnum, chars_contains, chars_find, chars_trim_start,
    decimal, digit_char, ends_with, find_char, is_ascii_alnum, lemma_find_char, str_chars, string_from, subvec, trim_start,
};

verus! {

/// The chars of a name that a task name keeps: ASCII letters and digits,
/// `-` and `_`.
pub open spec fn keeps(c: char) -> bool {
    is_ascii_alnum(c) || c == '-' || c == '_'
}

pub open spec fn kept_chars(s: Seq<char>) -> Seq<char>
    decreases s.len(),
{
    if s.len() == 0 {
        seq![]
    } else if keeps(s.last()) {
        kept_chars(s.drop_last()).push(s.last())
    } else {
        kept_chars(s.drop_last())
    }
}

/// A task name made from a source name, or nothing when no char is kept.
pub open spec fn normalize_spec(s: Seq<char>) -> Option<Seq<char>> {
    if kept_chars(s).len() > 0 {
        Some(kept_chars(s))
    } else {
        None
    }
}

pub fn normalize_task_name(source: &Vec<char>) -> (r: Option<Vec<char>>)
    ensures
        match r {
            Some(n) => normalize_spec(source@) == Some(n@),
            None => normalize_spec(source@) is None,
        },
{
    let mut out: Vec<char> = Vec::new();
    let mut i: usize = 0;
    assert(source@.take(0) =~= seq![]);
    while i < source.len()
        invariant
            i <= source.len(),
            out@ == kept_chars(source@.take(i as int)),
        decreases source.len() - i,
    {
        assert(source@.take(i + 1).drop_last() =~= source@.take(i as int));
        let c = source[i];
        if char_is_ascii_alnum(c) || c == '-' || c == '_' {
            out.push(c);
        }
        i = i + 1;
    }
    assert(source@.take(source.len() as int) =~= source@);
    if out.len() > 0 {
        Some(out)
    } else {
        None
    }
}

/// The text with every `$` escaped as `\$`.
pub open spec fn escape_dollars(s: Seq<char>) -> Seq<char>
    decreases s.len(),
{
    if s.len() == 0 {
        seq![]
    } else if s.last() == '$' {
        escape_dollars(s.drop_last()) + seq!['\\', '$']
    } else {
        escape_dollars(s.drop_last()).push(s.last())
    }
}

fn escape_dollars_exec(s: &Vec<char>) -> (r: Vec<char>)
    ensures
        r@ == escape_dollars(s@),
{
    let mut out: Vec<char> = Vec::new();
    let mut i: usize = 0;
    assert(s@.take(0) =~= seq![]);
    while i < s.len()
        invariant
            i <= s.len(),
            out@ == escape_dollars(s@.take(i as int)),
        decreases s.len() - i,
    {
        assert(s@.take(i + 1).drop_last() =~= s@.take(i as int));
        if s[i] == '$' {
            out.push('\\');
            out.push('$');
            assert(out@ =~= escape_dollars(s@.take(i as int)) + seq!['\\', '$']);
        } else {
            out.push(s[i]);
        }
        i = i + 1;
    }
    assert(s@.take(s.len() as int) =~= s@);
    out
}

/// The task an imported name becomes: its normalized name (which must be a
/// valid task name) and `COMMAND 'NAME'` with the name quoted for the shell
/// and its `$` escaped.
pub open spec fn imported_spec(source_name: Seq<char>, command: Seq<char>) -> Option<(Seq<char>, Seq<char>)> {
    match normalize_spec(source_name) {
        None => None,
        Some(base) => if task_name_error(base) is Some {
            None
        } else {
            let escaped = escape_dollars(source_name);
            if escaped.len() > 0 && escaped.contains('\0') {
                None
            } else {
                let quoted = if escaped.len() == 0 {
                    "''"@
                } else {
                    shell_quoted(escaped)
                };
                Some((base, command + " "@ + quoted))
            }
        },
    }
}

pub fn imported_task(source_name: &Vec<char>, command: &Vec<char>) -> (r: Option<(Vec<char>, Vec<char>)>)
    ensures
        match r {
            Some((b, c)) => imported_spec(source_name@, command@) == Some((b@, c@)),
            None => imported_spec(source_name@, command@) is None,
        },
{
    let base = match normalize_task_name(source_name) {
        Some(b) => b,
        None => {
            return None;
        },
    };
    if validate_task_name(&base).is_err() {
        return None;
    }
    let escaped = escape_dollars_exec(source_name);
    let text = string_from(&escaped);
    match shlex_try_quote(text.as_str()) {
        Ok(q) => {
            let mut c = command.clone();
            append_str(&mut c, " ");
            append(&mut c, &str_chars(q.as_str()));
            assert(c@ =~= command@ + " "@ + q@);
            Some((base, c))
        },
        Err(_) => None,
    }
}

/// Texts in strictly increasing text order.
pub open spec fn sorted_unique(s: Seq<Seq<char>>) -> bool {
    forall|i: int, j: int| 0 <= i < j < s.len() ==> order_text(#[trigger] s[i], #[trigger] s[j]) == Precedence::Less
}

pub open spec fn views(v: Seq<Vec<char>>) -> Seq<Seq<char>> {
    v.map_values(|x: Vec<char>| x@)
}

/// Inserts a text into a sorted list of distinct texts, unless it is there.
pub fn insert_sorted(list: &mut Vec<Vec<char>>, item: Vec<char>)
    requires
        sorted_unique(views(old(list)@)),
    ensures
        sorted_unique(views(final(list)@)),
        views(final(list)@).to_set() == views(old(list)@).to_set().insert(item@),
{
    let ghost before = views(list@);
    let mut p: usize = 0;
    while p < list.len() && compare_text(&list[p], &item) == Precedence::Less
        invariant
            p <= list@.len(),
            before == views(list@),
            forall|j: int| 0 <= j < p ==> order_text(#[trigger] before[j], item@) == Precedence::Less,
        decreases list@.len() - p,
    {
        assert(before[p as int] == list@[p as int]@);
        p = p + 1;
    }
    if p < list.len() {
        assert(before[p as int] == list@[p as int]@);
        if compare_text(&list[p], &item) == Precedence::Equal {
            proof {
                lemma_order_text_equal(before[p as int], item@);
                assert(before.to_set() =~= before.to_set().insert(item@));
            }
            return;
        }
        proof {
            lemma_order_text_flip(before[p as int], item@);
            lemma_order_text_equal(before[p as int], item@);
        }
    }
    let ghost iv = item@;
    list.insert(p, item);
    assert(views(list@) =~= before.insert(p as int, iv));
    proof {
        let after = views(list@);
        assert forall|i: int, j: int| 0 <= i < j < after.len() implies order_text(
            #[trigger] after[i],
            #[trigger] after[j],
        ) == Precedence::Less by {
            if j < p {
                assert(after[i] == before[i] && after[j] == before[j]);
            } else if j == p {
                assert(after[i] == before[i]);
            } else if i == p {
                assert(after[j] == before[j - 1]);
                if j - 1 > p {
                    assert(order_text(before[p as int], before[j - 1]) == Precedence::Less);
                    lemma_order_text_trans(iv, before[p as int], before[j - 1]);
                }
            } else if i < p {
                assert(after[i] == before[i]);
                assert(after[j] == before[j - 1]);
                assert(order_text(before[i], before[j - 1]) == Precedence::Less);
            } else {
                assert(after[i] == before[i - 1]);
                assert(after[j] == before[j - 1]);
            }
        }
        assert(after.to_set() =~= before.to_set().insert(iv)) by {
            assert forall|x: Seq<char>| after.to_set().contains(x) implies before.to_set().insert(iv).contains(x) by {
                let k = choose|k: int| 0 <= k < after.len() && after[k] == x;
                if k < p {
                    assert(before[k] == x);
                } else if k > p {
                    assert(before[k - 1] == x);
                }
            }
            assert forall|x: Seq<char>| before.to_set().insert(iv).contains(x) implies after.to_set().contains(x) by {
                if x == iv {
                    assert(after[p as int] == x);
                } else {
                    let k = choose|k: int| 0 <= k < before.len() && before[k] == x;
                    if k < p {
                        assert(after[k] == x);
                    } else {
                        assert(after[k + 1] == x);
                    }
                }
            }
        }
    }
}

/// Whether a char is in a list of chars.
pub open spec fn one_of(c: char, set: Seq<char>) -> bool {
    set.contains(c)
}

pub open spec fn contains_any(s: Seq<char>, set: Seq<char>) -> bool {
    exists|i: int| 0 <= i < s.len() && #[trigger] set.contains(s[i])
}

fn chars_contains_any(s: &Vec<char>, set: &str) -> (b: bool)
    ensures
        b == contains_any(s@, set@),
{
    let st = str_chars(set);
    let mut i: usize = 0;
    while i < s.len()
        invariant
            i <= s.len(),
            st@ == set@,
            forall|j: int| 0 <= j < i ==> !set@.contains(#[trigger] s@[j]),
        decreases s.len() - i,
    {
        if chars_contains(&st, s[i]) {
            return true;
        }
        i = i + 1;
    }
    false
}

/// The Makefile targets one line declares: a line that is not indented,
/// not a comment, has a `:` that is not a variable assignment (no `=` or
/// `$` in the targets, no `=` right after the colon, no second `:`); each
/// target that is not special (`.`-prefixed) or a pattern.
pub open spec fn make_line_targets(line: Seq<char>) -> Seq<Seq<char>> {
    if line.len() == 0 || line[0] == ' ' || line[0] == '\t' || line[0] == '#' {
        seq![]
    } else {
        match find_char(line, ':') {
            None => seq![],
            Some(c) => {
                let targets = line.take(c);
                let pre = line.skip(c + 1);
                if contains_any(targets, "=$"@) || (trim_start(pre).len() > 0 && trim_start(pre)[0] == '=')
                    || pre.contains(':') {
                    seq![]
                } else {
                    plain_targets(ws_words(targets))
                }
            },
        }
    }
}

/// A target that is neither special (`.`-prefixed) nor a pattern.
pub open spec fn plain_target(t: Seq<char>) -> bool {
    !(t.len() > 0 && t[0] == '.') && !contains_any(t, "%$()&"@)
}

pub open spec fn plain_targets(ws: Seq<Seq<char>>) -> Seq<Seq<char>>
    decreases ws.len(),
{
    if ws.len() == 0 {
        seq![]
    } else if plain_target(ws.last()) {
        plain_targets(ws.drop_last()).push(ws.last())
    } else {
        plain_targets(ws.drop_last())
    }
}

/// The recipe a Justfile line declares: a line that is not indented, a
/// comment or an attribute, has a `:` not followed by `=`, no `=` before
/// it, and one word before it.
pub open spec fn just_line_recipe(line: Seq<char>) -> Option<Seq<char>> {
    if line.len() == 0 || line[0] == ' ' || line[0] == '\t' || line[0] == '#' || line[0] == '[' {
        None
    } else {
        match find_char(line, ':') {
            None => None,
            Some(c) => {
                let header = line.take(c);
                let body = line.skip(c + 1);
                if (body.len() > 0 && body[0] == '=') || header.contains('=') {
                    None
                } else if ws_words(header).len() == 1 {
                    Some(ws_words(header)[0])
                } else {
                    None
                }
            },
        }
    }
}

/// Every name found, as a set.
pub open spec fn make_names(lines: Seq<Seq<char>>) -> Set<Seq<char>>
    decreases lines.len(),
{
    if lines.len() == 0 {
        Set::empty()
    } else {
        make_names(lines.drop_last()).union(make_line_targets(lines.last()).to_set())
    }
}

pub open spec fn just_names(lines: Seq<Seq<char>>) -> Set<Seq<char>>
    decreases lines.len(),
{
    if lines.len() == 0 {
        Set::empty()
    } else {
        match just_line_recipe(lines.last()) {
            Some(n) => just_names(lines.drop_last()).insert(n),
            None => just_names(lines.drop_last()),
        }
    }
}

fn make_line_targets_exec(line: &Vec<char>) -> (r: Vec<Vec<char>>)
    ensures
        views(r@) == make_line_targets(line@),
{
    if line.len() == 0 || line[0] == ' ' || line[0] == '\t' || line[0] == '#' {
        let r: Vec<Vec<char>> = Vec::new();
        assert(views(r@) =~= seq![]);
        return r;
    }
    let c = match chars_find(line, ':') {
        None => {
            let r: Vec<Vec<char>> = Vec::new();
            assert(views(r@) =~= seq![]);
            return r;
        },
        Some(c) => c,
    };
    proof {
        lemma_find_char(line@, ':');
    }
    let targets = subvec(line, 0, c);
    let pre = subvec(line, c + 1, line.len());
    let pt = chars_trim_start(&pre);
    if chars_contains_any(&targets, "=$") || (pt.len() > 0 && pt[0] == '=') || chars_contains(&pre, ':') {
        let r: Vec<Vec<char>> = Vec::new();
        assert(views(r@) =~= seq![]);
        return r;
    }
    let words = split_whitespace(&targets);
    let ghost ws = ws_words(targets@);
    let mut r: Vec<Vec<char>> = Vec::new();
    let mut k: usize = 0;
    assert(ws.take(0) =~= seq![]);
    assert(views(r@) =~= seq![]);
    while k < words.len()
        invariant
            k <= words@.len(),
            views(words@) == ws,
            views(r@) == plain_targets(ws.take(k as int)),
        decreases words@.len() - k,
    {
        let w = &words[k];
        assert(ws[k as int] == w@);
        assert(ws.take(k + 1).drop_last() =~= ws.take(k as int));
        if !(w.len() > 0 && w[0] == '.') && !chars_contains_any(w, "%$()&") {
            let ghost before = views(r@);
            let c = w.clone();
            assert(c@ =~= w@);
            r.push(c);
            assert(views(r@) =~= before.push(w@));
        }
        k = k + 1;
    }
    assert(ws.take(words@.len() as int) =~= ws);
    r
}

/// The `k`-th name tried for a base name: the base itself, then the base
/// followed by 2, 3, ...
pub open spec fn candidate(base: Seq<char>, k: nat) -> Seq<char> {
    if k <= 1 {
        base
    } else {
        base + decimal(k)
    }
}

/// A name that is a task already or names a directory.
pub open spec fn taken(known: Seq<Seq<char>>, dirs: Seq<Seq<char>>, c: Seq<char>) -> bool {
    known.contains(c) || dirs.contains(c)
}

/// The index of the first free candidate from `k` on, looking at most
/// `fuel` more candidates.
pub open spec fn free_from(base: Seq<char>, known: Seq<Seq<char>>, dirs: Seq<Seq<char>>, k: nat, fuel: nat) -> nat
    decreases fuel,
{
    if !taken(known, dirs, candidate(base, k)) || fuel == 0 {
        k
    } else {
        free_from(base, known, dirs, k + 1, (fuel - 1) as nat)
    }
}

/// The name an imported task gets: the first candidate that is neither a
/// task nor a directory.
pub open spec fn chosen_name(base: Seq<char>, known: Seq<Seq<char>>, dirs: Seq<Seq<char>>) -> Seq<char> {
    candidate(base, free_from(base, known, dirs, 1, known.len() + dirs.len() + 1))
}

proof fn lemma_decimal_len(n: nat)
    ensures
        decimal(n).len() >= 1,
        n >= 10 ==> decimal(n).len() >= 2,
    decreases n,
{
    if n >= 10 {
        lemma_decimal_len(n / 10);
    }
}

proof fn lemma_digit_char_injective(a: nat, b: nat)
    requires
        a < 10,
        b < 10,
        digit_char(a) == digit_char(b),
    ensures
        a == b,
{
    assert((('0' as u32) + a) as char == (('0' as u32) + b) as char);
    assert(('0' as u32) + a < 0xD800);
    assert(('0' as u32) + b < 0xD800);
}

/// Distinct numbers are written differently.
pub proof fn lemma_decimal_injective(a: nat, b: nat)
    requires
        decimal(a) == decimal(b),
    ensures
        a == b,
    decreases a,
{
    lemma_decimal_len(a);
    lemma_decimal_len(b);
    if a < 10 && b < 10 {
        assert(decimal(a)[0] == digit_char(a));
        assert(decimal(b)[0] == digit_char(b));
        lemma_digit_char_injective(a, b);
    } else if a >= 10 && b >= 10 {
        assert(decimal(a).last() == digit_char(a % 10));
        assert(decimal(b).last() == digit_char(b % 10));
        lemma_digit_char_injective(a % 10, b % 10);
        assert(decimal(a / 10) =~= decimal(a).drop_last());
        assert(decimal(b / 10) =~= decimal(b).drop_last());
        lemma_decimal_injective(a / 10, b / 10);
    } else {
        assert(decimal(a).len() != decimal(b).len());
    }
}

proof fn lemma_candidate_injective(base: Seq<char>, j: nat, k: nat)
    requires
        1 <= j,
        1 <= k,
        candidate(base, j) == candidate(base, k),
    ensures
        j == k,
{
    if j >= 2 && k >= 2 {
        lemma_decimal_len(j);
        lemma_decimal_len(k);
        assert(decimal(j) =~= candidate(base, j).skip(base.len() as int));
        assert(decimal(k) =~= candidate(base, k).skip(base.len() as int));
        lemma_decimal_injective(j, k);
    } else if j >= 2 || k >= 2 {
        lemma_decimal_len(j);
        lemma_decimal_len(k);
        assert(candidate(base, j).len() != candidate(base, k).len());
    }
}

/// At most as many candidates are taken as there are tasks and directories.
proof fn lemma_pigeonhole(base: Seq<char>, known: Seq<Seq<char>>, dirs: Seq<Seq<char>>, m: nat)
    requires
        forall|j: nat| 1 <= j <= m ==> taken(known, dirs, #[trigger] candidate(base, j)),
    ensures
        m <= known.len() + dirs.len(),
{
    let x = Set::new(|j: int| 1 <= j <= m);
    let f = |j: int| candidate(base, j as nat);
    let t = known.to_set().union(dirs.to_set());
    assert(x =~= vstd::set_lib::set_int_range(1, (m + 1) as int));
    vstd::set_lib::lemma_int_range(1, (m + 1) as int);
    assert(vstd::relations::injective_on(f, x)) by {
        assert forall|a: int, b: int| x.contains(a) && x.contains(b) && #[trigger] f(a) == #[trigger] f(b) implies a == b by {
            lemma_candidate_injective(base, a as nat, b as nat);
        }
    }
    vstd::set_lib::lemma_map_size(x, x.map(f), f);
    known.lemma_cardinality_of_set();
    dirs.lemma_cardinality_of_set();
    vstd::set_lib::lemma_len_union(known.to_set(), dirs.to_set());
    assert(x.map(f).subset_of(t)) by {
        assert forall|c: Seq<char>| x.map(f).contains(c) implies t.contains(c) by {
            let j = choose|j: int| x.contains(j) && f(j) == c;
            assert(taken(known, dirs, candidate(base, j as nat)));
        }
    }
    vstd::set_lib::lemma_len_subset(x.map(f), t);
}

proof fn lemma_free_from(base: Seq<char>, known: Seq<Seq<char>>, dirs: Seq<Seq<char>>, k: nat, fuel: nat)
    requires
        k >= 1,
        forall|j: nat| 1 <= j < k ==> taken(known, dirs, #[trigger] candidate(base, j)),
        k + fuel > known.len() + dirs.len() + 1,
    ensures
        !taken(known, dirs, candidate(base, free_from(base, known, dirs, k, fuel))),
        free_from(base, known, dirs, k, fuel) >= k,
        forall|j: nat|
            1 <= j < free_from(base, known, dirs, k, fuel) ==> taken(known, dirs, #[trigger] candidate(base, j)),
    decreases fuel,
{
    if taken(known, dirs, candidate(base, k)) {
        if fuel == 0 {
            lemma_pigeonhole(base, known, dirs, k);
        } else {
            lemma_free_from(base, known, dirs, k + 1, (fuel - 1) as nat);
        }
    }
}

/// The name an imported task gets is free, and every earlier candidate is
/// taken.
pub proof fn lemma_chosen_name_is_free(base: Seq<char>, known: Seq<Seq<char>>, dirs: Seq<Seq<char>>)
    ensures
        !taken(known, dirs, chosen_name(base, known, dirs)),
        exists|k: nat|
            k >= 1 && chosen_name(base, known, dirs) == candidate(base, k) && forall|j: nat|
                1 <= j < k ==> taken(known, dirs, #[trigger] candidate(base, j)),
{
    lemma_free_from(base, known, dirs, 1, known.len() + dirs.len() + 1);
    let k = free_from(base, known, dirs, 1, known.len() + dirs.len() + 1);
    assert(chosen_name(base, known, dirs) == candidate(base, k));
}

fn contains_text(v: &Vec<Vec<char>>, x: &Vec<char>) -> (b: bool)
    ensures
        b == views(v@).contains(x@),
{
    let mut i: usize = 0;
    while i < v.len()
        invariant
            i <= v.len(),
            forall|j: int| 0 <= j < i ==> #[trigger] v@[j]@ != x@,
        decreases v.len() - i,
    {
        if crate::text::chars_eq(&v[i], x) {
            assert(views(v@)[i as int] == x@);
            return true;
        }
        i = i + 1;
    }
    assert(!views(v@).contains(x@)) by {
        if views(v@).contains(x@) {
            let j = choose|j: int| 0 <= j < views(v@).len() && views(v@)[j] == x@;
            assert(v@[j]@ == x@);
        }
    }
    false
}

pub open spec fn pow10(m: nat) -> nat
    decreases m,
{
    if m == 0 {
        1
    } else {
        10 * pow10((m - 1) as nat)
    }
}

proof fn lemma_decimal_small(n: nat, m: nat)
    requires
        m >= 1,
        n < pow10(m),
    ensures
        decimal(n).len() <= m,
    decreases n,
{
    if n >= 10 {
        if m == 1 {
            assert(pow10(1) == 10 * pow10(0));
        } else {
            assert(n / 10 < pow10((m - 1) as nat));
            lemma_decimal_small(n / 10, (m - 1) as nat);
        }
    }
}

/// Pushes the decimal rendering of `n`.
fn push_decimal_wide(out: &mut Vec<char>, n: u128)
    ensures
        final(out)@ == old(out)@ + decimal(n as nat),
    decreases n,
{
    if n >= 10 {
        push_decimal_wide(out, n / 10);
    }
    let d = (n % 10) as usize;
    let c = crate::text::digit_of(d);
    out.push(c);
}

/// The name an imported task gets: the base name, else the base name with
/// the smallest number from 2 on, that is neither a task nor a directory.
pub fn available_task_name(base: &Vec<char>, known: &Vec<Vec<char>>, dirs: &Vec<Vec<char>>) -> (r: Vec<char>)
    ensures
        r@ == chosen_name(base@, views(known@), views(dirs@)),
        r.len() <= base.len() + 20,
{
    let ghost kn = views(known@);
    let ghost ds = views(dirs@);
    let ghost fuel0 = kn.len() + ds.len() + 1;
    let n: u128 = known.len() as u128 + dirs.len() as u128 + 1;
    let mut k: u128 = 1;
    let mut name = base.clone();
    assert(name@ == candidate(base@, 1));
    while contains_text(known, &name) || contains_text(dirs, &name)
        invariant
            1 <= k <= n + 1,
            n == known.len() + dirs.len() + 1,
            kn == views(known@),
            ds == views(dirs@),
            name@ == candidate(base@, k as nat),
            free_from(base@, kn, ds, 1, fuel0) == free_from(base@, kn, ds, k as nat, (fuel0 - (k - 1)) as nat),
            forall|j: nat| 1 <= j < k ==> taken(kn, ds, #[trigger] candidate(base@, j)),
            k - 1 <= fuel0,
            fuel0 == n,
        decreases n + 1 - k,
    {
        proof {
            assert(taken(kn, ds, candidate(base@, k as nat)));
            assert forall|j: nat| 1 <= j <= k implies taken(kn, ds, #[trigger] candidate(base@, j)) by {
                if j < k {
                    assert(taken(kn, ds, candidate(base@, j)));
                }
            }
            lemma_pigeonhole(base@, kn, ds, k as nat);
            assert(free_from(base@, kn, ds, k as nat, (fuel0 - (k - 1)) as nat) == free_from(
                base@,
                kn,
                ds,
                (k + 1) as nat,
                (fuel0 - k) as nat,
            ));
        }
        k = k + 1;
        let mut next = base.clone();
        push_decimal_wide(&mut next, k);
        assert(next@ =~= candidate(base@, k as nat));
        name = next;
    }
    proof {
        assert(!taken(kn, ds, candidate(base@, k as nat)));
        assert(free_from(base@, kn, ds, k as nat, (fuel0 - (k - 1)) as nat) == k);
        assert(pow10(20) == 100000000000000000000nat) by {
            reveal_with_fuel(pow10, 21);
        }
        lemma_decimal_small(k as nat, 20);
    }
    name
}

fn just_line_recipe_exec(line: &Vec<char>) -> (r: Option<Vec<char>>)
    ensures
        match r {
            Some(n) => just_line_recipe(line@) == Some(n@),
            None => just_line_recipe(line@) is None,
        },
{
    if line.len() == 0 || line[0] == ' ' || line[0] == '\t' || line[0] == '#' || line[0] == '[' {
        return None;
    }
    let c = match chars_find(line, ':') {
        None => return None,
        Some(c) => c,
    };
    proof {
        lemma_find_char(line@, ':');
    }
    let header = subvec(line, 0, c);
    let body = subvec(line, c + 1, line.len());
    if (body.len() > 0 && body[0] == '=') || chars_contains(&header, '=') {
        return None;
    }
    let words = split_whitespace(&header);
    if words.len() == 1 {
        assert(ws_words(header@)[0] == words@[0]@);
        Some(words[0].clone())
    } else {
        None
    }
}

/// The target names a Makefile declares, sorted, each once.
pub fn makefile_names(source: &str) -> (r: Vec<Vec<char>>)
    ensures
        sorted_unique(views(r@)),
        views(r@).to_set() == make_names(text_lines(source@)),
{
    let chars = str_chars(source);
    let lines = text_lines_exec(&chars);
    let ghost ls = lines_view(lines@);
    let mut r: Vec<Vec<char>> = Vec::new();
    let mut k: usize = 0;
    assert(views(r@) =~= seq![]);
    assert(views(r@).to_set() =~= Set::empty());
    assert(ls.take(0) =~= seq![]);
    while k < lines.len()
        invariant
            k <= lines.len(),
            ls == lines_view(lines@),
            sorted_unique(views(r@)),
            views(r@).to_set() == make_names(ls.take(k as int)),
        decreases lines.len() - k,
    {
        assert(ls.take(k + 1).drop_last() =~= ls.take(k as int));
        assert(ls.take(k + 1).last() == lines@[k as int]@);
        let targets = make_line_targets_exec(&lines[k]);
        let ghost ts = views(targets@);
        let ghost base = make_names(ls.take(k as int));
        let mut m: usize = 0;
        assert(ts.take(0).to_set() =~= Set::empty());
        assert(base.union(Set::empty()) =~= base);
        while m < targets.len()
            invariant
                m <= targets.len(),
                ts == views(targets@),
                sorted_unique(views(r@)),
                views(r@).to_set() == base.union(ts.take(m as int).to_set()),
            decreases targets.len() - m,
        {
            assert(ts[m as int] == targets@[m as int]@);
            insert_sorted(&mut r, targets[m].clone());
            assert(ts.take(m + 1).to_set() =~= ts.take(m as int).to_set().insert(ts[m as int])) by {
                assert(ts.take(m + 1) =~= ts.take(m as int).push(ts[m as int]));
                ts.take(m as int).lemma_push_to_set_commute(ts[m as int]);
            }
            assert(base.union(ts.take(m + 1).to_set()) =~= base.union(ts.take(m as int).to_set()).insert(
                ts[m as int],
            ));
            m = m + 1;
        }
        assert(ts.take(targets.len() as int) =~= ts);
        k = k + 1;
    }
    assert(ls.take(lines.len() as int) =~= ls);
    r
}

/// The recipe names a Justfile declares, sorted, each once.
pub fn justfile_names(source: &str) -> (r: Vec<Vec<char>>)
    ensures
        sorted_unique(views(r@)),
        views(r@).to_set() == just_names(text_lines(source@)),
{
    let chars = str_chars(source);
    let lines = text_lines_exec(&chars);
    let ghost ls = lines_view(lines@);
    let mut r: Vec<Vec<char>> = Vec::new();
    let mut k: usize = 0;
    assert(views(r@) =~= seq![]);
    assert(views(r@).to_set() =~= Set::empty());
    assert(ls.take(0) =~= seq![]);
    while k < lines.len()
        invariant
            k <= lines.len(),
            ls == lines_view(lines@),
            sorted_unique(views(r@)),
            views(r@).to_set() == just_names(ls.take(k as int)),
        decreases lines.len() - k,
    {
        assert(ls.take(k + 1).drop_last() =~= ls.take(k as int));
        assert(ls.take(k + 1).last() == lines@[k as int]@);
        match just_line_recipe_exec(&lines[k]) {
            Some(n) => insert_sorted(&mut r, n),
            None => {},
        }
        k = k + 1;
    }
    assert(ls.take(lines.len() as int) =~= ls);
    r
}

/// Tasks imported from one source: where they come from (a file name) and
/// each task's base name and command.
pub struct ImportGroup {
    pub source: Vec<char>,
    pub tasks: Vec<(Vec<char>, Vec<char>)>,
}

pub struct GroupModel {
    pub source: Seq<char>,
    pub tasks: Seq<(Seq<char>, Seq<char>)>,
}

pub open spec fn pair_views(v: Seq<(Vec<char>, Vec<char>)>) -> Seq<(Seq<char>, Seq<char>)> {
    v.map_values(|p: (Vec<char>, Vec<char>)| (p.0@, p.1@))
}

impl View for ImportGroup {
    type V = GroupModel;

    open spec fn view(&self) -> GroupModel {
        GroupModel { source: self.source@, tasks: pair_views(self.tasks@) }
    }
}

/// The importable tasks among names, in their order.
pub open spec fn imported_all(names: Seq<Seq<char>>, command: Seq<char>) -> Seq<(Seq<char>, Seq<char>)>
    decreases names.len(),
{
    if names.len() == 0 {
        seq![]
    } else {
        match imported_spec(names.last(), command) {
            Some(t) => imported_all(names.drop_last(), command).push(t),
            None => imported_all(names.drop_last(), command),
        }
    }
}

/// The group of tasks that names become, each run as `COMMAND 'NAME'`.
pub fn import_group(source: &str, command: &str, names: &Vec<Vec<char>>) -> (g: ImportGroup)
    ensures
        g@.source == source@,
        g@.tasks == imported_all(views(names@), command@),
{
    let cmd = str_chars(command);
    let ghost ns = views(names@);
    let mut tasks: Vec<(Vec<char>, Vec<char>)> = Vec::new();
    let mut k: usize = 0;
    assert(pair_views(tasks@) =~= seq![]);
    assert(ns.take(0) =~= seq![]);
    while k < names.len()
        invariant
            k <= names.len(),
            ns == views(names@),
            cmd@ == command@,
            pair_views(tasks@) == imported_all(ns.take(k as int), command@),
        decreases names.len() - k,
    {
        assert(ns.take(k + 1).drop_last() =~= ns.take(k as int));
        assert(ns.take(k + 1).last() == names@[k as int]@);
        match imported_task(&names[k], &cmd) {
            Some(t) => {
                let ghost before = pair_views(tasks@);
                let ghost tv = (t.0@, t.1@);
                tasks.push(t);
                assert(pair_views(tasks@) =~= before.push(tv));
            },
            None => {},
        }
        k = k + 1;
    }
    assert(ns.take(names.len() as int) =~= ns);
    ImportGroup { source: str_chars(source), tasks }
}

/// A top-level entry of a JSON document, as the importer reads it: a
/// string, an object (each member's name and whether its value is a
/// string), or any other value.
pub enum JsonEntry {
    Text(Vec<char>),
    Object(Vec<(Vec<char>, bool)>),
    Other,
}

/// A JSON document: the members of a top-level object, in order, or a
/// document that is no object.
pub enum JsonDocument {
    Object(Vec<(Vec<char>, JsonEntry)>),
    NotObject,
}

pub enum JsonEntryModel {
    Text(Seq<char>),
    Object(Seq<(Seq<char>, bool)>),
    Other,
}

pub open spec fn member_views(v: Seq<(Vec<char>, bool)>) -> Seq<(Seq<char>, bool)> {
    v.map_values(|p: (Vec<char>, bool)| (p.0@, p.1))
}

impl View for JsonEntry {
    type V = JsonEntryModel;

    open spec fn view(&self) -> JsonEntryModel {
        match self {
            JsonEntry::Text(t) => JsonEntryModel::Text(t@),
            JsonEntry::Object(m) => JsonEntryModel::Object(member_views(m@)),
            JsonEntry::Other => JsonEntryModel::Other,
        }
    }
}

pub open spec fn entry_views(v: Seq<(Vec<char>, JsonEntry)>) -> Seq<(Seq<char>, JsonEntryModel)> {
    v.map_values(|p: (Vec<char>, JsonEntry)| (p.0@, p.1@))
}

/// The value of the first member with that name.
pub open spec fn json_lookup(es: Seq<(Seq<char>, JsonEntryModel)>, key: Seq<char>) -> Option<JsonEntryModel>
    decreases es.len(),
{
    if es.len() == 0 {
        None
    } else if es[0].0 == key {
        Some(es[0].1)
    } else {
        json_lookup(es.drop_first(), key)
    }
}

/// The first member whose value is not a string.
pub open spec fn first_non_string(ms: Seq<(Seq<char>, bool)>) -> Option<Seq<char>>
    decreases ms.len(),
{
    if ms.len() == 0 {
        None
    } else if !ms[0].1 {
        Some(ms[0].0)
    } else {
        first_non_string(ms.drop_first())
    }
}

/// The names of the commands under `key` (each value must be a string), or
/// why the document does not hold them.
pub open spec fn json_entries_spec(path: Seq<char>, doc: Option<Seq<(Seq<char>, JsonEntryModel)>>, key: Seq<char>) -> Result<
    Seq<Seq<char>>,
    Seq<char>,
> {
    match doc {
        None => Err(path + " must contain a top-level JSON object"@),
        Some(es) => match json_lookup(es, key) {
            None => Ok(seq![]),
            Some(JsonEntryModel::Object(ms)) => match first_non_string(ms) {
                Some(n) => Err(path + " "@ + key + " entry '"@ + n + "' must be a string"@),
                None => Ok(ms.map_values(|m: (Seq<char>, bool)| m.0)),
            },
            Some(_) => Err(path + " '"@ + key + "' must be an object"@),
        },
    }
}

pub open spec fn doc_view(doc: &JsonDocument) -> Option<Seq<(Seq<char>, JsonEntryModel)>> {
    match doc {
        JsonDocument::Object(es) => Some(entry_views(es@)),
        JsonDocument::NotObject => None,
    }
}

fn json_lookup_exec<'a>(es: &'a Vec<(Vec<char>, JsonEntry)>, key: &Vec<char>) -> (r: Option<&'a JsonEntry>)
    ensures
        match r {
            Some(e) => json_lookup(entry_views(es@), key@) == Some(e@),
            None => json_lookup(entry_views(es@), key@) is None,
        },
{
    let ghost all = entry_views(es@);
    let mut i: usize = 0;
    assert(all.skip(0) =~= all);
    while i < es.len()
        invariant
            i <= es.len(),
            all == entry_views(es@),
            json_lookup(all, key@) == json_lookup(all.skip(i as int), key@),
        decreases es.len() - i,
    {
        assert(all.skip(i as int)[0] == (es@[i as int].0@, es@[i as int].1@));
        if crate::text::chars_eq(&es[i].0, key) {
            return Some(&es[i].1);
        }
        assert(all.skip(i as int).drop_first() =~= all.skip(i + 1));
        i = i + 1;
    }
    None
}

/// The names of the commands a JSON document lists under `key`, sorted,
/// each once; or why the document does not hold them.
pub fn json_entries(path: &str, doc: &JsonDocument, key: &str) -> (r: Result<Vec<Vec<char>>, CjError>)
    ensures
        match json_entries_spec(path@, doc_view(doc), key@) {
            Ok(ns) => r matches Ok(v) && sorted_unique(views(v@)) && views(v@).to_set() == ns.to_set(),
            Err(m) => r matches Err(e) && e@ == m,
        },
{
    let es = match doc {
        JsonDocument::NotObject => {
            let mut m = str_chars(path);
            append_str(&mut m, " must contain a top-level JSON object");
            return Err(CjError::new(&m));
        },
        JsonDocument::Object(es) => es,
    };
    let k = str_chars(key);
    let ms = match json_lookup_exec(es, &k) {
        None => {
            let r: Vec<Vec<char>> = Vec::new();
            assert(views(r@) =~= seq![]);
            assert(views(r@).to_set() =~= Seq::<Seq<char>>::empty().to_set());
            return Ok(r);
        },
        Some(JsonEntry::Object(ms)) => ms,
        Some(_) => {
            let mut m = str_chars(path);
            append_str(&mut m, " '");
            append(&mut m, &k);
            append_str(&mut m, "' must be an object");
            return Err(CjError::new(&m));
        },
    };
    let ghost mv = member_views(ms@);
    let mut i: usize = 0;
    assert(mv.skip(0) =~= mv);
    while i < ms.len()
        invariant
            i <= ms.len(),
            mv == member_views(ms@),
            first_non_string(mv) == first_non_string(mv.skip(i as int)),
            k@ == key@,
            doc_view(doc) == Some(entry_views(es@)),
            json_lookup(entry_views(es@), key@) == Some(JsonEntryModel::Object(mv)),
        decreases ms.len() - i,
    {
        assert(mv.skip(i as int)[0] == (ms@[i as int].0@, ms@[i as int].1));
        if !ms[i].1 {
            let mut m = str_chars(path);
            append_str(&mut m, " ");
            append(&mut m, &k);
            append_str(&mut m, " entry '");
            append(&mut m, &ms[i].0);
            append_str(&mut m, "' must be a string");
            assert(first_non_string(mv.skip(i as int)) == Some(ms@[i as int].0@));
            assert(m@ =~= path@ + " "@ + key@ + " entry '"@ + ms@[i as int].0@ + "' must be a string"@);
            return Err(CjError::new(&m));
        }
        assert(mv.skip(i as int).drop_first() =~= mv.skip(i + 1));
        i = i + 1;
    }
    assert(first_non_string(mv) is None) by {
        assert(mv.skip(ms.len() as int) =~= seq![]);
    }
    let ghost names = mv.map_values(|m: (Seq<char>, bool)| m.0);
    let mut r: Vec<Vec<char>> = Vec::new();
    let mut j: usize = 0;
    assert(views(r@) =~= seq![]);
    assert(names.take(0).to_set() =~= Set::empty());
    assert(views(r@).to_set() =~= Set::empty());
    while j < ms.len()
        invariant
            j <= ms.len(),
            mv == member_views(ms@),
            names == mv.map_values(|m: (Seq<char>, bool)| m.0),
            sorted_unique(views(r@)),
            views(r@).to_set() == names.take(j as int).to_set(),
        decreases ms.len() - j,
    {
        assert(names[j as int] == ms@[j as int].0@);
        insert_sorted(&mut r, ms[j].0.clone());
        assert(names.take(j + 1) =~= names.take(j as int).push(names[j as int]));
        proof {
            names.take(j as int).lemma_push_to_set_commute(names[j as int]);
        }
        j = j + 1;
    }
    assert(names.take(ms.len() as int) =~= names);
    Ok(r)
}

/// The text before the first `@`.
pub open spec fn before_at(s: Seq<char>) -> Seq<char> {
    match find_char(s, '@') {
        Some(i) => s.take(i),
        None => s,
    }
}

pub open spec fn known_manager(s: Seq<char>) -> bool {
    s == "npm"@ || s == "pnpm"@ || s == "yarn"@ || s == "bun"@
}

/// The package manager that runs `package.json` scripts: the one named by
/// `packageManager` (before its `@`) when it is npm, pnpm, yarn or bun;
/// else the first lockfile found (pnpm, yarn, bun, bun's binary lockfile);
/// else npm.
pub open spec fn package_manager_spec(
    doc: Option<Seq<(Seq<char>, JsonEntryModel)>>,
    pnpm_lock: bool,
    yarn_lock: bool,
    bun_lock: bool,
    bun_lockb: bool,
) -> Seq<char> {
    let declared = match doc {
        Some(es) => match json_lookup(es, "packageManager"@) {
            Some(JsonEntryModel::Text(v)) => if known_manager(before_at(v)) {
                Some(before_at(v))
            } else {
                None
            },
            _ => None,
        },
        None => None,
    };
    match declared {
        Some(m) => m,
        None => if pnpm_lock {
            "pnpm"@
        } else if yarn_lock {
            "yarn"@
        } else if bun_lock || bun_lockb {
            "bun"@
        } else {
            "npm"@
        },
    }
}

pub fn package_manager(
    doc: &JsonDocument,
    pnpm_lock: bool,
    yarn_lock: bool,
    bun_lock: bool,
    bun_lockb: bool,
) -> (r: &'static str)
    ensures
        r@ == package_manager_spec(doc_view(doc), pnpm_lock, yarn_lock, bun_lock, bun_lockb),
{
    match doc {
        JsonDocument::Object(es) => {
            let key = str_chars("packageManager");
            match json_lookup_exec(es, &key) {
                Some(JsonEntry::Text(v)) => {
                    let head = match chars_find(v, '@') {
                        Some(i) => {
                            proof {
                                lemma_find_char(v@, '@');
                            }
                            subvec(v, 0, i)
                        },
                        None => v.clone(),
                    };
                    assert(head@ == before_at(v@));
                    if crate::text::chars_eq_str(&head, "npm") {
                        return "npm";
                    }
                    if crate::text::chars_eq_str(&head, "pnpm") {
                        return "pnpm";
                    }
                    if crate::text::chars_eq_str(&head, "yarn") {
                        return "yarn";
                    }
                    if crate::text::chars_eq_str(&head, "bun") {
                        return "bun";
                    }
                },
                _ => {},
            }
        },
        JsonDocument::NotObject => {},
    }
    if pnpm_lock {
        "pnpm"
    } else if yarn_lock {
        "yarn"
    } else if bun_lock || bun_lockb {
        "bun"
    } else {
        "npm"
    }
}

/// What `serde_json::from_str` reads from a text, as the importer sees it:
/// the members of the top-level value (`None` where that value is no
/// object), or serde_json's message where the text is no JSON.
pub uninterp spec fn json_read_of(text: Seq<char>) -> Result<
    Option<Seq<(Seq<char>, JsonEntryModel)>>,
    Seq<char>,
>;

/// `serde_json::from_str` into a `serde_json::Value`, kept as the importer
/// reads it: each top-level member with its value as a string, as an object
/// (each inner member's name and whether its value is a string) or as some
/// other value. Parsing depends on the text alone; what it yields is named
/// by `json_read_of`, and so is the message of the error it returns.
#[verifier::external_body]
fn read_json_document(text: &str) -> (r: Result<JsonDocument, String>)
    ensures
        match json_read_of(text@) {
            Ok(doc) => r matches Ok(d) && doc_view(&d) == doc,
            Err(m) => r matches Err(e) && e@ == m,
        },
{
    let value: Value = match serde_json::from_str(text) {
        Ok(value) => value,
        Err(err) => return Err(err.to_string()),
    };
    let root = match value {
        Value::Object(root) => root,
        _ => return Ok(JsonDocument::NotObject),
    };
    Ok(JsonDocument::Object(root.into_iter().map(|(name, entry)| (name.chars().collect(), match entry {
        Value::String(t) => JsonEntry::Text(t.chars().collect()),
        Value::Object(m) => JsonEntry::Object(m.iter().map(|(k, v)| (k.chars().collect(), v.is_string())).collect()),
        _ => JsonEntry::Other,
    })).collect()))
}

/// The command that runs a JSON file's entries: the one given, or the
/// package manager's `run`.
pub open spec fn json_command_spec(
    command: Option<Seq<char>>,
    doc: Option<Seq<(Seq<char>, JsonEntryModel)>>,
    pnpm_lock: bool,
    yarn_lock: bool,
    bun_lock: bool,
    bun_lockb: bool,
) -> Seq<char> {
    match command {
        Some(c) => c,
        None => package_manager_spec(doc, pnpm_lock, yarn_lock, bun_lock, bun_lockb) + " run"@,
    }
}

/// The group that a `package.json` or `deno.json` text gives: its entries
/// under `key`, sorted and each once, run by the command; or the error that
/// names the file.
pub open spec fn json_group_ok(
    file: Seq<char>,
    path: Seq<char>,
    text: Seq<char>,
    key: Seq<char>,
    command: Option<Seq<char>>,
    pnpm_lock: bool,
    yarn_lock: bool,
    bun_lock: bool,
    bun_lockb: bool,
    g: GroupModel,
) -> bool {
    match json_read_of(text) {
        Ok(doc) => match json_entries_spec(path, doc, key) {
            Ok(ns) => g.source == file && exists|sorted: Seq<Seq<char>>|
                sorted_unique(sorted) && sorted.to_set() == ns.to_set() && g.tasks == imported_all(
                    sorted,
                    json_command_spec(command, doc, pnpm_lock, yarn_lock, bun_lock, bun_lockb),
                ),
            Err(_) => false,
        },
        Err(_) => false,
    }
}

/// Why a `package.json` or `deno.json` text gives no group, if it does not.
pub open spec fn json_group_error(path: Seq<char>, text: Seq<char>, key: Seq<char>) -> Option<Seq<char>> {
    match json_read_of(text) {
        Err(m) => Some("failed to parse "@ + path + ": "@ + m),
        Ok(doc) => match json_entries_spec(path, doc, key) {
            Err(m) => Some(m),
            Ok(_) => None,
        },
    }
}

/// Reads the tasks that a `package.json` (`key` "scripts", no command: the
/// package manager runs them) or a `deno.json` (`key` "tasks", command
/// `deno task`) text lists. `file` names the source in the taskfile, `path`
/// the file in messages; the lock flags say which lockfiles lie beside it.
pub fn json_import_group(
    file: &str,
    path: &str,
    text: &str,
    key: &str,
    command: Option<&str>,
    pnpm_lock: bool,
    yarn_lock: bool,
    bun_lock: bool,
    bun_lockb: bool,
) -> (r: Result<ImportGroup, CjError>)
    ensures
        match json_group_error(path@, text@, key@) {
            Some(m) => r matches Err(e) && e@ == m,
            None => r matches Ok(g) && json_group_ok(
                file@,
                path@,
                text@,
                key@,
                match command {
                    Some(c) => Some(c@),
                    None => None,
                },
                pnpm_lock,
                yarn_lock,
                bun_lock,
                bun_lockb,
                g@,
            ),
        },
{
    let doc = match read_json_document(text) {
        Ok(doc) => doc,
        Err(m) => {
            let mut msg = str_chars("failed to parse ");
            append_str(&mut msg, path);
            append_str(&mut msg, ": ");
            append_str(&mut msg, m.as_str());
            return Err(CjError::new(&msg));
        },
    };
    let names = json_entries(path, &doc, key)?;
    let run = match command {
        Some(c) => str_chars(c),
        None => {
            let mut run = str_chars(package_manager(&doc, pnpm_lock, yarn_lock, bun_lock, bun_lockb));
            append_str(&mut run, " run");
            run
        },
    };
    let run_text = string_from(&run);
    let g = import_group(file, run_text.as_str(), &names);
    assert(sorted_unique(views(names@)));
    Ok(g)
}

/// What `cj --auto` has decided so far: the task names and the imported
/// commands known, the text to add, the block of the current source, how
/// many tasks were added and how many skipped.
pub struct PlanState {
    pub known: Seq<Seq<char>>,
    pub commands: Seq<Seq<char>>,
    pub additions: Seq<char>,
    pub block: Seq<char>,
    pub added: nat,
    pub skipped: nat,
}

/// One imported task: skipped when its command is there already, else
/// added under a free name.
pub open spec fn plan_task(st: PlanState, base: Seq<char>, command: Seq<char>, dirs: Seq<Seq<char>>) -> PlanState {
    if st.commands.contains(command) {
        PlanState { skipped: st.skipped + 1, ..st }
    } else {
        let name = chosen_name(base, st.known, dirs);
        PlanState {
            known: st.known.push(name),
            commands: st.commands.push(command),
            block: st.block + name + ":\n  "@ + command + "\n"@,
            added: st.added + 1,
            ..st
        }
    }
}

pub open spec fn plan_tasks(st: PlanState, tasks: Seq<(Seq<char>, Seq<char>)>, dirs: Seq<Seq<char>>) -> PlanState
    decreases tasks.len(),
{
    if tasks.len() == 0 {
        st
    } else {
        let prev = plan_tasks(st, tasks.drop_last(), dirs);
        plan_task(prev, tasks.last().0, tasks.last().1, dirs)
    }
}

/// One source: its added tasks under a comment that names it.
pub open spec fn plan_group(st: PlanState, g: GroupModel, dirs: Seq<Seq<char>>) -> PlanState {
    let st1 = plan_tasks(PlanState { block: seq![], ..st }, g.tasks, dirs);
    if st1.block.len() > 0 {
        PlanState {
            additions: st1.additions + "# Imported from "@ + g.source + " by cj --auto\n"@ + st1.block
                + "\n"@,
            ..st1
        }
    } else {
        st1
    }
}

pub open spec fn plan_groups(st: PlanState, gs: Seq<GroupModel>, dirs: Seq<Seq<char>>) -> PlanState
    decreases gs.len(),
{
    if gs.len() == 0 {
        st
    } else {
        plan_group(plan_groups(st, gs.drop_last(), dirs), gs.last(), dirs)
    }
}

/// The commands of the tasks that are one plain command line.
pub open spec fn single_commands(tasks: Seq<TaskModel>) -> Seq<Seq<char>>
    decreases tasks.len(),
{
    if tasks.len() == 0 {
        seq![]
    } else {
        let prev = single_commands(tasks.drop_last());
        let t = tasks.last();
        if t.lines.len() == 1 && !(t.lines[0].text.len() > 0 && t.lines[0].text[0] == '@') {
            prev.push(t.lines[0].text)
        } else {
            prev
        }
    }
}

pub open spec fn initial_plan(file: FileModel) -> PlanState {
    PlanState {
        known: file.tasks.map_values(|t: TaskModel| t.name),
        commands: single_commands(file.tasks),
        additions: seq![],
        block: seq![],
        added: 0,
        skipped: 0,
    }
}

/// A non-empty text ended by an empty line.
pub open spec fn padded(source: Seq<char>) -> Seq<char> {
    if source.len() == 0 {
        source
    } else {
        let s1 = if ends_with(source, "\n"@) {
            source
        } else {
            source.push('\n')
        };
        if ends_with(s1, "\n\n"@) {
            s1
        } else {
            s1.push('\n')
        }
    }
}

pub open spec fn all_empty(gs: Seq<GroupModel>) -> bool {
    forall|i: int| 0 <= i < gs.len() ==> #[trigger] gs[i].tasks.len() == 0
}

pub open spec fn no_imports_message() -> Seq<char> {
    "no importable tasks found in package.json, deno.json, Makefile, or Justfile"@
}

/// `cj --auto` on a taskfile text: the new text (none when nothing is
/// added), how many tasks were added and how many skipped; or the error.
pub open spec fn auto_import_spec(
    gs: Seq<GroupModel>,
    source: Seq<char>,
    path: Seq<char>,
    dirs: Seq<Seq<char>>,
) -> Result<(Option<Seq<char>>, nat, nat), Seq<char>> {
    if all_empty(gs) {
        Err(no_imports_message())
    } else {
        match parse_task_file_spec(source, path) {
            Err(m) => Err(m),
            Ok(file) => {
                let st = plan_groups(initial_plan(file), gs, dirs);
                if st.added == 0 {
                    Ok((None, 0, st.skipped))
                } else {
                    let updated = padded(source) + st.additions;
                    match parse_task_file_spec(updated, path) {
                        Err(m) => Err(m),
                        Ok(_) => Ok((Some(updated), st.added, st.skipped)),
                    }
                }
            },
        }
    }
}

proof fn lemma_plan_tasks_present(st: PlanState, tasks: Seq<(Seq<char>, Seq<char>)>, dirs: Seq<Seq<char>>)
    requires
        forall|i: int| 0 <= i < tasks.len() ==> st.commands.contains(#[trigger] tasks[i].1),
    ensures
        plan_tasks(st, tasks, dirs).added == st.added,
        plan_tasks(st, tasks, dirs).commands == st.commands,
        plan_tasks(st, tasks, dirs).additions == st.additions,
        plan_tasks(st, tasks, dirs).block == st.block,
    decreases tasks.len(),
{
    if tasks.len() > 0 {
        assert forall|i: int| 0 <= i < tasks.drop_last().len() implies st.commands.contains(
            #[trigger] tasks.drop_last()[i].1,
        ) by {
            assert(tasks.drop_last()[i] == tasks[i]);
        }
        lemma_plan_tasks_present(st, tasks.drop_last(), dirs);
        assert(st.commands.contains(tasks[tasks.len() - 1].1));
    }
}

proof fn lemma_plan_groups_present(st: PlanState, gs: Seq<GroupModel>, dirs: Seq<Seq<char>>)
    requires
        forall|g: int, i: int|
            0 <= g < gs.len() && 0 <= i < gs[g].tasks.len() ==> st.commands.contains(#[trigger] gs[g].tasks[i].1),
    ensures
        plan_groups(st, gs, dirs).added == st.added,
        plan_groups(st, gs, dirs).commands == st.commands,
        plan_groups(st, gs, dirs).additions == st.additions,
    decreases gs.len(),
{
    if gs.len() > 0 {
        assert forall|g: int, i: int|
            0 <= g < gs.drop_last().len() && 0 <= i < gs.drop_last()[g].tasks.len() implies st.commands.contains(
            #[trigger] gs.drop_last()[g].tasks[i].1,
        ) by {
            assert(gs.drop_last()[g] == gs[g]);
        }
        lemma_plan_groups_present(st, gs.drop_last(), dirs);
        let prev = plan_groups(st, gs.drop_last(), dirs);
        let g = gs.last();
        assert forall|i: int| 0 <= i < g.tasks.len() implies prev.commands.contains(#[trigger] g.tasks[i].1) by {
            assert(gs[gs.len() - 1].tasks[i] == g.tasks[i]);
        }
        lemma_plan_tasks_present(PlanState { block: seq![], ..prev }, g.tasks, dirs);
    }
}

/// `cj --auto` adds nothing, and leaves the taskfile as it is, when every
/// command it would import is already the single command of a task of the
/// file (as it is after an earlier `cj --auto` with the same sources).
pub proof fn lemma_auto_import_adds_nothing_twice(
    gs: Seq<GroupModel>,
    source: Seq<char>,
    path: Seq<char>,
    dirs: Seq<Seq<char>>,
)
    requires
        !all_empty(gs),
        parse_task_file_spec(source, path) is Ok,
        forall|g: int, i: int|
            0 <= g < gs.len() && 0 <= i < gs[g].tasks.len() ==> single_commands(
                parse_task_file_spec(source, path)->Ok_0.tasks,
            ).contains(#[trigger] gs[g].tasks[i].1),
    ensures
        auto_import_spec(gs, source, path, dirs) matches Ok((u, a, _)) && u is None && a == 0,
{
    let file = parse_task_file_spec(source, path)->Ok_0;
    lemma_plan_groups_present(initial_plan(file), gs, dirs);
}


pub open spec fn tasks_size(ts: Seq<(Seq<char>, Seq<char>)>) -> nat
    decreases ts.len(),
{
    if ts.len() == 0 {
        0
    } else {
        tasks_size(ts.drop_last()) + ts.last().0.len() + ts.last().1.len() + 26
    }
}

/// A bound on the text that the groups can add.
pub open spec fn import_size(gs: Seq<GroupModel>) -> nat
    decreases gs.len(),
{
    if gs.len() == 0 {
        0
    } else {
        import_size(gs.drop_last()) + 31 + gs.last().source.len() + tasks_size(gs.last().tasks)
    }
}

pub open spec fn group_views(v: Seq<ImportGroup>) -> Seq<GroupModel> {
    v.map_values(|g: ImportGroup| g@)
}

/// The decision of `cj --auto`.
pub struct AutoImport {
    pub updated: Option<String>,
    pub added: usize,
    pub skipped: usize,
}

proof fn lemma_tasks_size_prefix(ts: Seq<(Seq<char>, Seq<char>)>, m: int)
    requires
        0 <= m <= ts.len(),
    ensures
        tasks_size(ts.take(m)) <= tasks_size(ts),
    decreases ts.len() - m,
{
    if m < ts.len() {
        assert(ts.take(m + 1).drop_last() =~= ts.take(m));
        lemma_tasks_size_prefix(ts, m + 1);
    } else {
        assert(ts.take(m) =~= ts);
    }
}

proof fn lemma_import_size_prefix(gs: Seq<GroupModel>, g: int)
    requires
        0 <= g <= gs.len(),
    ensures
        import_size(gs.take(g)) <= import_size(gs),
    decreases gs.len() - g,
{
    if g < gs.len() {
        assert(gs.take(g + 1).drop_last() =~= gs.take(g));
        lemma_import_size_prefix(gs, g + 1);
    } else {
        assert(gs.take(g) =~= gs);
    }
}

spec fn plan_view(
    known: Seq<Vec<char>>,
    commands: Seq<Vec<char>>,
    additions: Seq<char>,
    block: Seq<char>,
    added: usize,
    skipped: usize,
) -> PlanState {
    PlanState {
        known: views(known),
        commands: views(commands),
        additions,
        block,
        added: added as nat,
        skipped: skipped as nat,
    }
}

fn file_commands(file: &TaskFile) -> (r: (Vec<Vec<char>>, Vec<Vec<char>>))
    ensures
        views(r.0@) == file@.tasks.map_values(|t: TaskModel| t.name),
        views(r.1@) == single_commands(file@.tasks),
{
    let ghost ts = file@.tasks;
    let mut known: Vec<Vec<char>> = Vec::new();
    let mut commands: Vec<Vec<char>> = Vec::new();
    let mut t: usize = 0;
    assert(views(known@) =~= seq![]);
    assert(views(commands@) =~= seq![]);
    assert(ts.take(0) =~= seq![]);
    while t < file.task_count()
        invariant
            t <= ts.len(),
            ts == file@.tasks,
            views(known@) == ts.take(t as int).map_values(|x: TaskModel| x.name),
            views(commands@) == single_commands(ts.take(t as int)),
        decreases ts.len() - t,
    {
        assert(ts.take(t + 1).drop_last() =~= ts.take(t as int));
        assert(ts.take(t + 1).last() == ts[t as int]);
        let name = file.task_name(t);
        let ghost kb = views(known@);
        known.push(name);
        assert(views(known@) =~= kb.push(ts[t as int].name));
        assert(ts.take(t + 1).map_values(|x: TaskModel| x.name) =~= ts.take(t as int).map_values(
            |x: TaskModel| x.name,
        ).push(ts[t as int].name));
        if file.line_count(t) == 1 {
            let (_, _, text) = file.line_at(t, 0);
            if !(text.len() > 0 && text[0] == '@') {
                let ghost cb = views(commands@);
                let ghost tv = text@;
                commands.push(text);
                assert(views(commands@) =~= cb.push(tv));
            }
        }
        t = t + 1;
    }
    assert(ts.take(ts.len() as int) =~= ts);
    (known, commands)
}

/// `cj --auto` on a taskfile text: given the groups of importable tasks
/// and the directories beside the taskfile, the new text, how many tasks
/// were added and how many skipped; or the error.
pub fn plan_auto_import(groups: &Vec<ImportGroup>, source: &str, path: &str, dirs: &Vec<Vec<char>>) -> (r: Result<
    AutoImport,
    CjError,
>)
    requires
        source@.len() + import_size(group_views(groups@)) + 4 <= usize::MAX / 2,
    ensures
        match auto_import_spec(group_views(groups@), source@, path@, views(dirs@)) {
            Ok((u, a, sk)) => r matches Ok(p) && p.added == a && p.skipped == sk && match p.updated {
                Some(t) => u == Some(t@),
                None => u is None,
            },
            Err(m) => r matches Err(e) && e@ == m,
        },
{
    let ghost gs = group_views(groups@);
    let ghost ds = views(dirs@);
    let mut any = false;
    let mut g: usize = 0;
    while g < groups.len()
        invariant
            g <= groups.len(),
            gs == group_views(groups@),
            any == !(forall|i: int| 0 <= i < g ==> #[trigger] gs[i].tasks.len() == 0),
        decreases groups.len() - g,
    {
        assert(gs[g as int].tasks.len() == groups@[g as int].tasks@.len());
        if groups[g].tasks.len() > 0 {
            any = true;
        }
        g = g + 1;
    }
    if !any {
        return Err(CjError::from_str(
            "no importable tasks found in package.json, deno.json, Makefile, or Justfile",
        ));
    }
    let file = match parse_task_file(source, path) {
        Ok(f) => f,
        Err(e) => return Err(e),
    };
    let (mut known, mut commands) = file_commands(&file);
    let mut additions: Vec<char> = Vec::new();
    let mut added: usize = 0;
    let mut skipped: usize = 0;
    let ghost init = initial_plan(file@);
    assert(plan_view(known@, commands@, additions@, seq![], added, skipped) == (PlanState {
        block: seq![],
        ..init
    }));
    assert(plan_groups(init, gs.take(0), ds) == init);
    let mut gi: usize = 0;
    while gi < groups.len()
        invariant
            gi <= groups.len(),
            gs == group_views(groups@),
            ds == views(dirs@),
            source@.len() + import_size(gs) + 4 <= usize::MAX / 2,
            additions@.len() + added + skipped <= import_size(gs.take(gi as int)),
            (PlanState { block: seq![], ..plan_groups(init, gs.take(gi as int), ds) }) == plan_view(
                known@,
                commands@,
                additions@,
                seq![],
                added,
                skipped,
            ),
        decreases groups.len() - gi,
    {
        assert(gs.take(gi + 1).drop_last() =~= gs.take(gi as int));
        assert(gs.take(gi + 1).last() == groups@[gi as int]@);
        proof {
            lemma_import_size_prefix(gs, gi + 1);
        }
        let group = &groups[gi];
        let ghost tv = pair_views(group.tasks@);
        let ghost outer = plan_groups(init, gs.take(gi as int), ds);
        let ghost start = PlanState { block: seq![], ..outer };
        let mut block: Vec<char> = Vec::new();
        let mut m: usize = 0;
        assert(tv.take(0) =~= seq![]);
        while m < group.tasks.len()
            invariant
                m <= group.tasks.len(),
                tv == pair_views(group.tasks@),
                ds == views(dirs@),
                source@.len() + import_size(gs) + 4 <= usize::MAX / 2,
                additions@.len() + added + skipped + block@.len() <= import_size(gs.take(gi as int))
                    + tasks_size(tv.take(m as int)),
                import_size(gs.take(gi as int)) + 31 + group.source@.len() + tasks_size(tv) <= import_size(
                    gs,
                ),
                plan_tasks(start, tv.take(m as int), ds) == plan_view(
                    known@,
                    commands@,
                    additions@,
                    block@,
                    added,
                    skipped,
                ),
            decreases group.tasks.len() - m,
        {
            assert(tv.take(m + 1).drop_last() =~= tv.take(m as int));
            assert(tv.take(m + 1).last() == (group.tasks@[m as int].0@, group.tasks@[m as int].1@));
            proof {
                lemma_tasks_size_prefix(tv, m + 1);
            }
            let base = &group.tasks[m].0;
            let command = &group.tasks[m].1;
            if contains_text(&commands, command) {
                skipped = skipped + 1;
            } else {
                let name = available_task_name(base, &known, &dirs);
                let ghost kb = views(known@);
                let ghost cb = views(commands@);
                let ghost bb = block@;
                append(&mut block, &name);
                append_str(&mut block, ":\n  ");
                append(&mut block, command);
                append_str(&mut block, "\n");
                assert(block@ =~= bb + name@ + ":\n  "@ + command@ + "\n"@);
                let ghost nv = name@;
                known.push(name);
                assert(views(known@) =~= kb.push(nv));
                commands.push(command.clone());
                assert(views(commands@) =~= cb.push(command@));
                added = added + 1;
                proof {
                    reveal_strlit(":\n  ");
                    reveal_strlit("\n");
                }
            }
            m = m + 1;
        }
        assert(tv.take(group.tasks.len() as int) =~= tv);
        assert(group@.tasks == tv);
        if block.len() > 0 {
            let ghost ab = additions@;
            append_str(&mut additions, "# Imported from ");
            append(&mut additions, &group.source);
            append_str(&mut additions, " by cj --auto\n");
            append(&mut additions, &block);
            append_str(&mut additions, "\n");
            assert(additions@ =~= ab + "# Imported from "@ + group.source@ + " by cj --auto\n"@ + block@
                + "\n"@);
            proof {
                reveal_strlit("# Imported from ");
                reveal_strlit(" by cj --auto\n");
                reveal_strlit("\n");
            }
        }
        gi = gi + 1;
    }
    assert(gs.take(groups.len() as int) =~= gs);
    if added == 0 {
        return Ok(AutoImport { updated: None, added: 0, skipped });
    }
    let mut updated = str_chars(source);
    if updated.len() > 0 {
        if !crate::text::chars_ends_with_str(&updated, "\n") {
            updated.push('\n');
        }
        if !crate::text::chars_ends_with_str(&updated, "\n\n") {
            updated.push('\n');
        }
    }
    assert(updated@ == padded(source@));
    let ghost pv = updated@;
    append(&mut updated, &additions);
    assert(updated@ =~= padded(source@) + additions@);
    let text = string_from(&updated);
    match parse_task_file(text.as_str(), path) {
        Err(e) => Err(e),
        Ok(_) => Ok(AutoImport { updated: Some(text), added, skipped }),
    }
}

} // verus!
