//! Command text: splitting a line into words with quotes and escapes, and
//! interpolating `$NAME` / `${NAME}` / `${NAME:-fallback}` from variables.
use vstd::prelude::*;

use crate::error::CjError;
use crate::names::{
    char_is_env_continue, char_is_env_start, env_name_error, is_env_continue, is_env_start,
    validate_env_name,
};
use crate::scan::{strip_matching_quotes, strip_matching_quotes_spec, ws_words, ws_words_fold};
use crate::text::{
    append, append_str, char_is_ws, chars_find, find_char, is_ws, lemma_find_char, str_chars, string_from, subvec,
};
use crate::vars::VarMap;

verus! {

#[verifier::external_type_specification]
#[verifier::external_body]
pub struct ExQuoteError(shlex::QuoteError);

/// What `shlex::try_quote` makes of a text that it accepts.
pub uninterp spec fn shell_quoted(text: Seq<char>) -> Seq<char>;

/// `shlex::try_quote` quotes a word for a POSIX shell. Its source refuses a
/// non-empty text that holds a nul char and returns `''` for the empty text;
/// for any other text the quoted form is named by `shell_quoted`.
#[verifier::external_body]
pub(crate) fn shlex_try_quote(text: &str) -> (r: Result<String, shlex::QuoteError>)
    ensures
        match r {
            Ok(q) => !(text@.len() > 0 && text@.contains('\0')) && if text@.len() == 0 {
                q@ == "''"@
            } else {
                q@ == shell_quoted(text@)
            },
            Err(_) => text@.len() > 0 && text@.contains('\0'),
        },
{
    match shlex::try_quote(text) {
        Ok(quoted) => Ok(quoted.into_owned()),
        Err(e) => Err(e),
    }
}

/// How interpolated values are written into the text.
#[derive(Clone, Copy, Debug, PartialEq, Eq, Structural)]
pub enum QuoteMode {
    Raw,
    Shell,
}

/// A value as it is inserted: as is, or quoted for `/bin/sh` (an unquotable
/// value becomes `''`).
pub open spec fn quote_spec(value: Seq<char>, mode: QuoteMode) -> Seq<char> {
    match mode {
        QuoteMode::Raw => value,
        QuoteMode::Shell => if value.len() == 0 || value.contains('\0') {
            "''"@
        } else {
            shell_quoted(value)
        },
    }
}

pub fn quote_value(value: &Vec<char>, mode: QuoteMode) -> (r: Vec<char>)
    ensures
        r@ == quote_spec(value@, mode),
{
    match mode {
        QuoteMode::Raw => value.clone(),
        QuoteMode::Shell => {
            let s = string_from(value);
            match shlex_try_quote(s.as_str()) {
                Ok(q) => str_chars(q.as_str()),
                Err(_) => str_chars("''"),
            }
        },
    }
}

/// `"invalid variable interpolation '<expr>': <why>"`.
pub open spec fn invalid_interpolation_text(expr: Seq<char>, why: Seq<char>) -> Seq<char> {
    "invalid variable interpolation '"@ + expr + "': "@ + why
}

/// The value of a braced expression: `${NAME}` is the value, or empty when
/// the variable is not set; `${NAME?}` must be set; `${NAME?fallback}` is
/// the fallback (without matching quotes around it) when it is not set.
pub open spec fn expand_braced_spec(expr: Seq<char>, env: Map<Seq<char>, Seq<char>>) -> Result<
    Seq<char>,
    Seq<char>,
> {
    match find_char(expr, '?') {
        Some(i) => {
            let name = expr.take(i);
            let fallback = expr.skip(i + 1);
            match env_name_error(name) {
                Some(e) => Err(invalid_interpolation_text(expr, e.spec_message())),
                None => if env.contains_key(name) {
                    Ok(env[name])
                } else if fallback.len() == 0 {
                    Err("missing variable: "@ + name)
                } else {
                    Ok(strip_matching_quotes_spec(fallback))
                },
            }
        },
        None => match env_name_error(expr) {
            Some(e) => Err(invalid_interpolation_text(expr, e.spec_message())),
            None => Ok(
                if env.contains_key(expr) {
                    env[expr]
                } else {
                    seq![]
                },
            ),
        },
    }
}

fn invalid_interpolation(expr: &Vec<char>, why: &str) -> (m: Vec<char>)
    ensures
        m@ == invalid_interpolation_text(expr@, why@),
{
    let mut m = str_chars("invalid variable interpolation '");
    append(&mut m, expr);
    append_str(&mut m, "': ");
    append_str(&mut m, why);
    m
}

pub fn expand_braced(expr: &Vec<char>, env: &VarMap) -> (r: Result<Vec<char>, Vec<char>>)
    requires
        env.wf(),
    ensures
        match r {
            Ok(v) => expand_braced_spec(expr@, env@) == Ok::<Seq<char>, Seq<char>>(v@),
            Err(m) => expand_braced_spec(expr@, env@) == Err::<Seq<char>, Seq<char>>(m@),
        },
{
    match chars_find(expr, '?') {
        Some(i) => {
            proof {
                lemma_find_char(expr@, '?');
            }
            let name = subvec(expr, 0, i);
            let fallback = subvec(expr, i + 1, expr.len());
            match validate_env_name(&name) {
                Err(e) => Err(invalid_interpolation(expr, e.message())),
                Ok(()) => match env.get(&name) {
                    Some(v) => Ok(v),
                    None => if fallback.len() == 0 {
                        let mut m = str_chars("missing variable: ");
                        append(&mut m, &name);
                        Err(m)
                    } else {
                        Ok(strip_matching_quotes(&fallback))
                    },
                },
            }
        },
        None => match validate_env_name(expr) {
            Err(e) => Err(invalid_interpolation(expr, e.message())),
            Ok(()) => match env.get(expr) {
                Some(v) => Ok(v),
                None => Ok(Vec::new()),
            },
        },
    }
}

/// Where the interpolation scanner stands between two chars.
pub enum InterpMode {
    Normal,
    AfterBackslash,
    AfterDollar,
    Brace(Seq<char>),
    Name(Seq<char>),
}

pub struct InterpState {
    pub out: Seq<char>,
    pub mode: InterpMode,
    pub err: Option<Seq<char>>,
}

/// The value of a bare `$NAME`: empty when unset.
pub open spec fn lookup_or_empty(env: Map<Seq<char>, Seq<char>>, name: Seq<char>) -> Seq<char> {
    if env.contains_key(name) {
        env[name]
    } else {
        seq![]
    }
}

/// A char read outside any `$` or `\` construct.
pub open spec fn interp_normal(out: Seq<char>, c: char) -> InterpState {
    if c == '\\' {
        InterpState { out, mode: InterpMode::AfterBackslash, err: None }
    } else if c == '$' {
        InterpState { out, mode: InterpMode::AfterDollar, err: None }
    } else {
        InterpState { out: out.push(c), mode: InterpMode::Normal, err: None }
    }
}

pub open spec fn interp_step(
    st: InterpState,
    c: char,
    env: Map<Seq<char>, Seq<char>>,
    qm: QuoteMode,
) -> InterpState {
    if st.err is Some {
        st
    } else {
        match st.mode {
            InterpMode::Normal => interp_normal(st.out, c),
            InterpMode::AfterBackslash => if c == '$' {
                InterpState { out: st.out.push('$'), mode: InterpMode::Normal, err: None }
            } else {
                interp_normal(st.out.push('\\'), c)
            },
            InterpMode::AfterDollar => if c == '{' {
                InterpState { out: st.out, mode: InterpMode::Brace(seq![]), err: None }
            } else if is_env_start(c) {
                InterpState { out: st.out, mode: InterpMode::Name(seq![c]), err: None }
            } else {
                interp_normal(st.out.push('$'), c)
            },
            InterpMode::Name(n) => if is_env_continue(c) {
                InterpState { out: st.out, mode: InterpMode::Name(n.push(c)), err: None }
            } else {
                interp_normal(st.out + quote_spec(lookup_or_empty(env, n), qm), c)
            },
            InterpMode::Brace(e) => if c == '}' {
                match expand_braced_spec(e, env) {
                    Ok(v) => InterpState {
                        out: st.out + quote_spec(v, qm),
                        mode: InterpMode::Normal,
                        err: None,
                    },
                    Err(m) => InterpState { out: st.out, mode: InterpMode::Normal, err: Some(m) },
                }
            } else {
                InterpState { out: st.out, mode: InterpMode::Brace(e.push(c)), err: None }
            },
        }
    }
}

pub open spec fn interp_fold(
    s: Seq<char>,
    env: Map<Seq<char>, Seq<char>>,
    qm: QuoteMode,
) -> InterpState
    decreases s.len(),
{
    if s.len() == 0 {
        InterpState { out: seq![], mode: InterpMode::Normal, err: None }
    } else {
        interp_step(interp_fold(s.drop_last(), env, qm), s.last(), env, qm)
    }
}

/// The text with every variable reference replaced by its value, or the
/// first error.
pub open spec fn interpolate_spec(s: Seq<char>, env: Map<Seq<char>, Seq<char>>, qm: QuoteMode) -> Result<
    Seq<char>,
    Seq<char>,
> {
    let st = interp_fold(s, env, qm);
    match st.err {
        Some(m) => Err(m),
        None => match st.mode {
            InterpMode::Normal => Ok(st.out),
            InterpMode::AfterBackslash => Ok(st.out.push('\\')),
            InterpMode::AfterDollar => Ok(st.out.push('$')),
            InterpMode::Name(n) => Ok(st.out + quote_spec(lookup_or_empty(env, n), qm)),
            InterpMode::Brace(_) => Err("unterminated variable interpolation"@),
        },
    }
}

enum ExecMode {
    Normal,
    AfterBackslash,
    AfterDollar,
    Brace(Vec<char>),
    Name(Vec<char>),
}

spec fn mode_view(m: ExecMode) -> InterpMode {
    match m {
        ExecMode::Normal => InterpMode::Normal,
        ExecMode::AfterBackslash => InterpMode::AfterBackslash,
        ExecMode::AfterDollar => InterpMode::AfterDollar,
        ExecMode::Brace(e) => InterpMode::Brace(e@),
        ExecMode::Name(n) => InterpMode::Name(n@),
    }
}

fn interp_normal_exec(out: &mut Vec<char>, c: char) -> (m: ExecMode)
    ensures
        interp_normal(old(out)@, c) == (InterpState {
            out: final(out)@,
            mode: mode_view(m),
            err: None,
        }),
{
    if c == '\\' {
        ExecMode::AfterBackslash
    } else if c == '$' {
        ExecMode::AfterDollar
    } else {
        out.push(c);
        ExecMode::Normal
    }
}

/// Replaces variable references in a text.
pub fn interpolate_text(input: &Vec<char>, env: &VarMap, qm: QuoteMode) -> (r: Result<
    Vec<char>,
    Vec<char>,
>)
    requires
        env.wf(),
    ensures
        match r {
            Ok(t) => interpolate_spec(input@, env@, qm) == Ok::<Seq<char>, Seq<char>>(t@),
            Err(m) => interpolate_spec(input@, env@, qm) == Err::<Seq<char>, Seq<char>>(m@),
        },
{
    let mut out: Vec<char> = Vec::new();
    let mut mode = ExecMode::Normal;
    let mut i: usize = 0;
    while i < input.len()
        invariant
            i <= input.len(),
            env.wf(),
            interp_fold(input@.take(i as int), env@, qm) == (InterpState {
                out: out@,
                mode: mode_view(mode),
                err: None,
            }),
        decreases input.len() - i,
    {
        let c = input[i];
        assert(input@.take(i + 1).drop_last() =~= input@.take(i as int));
        let ghost prev = interp_fold(input@.take(i as int), env@, qm);
        let m = mode;
        mode = ExecMode::Normal;
        match m {
            ExecMode::Normal => {
                mode = interp_normal_exec(&mut out, c);
            },
            ExecMode::AfterBackslash => {
                if c == '$' {
                    out.push('$');
                    mode = ExecMode::Normal;
                } else {
                    out.push('\\');
                    mode = interp_normal_exec(&mut out, c);
                }
            },
            ExecMode::AfterDollar => {
                if c == '{' {
                    mode = ExecMode::Brace(Vec::new());
                    assert(mode_view(mode) == InterpMode::Brace(seq![]));
                } else if char_is_env_start(c) {
                    let mut n: Vec<char> = Vec::new();
                    n.push(c);
                    assert(n@ =~= seq![c]);
                    mode = ExecMode::Name(n);
                } else {
                    out.push('$');
                    mode = interp_normal_exec(&mut out, c);
                }
            },
            ExecMode::Name(n) => {
                if char_is_env_continue(c) {
                    let mut n = n;
                    n.push(c);
                    mode = ExecMode::Name(n);
                } else {
                    let value = match env.get(&n) {
                        Some(v) => v,
                        None => Vec::new(),
                    };
                    assert(value@ == lookup_or_empty(env@, n@));
                    let q = quote_value(&value, qm);
                    append(&mut out, &q);
                    mode = interp_normal_exec(&mut out, c);
                }
            },
            ExecMode::Brace(e) => {
                if c == '}' {
                    match expand_braced(&e, env) {
                        Ok(v) => {
                            let q = quote_value(&v, qm);
                            append(&mut out, &q);
                            mode = ExecMode::Normal;
                        },
                        Err(msg) => {
                            assert(input@.take(input.len() as int) =~= input@);
                            proof {
                                lemma_interp_error_sticks(input@, (i + 1) as int, env@, qm);
                            }
                            return Err(msg);
                        },
                    }
                } else {
                    let mut e = e;
                    e.push(c);
                    mode = ExecMode::Brace(e);
                }
            },
        }
        i = i + 1;
    }
    assert(input@.take(input.len() as int) =~= input@);
    match mode {
        ExecMode::Normal => Ok(out),
        ExecMode::AfterBackslash => {
            out.push('\\');
            Ok(out)
        },
        ExecMode::AfterDollar => {
            out.push('$');
            Ok(out)
        },
        ExecMode::Name(n) => {
            let value = match env.get(&n) {
                Some(v) => v,
                None => Vec::new(),
            };
            let q = quote_value(&value, qm);
            append(&mut out, &q);
            Ok(out)
        },
        ExecMode::Brace(_) => Err(str_chars("unterminated variable interpolation")),
    }
}

/// Scanning a text without `$` copies it, holding back a final backslash.
proof fn lemma_interp_fold_dollar_free(s: Seq<char>, env: Map<Seq<char>, Seq<char>>, qm: QuoteMode)
    requires
        !s.contains('$'),
    ensures
        interp_fold(s, env, qm).err is None,
        interp_fold(s, env, qm).mode is Normal && interp_fold(s, env, qm).out == s
            || interp_fold(s, env, qm).mode is AfterBackslash && interp_fold(s, env, qm).out.push('\\') == s,
    decreases s.len(),
{
    if s.len() > 0 {
        let p = s.drop_last();
        assert(!p.contains('$')) by {
            if p.contains('$') {
                let i = choose|i: int| 0 <= i < p.len() && p[i] == '$';
                assert(s[i] == '$');
            }
        }
        assert(s.last() != '$') by {
            assert(s[s.len() - 1] == s.last());
        }
        lemma_interp_fold_dollar_free(p, env, qm);
        assert(p.push(s.last()) =~= s);
        let st = interp_fold(p, env, qm);
        if st.mode is AfterBackslash {
            assert(st.out.push('\\').push(s.last()) =~= s);
        }
    }
}

/// Interpolation leaves a text without `$` as it is, in either quoting mode.
pub proof fn lemma_dollar_free_text_unchanged(s: Seq<char>, env: Map<Seq<char>, Seq<char>>, qm: QuoteMode)
    requires
        !s.contains('$'),
    ensures
        interpolate_spec(s, env, qm) == Ok::<Seq<char>, Seq<char>>(s),
{
    lemma_interp_fold_dollar_free(s, env, qm);
}

/// Once the scanner has failed, later chars keep the failure.
proof fn lemma_interp_error_sticks(
    s: Seq<char>,
    k: int,
    env: Map<Seq<char>, Seq<char>>,
    qm: QuoteMode,
)
    requires
        0 <= k <= s.len(),
        interp_fold(s.take(k), env, qm).err is Some,
    ensures
        interp_fold(s, env, qm).err == interp_fold(s.take(k), env, qm).err,
    decreases s.len() - k,
{
    if k < s.len() {
        assert(s.take(k + 1).drop_last() =~= s.take(k));
        lemma_interp_error_sticks(s, k + 1, env, qm);
    } else {
        assert(s.take(k) =~= s);
    }
}

/// Where the word splitter stands between two chars.
pub struct WordState {
    pub words: Seq<Seq<char>>,
    pub cur: Seq<char>,
    pub quote: Option<char>,
    pub in_word: bool,
    pub escaped: bool,
}

pub open spec fn word_step(st: WordState, c: char) -> WordState {
    if st.escaped {
        WordState {
            cur: if c == '$' {
                st.cur.push('\\').push(c)
            } else {
                st.cur.push(c)
            },
            in_word: true,
            escaped: false,
            ..st
        }
    } else {
        match st.quote {
            Some(q) => if c == q {
                WordState { quote: None, in_word: true, ..st }
            } else if q == '"' && c == '\\' {
                WordState { escaped: true, ..st }
            } else {
                WordState { cur: st.cur.push(c), in_word: true, ..st }
            },
            None => if c == '\'' || c == '"' {
                WordState { quote: Some(c), in_word: true, ..st }
            } else if is_ws(c) {
                if st.in_word {
                    WordState { words: st.words.push(st.cur), cur: seq![], in_word: false, ..st }
                } else {
                    st
                }
            } else if c == '\\' {
                WordState { escaped: true, ..st }
            } else {
                WordState { cur: st.cur.push(c), in_word: true, ..st }
            },
        }
    }
}

pub open spec fn word_fold(s: Seq<char>) -> WordState
    decreases s.len(),
{
    if s.len() == 0 {
        WordState { words: seq![], cur: seq![], quote: None, in_word: false, escaped: false }
    } else {
        word_step(word_fold(s.drop_last()), s.last())
    }
}

/// The words of a command line: whitespace separates words outside quotes;
/// single quotes keep everything; double quotes and bare text treat `\` as an
/// escape of the next char (a `\$` keeps its backslash so that the dollar
/// stays literal for interpolation); an open quote is an error.
pub open spec fn split_words_spec(s: Seq<char>) -> Result<Seq<Seq<char>>, Seq<char>> {
    let st0 = word_fold(s);
    let st = if st0.escaped {
        WordState { cur: st0.cur.push('\\'), in_word: true, escaped: false, ..st0 }
    } else {
        st0
    };
    match st.quote {
        Some(q) => Err("unterminated "@ + seq![q] + " quote"@),
        None => Ok(
            if st.in_word {
                st.words.push(st.cur)
            } else {
                st.words
            },
        ),
    }
}

/// A text without quotes or backslashes.
pub open spec fn plain_command(s: Seq<char>) -> bool {
    !s.contains('\'') && !s.contains('"') && !s.contains('\\')
}

/// On a plain text the word splitter only ever separates at whitespace.
proof fn lemma_word_fold_plain(s: Seq<char>)
    requires
        plain_command(s),
    ensures
        word_fold(s).quote is None,
        !word_fold(s).escaped,
        word_fold(s).in_word <==> word_fold(s).cur.len() > 0,
        (word_fold(s).words, word_fold(s).cur) == ws_words_fold(s),
    decreases s.len(),
{
    if s.len() > 0 {
        let p = s.drop_last();
        assert(plain_command(p)) by {
            if p.contains('\'') || p.contains('"') || p.contains('\\') {
                let i = choose|i: int| 0 <= i < p.len() && (p[i] == '\'' || p[i] == '"' || p[i] == '\\');
                assert(s[i] == p[i]);
            }
        }
        assert(s[s.len() - 1] == s.last());
        lemma_word_fold_plain(p);
    }
}

/// Without quotes or backslashes, a command line splits into its
/// whitespace-separated words.
pub proof fn lemma_plain_words_split_at_whitespace(s: Seq<char>)
    requires
        plain_command(s),
    ensures
        split_words_spec(s) == Ok::<Seq<Seq<char>>, Seq<char>>(ws_words(s)),
{
    lemma_word_fold_plain(s);
}

/// The splitter run from a given state over the chars of a text, first to
/// last.
pub open spec fn word_run(st: WordState, s: Seq<char>) -> WordState
    decreases s.len(),
{
    if s.len() == 0 {
        st
    } else {
        word_run(word_step(st, s[0]), s.drop_first())
    }
}

proof fn lemma_word_run_push(st: WordState, s: Seq<char>, c: char)
    ensures
        word_run(st, s.push(c)) == word_step(word_run(st, s), c),
    decreases s.len(),
{
    if s.len() > 0 {
        assert(s.push(c).drop_first() =~= s.drop_first().push(c));
        assert(s.push(c)[0] == s[0]);
        lemma_word_run_push(word_step(st, s[0]), s.drop_first(), c);
    } else {
        assert(s.push(c).drop_first() =~= s);
        assert(s.push(c)[0] == c);
        assert(word_run(word_step(st, c), s) == word_step(st, c));
    }
}

proof fn lemma_word_fold_run(s: Seq<char>)
    ensures
        word_fold(s) == word_run(
            WordState { words: seq![], cur: seq![], quote: None, in_word: false, escaped: false },
            s,
        ),
    decreases s.len(),
{
    if s.len() > 0 {
        lemma_word_fold_run(s.drop_last());
        lemma_word_run_push(
            WordState { words: seq![], cur: seq![], quote: None, in_word: false, escaped: false },
            s.drop_last(),
            s.last(),
        );
        assert(s.drop_last().push(s.last()) =~= s);
    }
}

proof fn lemma_word_run_concat(st: WordState, x: Seq<char>, y: Seq<char>)
    ensures
        word_run(st, x + y) == word_run(word_run(st, x), y),
    decreases x.len(),
{
    if x.len() > 0 {
        assert((x + y).drop_first() =~= x.drop_first() + y);
        assert((x + y)[0] == x[0]);
        lemma_word_run_concat(word_step(st, x[0]), x.drop_first(), y);
    } else {
        assert(x + y =~= y);
    }
}

/// Inside double quotes, text without quotes or backslashes is taken as it is.
proof fn lemma_word_run_in_quotes(st: WordState, a: Seq<char>)
    requires
        st.quote == Some('"'),
        !st.escaped,
        st.in_word,
        !a.contains('"'),
        !a.contains('\\'),
    ensures
        word_run(st, a) == (WordState { cur: st.cur + a, ..st }),
    decreases a.len(),
{
    if a.len() > 0 {
        assert(a[0] != '"' && a[0] != '\\') by {
            assert(a.contains(a[0]));
        }
        let st1 = word_step(st, a[0]);
        assert(st1 == WordState { cur: st.cur.push(a[0]), ..st });
        assert(!a.drop_first().contains('"') && !a.drop_first().contains('\\')) by {
            if a.drop_first().contains('"') || a.drop_first().contains('\\') {
                let j = choose|j: int| 0 <= j < a.drop_first().len() && (a.drop_first()[j] == '"' || a.drop_first()[j] == '\\');
                assert(a[j + 1] == a.drop_first()[j]);
            }
        }
        lemma_word_run_in_quotes(st1, a.drop_first());
        assert(st.cur.push(a[0]) + a.drop_first() =~= st.cur + a);
    } else {
        assert(st.cur + a =~= st.cur);
    }
}

/// Inside double quotes a backslash escapes the next char: a `\"` gives a
/// literal quote and does not end the word, for all texts around it that
/// hold no quote or backslash of their own.
pub proof fn lemma_escaped_quote_inside_double_quotes(a: Seq<char>, b: Seq<char>)
    requires
        !a.contains('"'),
        !a.contains('\\'),
        !b.contains('"'),
        !b.contains('\\'),
    ensures
        split_words_spec(seq!['"'] + a + seq!['\\', '"'] + b + seq!['"']) == Ok::<Seq<Seq<char>>, Seq<char>>(
            seq![a + seq!['"'] + b],
        ),
{
    let init = WordState { words: seq![], cur: seq![], quote: None, in_word: false, escaped: false };
    let s = seq!['"'] + a + seq!['\\', '"'] + b + seq!['"'];
    lemma_word_fold_run(s);
    lemma_word_run_concat(init, seq!['"'] + a + seq!['\\', '"'] + b, seq!['"']);
    lemma_word_run_concat(init, seq!['"'] + a + seq!['\\', '"'], b);
    lemma_word_run_concat(init, seq!['"'] + a, seq!['\\', '"']);
    lemma_word_run_concat(init, seq!['"'], a);
    let s1 = word_run(init, seq!['"']);
    assert(seq!['"'].drop_first() =~= Seq::<char>::empty());
    assert(word_run(word_step(init, '"'), Seq::<char>::empty()) == word_step(init, '"'));
    assert(s1 == WordState { quote: Some('"'), in_word: true, ..init });
    lemma_word_run_in_quotes(s1, a);
    let s2 = word_run(s1, a);
    let s3 = word_run(s2, seq!['\\', '"']);
    assert(seq!['\\', '"'].drop_first() =~= seq!['"']);
    assert(word_run(s2, seq!['\\', '"']) == word_run(word_step(s2, '\\'), seq!['"']));
    assert(word_run(word_step(s2, '\\'), seq!['"']) == word_run(word_step(word_step(s2, '\\'), '"'), Seq::<char>::empty()));
    assert(word_run(word_step(word_step(s2, '\\'), '"'), Seq::<char>::empty()) == word_step(word_step(s2, '\\'), '"'));
    assert(s3 == WordState { cur: a.push('"'), ..s1 });
    lemma_word_run_in_quotes(s3, b);
    let s4 = word_run(s3, b);
    assert(a.push('"') + b =~= a + seq!['"'] + b);
    let s5 = word_run(s4, seq!['"']);
    assert(word_run(s4, seq!['"']) == word_run(word_step(s4, '"'), Seq::<char>::empty()));
    assert(word_run(word_step(s4, '"'), Seq::<char>::empty()) == word_step(s4, '"'));
    assert(s5 == WordState { quote: None, ..s4 });
}

/// Inside single quotes, text without a single quote is taken as it is.
proof fn lemma_word_run_in_single_quotes(st: WordState, a: Seq<char>)
    requires
        st.quote == Some('\''),
        !st.escaped,
        st.in_word,
        !a.contains('\''),
    ensures
        word_run(st, a) == (WordState { cur: st.cur + a, ..st }),
    decreases a.len(),
{
    if a.len() > 0 {
        assert(a[0] != '\'') by {
            assert(a.contains(a[0]));
        }
        let st1 = word_step(st, a[0]);
        assert(!a.drop_first().contains('\'')) by {
            if a.drop_first().contains('\'') {
                let j = choose|j: int| 0 <= j < a.drop_first().len() && a.drop_first()[j] == '\'';
                assert(a[j + 1] == a.drop_first()[j]);
            }
        }
        lemma_word_run_in_single_quotes(st1, a.drop_first());
        assert(st.cur.push(a[0]) + a.drop_first() =~= st.cur + a);
    } else {
        assert(st.cur + a =~= st.cur);
    }
}

/// Single quotes keep everything between them, backslashes, double quotes,
/// `$` and whitespace included, as one word.
pub proof fn lemma_single_quotes_keep_text(a: Seq<char>)
    requires
        !a.contains('\''),
    ensures
        split_words_spec(seq!['\''] + a + seq!['\'']) == Ok::<Seq<Seq<char>>, Seq<char>>(seq![a]),
{
    let init = WordState { words: seq![], cur: seq![], quote: None, in_word: false, escaped: false };
    let s = seq!['\''] + a + seq!['\''];
    lemma_word_fold_run(s);
    lemma_word_run_concat(init, seq!['\''] + a, seq!['\'']);
    lemma_word_run_concat(init, seq!['\''], a);
    let s1 = word_run(init, seq!['\'']);
    assert(seq!['\''].drop_first() =~= Seq::<char>::empty());
    assert(word_run(word_step(init, '\''), Seq::<char>::empty()) == word_step(init, '\''));
    assert(s1 == WordState { quote: Some('\''), in_word: true, ..init });
    lemma_word_run_in_single_quotes(s1, a);
    let s2 = word_run(s1, a);
    assert(word_run(s2, seq!['\'']) == word_run(word_step(s2, '\''), Seq::<char>::empty()));
    assert(word_run(word_step(s2, '\''), Seq::<char>::empty()) == word_step(s2, '\''));
    assert(seq![] + a =~= a);
}

/// Outside quotes, text without quotes, backslashes or whitespace extends
/// the current word.
proof fn lemma_word_run_bare(st: WordState, a: Seq<char>)
    requires
        st.quote is None,
        !st.escaped,
        !a.contains('\''),
        !a.contains('"'),
        !a.contains('\\'),
        forall|i: int| 0 <= i < a.len() ==> !is_ws(#[trigger] a[i]),
    ensures
        word_run(st, a) == (WordState { cur: st.cur + a, in_word: st.in_word || a.len() > 0, ..st }),
    decreases a.len(),
{
    if a.len() > 0 {
        assert(a[0] != '\'' && a[0] != '"' && a[0] != '\\') by {
            assert(a.contains(a[0]));
        }
        let st1 = word_step(st, a[0]);
        let r = a.drop_first();
        assert(!r.contains('\'') && !r.contains('"') && !r.contains('\\')) by {
            if r.contains('\'') || r.contains('"') || r.contains('\\') {
                let j = choose|j: int| 0 <= j < r.len() && (r[j] == '\'' || r[j] == '"' || r[j] == '\\');
                assert(a[j + 1] == r[j]);
            }
        }
        assert forall|i: int| 0 <= i < r.len() implies !is_ws(#[trigger] r[i]) by {
            assert(r[i] == a[i + 1]);
        }
        lemma_word_run_bare(st1, r);
        assert(st.cur.push(a[0]) + r =~= st.cur + a);
    } else {
        assert(st.cur + a =~= st.cur);
    }
}

/// Outside quotes a backslash escapes the next char: `A\ B` is the one
/// word `A B`, for all bare words `A` and `B`.
pub proof fn lemma_backslash_escapes_outside_quotes(a: Seq<char>, b: Seq<char>)
    requires
        !a.contains('\''),
        !a.contains('"'),
        !a.contains('\\'),
        forall|i: int| 0 <= i < a.len() ==> !is_ws(#[trigger] a[i]),
        !b.contains('\''),
        !b.contains('"'),
        !b.contains('\\'),
        forall|i: int| 0 <= i < b.len() ==> !is_ws(#[trigger] b[i]),
    ensures
        split_words_spec(a + seq!['\\', ' '] + b) == Ok::<Seq<Seq<char>>, Seq<char>>(seq![a + seq![' '] + b]),
{
    let init = WordState { words: seq![], cur: seq![], quote: None, in_word: false, escaped: false };
    let s = a + seq!['\\', ' '] + b;
    lemma_word_fold_run(s);
    lemma_word_run_concat(init, a + seq!['\\', ' '], b);
    lemma_word_run_concat(init, a, seq!['\\', ' ']);
    lemma_word_run_bare(init, a);
    let s1 = word_run(init, a);
    assert(seq!['\\', ' '].drop_first() =~= seq![' ']);
    assert(seq![' '].drop_first() =~= Seq::<char>::empty());
    assert(word_run(s1, seq!['\\', ' ']) == word_run(word_step(s1, '\\'), seq![' ']));
    assert(word_run(word_step(s1, '\\'), seq![' ']) == word_run(
        word_step(word_step(s1, '\\'), ' '),
        Seq::<char>::empty(),
    ));
    let s2 = word_step(word_step(s1, '\\'), ' ');
    assert(s2 == WordState { cur: a.push(' '), in_word: true, escaped: false, ..init }) by {
        assert(seq![] + a =~= a);
    }
    lemma_word_run_bare(s2, b);
    assert(a.push(' ') + b =~= a + seq![' '] + b);
}

/// Splits a command line into words.
pub fn split_words(command: &Vec<char>) -> (r: Result<Vec<Vec<char>>, Vec<char>>)
    ensures
        match r {
            Ok(w) => split_words_spec(command@) == Ok::<Seq<Seq<char>>, Seq<char>>(
                w@.map_values(|x: Vec<char>| x@),
            ),
            Err(m) => split_words_spec(command@) == Err::<Seq<Seq<char>>, Seq<char>>(m@),
        },
{
    let mut words: Vec<Vec<char>> = Vec::new();
    let mut cur: Vec<char> = Vec::new();
    let mut quote: Option<char> = None;
    let mut in_word = false;
    let mut escaped = false;
    let mut i: usize = 0;
    assert(words@.map_values(|x: Vec<char>| x@) =~= seq![]);
    assert(cur@ =~= seq![]);
    while i < command.len()
        invariant
            i <= command.len(),
            word_fold(command@.take(i as int)) == (WordState {
                words: words@.map_values(|x: Vec<char>| x@),
                cur: cur@,
                quote,
                in_word,
                escaped,
            }),
        decreases command.len() - i,
    {
        let c = command[i];
        assert(command@.take(i + 1).drop_last() =~= command@.take(i as int));
        if escaped {
            if c == '$' {
                cur.push('\\');
            }
            cur.push(c);
            in_word = true;
            escaped = false;
        } else {
            match quote {
                Some(q) => {
                    if c == q {
                        quote = None;
                        in_word = true;
                    } else if q == '"' && c == '\\' {
                        escaped = true;
                    } else {
                        cur.push(c);
                        in_word = true;
                    }
                },
                None => {
                    if c == '\'' || c == '"' {
                        quote = Some(c);
                        in_word = true;
                    } else if char_is_ws(c) {
                        if in_word {
                            let ghost before = words@.map_values(|x: Vec<char>| x@);
                            let w = cur;
                            words.push(w);
                            cur = Vec::new();
                            in_word = false;
                            assert(words@.map_values(|x: Vec<char>| x@) =~= before.push(
                                word_fold(command@.take(i as int)).cur,
                            ));
                            assert(cur@ =~= seq![]);
                        }
                    } else if c == '\\' {
                        escaped = true;
                    } else {
                        cur.push(c);
                        in_word = true;
                    }
                },
            }
        }
        i = i + 1;
    }
    assert(command@.take(command.len() as int) =~= command@);
    if escaped {
        cur.push('\\');
        in_word = true;
    }
    match quote {
        Some(q) => {
            let mut m = str_chars("unterminated ");
            m.push(q);
            append_str(&mut m, " quote");
            assert(m@ =~= "unterminated "@ + seq![q] + " quote"@);
            Err(m)
        },
        None => {
            if in_word {
                let ghost before = words@.map_values(|x: Vec<char>| x@);
                let ghost c = cur@;
                words.push(cur);
                assert(words@.map_values(|x: Vec<char>| x@) =~= before.push(c));
            }
            Ok(words)
        },
    }
}

/// Each word interpolated, or the error of the first word that fails.
pub open spec fn interpolate_words(words: Seq<Seq<char>>, env: Map<Seq<char>, Seq<char>>) -> Result<
    Seq<Seq<char>>,
    Seq<char>,
>
    decreases words.len(),
{
    if words.len() == 0 {
        Ok(seq![])
    } else {
        match interpolate_words(words.drop_last(), env) {
            Err(m) => Err(m),
            Ok(done) => match interpolate_spec(words.last(), env, QuoteMode::Raw) {
                Err(m) => Err(m),
                Ok(w) => Ok(done.push(w)),
            },
        }
    }
}

/// A command line split into words, each word interpolated.
pub open spec fn interpolate_argv_spec(command: Seq<char>, env: Map<Seq<char>, Seq<char>>) -> Result<
    Seq<Seq<char>>,
    Seq<char>,
> {
    match split_words_spec(command) {
        Err(m) => Err(m),
        Ok(words) => interpolate_words(words, env),
    }
}

proof fn lemma_interpolate_words_each(words: Seq<Seq<char>>, env: Map<Seq<char>, Seq<char>>)
    requires
        interpolate_words(words, env) is Ok,
    ensures
        interpolate_words(words, env)->Ok_0.len() == words.len(),
        forall|i: int| 0 <= i < words.len() ==> interpolate_spec(#[trigger] words[i], env, QuoteMode::Raw)
            == Ok::<Seq<char>, Seq<char>>(interpolate_words(words, env)->Ok_0[i]),
    decreases words.len(),
{
    if words.len() > 0 {
        lemma_interpolate_words_each(words.drop_last(), env);
        assert forall|i: int| 0 <= i < words.len() implies interpolate_spec(#[trigger] words[i], env, QuoteMode::Raw)
            == Ok::<Seq<char>, Seq<char>>(interpolate_words(words, env)->Ok_0[i]) by {
            if i < words.len() - 1 {
                assert(words.drop_last()[i] == words[i]);
            }
        }
    }
}

/// A command line is split into words before any value is put in, so each
/// argument is one word of the raw text with its variables replaced: a
/// value is never split again, whatever spaces, quotes or `;` it holds.
pub proof fn lemma_argv_follows_raw_words(command: Seq<char>, env: Map<Seq<char>, Seq<char>>)
    requires
        interpolate_argv_spec(command, env) is Ok,
    ensures
        split_words_spec(command) is Ok,
        interpolate_argv_spec(command, env)->Ok_0.len() == split_words_spec(command)->Ok_0.len(),
        forall|i: int| 0 <= i < split_words_spec(command)->Ok_0.len() ==> interpolate_spec(
            #[trigger] split_words_spec(command)->Ok_0[i],
            env,
            QuoteMode::Raw,
        ) == Ok::<Seq<char>, Seq<char>>(interpolate_argv_spec(command, env)->Ok_0[i]),
{
    lemma_interpolate_words_each(split_words_spec(command)->Ok_0, env);
}

proof fn lemma_interpolate_words_err(words: Seq<Seq<char>>, env: Map<Seq<char>, Seq<char>>, k: int)
    requires
        0 <= k <= words.len(),
        interpolate_words(words.take(k), env) is Err,
    ensures
        interpolate_words(words, env) == interpolate_words(words.take(k), env),
    decreases words.len() - k,
{
    if k < words.len() {
        assert(words.take(k + 1).drop_last() =~= words.take(k));
        lemma_interpolate_words_err(words, env, k + 1);
    } else {
        assert(words.take(k) =~= words);
    }
}

/// Splits a command line into words and interpolates each word.
pub fn interpolate_argv(command: &Vec<char>, env: &VarMap) -> (r: Result<Vec<Vec<char>>, CjError>)
    requires
        env.wf(),
    ensures
        match r {
            Ok(argv) => interpolate_argv_spec(command@, env@) == Ok::<Seq<Seq<char>>, Seq<char>>(
                argv@.map_values(|x: Vec<char>| x@),
            ),
            Err(e) => interpolate_argv_spec(command@, env@) == Err::<Seq<Seq<char>>, Seq<char>>(e@),
        },
{
    let words = match split_words(command) {
        Ok(w) => w,
        Err(m) => {
            return Err(CjError::new(&m));
        },
    };
    let ghost ws = split_words_spec(command@)->Ok_0;
    assert(ws == words@.map_values(|x: Vec<char>| x@));
    let mut argv: Vec<Vec<char>> = Vec::new();
    let mut k: usize = 0;
    assert(ws.take(0) =~= seq![]);
    assert(argv@.map_values(|x: Vec<char>| x@) =~= seq![]);
    while k < words.len()
        invariant
            k <= words@.len(),
            env.wf(),
            ws == words@.map_values(|x: Vec<char>| x@),
            split_words_spec(command@) == Ok::<Seq<Seq<char>>, Seq<char>>(ws),
            interpolate_words(ws.take(k as int), env@) == Ok::<Seq<Seq<char>>, Seq<char>>(
                argv@.map_values(|x: Vec<char>| x@),
            ),
        decreases words.len() - k,
    {
        assert(ws[k as int] == words@[k as int]@);
        assert(ws.take(k + 1).drop_last() =~= ws.take(k as int));
        assert(ws.take(k + 1).last() == ws[k as int]);
        match interpolate_text(&words[k], env, QuoteMode::Raw) {
            Ok(t) => {
                let ghost before = argv@.map_values(|x: Vec<char>| x@);
                let ghost tv = t@;
                argv.push(t);
                assert(argv@.map_values(|x: Vec<char>| x@) =~= before.push(tv));
            },
            Err(m) => {
                proof {
                    lemma_interpolate_words_err(ws, env@, k + 1);
                }
                return Err(CjError::new(&m));
            },
        }
        k = k + 1;
    }
    assert(ws.take(words.len() as int) =~= ws);
    Ok(argv)
}

/// Where the reference detector stands between two chars.
pub enum ScanMode {
    Normal,
    AfterBackslash,
    AfterDollar,
}

pub open spec fn scan_normal(c: char) -> ScanMode {
    if c == '\\' {
        ScanMode::AfterBackslash
    } else if c == '$' {
        ScanMode::AfterDollar
    } else {
        ScanMode::Normal
    }
}

/// Mode after a char, and whether that char completes a variable reference.
pub open spec fn scan_step(m: ScanMode, c: char) -> (ScanMode, bool) {
    match m {
        ScanMode::Normal => (scan_normal(c), false),
        ScanMode::AfterBackslash => if c == '$' {
            (ScanMode::Normal, false)
        } else {
            (scan_normal(c), false)
        },
        ScanMode::AfterDollar => if c == '{' || is_env_start(c) {
            (ScanMode::Normal, true)
        } else {
            (scan_normal(c), false)
        },
    }
}

pub open spec fn scan_fold(s: Seq<char>) -> (ScanMode, bool)
    decreases s.len(),
{
    if s.len() == 0 {
        (ScanMode::Normal, false)
    } else {
        let (m, found) = scan_fold(s.drop_last());
        let (m2, hit) = scan_step(m, s.last());
        (m2, found || hit)
    }
}

/// Whether the text holds an unescaped `$NAME` or `${...}`.
pub open spec fn contains_interpolation_spec(s: Seq<char>) -> bool {
    scan_fold(s).1
}

pub fn contains_variable_interpolation(input: &Vec<char>) -> (b: bool)
    ensures
        b == contains_interpolation_spec(input@),
{
    let mut mode = ScanModeExec::Normal;
    let mut found = false;
    let mut i: usize = 0;
    while i < input.len()
        invariant
            i <= input.len(),
            scan_fold(input@.take(i as int)) == (scan_view(mode), found),
        decreases input.len() - i,
    {
        let c = input[i];
        assert(input@.take(i + 1).drop_last() =~= input@.take(i as int));
        let (m2, hit) = match mode {
            ScanModeExec::Normal => (scan_normal_exec(c), false),
            ScanModeExec::AfterBackslash => if c == '$' {
                (ScanModeExec::Normal, false)
            } else {
                (scan_normal_exec(c), false)
            },
            ScanModeExec::AfterDollar => if c == '{' || char_is_env_start(c) {
                (ScanModeExec::Normal, true)
            } else {
                (scan_normal_exec(c), false)
            },
        };
        mode = m2;
        found = found || hit;
        i = i + 1;
    }
    assert(input@.take(input.len() as int) =~= input@);
    found
}

enum ScanModeExec {
    Normal,
    AfterBackslash,
    AfterDollar,
}

spec fn scan_view(m: ScanModeExec) -> ScanMode {
    match m {
        ScanModeExec::Normal => ScanMode::Normal,
        ScanModeExec::AfterBackslash => ScanMode::AfterBackslash,
        ScanModeExec::AfterDollar => ScanMode::AfterDollar,
    }
}

fn scan_normal_exec(c: char) -> (m: ScanModeExec)
    ensures
        scan_view(m) == scan_normal(c),
{
    if c == '\\' {
        ScanModeExec::AfterBackslash
    } else if c == '$' {
        ScanModeExec::AfterDollar
    } else {
        ScanModeExec::Normal
    }
}

/// `\$` read as a literal `$`: output so far and whether a backslash waits.
pub open spec fn unescape_fold(s: Seq<char>) -> (Seq<char>, bool)
    decreases s.len(),
{
    if s.len() == 0 {
        (seq![], false)
    } else {
        let (out, pending) = unescape_fold(s.drop_last());
        let c = s.last();
        if pending {
            if c == '$' {
                (out.push('$'), false)
            } else if c == '\\' {
                (out.push('\\'), true)
            } else {
                (out.push('\\').push(c), false)
            }
        } else if c == '\\' {
            (out, true)
        } else {
            (out.push(c), false)
        }
    }
}

/// The text with each `\$` turned into `$`.
pub open spec fn unescape_spec(s: Seq<char>) -> Seq<char> {
    let (out, pending) = unescape_fold(s);
    if pending {
        out.push('\\')
    } else {
        out
    }
}

pub fn unescape_variable_literals(input: &Vec<char>) -> (r: Vec<char>)
    ensures
        r@ == unescape_spec(input@),
{
    let mut out: Vec<char> = Vec::new();
    let mut pending = false;
    let mut i: usize = 0;
    while i < input.len()
        invariant
            i <= input.len(),
            unescape_fold(input@.take(i as int)) == (out@, pending),
        decreases input.len() - i,
    {
        let c = input[i];
        assert(input@.take(i + 1).drop_last() =~= input@.take(i as int));
        if pending {
            if c == '$' {
                out.push('$');
                pending = false;
            } else if c == '\\' {
                out.push('\\');
            } else {
                out.push('\\');
                out.push(c);
                pending = false;
            }
        } else if c == '\\' {
            pending = true;
        } else {
            out.push(c);
        }
        i = i + 1;
    }
    assert(input@.take(input.len() as int) =~= input@);
    if pending {
        out.push('\\');
    }
    out
}

/// The variable of a braced reference `${...}`: the text before `?`, when
/// that text is a variable name.
pub open spec fn braced_reference(e: Seq<char>) -> Option<Seq<char>> {
    let name = match find_char(e, '?') {
        Some(i) => e.take(i),
        None => e,
    };
    if env_name_error(name) is None {
        Some(name)
    } else {
        None
    }
}

/// Where the reference collector stands between two chars.
pub enum RefMode {
    Normal,
    AfterBackslash,
    AfterDollar,
    Name(Seq<char>),
    Brace(Seq<char>),
}

pub open spec fn ref_normal(c: char) -> RefMode {
    if c == '\\' {
        RefMode::AfterBackslash
    } else if c == '$' {
        RefMode::AfterDollar
    } else {
        RefMode::Normal
    }
}

/// The names collected and the mode after one more char.
pub open spec fn ref_step(acc: Seq<Seq<char>>, m: RefMode, c: char) -> (Seq<Seq<char>>, RefMode) {
    match m {
        RefMode::Normal => (acc, ref_normal(c)),
        RefMode::AfterBackslash => if c == '$' {
            (acc, RefMode::Normal)
        } else {
            (acc, ref_normal(c))
        },
        RefMode::AfterDollar => if c == '{' {
            (acc, RefMode::Brace(seq![]))
        } else if is_env_start(c) {
            (acc, RefMode::Name(seq![c]))
        } else {
            (acc, ref_normal(c))
        },
        RefMode::Name(n) => if is_env_continue(c) {
            (acc, RefMode::Name(n.push(c)))
        } else {
            (acc.push(n), ref_normal(c))
        },
        RefMode::Brace(e) => if c == '}' {
            (
                match braced_reference(e) {
                    Some(v) => acc.push(v),
                    None => acc,
                },
                RefMode::Normal,
            )
        } else {
            (acc, RefMode::Brace(e.push(c)))
        },
    }
}

pub open spec fn ref_fold(s: Seq<char>) -> (Seq<Seq<char>>, RefMode)
    decreases s.len(),
{
    if s.len() == 0 {
        (seq![], RefMode::Normal)
    } else {
        let (acc, m) = ref_fold(s.drop_last());
        ref_step(acc, m, s.last())
    }
}

/// The variables a text refers to, in the order of their references: each
/// unescaped `$NAME`, and each closed `${NAME}` or `${NAME:-fallback}` whose
/// name is a variable name.
pub open spec fn variable_references_spec(s: Seq<char>) -> Seq<Seq<char>> {
    let (acc, m) = ref_fold(s);
    match m {
        RefMode::Name(n) => acc.push(n),
        _ => acc,
    }
}

enum RefModeExec {
    Normal,
    AfterBackslash,
    AfterDollar,
    Name(Vec<char>),
    Brace(Vec<char>),
}

spec fn ref_view(m: RefModeExec) -> RefMode {
    match m {
        RefModeExec::Normal => RefMode::Normal,
        RefModeExec::AfterBackslash => RefMode::AfterBackslash,
        RefModeExec::AfterDollar => RefMode::AfterDollar,
        RefModeExec::Name(n) => RefMode::Name(n@),
        RefModeExec::Brace(e) => RefMode::Brace(e@),
    }
}

fn ref_normal_exec(c: char) -> (m: RefModeExec)
    ensures
        ref_view(m) == ref_normal(c),
{
    if c == '\\' {
        RefModeExec::AfterBackslash
    } else if c == '$' {
        RefModeExec::AfterDollar
    } else {
        RefModeExec::Normal
    }
}

fn braced_reference_exec(e: &Vec<char>) -> (r: Option<Vec<char>>)
    ensures
        match r {
            Some(v) => braced_reference(e@) == Some(v@),
            None => braced_reference(e@) is None,
        },
{
    let name = match chars_find(e, '?') {
        Some(i) => {
            proof {
                lemma_find_char(e@, '?');
            }
            subvec(e, 0, i)
        },
        None => e.clone(),
    };
    assert(name@ == match find_char(e@, '?') {
        Some(i) => e@.take(i),
        None => e@,
    });
    if validate_env_name(&name).is_ok() {
        Some(name)
    } else {
        None
    }
}

spec fn name_views(v: Seq<Vec<char>>) -> Seq<Seq<char>> {
    v.map_values(|x: Vec<char>| x@)
}

pub fn variable_references(input: &Vec<char>) -> (r: Vec<Vec<char>>)
    ensures
        r@.map_values(|x: Vec<char>| x@) == variable_references_spec(input@),
{
    let mut acc: Vec<Vec<char>> = Vec::new();
    let mut mode = RefModeExec::Normal;
    let mut i: usize = 0;
    assert(name_views(acc@) =~= seq![]);
    assert(input@.take(0) =~= seq![]);
    while i < input.len()
        invariant
            i <= input.len(),
            ref_fold(input@.take(i as int)) == (name_views(acc@), ref_view(mode)),
        decreases input.len() - i,
    {
        let c = input[i];
        assert(input@.take(i + 1).drop_last() =~= input@.take(i as int));
        let ghost before = name_views(acc@);
        let m = mode;
        mode = match m {
            RefModeExec::Normal => ref_normal_exec(c),
            RefModeExec::AfterBackslash => if c == '$' {
                RefModeExec::Normal
            } else {
                ref_normal_exec(c)
            },
            RefModeExec::AfterDollar => if c == '{' {
                RefModeExec::Brace(Vec::new())
            } else if char_is_env_start(c) {
                let mut n: Vec<char> = Vec::new();
                n.push(c);
                RefModeExec::Name(n)
            } else {
                ref_normal_exec(c)
            },
            RefModeExec::Name(n) => if char_is_env_continue(c) {
                let mut n2 = n;
                n2.push(c);
                RefModeExec::Name(n2)
            } else {
                let ghost nv = n@;
                acc.push(n);
                assert(name_views(acc@) =~= before.push(nv));
                ref_normal_exec(c)
            },
            RefModeExec::Brace(e) => if c == '}' {
                match braced_reference_exec(&e) {
                    Some(v) => {
                        let ghost vv = v@;
                        acc.push(v);
                        assert(name_views(acc@) =~= before.push(vv));
                    },
                    None => {},
                }
                RefModeExec::Normal
            } else {
                let mut e2 = e;
                e2.push(c);
                RefModeExec::Brace(e2)
            },
        };
        proof {
            assert(seq![c] =~= seq![c]);
        }
        i = i + 1;
    }
    assert(input@.take(input.len() as int) =~= input@);
    match mode {
        RefModeExec::Name(n) => {
            let ghost before = name_views(acc@);
            let ghost nv = n@;
            acc.push(n);
            assert(name_views(acc@) =~= before.push(nv));
        },
        _ => {},
    }
    acc
}

} // verus!
