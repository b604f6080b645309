//! Semantic versions `MAJOR.MINOR.PATCH[-PRERELEASE]` (no build metadata):
//! parsing, precedence, rendering and the bump operations of `@version`
//! headers.
use vstd::prelude::*;

use crate::names::{lemma_split_on_nonempty, split_chars, split_on};
use crate::text::{
    all_digits, append, chars_contains, chars_eq_str, chars_find, decimal, decimal_chars,
    digit_char, digits_value, find_char, is_ascii_alnum, is_ascii_digit, lemma_find_char,
    lemma_find_char_first, parse_u64, parse_u64_spec, push_decimal, str_chars, subvec,
};

verus! {

/// A parsed version.
#[derive(Clone, Debug)]
pub struct Semver {
    pub major: u64,
    pub minor: u64,
    pub patch: u64,
    pub prerelease: Vec<Vec<char>>,
}

/// The mathematical value of a version.
pub struct SemverModel {
    pub major: u64,
    pub minor: u64,
    pub patch: u64,
    pub pre: Seq<Seq<char>>,
}

/// The views of a sequence of char vectors.
pub open spec fn views(v: Seq<Vec<char>>) -> Seq<Seq<char>> {
    v.map_values(|x: Vec<char>| x@)
}

impl View for Semver {
    type V = SemverModel;

    open spec fn view(&self) -> SemverModel {
        SemverModel {
            major: self.major,
            minor: self.minor,
            patch: self.patch,
            pre: views(self.prerelease@),
        }
    }
}

/// Result of comparing two versions by precedence.
#[derive(Clone, Copy, Debug, PartialEq, Eq, Structural)]
pub enum Precedence {
    Less,
    Equal,
    Greater,
}

pub open spec fn flip(p: Precedence) -> Precedence {
    match p {
        Precedence::Less => Precedence::Greater,
        Precedence::Equal => Precedence::Equal,
        Precedence::Greater => Precedence::Less,
    }
}

/// A numeric core part: digits, no leading zero unless it is `0`, within 64 bits.
pub open spec fn numeric_identifier(part: Seq<char>) -> Option<u64> {
    if part.len() == 0 || (part.len() > 1 && part[0] == '0') {
        None
    } else {
        parse_u64_spec(part)
    }
}

pub open spec fn is_pre_char(c: char) -> bool {
    c == '-' || is_ascii_alnum(c)
}

/// A prerelease identifier: non-empty, ASCII alphanumerics and `-`, and a
/// purely numeric one has no leading zero.
pub open spec fn valid_pre_identifier(id: Seq<char>) -> bool {
    &&& id.len() > 0
    &&& forall|i: int| 0 <= i < id.len() ==> is_pre_char(#[trigger] id[i])
    &&& (forall|i: int| 0 <= i < id.len() ==> is_ascii_digit(#[trigger] id[i])) ==> (id
        == seq!['0'] || id[0] != '0')
}

/// The identifiers of a prerelease, split at `.`, if every one is valid.
pub open spec fn parse_prerelease_spec(pre: Seq<char>) -> Option<Seq<Seq<char>>> {
    let ids = split_on(pre, '.');
    if forall|k: int| 0 <= k < ids.len() ==> valid_pre_identifier(#[trigger] ids[k]) {
        Some(ids)
    } else {
        None
    }
}

/// `MAJOR.MINOR.PATCH` as three numbers.
pub open spec fn parse_core_spec(core: Seq<char>) -> Option<(u64, u64, u64)> {
    let parts = split_on(core, '.');
    if parts.len() == 3 && numeric_identifier(parts[0]) is Some && numeric_identifier(
        parts[1],
    ) is Some && numeric_identifier(parts[2]) is Some {
        Some(
            (
                numeric_identifier(parts[0])->0,
                numeric_identifier(parts[1])->0,
                numeric_identifier(parts[2])->0,
            ),
        )
    } else {
        None
    }
}

/// The version that a text denotes, if it is one: no `+`, a core, and after
/// the first `-` a non-empty prerelease.
pub open spec fn parse_semver_spec(value: Seq<char>) -> Option<SemverModel> {
    if value.contains('+') {
        None
    } else {
        match find_char(value, '-') {
            Some(i) => {
                let core = value.take(i);
                let pre = value.skip(i + 1);
                if pre.len() == 0 {
                    None
                } else {
                    match (parse_core_spec(core), parse_prerelease_spec(pre)) {
                        (Some((a, b, c)), Some(ids)) => Some(
                            SemverModel { major: a, minor: b, patch: c, pre: ids },
                        ),
                        _ => None,
                    }
                }
            },
            None => match parse_core_spec(value) {
                Some((a, b, c)) => Some(SemverModel { major: a, minor: b, patch: c, pre: seq![] }),
                None => None,
            },
        }
    }
}

/// The identifiers joined with `.`.
pub open spec fn join_dots(ids: Seq<Seq<char>>) -> Seq<char>
    decreases ids.len(),
{
    if ids.len() == 0 {
        seq![]
    } else if ids.len() == 1 {
        ids[0]
    } else {
        join_dots(ids.drop_last()) + seq!['.'] + ids.last()
    }
}

/// How a version is written.
pub open spec fn display(v: SemverModel) -> Seq<char> {
    let core = decimal(v.major as nat) + seq!['.'] + decimal(v.minor as nat) + seq!['.'] + decimal(
        v.patch as nat,
    );
    if v.pre.len() == 0 {
        core
    } else {
        core + seq!['-'] + join_dots(v.pre)
    }
}

pub open spec fn order_u64(a: u64, b: u64) -> Precedence {
    if a < b {
        Precedence::Less
    } else if a == b {
        Precedence::Equal
    } else {
        Precedence::Greater
    }
}

/// Lexicographic order of texts by code point (the order of `str` for these
/// ASCII identifiers).
pub open spec fn order_text(a: Seq<char>, b: Seq<char>) -> Precedence
    decreases a.len(),
{
    if a.len() == 0 && b.len() == 0 {
        Precedence::Equal
    } else if a.len() == 0 {
        Precedence::Less
    } else if b.len() == 0 {
        Precedence::Greater
    } else if a[0] < b[0] {
        Precedence::Less
    } else if a[0] > b[0] {
        Precedence::Greater
    } else {
        order_text(a.drop_first(), b.drop_first())
    }
}

/// One prerelease identifier against another: numbers by value and before
/// any alphanumeric identifier, alphanumeric ones as text.
pub open spec fn order_identifier(a: Seq<char>, b: Seq<char>) -> Precedence {
    match (parse_u64_spec(a), parse_u64_spec(b)) {
        (Some(x), Some(y)) => order_u64(x, y),
        (Some(_), None) => Precedence::Less,
        (None, Some(_)) => Precedence::Greater,
        (None, None) => order_text(a, b),
    }
}

/// Identifier lists compared left to right; a list that is a prefix of the
/// other is lower.
pub open spec fn order_identifiers(a: Seq<Seq<char>>, b: Seq<Seq<char>>) -> Precedence
    decreases a.len(),
{
    if a.len() == 0 && b.len() == 0 {
        Precedence::Equal
    } else if a.len() == 0 {
        Precedence::Less
    } else if b.len() == 0 {
        Precedence::Greater
    } else if order_identifier(a[0], b[0]) != Precedence::Equal {
        order_identifier(a[0], b[0])
    } else {
        order_identifiers(a.drop_first(), b.drop_first())
    }
}

/// Prerelease precedence: a release ranks above any prerelease of the same core.
pub open spec fn order_prerelease(a: Seq<Seq<char>>, b: Seq<Seq<char>>) -> Precedence {
    if a.len() == 0 && b.len() == 0 {
        Precedence::Equal
    } else if a.len() == 0 {
        Precedence::Greater
    } else if b.len() == 0 {
        Precedence::Less
    } else {
        order_identifiers(a, b)
    }
}

/// Semantic version precedence.
pub open spec fn precedence(a: SemverModel, b: SemverModel) -> Precedence {
    if order_u64(a.major, b.major) != Precedence::Equal {
        order_u64(a.major, b.major)
    } else if order_u64(a.minor, b.minor) != Precedence::Equal {
        order_u64(a.minor, b.minor)
    } else if order_u64(a.patch, b.patch) != Precedence::Equal {
        order_u64(a.patch, b.patch)
    } else {
        order_prerelease(a.pre, b.pre)
    }
}

pub fn parse_numeric_identifier(part: &Vec<char>) -> (r: Option<u64>)
    ensures
        r == numeric_identifier(part@),
{
    if part.len() == 0 || (part.len() > 1 && part[0] == '0') {
        None
    } else {
        parse_u64(part)
    }
}

pub fn is_valid_pre_identifier(id: &Vec<char>) -> (b: bool)
    ensures
        b == valid_pre_identifier(id@),
{
    if id.len() == 0 {
        return false;
    }
    let mut i: usize = 0;
    let mut all_digits = true;
    while i < id.len()
        invariant
            i <= id.len(),
            forall|j: int| 0 <= j < i ==> is_pre_char(#[trigger] id@[j]),
            all_digits == forall|j: int| 0 <= j < i ==> is_ascii_digit(#[trigger] id@[j]),
        decreases id.len() - i,
    {
        let c = id[i];
        if !(c == '-' || ('a' <= c && c <= 'z') || ('A' <= c && c <= 'Z') || ('0' <= c && c
            <= '9')) {
            assert(!is_pre_char(id@[i as int]));
            return false;
        }
        if !('0' <= c && c <= '9') {
            all_digits = false;
        }
        i = i + 1;
    }
    if all_digits {
        if id.len() == 1 && id[0] == '0' {
            assert(id@ =~= seq!['0']);
            true
        } else {
            id[0] != '0'
        }
    } else {
        true
    }
}

/// The identifiers of a prerelease text.
pub fn parse_prerelease(pre: &Vec<char>) -> (r: Option<Vec<Vec<char>>>)
    ensures
        match r {
            Some(ids) => parse_prerelease_spec(pre@) == Some(views(ids@)),
            None => parse_prerelease_spec(pre@) is None,
        },
{
    let ids = split_chars(pre, '.');
    let mut k: usize = 0;
    while k < ids.len()
        invariant
            k <= ids@.len(),
            ids@.len() == split_on(pre@, '.').len(),
            forall|m: int| 0 <= m < ids@.len() ==> #[trigger] ids@[m]@ == split_on(pre@, '.')[m],
            forall|m: int| 0 <= m < k ==> valid_pre_identifier(#[trigger] split_on(pre@, '.')[m]),
        decreases ids.len() - k,
    {
        if !is_valid_pre_identifier(&ids[k]) {
            assert(!valid_pre_identifier(split_on(pre@, '.')[k as int]));
            return None;
        }
        k = k + 1;
    }
    assert(views(ids@) =~= split_on(pre@, '.'));
    Some(ids)
}

fn parse_core(core: &Vec<char>) -> (r: Option<(u64, u64, u64)>)
    ensures
        r == parse_core_spec(core@),
{
    let parts = split_chars(core, '.');
    if parts.len() != 3 {
        return None;
    }
    let a = parse_numeric_identifier(&parts[0]);
    let b = parse_numeric_identifier(&parts[1]);
    let c = parse_numeric_identifier(&parts[2]);
    match (a, b, c) {
        (Some(a), Some(b), Some(c)) => Some((a, b, c)),
        _ => None,
    }
}

/// Parses a version.
pub fn parse_semver(value: &Vec<char>) -> (r: Option<Semver>)
    ensures
        match r {
            Some(v) => parse_semver_spec(value@) == Some(v@),
            None => parse_semver_spec(value@) is None,
        },
{
    if chars_contains(value, '+') {
        return None;
    }
    match chars_find(value, '-') {
        Some(i) => {
            proof {
                lemma_find_char(value@, '-');
            }
            assert(i < value.len());
            let core = subvec(value, 0, i);
            let pre = subvec(value, i + 1, value.len());
            if pre.len() == 0 {
                return None;
            }
            match (parse_core(&core), parse_prerelease(&pre)) {
                (Some((a, b, c)), Some(ids)) => Some(
                    Semver { major: a, minor: b, patch: c, prerelease: ids },
                ),
                _ => None,
            }
        },
        None => match parse_core(value) {
            Some((a, b, c)) => {
                let v = Semver { major: a, minor: b, patch: c, prerelease: Vec::new() };
                assert(views(v.prerelease@) =~= seq![]);
                Some(v)
            },
            None => None,
        },
    }
}

pub fn compare_u64(a: u64, b: u64) -> (p: Precedence)
    ensures
        p == order_u64(a, b),
{
    if a < b {
        Precedence::Less
    } else if a == b {
        Precedence::Equal
    } else {
        Precedence::Greater
    }
}

pub fn compare_text(a: &Vec<char>, b: &Vec<char>) -> (p: Precedence)
    ensures
        p == order_text(a@, b@),
{
    let mut i: usize = 0;
    assert(a@.skip(0) =~= a@);
    assert(b@.skip(0) =~= b@);
    while i < a.len() && i < b.len()
        invariant
            i <= a.len(),
            i <= b.len(),
            order_text(a@, b@) == order_text(a@.skip(i as int), b@.skip(i as int)),
        decreases a.len() - i,
    {
        let x = a[i];
        let y = b[i];
        if x < y {
            return Precedence::Less;
        }
        if x > y {
            return Precedence::Greater;
        }
        assert(a@.skip(i as int).drop_first() =~= a@.skip(i + 1));
        assert(b@.skip(i as int).drop_first() =~= b@.skip(i + 1));
        i = i + 1;
    }
    if i == a.len() && i == b.len() {
        Precedence::Equal
    } else if i == a.len() {
        Precedence::Less
    } else {
        Precedence::Greater
    }
}

pub fn compare_identifier(a: &Vec<char>, b: &Vec<char>) -> (p: Precedence)
    ensures
        p == order_identifier(a@, b@),
{
    match (parse_u64(a), parse_u64(b)) {
        (Some(x), Some(y)) => compare_u64(x, y),
        (Some(_), None) => Precedence::Less,
        (None, Some(_)) => Precedence::Greater,
        (None, None) => compare_text(a, b),
    }
}

pub fn compare_prerelease(a: &Vec<Vec<char>>, b: &Vec<Vec<char>>) -> (p: Precedence)
    ensures
        p == order_prerelease(views(a@), views(b@)),
{
    if a.len() == 0 && b.len() == 0 {
        return Precedence::Equal;
    }
    if a.len() == 0 {
        return Precedence::Greater;
    }
    if b.len() == 0 {
        return Precedence::Less;
    }
    let mut i: usize = 0;
    let ghost va = views(a@);
    let ghost vb = views(b@);
    assert(va.skip(0) =~= va);
    assert(vb.skip(0) =~= vb);
    while i < a.len() && i < b.len()
        invariant
            i <= a.len(),
            i <= b.len(),
            va == views(a@),
            vb == views(b@),
            order_identifiers(va, vb) == order_identifiers(va.skip(i as int), vb.skip(i as int)),
        decreases a.len() - i,
    {
        let p = compare_identifier(&a[i], &b[i]);
        assert(va.skip(i as int)[0] == a@[i as int]@);
        assert(vb.skip(i as int)[0] == b@[i as int]@);
        if p != Precedence::Equal {
            return p;
        }
        assert(va.skip(i as int).drop_first() =~= va.skip(i + 1));
        assert(vb.skip(i as int).drop_first() =~= vb.skip(i + 1));
        i = i + 1;
    }
    if i == a.len() && i == b.len() {
        Precedence::Equal
    } else if i == a.len() {
        Precedence::Less
    } else {
        Precedence::Greater
    }
}

/// Precedence of two versions.
pub fn compare_semver(a: &Semver, b: &Semver) -> (p: Precedence)
    ensures
        p == precedence(a@, b@),
{
    let p = compare_u64(a.major, b.major);
    if p != Precedence::Equal {
        return p;
    }
    let p = compare_u64(a.minor, b.minor);
    if p != Precedence::Equal {
        return p;
    }
    let p = compare_u64(a.patch, b.patch);
    if p != Precedence::Equal {
        return p;
    }
    compare_prerelease(&a.prerelease, &b.prerelease)
}

/// Pushes the identifiers joined with `.`.
fn push_joined(out: &mut Vec<char>, ids: &Vec<Vec<char>>)
    ensures
        final(out)@ == old(out)@ + join_dots(views(ids@)),
{
    let ghost start = out@;
    let mut k: usize = 0;
    while k < ids.len()
        invariant
            k <= ids.len(),
            out@ == start + join_dots(views(ids@).take(k as int)),
        decreases ids.len() - k,
    {
        let ghost before = out@;
        if k > 0 {
            out.push('.');
        }
        append(out, &ids[k]);
        proof {
            let t = views(ids@).take(k + 1);
            assert(t.drop_last() =~= views(ids@).take(k as int));
            assert(t.last() == ids@[k as int]@);
            if k == 0 {
                assert(join_dots(t) == t[0]);
                assert(out@ =~= start + join_dots(t));
            } else {
                assert(out@ =~= start + join_dots(t));
            }
        }
        k = k + 1;
    }
    assert(views(ids@).take(ids.len() as int) =~= views(ids@));
}

impl Semver {
    /// The version as text, as its `Display` writes it.
    pub fn to_chars(&self) -> (r: Vec<char>)
        ensures
            r@ == display(self@),
    {
        let mut r = decimal_chars(self.major);
        r.push('.');
        push_decimal(&mut r, self.minor);
        r.push('.');
        push_decimal(&mut r, self.patch);
        if self.prerelease.len() > 0 {
            r.push('-');
            push_joined(&mut r, &self.prerelease);
        }
        assert(r@ =~= display(self@));
        r
    }
}

/// Why a version text or a bump is refused; each carries the text that the
/// message quotes.
#[derive(Clone, Debug)]
pub enum SemverError {
    Invalid(Vec<char>),
    TooLarge(Vec<char>),
    BadOperation,
}

/// The spec side of `SemverError`.
pub enum SemverFailure {
    Invalid(Seq<char>),
    TooLarge(Seq<char>),
    BadOperation,
}

impl View for SemverError {
    type V = SemverFailure;

    open spec fn view(&self) -> SemverFailure {
        match self {
            SemverError::Invalid(t) => SemverFailure::Invalid(t@),
            SemverError::TooLarge(t) => SemverFailure::TooLarge(t@),
            SemverError::BadOperation => SemverFailure::BadOperation,
        }
    }
}

/// The message of a version failure (without the line prefix).
pub open spec fn failure_message(f: SemverFailure) -> Seq<char> {
    match f {
        SemverFailure::Invalid(t) => "version '"@ + t
            + "' must be semantic version MAJOR.MINOR.PATCH with optional prerelease"@,
        SemverFailure::TooLarge(t) => "version '"@ + t + "' is too large"@,
        SemverFailure::BadOperation => "version bump operation must be major, minor, patch, pre, or release"@,
    }
}

impl SemverError {
    pub fn message(&self) -> (m: Vec<char>)
        ensures
            m@ == failure_message(self@),
    {
        match self {
            SemverError::Invalid(t) => {
                let mut m = str_chars("version '");
                append(&mut m, t);
                let tail = str_chars(
                    "' must be semantic version MAJOR.MINOR.PATCH with optional prerelease",
                );
                append(&mut m, &tail);
                m
            },
            SemverError::TooLarge(t) => {
                let mut m = str_chars("version '");
                append(&mut m, t);
                let tail = str_chars("' is too large");
                append(&mut m, &tail);
                m
            },
            SemverError::BadOperation => str_chars(
                "version bump operation must be major, minor, patch, pre, or release",
            ),
        }
    }
}

/// The text with every trailing `.` removed, as `trim_end_matches('.')`.
pub open spec fn trim_trailing_dots(s: Seq<char>) -> Seq<char>
    decreases s.len(),
{
    if s.len() > 0 && s.last() == '.' {
        trim_trailing_dots(s.drop_last())
    } else {
        s
    }
}

/// The prerelease that `@pre` gives a version.
///
/// With an argument ending in `.`, the argument (dots removed) names a
/// prefix and a counter is appended: one more than the current counter when
/// the current prerelease is that prefix plus a number, else `0`. With any
/// other argument, the argument is the new prerelease. Without one, a trailing
/// numeric identifier is incremented, or `0` is appended.
pub open spec fn bump_prerelease_spec(v: SemverModel, arg: Option<Seq<char>>) -> Result<
    Seq<Seq<char>>,
    SemverFailure,
> {
    match arg {
        Some(p) => {
            if p.len() > 0 && p.last() == '.' {
                let base = trim_trailing_dots(p);
                let next = if base.len() == 0 {
                    Some(Seq::<Seq<char>>::empty())
                } else {
                    parse_prerelease_spec(base)
                };
                match next {
                    None => Err(SemverFailure::Invalid(p)),
                    Some(next) => {
                        if v.pre.len() == next.len() + 1 && v.pre.take(next.len() as int) == next {
                            match parse_u64_spec(v.pre.last()) {
                                Some(n) => if n == u64::MAX {
                                    Err(SemverFailure::TooLarge(p))
                                } else {
                                    Ok(next.push(decimal((n + 1) as nat)))
                                },
                                None => Ok(next.push(decimal(0))),
                            }
                        } else {
                            Ok(next.push(decimal(0)))
                        }
                    },
                }
            } else {
                match parse_prerelease_spec(p) {
                    Some(ids) => Ok(ids),
                    None => Err(SemverFailure::Invalid(p)),
                }
            }
        },
        None => {
            if v.pre.len() > 0 && parse_u64_spec(v.pre.last()) is Some {
                let n = parse_u64_spec(v.pre.last())->0;
                if n == u64::MAX {
                    Err(SemverFailure::TooLarge(display(v)))
                } else {
                    Ok(v.pre.drop_last().push(decimal((n + 1) as nat)))
                }
            } else {
                Ok(v.pre.push(decimal(0)))
            }
        },
    }
}

/// A version bump: `major`, `minor` and `patch` increment their part and
/// reset the lower ones and the prerelease; `pre` changes the prerelease;
/// `release` drops it.
pub open spec fn bump_spec(value: Seq<char>, op: Seq<char>, arg: Option<Seq<char>>) -> Result<
    SemverModel,
    SemverFailure,
> {
    match parse_semver_spec(value) {
        None => Err(SemverFailure::Invalid(value)),
        Some(v) => {
            if op == "major"@ {
                if v.major == u64::MAX {
                    Err(SemverFailure::TooLarge(value))
                } else {
                    Ok(SemverModel { major: (v.major + 1) as u64, minor: 0, patch: 0, pre: seq![] })
                }
            } else if op == "minor"@ {
                if v.minor == u64::MAX {
                    Err(SemverFailure::TooLarge(value))
                } else {
                    Ok(
                        SemverModel {
                            major: v.major,
                            minor: (v.minor + 1) as u64,
                            patch: 0,
                            pre: seq![],
                        },
                    )
                }
            } else if op == "patch"@ {
                if v.patch == u64::MAX {
                    Err(SemverFailure::TooLarge(value))
                } else {
                    Ok(
                        SemverModel {
                            major: v.major,
                            minor: v.minor,
                            patch: (v.patch + 1) as u64,
                            pre: seq![],
                        },
                    )
                }
            } else if op == "pre"@ {
                match bump_prerelease_spec(v, arg) {
                    Ok(pre) => Ok(
                        SemverModel { major: v.major, minor: v.minor, patch: v.patch, pre: pre },
                    ),
                    Err(e) => Err(e),
                }
            } else if op == "release"@ {
                Ok(SemverModel { major: v.major, minor: v.minor, patch: v.patch, pre: seq![] })
            } else {
                Err(SemverFailure::BadOperation)
            }
        },
    }
}

/// The text of an optional argument.
pub open spec fn opt_view(arg: Option<&Vec<char>>) -> Option<Seq<char>> {
    match arg {
        Some(p) => Some(p@),
        None => None,
    }
}

fn trim_dots(s: &Vec<char>) -> (r: Vec<char>)
    ensures
        r@ == trim_trailing_dots(s@),
{
    let mut n = s.len();
    assert(s@.take(n as int) =~= s@);
    while n > 0 && s[n - 1] == '.'
        invariant
            n <= s.len(),
            trim_trailing_dots(s@) == trim_trailing_dots(s@.take(n as int)),
        decreases n,
    {
        assert(s@.take(n as int).drop_last() =~= s@.take(n - 1));
        n = n - 1;
    }
    subvec(s, 0, n)
}

fn prefix_equal(v: &Vec<Vec<char>>, next: &Vec<Vec<char>>) -> (b: bool)
    requires
        next.len() <= v.len(),
    ensures
        b == (views(v@).take(next.len() as int) == views(next@)),
{
    let mut i: usize = 0;
    while i < next.len()
        invariant
            next.len() <= v.len(),
            i <= next.len(),
            forall|j: int| 0 <= j < i ==> v@[j]@ == next@[j]@,
        decreases next.len() - i,
    {
        let same = crate::text::chars_eq(&v[i], &next[i]);
        if !same {
            assert(views(v@).take(next.len() as int)[i as int] != views(next@)[i as int]);
            return false;
        }
        i = i + 1;
    }
    assert(views(v@).take(next.len() as int) =~= views(next@));
    true
}

/// A copy of a list of identifiers.
pub fn clone_ids(v: &Vec<Vec<char>>) -> (r: Vec<Vec<char>>)
    ensures
        views(r@) == views(v@),
        r@.len() == v@.len(),
{
    let mut r: Vec<Vec<char>> = Vec::new();
    let mut i: usize = 0;
    while i < v.len()
        invariant
            i <= v.len(),
            r@.len() == i,
            forall|j: int| 0 <= j < i ==> #[trigger] r@[j]@ == v@[j]@,
        decreases v.len() - i,
    {
        r.push(v[i].clone());
        i = i + 1;
    }
    assert(views(r@) =~= views(v@));
    r
}

fn bump_prerelease(v: &Semver, arg: Option<&Vec<char>>) -> (r: Result<Vec<Vec<char>>, SemverError>)
    ensures
        match r {
            Ok(ids) => bump_prerelease_spec(v@, opt_view(arg)) == Ok::<
                Seq<Seq<char>>,
                SemverFailure,
            >(views(ids@)),
            Err(e) => bump_prerelease_spec(v@, opt_view(arg)) == Err::<
                Seq<Seq<char>>,
                SemverFailure,
            >(e@),
        },
{
    match arg {
        Some(p) => {
            if p.len() > 0 && p[p.len() - 1] == '.' {
                let base = trim_dots(p);
                let next_opt = if base.len() == 0 {
                    let e: Vec<Vec<char>> = Vec::new();
                    assert(views(e@) =~= Seq::<Seq<char>>::empty());
                    Some(e)
                } else {
                    parse_prerelease(&base)
                };
                match next_opt {
                    None => Err(SemverError::Invalid(p.clone())),
                    Some(next) => {
                        let mut next = next;
                        let ghost n0 = views(next@);
                        let number: u64;
                        if v.prerelease.len() > 0 && v.prerelease.len() - 1 == next.len() && prefix_equal(
                            &v.prerelease,
                            &next,
                        ) {
                            let last = &v.prerelease[v.prerelease.len() - 1];
                            assert(views(v.prerelease@).last() == last@);
                            match parse_u64(last) {
                                Some(n) => {
                                    if n == u64::MAX {
                                        return Err(SemverError::TooLarge(p.clone()));
                                    }
                                    number = n + 1;
                                },
                                None => {
                                    number = 0;
                                },
                            }
                        } else {
                            number = 0;
                        }
                        let d = decimal_chars(number);
                        next.push(d);
                        assert(views(next@) =~= n0.push(decimal(number as nat)));
                        Ok(next)
                    },
                }
            } else {
                match parse_prerelease(p) {
                    Some(ids) => Ok(ids),
                    None => Err(SemverError::Invalid(p.clone())),
                }
            }
        },
        None => {
            let n = v.prerelease.len();
            if n > 0 {
                let last = &v.prerelease[n - 1];
                assert(views(v.prerelease@).last() == last@);
                match parse_u64(last) {
                    Some(x) => {
                        if x == u64::MAX {
                            let current = v.to_chars();
                            return Err(SemverError::TooLarge(current));
                        }
                        let mut ids = clone_ids(&v.prerelease);
                        ids.set(n - 1, decimal_chars(x + 1));
                        assert(views(ids@) =~= views(v.prerelease@).drop_last().push(
                            decimal((x + 1) as nat),
                        ));
                        return Ok(ids);
                    },
                    None => {},
                }
            }
            let mut ids = clone_ids(&v.prerelease);
            ids.push(decimal_chars(0));
            assert(views(ids@) =~= views(v.prerelease@).push(decimal(0)));
            Ok(ids)
        },
    }
}

/// Applies a bump operation to a version text and returns the new version.
pub fn bump_semver(value: &Vec<char>, op: &Vec<char>, arg: Option<&Vec<char>>) -> (r: Result<
    Semver,
    SemverError,
>)
    ensures
        match r {
            Ok(v) => bump_spec(value@, op@, opt_view(arg)) == Ok::<
                SemverModel,
                SemverFailure,
            >(v@),
            Err(e) => bump_spec(value@, op@, opt_view(arg)) == Err::<
                SemverModel,
                SemverFailure,
            >(e@),
        },
{
    let v = match parse_semver(value) {
        Some(v) => v,
        None => {
            return Err(SemverError::Invalid(value.clone()));
        },
    };
    if chars_eq_str(op, "major") {
        if v.major == u64::MAX {
            return Err(SemverError::TooLarge(value.clone()));
        }
        let r = Semver { major: v.major + 1, minor: 0, patch: 0, prerelease: Vec::new() };
        assert(views(r.prerelease@) =~= seq![]);
        Ok(r)
    } else if chars_eq_str(op, "minor") {
        if v.minor == u64::MAX {
            return Err(SemverError::TooLarge(value.clone()));
        }
        let r = Semver { major: v.major, minor: v.minor + 1, patch: 0, prerelease: Vec::new() };
        assert(views(r.prerelease@) =~= seq![]);
        Ok(r)
    } else if chars_eq_str(op, "patch") {
        if v.patch == u64::MAX {
            return Err(SemverError::TooLarge(value.clone()));
        }
        let r = Semver {
            major: v.major,
            minor: v.minor,
            patch: v.patch + 1,
            prerelease: Vec::new(),
        };
        assert(views(r.prerelease@) =~= seq![]);
        Ok(r)
    } else if chars_eq_str(op, "pre") {
        let pre = bump_prerelease(&v, arg)?;
        Ok(Semver { major: v.major, minor: v.minor, patch: v.patch, prerelease: pre })
    } else if chars_eq_str(op, "release") {
        let r = Semver { major: v.major, minor: v.minor, patch: v.patch, prerelease: Vec::new() };
        assert(views(r.prerelease@) =~= seq![]);
        Ok(r)
    } else {
        Err(SemverError::BadOperation)
    }
}

/// Text order: swapping the arguments flips the result.
pub proof fn lemma_order_text_flip(a: Seq<char>, b: Seq<char>)
    ensures
        order_text(a, b) == flip(order_text(b, a)),
    decreases a.len(),
{
    if a.len() > 0 && b.len() > 0 && a[0] == b[0] {
        lemma_order_text_flip(a.drop_first(), b.drop_first());
    }
}

/// Text order: equal texts compare `Equal` and only they do.
pub proof fn lemma_order_text_equal(a: Seq<char>, b: Seq<char>)
    ensures
        (order_text(a, b) == Precedence::Equal) == (a == b),
    decreases a.len(),
{
    if a.len() > 0 && b.len() > 0 {
        lemma_order_text_equal(a.drop_first(), b.drop_first());
        if a[0] == b[0] && a.drop_first() == b.drop_first() {
            assert(a =~= seq![a[0]] + a.drop_first());
            assert(b =~= seq![b[0]] + b.drop_first());
        }
        if a == b {
            assert(a.drop_first() =~= b.drop_first());
        }
    } else if a.len() == 0 && b.len() == 0 {
        assert(a =~= b);
    }
}

/// Text order is transitive.
pub proof fn lemma_order_text_trans(a: Seq<char>, b: Seq<char>, c: Seq<char>)
    requires
        order_text(a, b) == Precedence::Less,
        order_text(b, c) == Precedence::Less,
    ensures
        order_text(a, c) == Precedence::Less,
    decreases a.len(),
{
    if a.len() > 0 && b.len() > 0 && c.len() > 0 && a[0] == b[0] && b[0] == c[0] {
        lemma_order_text_trans(a.drop_first(), b.drop_first(), c.drop_first());
    }
}

/// Identifier order: swapping the arguments flips the result.
pub proof fn lemma_order_identifier_flip(a: Seq<char>, b: Seq<char>)
    ensures
        order_identifier(a, b) == flip(order_identifier(b, a)),
{
    lemma_order_text_flip(a, b);
}

/// Identifiers that compare `Equal` compare alike with every identifier.
pub proof fn lemma_order_identifier_equal(a: Seq<char>, b: Seq<char>, c: Seq<char>)
    requires
        order_identifier(a, b) == Precedence::Equal,
    ensures
        order_identifier(a, c) == order_identifier(b, c),
{
    lemma_order_text_equal(a, b);
}

/// Identifier order is transitive.
pub proof fn lemma_order_identifier_trans(a: Seq<char>, b: Seq<char>, c: Seq<char>)
    requires
        order_identifier(a, b) == Precedence::Less,
        order_identifier(b, c) == Precedence::Less,
    ensures
        order_identifier(a, c) == Precedence::Less,
{
    match (parse_u64_spec(a), parse_u64_spec(b), parse_u64_spec(c)) {
        (None, None, None) => lemma_order_text_trans(a, b, c),
        _ => {},
    }
}

pub proof fn lemma_order_identifiers_flip(a: Seq<Seq<char>>, b: Seq<Seq<char>>)
    ensures
        order_identifiers(a, b) == flip(order_identifiers(b, a)),
    decreases a.len(),
{
    if a.len() > 0 && b.len() > 0 {
        lemma_order_identifier_flip(a[0], b[0]);
        lemma_order_identifiers_flip(a.drop_first(), b.drop_first());
    }
}

pub proof fn lemma_order_identifiers_equal(a: Seq<Seq<char>>, b: Seq<Seq<char>>, c: Seq<Seq<char>>)
    requires
        order_identifiers(a, b) == Precedence::Equal,
    ensures
        order_identifiers(a, c) == order_identifiers(b, c),
    decreases a.len(),
{
    if a.len() > 0 && b.len() > 0 {
        lemma_order_identifier_equal(a[0], b[0], c[0]);
        if c.len() > 0 {
            lemma_order_identifiers_equal(a.drop_first(), b.drop_first(), c.drop_first());
        }
    }
}

pub proof fn lemma_order_identifiers_trans(a: Seq<Seq<char>>, b: Seq<Seq<char>>, c: Seq<Seq<char>>)
    requires
        order_identifiers(a, b) == Precedence::Less,
        order_identifiers(b, c) == Precedence::Less,
    ensures
        order_identifiers(a, c) == Precedence::Less,
    decreases a.len(),
{
    if a.len() > 0 && b.len() > 0 && c.len() > 0 {
        let ab = order_identifier(a[0], b[0]);
        let bc = order_identifier(b[0], c[0]);
        if ab == Precedence::Equal {
            lemma_order_identifier_equal(a[0], b[0], c[0]);
            if bc == Precedence::Equal {
                lemma_order_identifier_equal(b[0], c[0], a[0]);
                lemma_order_identifier_flip(a[0], c[0]);
                lemma_order_identifier_flip(b[0], a[0]);
                lemma_order_identifiers_trans(a.drop_first(), b.drop_first(), c.drop_first());
            }
        } else if bc == Precedence::Equal {
            lemma_order_identifier_equal(b[0], c[0], a[0]);
            lemma_order_identifier_flip(a[0], b[0]);
            lemma_order_identifier_flip(a[0], c[0]);
        } else {
            lemma_order_identifier_trans(a[0], b[0], c[0]);
        }
    }
}

proof fn lemma_order_identifiers_reflexive(a: Seq<Seq<char>>)
    ensures
        order_identifiers(a, a) == Precedence::Equal,
    decreases a.len(),
{
    if a.len() > 0 {
        lemma_order_text_equal(a[0], a[0]);
        lemma_order_identifiers_reflexive(a.drop_first());
    }
}

/// Every version has the same precedence as itself.
pub proof fn lemma_precedence_reflexive(v: SemverModel)
    ensures
        precedence(v, v) == Precedence::Equal,
{
    lemma_order_identifiers_reflexive(v.pre);
}

/// Version precedence: swapping the arguments flips the result.
pub proof fn lemma_precedence_flip(a: SemverModel, b: SemverModel)
    ensures
        precedence(a, b) == flip(precedence(b, a)),
{
    lemma_order_identifiers_flip(a.pre, b.pre);
}

/// Versions that compare `Equal` compare alike with every version.
pub proof fn lemma_precedence_equal(a: SemverModel, b: SemverModel, c: SemverModel)
    requires
        precedence(a, b) == Precedence::Equal,
    ensures
        precedence(a, c) == precedence(b, c),
{
    if a.pre.len() > 0 && b.pre.len() > 0 {
        lemma_order_identifiers_equal(a.pre, b.pre, c.pre);
    }
}

/// Version precedence is transitive: it is a total order on precedence classes.
pub proof fn lemma_precedence_trans(a: SemverModel, b: SemverModel, c: SemverModel)
    requires
        precedence(a, b) == Precedence::Less,
        precedence(b, c) == Precedence::Less,
    ensures
        precedence(a, c) == Precedence::Less,
{
    if a.major == b.major && b.major == c.major && a.minor == b.minor && b.minor == c.minor
        && a.patch == b.patch && b.patch == c.patch && a.pre.len() > 0 && b.pre.len() > 0
        && c.pre.len() > 0 {
        lemma_order_identifiers_trans(a.pre, b.pre, c.pre);
    }
}

/// A `major`, `minor` or `patch` bump gives a version of higher precedence,
/// and a `release` bump never a lower one.
pub proof fn lemma_bump_raises_precedence(value: Seq<char>, op: Seq<char>, arg: Option<Seq<char>>)
    requires
        bump_spec(value, op, arg) is Ok,
    ensures
        op == "major"@ || op == "minor"@ || op == "patch"@ ==> precedence(
            parse_semver_spec(value)->0,
            bump_spec(value, op, arg)->Ok_0,
        ) == Precedence::Less,
        op == "release"@ ==> precedence(
            parse_semver_spec(value)->0,
            bump_spec(value, op, arg)->Ok_0,
        ) != Precedence::Greater,
{
    reveal_strlit("major");
    reveal_strlit("minor");
    reveal_strlit("patch");
    reveal_strlit("pre");
    reveal_strlit("release");
    if op == "release"@ {
        assert("release"@.len() == 7);
        assert("major"@.len() == 5);
        assert("minor"@.len() == 5);
        assert("patch"@.len() == 5);
        assert("pre"@.len() == 3);
        let v = parse_semver_spec(value)->0;
        let w = bump_spec(value, op, arg)->Ok_0;
        assert(w.pre.len() == 0);
        assert(w.major == v.major && w.minor == v.minor && w.patch == v.patch);
    }
}

/// A major, minor, patch or release bump leaves no pre-release part.
pub proof fn lemma_bump_drops_prerelease(value: Seq<char>, op: Seq<char>, arg: Option<Seq<char>>)
    requires
        bump_spec(value, op, arg) is Ok,
        op == "major"@ || op == "minor"@ || op == "patch"@ || op == "release"@,
    ensures
        bump_spec(value, op, arg)->Ok_0.pre.len() == 0,
{
    reveal_strlit("major");
    reveal_strlit("minor");
    reveal_strlit("patch");
    reveal_strlit("pre");
    reveal_strlit("release");
    assert("release"@.len() == 7);
    assert("major"@.len() == 5);
    assert("minor"@.len() == 5);
    assert("patch"@.len() == 5);
    assert("pre"@.len() == 3);
}

/// The decimal text of a number is digits, starts with `0` only for zero,
/// and reads back as the number.
pub(crate) proof fn lemma_decimal_digits(n: nat)
    ensures
        decimal(n).len() > 0,
        all_digits(decimal(n)),
        digits_value(decimal(n)) == n,
        n > 0 ==> decimal(n)[0] != '0',
        decimal(n).len() > 1 ==> n > 0,
    decreases n,
{
    if n < 10 {
        assert(decimal(n) == seq![digit_char(n)]);
        assert(decimal(n).drop_last() =~= seq![]);
        assert(digit_char(n) as u32 == 48 + n);
        assert(digits_value(decimal(n)) == digits_value(seq![]) * 10 + ((digit_char(n) as u32) - ('0' as u32)) as nat);
    } else {
        lemma_decimal_digits(n / 10);
        let d = decimal(n / 10);
        assert(decimal(n) == d.push(digit_char(n % 10)));
        assert(decimal(n).drop_last() =~= d);
        assert forall|i: int| 0 <= i < decimal(n).len() implies is_ascii_digit(#[trigger] decimal(n)[i]) by {
            if i < d.len() {
                assert(decimal(n)[i] == d[i]);
            }
        }
        assert(decimal(n)[0] == d[0]);
        assert(digit_char(n % 10) as u32 == 48 + n % 10);
        assert(digits_value(decimal(n)) == digits_value(d) * 10 + ((digit_char(n % 10) as u32) - ('0' as u32)) as nat);
        assert(n == (n / 10) * 10 + n % 10) by {
            vstd::arithmetic::div_mod::lemma_fundamental_div_mod(n as int, 10);
        }
    }
}

/// The decimal text of a 64-bit number is a numeric identifier of it.
proof fn lemma_numeric_identifier_decimal(n: u64)
    ensures
        numeric_identifier(decimal(n as nat)) == Some(n),
{
    lemma_decimal_digits(n as nat);
}

/// Splitting text with no separator gives the text.
proof fn lemma_split_none(s: Seq<char>, sep: char)
    requires
        !s.contains(sep),
    ensures
        split_on(s, sep) == seq![s],
{
    lemma_find_char_first(s, sep, s.len() as int);
}

/// Splitting `x`, the separator, then `y`, where `x` has no separator.
proof fn lemma_split_front(x: Seq<char>, y: Seq<char>, sep: char)
    requires
        !x.contains(sep),
    ensures
        split_on(x + seq![sep] + y, sep) == seq![x] + split_on(y, sep),
{
    let s = x + seq![sep] + y;
    assert forall|j: int| 0 <= j < x.len() implies s[j] != sep by {
        assert(s[j] == x[j]);
    }
    lemma_find_char_first(s, sep, x.len() as int);
    assert(s.take(x.len() as int) =~= x);
    assert(s.skip(x.len() as int + 1) =~= y);
}

/// `join_dots` read from the front.
proof fn lemma_join_dots_front(ids: Seq<Seq<char>>)
    requires
        ids.len() >= 2,
    ensures
        join_dots(ids) == ids[0] + seq!['.'] + join_dots(ids.drop_first()),
    decreases ids.len(),
{
    if ids.len() == 2 {
        assert(ids.drop_last() =~= seq![ids[0]]);
        assert(ids.drop_first() =~= seq![ids[1]]);
        assert(join_dots(ids.drop_last()) == ids[0]);
        assert(join_dots(ids.drop_first()) == ids[1]);
        assert(join_dots(ids) == join_dots(ids.drop_last()) + seq!['.'] + ids.last());
    } else {
        lemma_join_dots_front(ids.drop_last());
        let a = ids.drop_last();
        let b = ids.drop_first();
        assert(a.drop_first() =~= b.drop_last());
        assert(a[0] == ids[0]);
        assert(b.last() == ids.last());
        assert(join_dots(ids) == join_dots(a) + seq!['.'] + ids.last());
        assert(join_dots(a) == a[0] + seq!['.'] + join_dots(a.drop_first()));
        assert(join_dots(b) == join_dots(b.drop_last()) + seq!['.'] + b.last());
        assert(join_dots(ids) =~= ids[0] + seq!['.'] + join_dots(ids.drop_first()));
    }
}

/// Identifiers without dots, joined with dots and split again.
proof fn lemma_split_join_dots(ids: Seq<Seq<char>>)
    requires
        ids.len() > 0,
        forall|k: int| 0 <= k < ids.len() ==> !(#[trigger] ids[k]).contains('.'),
    ensures
        split_on(join_dots(ids), '.') == ids,
    decreases ids.len(),
{
    if ids.len() == 1 {
        lemma_split_none(ids[0], '.');
        assert(seq![ids[0]] =~= ids);
    } else {
        lemma_join_dots_front(ids);
        assert(!ids[0].contains('.'));
        assert forall|k: int| 0 <= k < ids.drop_first().len() implies !(#[trigger] ids.drop_first()[k]).contains('.') by {
            assert(ids.drop_first()[k] == ids[k + 1]);
        }
        lemma_split_join_dots(ids.drop_first());
        lemma_split_front(ids[0], join_dots(ids.drop_first()), '.');
        assert(seq![ids[0]] + ids.drop_first() =~= ids);
    }
}

/// Text made of characters that are none of some chars holds none of them.
proof fn lemma_join_dots_chars(ids: Seq<Seq<char>>, c: char)
    requires
        c != '.',
        forall|k: int| 0 <= k < ids.len() ==> !(#[trigger] ids[k]).contains(c),
    ensures
        !join_dots(ids).contains(c),
    decreases ids.len(),
{
    if ids.len() > 1 {
        lemma_join_dots_chars(ids.drop_last(), c);
        assert(ids.drop_last().len() == ids.len() - 1);
        assert forall|k: int| 0 <= k < ids.drop_last().len() implies !(#[trigger] ids.drop_last()[k]).contains(c) by {
            assert(ids.drop_last()[k] == ids[k]);
        }
        lemma_join_dots_chars(ids.drop_last(), c);
        let j = join_dots(ids);
        assert(!ids.last().contains(c));
        assert forall|i: int| 0 <= i < j.len() implies j[i] != c by {
            let a = join_dots(ids.drop_last());
            if i < a.len() {
                assert(j[i] == a[i]);
            } else if i > a.len() {
                assert(j[i] == ids.last()[i - a.len() - 1]);
            }
        }
    } else if ids.len() == 1 {
        assert(!ids[0].contains(c));
    }
}

/// A valid prerelease identifier holds no `.` nor `+`.
proof fn lemma_pre_identifier_chars(id: Seq<char>)
    requires
        valid_pre_identifier(id),
    ensures
        !id.contains('.'),
        !id.contains('+'),
{
    assert forall|i: int| 0 <= i < id.len() implies id[i] != '.' && id[i] != '+' by {
        assert(is_pre_char(id[i]));
    }
}

/// What is written reads back: the text of a version whose prerelease
/// identifiers are valid parses as that version.
#[verifier::rlimit(50)]
pub proof fn lemma_display_parses_back(v: SemverModel)
    requires
        forall|k: int| 0 <= k < v.pre.len() ==> valid_pre_identifier(#[trigger] v.pre[k]),
    ensures
        parse_semver_spec(display(v)) == Some(v),
{
    let a = decimal(v.major as nat);
    let b = decimal(v.minor as nat);
    let c = decimal(v.patch as nat);
    lemma_decimal_digits(v.major as nat);
    lemma_decimal_digits(v.minor as nat);
    lemma_decimal_digits(v.patch as nat);
    lemma_numeric_identifier_decimal(v.major);
    lemma_numeric_identifier_decimal(v.minor);
    lemma_numeric_identifier_decimal(v.patch);
    let core = a + seq!['.'] + b + seq!['.'] + c;
    assert forall|i: int| 0 <= i < a.len() implies a[i] != '.' && a[i] != '-' && a[i] != '+' by {
        assert(is_ascii_digit(a[i]));
    }
    assert forall|i: int| 0 <= i < b.len() implies b[i] != '.' && b[i] != '-' && b[i] != '+' by {
        assert(is_ascii_digit(b[i]));
    }
    assert forall|i: int| 0 <= i < c.len() implies c[i] != '.' && c[i] != '-' && c[i] != '+' by {
        assert(is_ascii_digit(c[i]));
    }
    assert(!a.contains('.') && !b.contains('.') && !c.contains('.'));
    lemma_split_none(c, '.');
    lemma_split_front(b, c, '.');
    assert(core =~= a + seq!['.'] + (b + seq!['.'] + c));
    lemma_split_front(a, b + seq!['.'] + c, '.');
    assert(split_on(core, '.') =~= seq![a, b, c]);
    assert(parse_core_spec(core) == Some((v.major, v.minor, v.patch)));
    assert forall|i: int| 0 <= i < core.len() implies core[i] != '-' && core[i] != '+' by {
        if i < a.len() {
            assert(core[i] == a[i]);
        } else if i == a.len() {
        } else if i < a.len() + 1 + b.len() {
            assert(core[i] == b[i - a.len() - 1]);
        } else if i == a.len() + 1 + b.len() {
        } else {
            assert(core[i] == c[i - a.len() - 2 - b.len()]);
        }
    }
    if v.pre.len() == 0 {
        assert(display(v) == core);
        lemma_find_char_first(core, '-', core.len() as int);
        assert(!core.contains('+'));
        assert(find_char(core, '-') is None);
        assert(v.pre =~= seq![]);
        assert(parse_semver_spec(core) == Some(SemverModel { major: v.major, minor: v.minor, patch: v.patch, pre: seq![] }));
    } else {
        let pre = join_dots(v.pre);
        assert forall|k: int| 0 <= k < v.pre.len() implies !(#[trigger] v.pre[k]).contains('.') && !v.pre[k].contains('+') by {
            lemma_pre_identifier_chars(v.pre[k]);
        }
        lemma_split_join_dots(v.pre);
        lemma_join_dots_chars(v.pre, '+');
        assert(parse_prerelease_spec(pre) == Some(v.pre));
        let t = display(v);
        assert(t == core + seq!['-'] + pre);
        lemma_find_char_first(t, '-', core.len() as int);
        assert(t.take(core.len() as int) =~= core);
        assert(t.skip(core.len() as int + 1) =~= pre);
        lemma_split_on_nonempty(pre, '.');
        assert(pre.len() > 0) by {
            if pre.len() == 0 {
                lemma_split_none(pre, '.');
                assert(v.pre =~= seq![pre]);
                assert(valid_pre_identifier(v.pre[0]));
            }
        }
        assert forall|i: int| 0 <= i < t.len() implies t[i] != '+' by {
            if i < core.len() {
                assert(t[i] == core[i]);
            } else if i > core.len() {
                assert(t[i] == pre[i - core.len() - 1]);
            }
        }
        assert(!t.contains('+'));
        assert(find_char(t, '-') == Some(core.len() as int));
        assert(parse_semver_spec(t) == Some(SemverModel { major: v.major, minor: v.minor, patch: v.patch, pre: v.pre }));
    }
}

/// The decimal text of a number is a valid prerelease identifier.
proof fn lemma_decimal_pre_identifier(n: nat)
    ensures
        valid_pre_identifier(decimal(n)),
{
    lemma_decimal_digits(n);
    let d = decimal(n);
    assert forall|i: int| 0 <= i < d.len() implies is_pre_char(#[trigger] d[i]) by {
        assert(is_ascii_digit(d[i]));
    }
    if n == 0 {
        assert(d =~= seq!['0']);
    }
}

/// The prerelease of a parsed version is made of valid identifiers.
proof fn lemma_parsed_pre_valid(value: Seq<char>)
    requires
        parse_semver_spec(value) is Some,
    ensures
        forall|k: int| 0 <= k < parse_semver_spec(value)->0.pre.len() ==> valid_pre_identifier(
            #[trigger] parse_semver_spec(value)->0.pre[k],
        ),
{
}

/// What a bump writes reads back: the text of a bumped version parses as
/// that version.
pub proof fn lemma_bump_reads_back(value: Seq<char>, op: Seq<char>, arg: Option<Seq<char>>)
    requires
        bump_spec(value, op, arg) is Ok,
    ensures
        parse_semver_spec(display(bump_spec(value, op, arg)->Ok_0)) == Some(bump_spec(value, op, arg)->Ok_0),
{
    let v = parse_semver_spec(value)->0;
    let w = bump_spec(value, op, arg)->Ok_0;
    lemma_parsed_pre_valid(value);
    assert forall|k: int| 0 <= k < w.pre.len() implies valid_pre_identifier(#[trigger] w.pre[k]) by {
        if w.pre.len() > 0 {
            assert(op == "pre"@) by {
                reveal_strlit("major");
                reveal_strlit("minor");
                reveal_strlit("patch");
                reveal_strlit("pre");
                reveal_strlit("release");
            }
            match arg {
                Some(p) => {
                    if p.len() > 0 && p.last() == '.' {
                        let base = trim_trailing_dots(p);
                        let next = if base.len() == 0 {
                            Seq::<Seq<char>>::empty()
                        } else {
                            parse_prerelease_spec(base)->0
                        };
                        if k < next.len() {
                            assert(w.pre[k] == next[k]);
                        } else {
                            if v.pre.len() == next.len() + 1 && v.pre.take(next.len() as int) == next
                                && parse_u64_spec(v.pre.last()) is Some {
                                let n = parse_u64_spec(v.pre.last())->0;
                                lemma_decimal_pre_identifier((n + 1) as nat);
                            } else {
                                lemma_decimal_pre_identifier(0);
                            }
                        }
                    }
                },
                None => {
                    if v.pre.len() > 0 && parse_u64_spec(v.pre.last()) is Some {
                        let n = parse_u64_spec(v.pre.last())->0;
                        lemma_decimal_pre_identifier((n + 1) as nat);
                        if k < v.pre.len() - 1 {
                            assert(w.pre[k] == v.pre[k]);
                        }
                    } else {
                        lemma_decimal_pre_identifier(0);
                        if k < v.pre.len() {
                            assert(w.pre[k] == v.pre[k]);
                        }
                    }
                },
            }
        }
    }
    lemma_display_parses_back(w);
}

} // verus!
