//! Names that a taskfile declares: task names (with one optional group level),
//! environment variable names and version names.
use vstd::prelude::*;

use crate::text::{
    ascii_upper, char_ascii_upper, char_is_ascii_alnum, char_is_ascii_alpha, find_char,
    is_ascii_alnum, is_ascii_alpha, lemma_find_char, lemma_find_char_first, str_chars, subvec,
};

verus! {

/// Splits text at every occurrence of `sep`, as `str::split` with a char
/// pattern: `n` separators give `n + 1` pieces.
pub open spec fn split_on(s: Seq<char>, sep: char) -> Seq<Seq<char>>
    decreases s.len(),
{
    match find_char(s, sep) {
        None => seq![s],
        Some(i) => {
            if 0 <= i < s.len() {
                seq![s.take(i)] + split_on(s.skip(i + 1), sep)
            } else {
                seq![s]
            }
        },
    }
}

pub proof fn lemma_split_on_nonempty(s: Seq<char>, sep: char)
    ensures
        split_on(s, sep).len() >= 1,
    decreases s.len(),
{
    lemma_find_char(s, sep);
    if let Some(i) = find_char(s, sep) {
        lemma_split_on_nonempty(s.skip(i + 1), sep);
    }
}

/// The pieces of `s` between occurrences of `sep`.
pub fn split_chars(s: &Vec<char>, sep: char) -> (parts: Vec<Vec<char>>)
    ensures
        parts@.len() == split_on(s@, sep).len(),
        forall|k: int| 0 <= k < parts@.len() ==> #[trigger] parts@[k]@ == split_on(s@, sep)[k],
{
    let mut parts: Vec<Vec<char>> = Vec::new();
    let mut start: usize = 0;
    let mut i: usize = 0;
    let ghost mut done: Seq<Seq<char>> = seq![];
    assert(s@.skip(0) =~= s@);
    while i < s.len()
        invariant
            start <= i <= s.len(),
            parts@.len() == done.len(),
            forall|k: int| 0 <= k < parts@.len() ==> #[trigger] parts@[k]@ == done[k],
            done + split_on(s@.skip(start as int), sep) == split_on(s@, sep),
            forall|j: int| start <= j < i ==> s@[j] != sep,
        decreases s.len() - i,
    {
        if s[i] == sep {
            let ghost rest = s@.skip(start as int);
            proof {
                assert forall|j: int| 0 <= j < i - start implies rest[j] != sep by {
                    assert(rest[j] == s@[start + j]);
                }
                lemma_find_char_first(rest, sep, i - start);
                assert(rest.take(i - start) =~= s@.subrange(start as int, i as int));
                assert(rest.skip(i - start + 1) =~= s@.skip(i + 1));
            }
            let piece = subvec(s, start, i);
            parts.push(piece);
            proof {
                done = done.push(s@.subrange(start as int, i as int));
                assert(split_on(rest, sep) == seq![rest.take(i - start)] + split_on(
                    rest.skip(i - start + 1),
                    sep,
                ));
                assert(done + split_on(s@.skip(i + 1), sep) =~= split_on(s@, sep));
            }
            start = i + 1;
        }
        i = i + 1;
    }
    let ghost rest = s@.skip(start as int);
    proof {
        assert forall|j: int| 0 <= j < rest.len() implies rest[j] != sep by {
            assert(rest[j] == s@[start + j]);
        }
        lemma_find_char_first(rest, sep, rest.len() as int);
    }
    let piece = subvec(s, start, s.len());
    parts.push(piece);
    proof {
        done = done.push(rest);
        assert(done =~= split_on(s@, sep));
    }
    parts
}

pub open spec fn is_name_char(c: char) -> bool {
    c == '-' || c == '_' || is_ascii_alnum(c)
}

pub fn char_is_name_char(c: char) -> (b: bool)
    ensures
        b == is_name_char(c),
{
    c == '-' || c == '_' || char_is_ascii_alnum(c)
}

/// One `:`-separated part of a task name: ASCII letters, digits, `-` and `_`.
pub open spec fn valid_task_name_part(s: Seq<char>) -> bool {
    s.len() > 0 && forall|i: int| 0 <= i < s.len() ==> is_name_char(#[trigger] s[i])
}

pub fn is_valid_task_name_part(s: &Vec<char>) -> (b: bool)
    ensures
        b == valid_task_name_part(s@),
{
    if s.len() == 0 {
        return false;
    }
    let mut i: usize = 0;
    while i < s.len()
        invariant
            i <= s.len(),
            forall|j: int| 0 <= j < i ==> is_name_char(#[trigger] s@[j]),
        decreases s.len() - i,
    {
        if !char_is_name_char(s[i]) {
            assert(!is_name_char(s@[i as int]));
            return false;
        }
        i = i + 1;
    }
    true
}

/// Why a task name is refused.
#[derive(Clone, Copy, Debug, PartialEq, Eq, Structural)]
pub enum TaskNameError {
    Empty,
    BadChars,
    EmptyGroup,
    TooDeep,
}

impl TaskNameError {
    pub open spec fn spec_message(self) -> Seq<char> {
        match self {
            TaskNameError::Empty => "task name cannot be empty"@,
            TaskNameError::BadChars => "task names must contain ASCII letters, digits, hyphens, and underscores"@,
            TaskNameError::EmptyGroup => "task name group cannot be empty"@,
            TaskNameError::TooDeep => "task groups are limited to one level of nesting"@,
        }
    }

    pub fn message(&self) -> (m: &'static str)
        ensures
            m@ == self.spec_message(),
    {
        match self {
            TaskNameError::Empty => "task name cannot be empty",
            TaskNameError::BadChars => "task names must contain ASCII letters, digits, hyphens, and underscores",
            TaskNameError::EmptyGroup => "task name group cannot be empty",
            TaskNameError::TooDeep => "task groups are limited to one level of nesting",
        }
    }
}

/// What is wrong with a task name, if anything: it must be non-empty, its
/// first part must be a valid part, and so must every group part after a `:`.
pub open spec fn task_name_error(name: Seq<char>) -> Option<TaskNameError> {
    let parts = split_on(name, ':');
    if name.len() == 0 {
        Some(TaskNameError::Empty)
    } else if !valid_task_name_part(parts[0]) {
        Some(TaskNameError::BadChars)
    } else if exists|k: int| 1 <= k < parts.len() && !valid_task_name_part(#[trigger] parts[k]) {
        Some(TaskNameError::EmptyGroup)
    } else {
        None
    }
}

pub open spec fn valid_task_name(name: Seq<char>) -> bool {
    task_name_error(name) is None
}

pub fn validate_task_name(name: &Vec<char>) -> (r: Result<(), TaskNameError>)
    ensures
        match r {
            Ok(()) => task_name_error(name@) is None,
            Err(e) => task_name_error(name@) == Some(e),
        },
{
    if name.len() == 0 {
        return Err(TaskNameError::Empty);
    }
    let parts = split_chars(name, ':');
    proof {
        lemma_split_on_nonempty(name@, ':');
    }
    if !is_valid_task_name_part(&parts[0]) {
        return Err(TaskNameError::BadChars);
    }
    let mut k: usize = 1;
    while k < parts.len()
        invariant
            1 <= k <= parts@.len(),
            name@.len() > 0,
            valid_task_name_part(split_on(name@, ':')[0]),
            parts@.len() == split_on(name@, ':').len(),
            forall|m: int| 0 <= m < parts@.len() ==> #[trigger] parts@[m]@ == split_on(name@, ':')[m],
            forall|m: int| 1 <= m < k ==> valid_task_name_part(#[trigger] split_on(name@, ':')[m]),
        decreases parts.len() - k,
    {
        if !is_valid_task_name_part(&parts[k]) {
            assert(!valid_task_name_part(split_on(name@, ':')[k as int]));
            assert(task_name_error(name@) == Some(TaskNameError::EmptyGroup));
            return Err(TaskNameError::EmptyGroup);
        }
        k = k + 1;
    }
    Ok(())
}

/// Number of `:` in a name.
pub open spec fn colon_count(s: Seq<char>) -> nat
    decreases s.len(),
{
    if s.len() == 0 {
        0
    } else {
        colon_count(s.drop_last()) + if s.last() == ':' { 1nat } else { 0nat }
    }
}

pub fn count_colons(s: &Vec<char>) -> (n: usize)
    ensures
        n == colon_count(s@),
{
    let mut n: usize = 0;
    let mut i: usize = 0;
    while i < s.len()
        invariant
            i <= s.len(),
            n == colon_count(s@.take(i as int)),
            n <= i,
        decreases s.len() - i,
    {
        assert(s@.take(i + 1).drop_last() =~= s@.take(i as int));
        if s[i] == ':' {
            n = n + 1;
        }
        i = i + 1;
    }
    assert(s@.take(s.len() as int) =~= s@);
    n
}

/// Task groups nest one level at most: a name has at most one `:`.
pub fn validate_task_nesting_depth(name: &Vec<char>) -> (r: Result<(), TaskNameError>)
    ensures
        r is Ok <==> colon_count(name@) <= 1,
        r matches Err(e) ==> e == TaskNameError::TooDeep,
{
    if count_colons(name) > 1 {
        Err(TaskNameError::TooDeep)
    } else {
        Ok(())
    }
}

/// Why an environment variable name is refused.
#[derive(Clone, Copy, Debug, PartialEq, Eq, Structural)]
pub enum EnvNameError {
    Empty,
    BadStart,
    BadChars,
}

impl EnvNameError {
    pub open spec fn spec_message(self) -> Seq<char> {
        match self {
            EnvNameError::Empty => "env name cannot be empty"@,
            EnvNameError::BadStart => "env names must start with a letter or underscore"@,
            EnvNameError::BadChars => "env names must contain only ASCII letters, digits, and underscores"@,
        }
    }

    pub fn message(&self) -> (m: &'static str)
        ensures
            m@ == self.spec_message(),
    {
        match self {
            EnvNameError::Empty => "env name cannot be empty",
            EnvNameError::BadStart => "env names must start with a letter or underscore",
            EnvNameError::BadChars => "env names must contain only ASCII letters, digits, and underscores",
        }
    }
}

/// First char of an environment variable name.
pub open spec fn is_env_start(c: char) -> bool {
    c == '_' || is_ascii_alpha(c)
}

/// Later chars of an environment variable name.
pub open spec fn is_env_continue(c: char) -> bool {
    c == '_' || is_ascii_alnum(c)
}

pub fn char_is_env_start(c: char) -> (b: bool)
    ensures
        b == is_env_start(c),
{
    c == '_' || char_is_ascii_alpha(c)
}

pub fn char_is_env_continue(c: char) -> (b: bool)
    ensures
        b == is_env_continue(c),
{
    c == '_' || char_is_ascii_alnum(c)
}

pub open spec fn env_name_error(name: Seq<char>) -> Option<EnvNameError> {
    if name.len() == 0 {
        Some(EnvNameError::Empty)
    } else if !is_env_start(name[0]) {
        Some(EnvNameError::BadStart)
    } else if exists|i: int| 1 <= i < name.len() && !is_env_continue(#[trigger] name[i]) {
        Some(EnvNameError::BadChars)
    } else {
        None
    }
}

pub open spec fn valid_env_name(name: Seq<char>) -> bool {
    env_name_error(name) is None
}

pub fn validate_env_name(name: &Vec<char>) -> (r: Result<(), EnvNameError>)
    ensures
        match r {
            Ok(()) => env_name_error(name@) is None,
            Err(e) => env_name_error(name@) == Some(e),
        },
{
    if name.len() == 0 {
        return Err(EnvNameError::Empty);
    }
    if !char_is_env_start(name[0]) {
        return Err(EnvNameError::BadStart);
    }
    let mut i: usize = 1;
    while i < name.len()
        invariant
            1 <= i <= name.len(),
            is_env_start(name@[0]),
            forall|j: int| 1 <= j < i ==> is_env_continue(#[trigger] name@[j]),
        decreases name.len() - i,
    {
        if !char_is_env_continue(name[i]) {
            assert(!is_env_continue(name@[i as int]));
            assert(env_name_error(name@) == Some(EnvNameError::BadChars));
            return Err(EnvNameError::BadChars);
        }
        i = i + 1;
    }
    Ok(())
}

/// Why a version name is refused.
#[derive(Clone, Copy, Debug, PartialEq, Eq, Structural)]
pub enum VersionNameError {
    Empty,
    BadChars,
}

impl VersionNameError {
    pub open spec fn spec_message(self) -> Seq<char> {
        match self {
            VersionNameError::Empty => "version name cannot be empty"@,
            VersionNameError::BadChars => "version names must contain ASCII letters, digits, hyphens, and underscores"@,
        }
    }

    pub fn message(&self) -> (m: &'static str)
        ensures
            m@ == self.spec_message(),
    {
        match self {
            VersionNameError::Empty => "version name cannot be empty",
            VersionNameError::BadChars => "version names must contain ASCII letters, digits, hyphens, and underscores",
        }
    }
}

/// A version name char as it appears in the environment key: `-` becomes
/// `_`, letters are upper-cased.
pub open spec fn version_key_char(c: char) -> char {
    if c == '-' {
        '_'
    } else {
        ascii_upper(c)
    }
}

/// The environment key that holds a version: `VERSION_` and the normalized
/// name.
pub open spec fn version_env_key_spec(name: Seq<char>) -> Result<Seq<char>, VersionNameError> {
    if name.len() == 0 {
        Err(VersionNameError::Empty)
    } else if exists|i: int| 0 <= i < name.len() && !is_name_char(#[trigger] name[i]) {
        Err(VersionNameError::BadChars)
    } else {
        Ok("VERSION_"@ + name.map_values(|c: char| version_key_char(c)))
    }
}

pub fn version_env_key(name: &Vec<char>) -> (r: Result<Vec<char>, VersionNameError>)
    ensures
        match r {
            Ok(k) => version_env_key_spec(name@) == Ok::<Seq<char>, VersionNameError>(k@),
            Err(e) => version_env_key_spec(name@) == Err::<Seq<char>, VersionNameError>(e),
        },
{
    if name.len() == 0 {
        return Err(VersionNameError::Empty);
    }
    let mut i: usize = 0;
    while i < name.len()
        invariant
            i <= name.len(),
            forall|j: int| 0 <= j < i ==> is_name_char(#[trigger] name@[j]),
        decreases name.len() - i,
    {
        if !char_is_name_char(name[i]) {
            assert(!is_name_char(name@[i as int]));
            return Err(VersionNameError::BadChars);
        }
        i = i + 1;
    }
    let mut key = str_chars("VERSION_");
    let ghost prefix = key@;
    let mut k: usize = 0;
    while k < name.len()
        invariant
            k <= name.len(),
            prefix == "VERSION_"@,
            key@ == prefix + name@.take(k as int).map_values(|c: char| version_key_char(c)),
        decreases name.len() - k,
    {
        let c = name[k];
        let u = if c == '-' {
            '_'
        } else {
            char_ascii_upper(c)
        };
        key.push(u);
        k = k + 1;
        assert(key@ =~= prefix + name@.take(k as int).map_values(|c: char| version_key_char(c)));
    }
    assert(name@.take(name.len() as int) =~= name@);
    Ok(key)
}

} // verus!
