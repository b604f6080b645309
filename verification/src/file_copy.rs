//! The decisions of `@cp` and `@cpdir` that do not need the file system:
//! when several sources need a directory as destination, what a trailing
//! separator on a source means, and where each copy goes.
use vstd::prelude::*;

use crate::error::{line_prefixed, line_prefixed_text, CjError};
use crate::text::{append, str_chars};

verus! {

/// Whether a char separates path components (`/`, or `\` as written on
/// Windows).
pub open spec fn is_separator(c: char) -> bool {
    c == '/' || c == '\\'
}

/// A path without its trailing separators.
pub open spec fn trim_separators(s: Seq<char>) -> Seq<char>
    decreases s.len(),
{
    if s.len() > 0 && is_separator(s.last()) {
        trim_separators(s.drop_last())
    } else {
        s
    }
}

/// A `@cpdir` source: whether only its contents are copied (it ends with a
/// separator) and the directory it names.
pub fn copy_dir_source(source: &Vec<char>) -> (r: (bool, Vec<char>))
    ensures
        r.0 == (source@.len() > 0 && is_separator(source@.last())),
        r.1@ == trim_separators(source@),
{
    let contents_only = source.len() > 0 && (source[source.len() - 1] == '/' || source[source.len() - 1] == '\\');
    let mut n = source.len();
    assert(source@.take(n as int) =~= source@);
    while n > 0 && (source[n - 1] == '/' || source[n - 1] == '\\')
        invariant
            n <= source.len(),
            trim_separators(source@) == trim_separators(source@.take(n as int)),
        decreases n,
    {
        assert(source@.take(n as int).drop_last() =~= source@.take(n - 1));
        assert(source@.take(n as int).last() == source@[n - 1]);
        n = n - 1;
    }
    let mut dir: Vec<char> = Vec::new();
    let mut i: usize = 0;
    while i < n
        invariant
            i <= n <= source.len(),
            dir@ == source@.take(i as int),
        decreases n - i,
    {
        dir.push(source[i]);
        i = i + 1;
        assert(dir@ =~= source@.take(i as int));
    }
    assert(source@.take(n as int) == trim_separators(source@.take(n as int))) by {
        if n > 0 {
            assert(source@.take(n as int).last() == source@[n - 1]);
        }
    }
    (contents_only, dir)
}

/// Where one copy goes.
#[derive(Clone, Copy, Debug, PartialEq, Eq, Structural)]
pub enum CopyInto {
    /// The destination itself.
    Destination,
    /// An entry of the destination directory named like the source.
    UnderDestination,
}

/// A directory's contents go into the destination itself; otherwise a
/// source goes under a destination that is a directory, and replaces or
/// becomes one that is not.
pub fn copy_target(contents_only: bool, destination_is_dir: bool) -> (r: CopyInto)
    ensures
        r == if !contents_only && destination_is_dir {
            CopyInto::UnderDestination
        } else {
            CopyInto::Destination
        },
{
    if !contents_only && destination_is_dir {
        CopyInto::UnderDestination
    } else {
        CopyInto::Destination
    }
}

/// The message for several sources copied to a destination that is not a
/// directory, for `@cp` (files) or `@cpdir` (directories).
pub open spec fn several_sources_text(dirs: bool) -> Seq<char> {
    if dirs {
        "@cpdir destination must be a directory when copying multiple directories"@
    } else {
        "@cp destination must be a directory when copying multiple files"@
    }
}

/// Several sources need a destination that is a directory.
pub fn several_sources_error(dirs: bool, sources: usize, destination_is_dir: bool, line: usize) -> (r: Option<CjError>)
    ensures
        (sources > 1 && !destination_is_dir) ==> (r matches Some(e) && e@ == line_prefixed_text(
            line as nat,
            several_sources_text(dirs),
        )),
        !(sources > 1 && !destination_is_dir) ==> r is None,
{
    if sources > 1 && !destination_is_dir {
        let m = if dirs {
            str_chars("@cpdir destination must be a directory when copying multiple directories")
        } else {
            str_chars("@cp destination must be a directory when copying multiple files")
        };
        Some(line_prefixed(line, &m))
    } else {
        None
    }
}

/// The message for a source that is not a file (`@cp`) or not a directory
/// (`@cpdir`), naming the path as shown.
pub open spec fn bad_source_text(dirs: bool, shown: Seq<char>) -> Seq<char> {
    if dirs {
        "@cpdir source is not a directory: "@ + shown
    } else {
        "@cp source is not a file: "@ + shown
    }
}

/// A source must be a file for `@cp` and a directory for `@cpdir`.
pub fn bad_source_error(dirs: bool, source_ok: bool, shown: &Vec<char>, line: usize) -> (r: Option<CjError>)
    ensures
        !source_ok ==> (r matches Some(e) && e@ == line_prefixed_text(line as nat, bad_source_text(dirs, shown@))),
        source_ok ==> r is None,
{
    if source_ok {
        return None;
    }
    let mut m = if dirs {
        str_chars("@cpdir source is not a directory: ")
    } else {
        str_chars("@cp source is not a file: ")
    };
    append(&mut m, shown);
    Some(line_prefixed(line, &m))
}

} // verus!
