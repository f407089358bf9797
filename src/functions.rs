//! Small helpers on paths and directory entries.
//!
//! A path is held as the sequence of its components (`["mirror", "index",
//! "fo", "foo"]`); the caller converts to and from the platform's path type.
use vstd::prelude::*;

verus! {

/// The path `levels` components above `path`.
pub fn path_parent(path: &Vec<String>, levels: usize) -> (r: Vec<String>)
    requires
        levels <= path@.len(),
    ensures
        r@ == path@.subrange(0, path@.len() - levels),
{
    let keep = path.len() - levels;
    let mut r: Vec<String> = Vec::new();
    let mut i: usize = 0;
    while i < keep
        invariant
            keep == path@.len() - levels,
            keep <= path@.len(),
            i <= keep,
            r@ == path@.subrange(0, i as int),
        decreases keep - i,
    {
        r.push(path[i].clone());
        i += 1;
        assert(r@ =~= path@.subrange(0, i as int));
    }
    r
}

/// Why a mirror directory cannot be used.
#[derive(Debug, Clone, Copy, PartialEq, Eq, Structural)]
pub enum DirectoryError {
    /// Nothing exists at the path.
    Missing,
    /// Something exists at the path, but it is not a directory.
    NotADirectory,
}

/// Decides whether a path can serve as a directory, from whether it exists
/// and whether it is a directory.
pub fn ensure_directory(exists: bool, is_dir: bool) -> (r: Result<(), DirectoryError>)
    ensures
        !exists ==> r == Err::<(), DirectoryError>(DirectoryError::Missing),
        exists && !is_dir ==> r == Err::<(), DirectoryError>(DirectoryError::NotADirectory),
        exists && is_dir ==> r is Ok,
{
    if !exists {
        return Err(DirectoryError::Missing);
    }
    if !is_dir {
        return Err(DirectoryError::NotADirectory);
    }
    Ok(())
}

/// True when `name` starts with the hidden-file marker `.`.
pub open spec fn is_hidden(name: Seq<char>) -> bool {
    name.len() > 0 && name[0] == '.'
}

/// Whether a walk of the metadata root keeps an entry: directories unless
/// hidden, and files only below the first level (files at the top, such as
/// the configuration marker, are not package metadata).
pub fn filter_entries(is_dir: bool, file_name: &str, depth: usize) -> (r: bool)
    ensures
        r == if is_dir { !is_hidden(file_name@) } else { depth > 1 },
{
    if is_dir {
        let n = file_name.unicode_len();
        !(n > 0 && file_name.get_char(0) == '.')
    } else {
        depth > 1
    }
}

} // verus!
