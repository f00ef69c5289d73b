//! Existence checks for files and directories, decided from what the
//! filesystem reported about a path.
use vstd::prelude::*;

verus! {

/// What looking up a path's metadata gave.
#[derive(Debug)]
pub enum Entry {
    /// A regular file.
    File,
    /// A directory.
    Dir,
    /// Something else (neither a file nor a directory).
    Other,
    /// The lookup failed with this error text.
    Missing(String),
}

/// Checks that the path (shown as `path`, its `Debug` rendering) is a file.
pub fn file_exists(path: &str, entry: &Entry) -> (r: Result<(), String>)
    ensures
        r is Ok <==> *entry is File,
        r matches Err(m) ==> match *entry {
            Entry::Missing(e) => m@ == "assertion failed: `file_exists` "@ + path@ + ": "@ + e@,
            _ => m@ == "assertion failed: `file_exists`: path exists but is not a file: "@ + path@,
        },
{
    match entry {
        Entry::File => Ok(()),
        Entry::Missing(e) => {
            let mut m = String::from_str("assertion failed: `file_exists` ");
            m.append(path);
            m.append(": ");
            m.append(e.as_str());
            Err(m)
        },
        _ => {
            let mut m = String::from_str("assertion failed: `file_exists`: path exists but is not a file: ");
            m.append(path);
            Err(m)
        },
    }
}

/// Checks that the path is not a file (it may be missing or something else).
pub fn no_file_exists(path: &str, entry: &Entry) -> (r: Result<(), String>)
    ensures
        r is Ok <==> !(*entry is File),
        r matches Err(m) ==> m@ == "assertion failed: `no_file_exists`: file unexpectedly exists: "@
            + path@,
{
    match entry {
        Entry::File => {
            let mut m = String::from_str("assertion failed: `no_file_exists`: file unexpectedly exists: ");
            m.append(path);
            Err(m)
        },
        _ => Ok(()),
    }
}

/// Checks that the path is a directory.
pub fn dir_exists(path: &str, entry: &Entry) -> (r: Result<(), String>)
    ensures
        r is Ok <==> *entry is Dir,
        r matches Err(m) ==> match *entry {
            Entry::Missing(e) => m@ == "assertion failed: `dir_exists` "@ + path@ + ": "@ + e@,
            _ => m@ == "assertion failed: `dir_exists`: path exists but is not a directory: "@ + path@,
        },
{
    match entry {
        Entry::Dir => Ok(()),
        Entry::Missing(e) => {
            let mut m = String::from_str("assertion failed: `dir_exists` ");
            m.append(path);
            m.append(": ");
            m.append(e.as_str());
            Err(m)
        },
        _ => {
            let mut m = String::from_str(
                "assertion failed: `dir_exists`: path exists but is not a directory: ",
            );
            m.append(path);
            Err(m)
        },
    }
}

/// Checks that the path is not a directory.
pub fn no_dir_exists(path: &str, entry: &Entry) -> (r: Result<(), String>)
    ensures
        r is Ok <==> !(*entry is Dir),
        r matches Err(m) ==> m@
            == "assertion failed: `no_dir_exists`: directory unexpectedly exists: "@ + path@,
{
    match entry {
        Entry::Dir => {
            let mut m = String::from_str(
                "assertion failed: `no_dir_exists`: directory unexpectedly exists: ",
            );
            m.append(path);
            Err(m)
        },
        _ => Ok(()),
    }
}

} // verus!
