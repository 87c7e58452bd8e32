//! Filesystem interface with pluggable implementations, and the shell-facing
//! operations on the kernel's filesystem (an in-memory one).
pub mod fat32;
pub mod memory;

use vstd::prelude::*;
use crate::text::{debug_str, push_str, decimal_string, spec_debug_str, spec_decimal};
use vstd::string::StringExecFns;
use crate::fs::memory::{
    MemoryFileSystem,
    Node,
    Failure,
    failure_debug,
    failure_matches,
    lemma_failure_debug,
    spec_list,
    spec_cd,
    spec_create,
    spec_write,
    spec_read,
    spec_remove,
    lists_children,
};

verus! {

/// Errors of filesystem operations.
#[derive(Debug, Clone)]
pub enum FileSystemError {
    NotFound,
    PermissionDenied,
    DiskFull,
    InvalidPath,
    IoError,
    NotImplemented,
    AlreadyExists,
    NotADirectory,
    NotAFile,
    Custom(String),
}

/// The `Debug` rendering of an error: the variant's name, and for `Custom`
/// the message quoted and escaped inside parentheses.
pub open spec fn spec_error_debug(e: FileSystemError) -> Seq<char> {
    match e {
        FileSystemError::NotFound => "NotFound"@,
        FileSystemError::PermissionDenied => "PermissionDenied"@,
        FileSystemError::DiskFull => "DiskFull"@,
        FileSystemError::InvalidPath => "InvalidPath"@,
        FileSystemError::IoError => "IoError"@,
        FileSystemError::NotImplemented => "NotImplemented"@,
        FileSystemError::AlreadyExists => "AlreadyExists"@,
        FileSystemError::NotADirectory => "NotADirectory"@,
        FileSystemError::NotAFile => "NotAFile"@,
        FileSystemError::Custom(s) => "Custom("@ + spec_debug_str(s@) + ")"@,
    }
}

impl FileSystemError {
    /// The error as `format!("{:?}", e)` renders it.
    pub fn debug_string(&self) -> (r: String)
        ensures
            r@ == spec_error_debug(*self),
    {
        match self {
            FileSystemError::NotFound => String::from_str("NotFound"),
            FileSystemError::PermissionDenied => String::from_str("PermissionDenied"),
            FileSystemError::DiskFull => String::from_str("DiskFull"),
            FileSystemError::InvalidPath => String::from_str("InvalidPath"),
            FileSystemError::IoError => String::from_str("IoError"),
            FileSystemError::NotImplemented => String::from_str("NotImplemented"),
            FileSystemError::AlreadyExists => String::from_str("AlreadyExists"),
            FileSystemError::NotADirectory => String::from_str("NotADirectory"),
            FileSystemError::NotAFile => String::from_str("NotAFile"),
            FileSystemError::Custom(s) => {
                let mut r = String::from_str("Custom(");
                let quoted = debug_str(s.as_str());
                push_str(&mut r, quoted.as_str());
                push_str(&mut r, ")");
                r
            },
        }
    }
}

/// One entry of a directory listing.
#[derive(Debug, Clone)]
pub struct DirEntry {
    pub name: String,
    pub is_directory: bool,
    pub size: u64,
}

/// Operations every filesystem implementation offers.
pub trait FileSystem {
    fn read_file(&mut self, path: &str) -> Result<Vec<u8>, FileSystemError>;

    fn write_file(&mut self, path: &str, data: &[u8]) -> Result<(), FileSystemError>;

    fn create_file(&mut self, path: &str) -> Result<(), FileSystemError>;

    fn delete_file(&mut self, path: &str) -> Result<(), FileSystemError>;

    fn create_directory(&mut self, path: &str) -> Result<(), FileSystemError>;

    fn delete_directory(&mut self, path: &str) -> Result<(), FileSystemError>;

    fn list_directory(&mut self, path: &str) -> Result<Vec<DirEntry>, FileSystemError>;

    fn path_exists(&mut self, path: &str) -> bool;

    fn is_directory(&mut self, path: &str) -> bool;

    fn is_file(&mut self, path: &str) -> bool;

    fn get_current_directory(&self) -> String;

    fn set_current_directory(&mut self, path: &str) -> Result<(), FileSystemError>;
}

/// The line `ls` prints for an entry: `d` or `-`, the name, and the size.
pub open spec fn spec_listing_line(n: Node) -> Seq<char> {
    (if n.is_dir {
        "d"@
    } else {
        "-"@
    }) + " "@ + n.name + " "@ + spec_decimal(n.data.len()) + " bytes"@
}

/// The lines listing the current directory, or no line when it cannot be
/// listed.
pub fn list_directory(fs: &mut MemoryFileSystem, path: &str) -> (r: Vec<String>)
    ensures
        *final(fs) == *old(fs),
        match spec_list(old(fs).root(), old(fs).cwd(), path@) {
            Ok(n) => r@.len() == n.children.len() && forall|i: int|
                0 <= i < r@.len() ==> #[trigger] r@[i]@ == spec_listing_line(n.children[i]),
            Err(_) => r@.len() == 0,
        },
{
    let mut result: Vec<String> = Vec::new();
    match fs.list_directory(path) {
        Ok(entries) => {
            let ghost n = spec_list(old(fs).root(), old(fs).cwd(), path@)->Ok_0;
            let mut i: usize = 0;
            while i < entries.len()
                invariant
                    i <= entries@.len(),
                    lists_children(entries@, n),
                    result@.len() == i,
                    forall|j: int|
                        0 <= j < i ==> #[trigger] result@[j]@ == spec_listing_line(n.children[j]),
                decreases entries@.len() - i,
            {
                let e = &entries[i];
                let mut line = if e.is_directory {
                    String::from_str("d")
                } else {
                    String::from_str("-")
                };
                push_str(&mut line, " ");
                push_str(&mut line, e.name.as_str());
                push_str(&mut line, " ");
                let size_text = decimal_string(e.size);
                push_str(&mut line, size_text.as_str());
                push_str(&mut line, " bytes");
                assert(e.name@ == n.children[i as int].name);
                let ghost before = result@;
                result.push(line);
                assert(forall|j: int| 0 <= j < i ==> result@[j] == before[j]);
                i = i + 1;
            }
        },
        Err(_) => {},
    }
    result
}

/// Changes the current directory; the error is rendered with `Debug`.
pub fn change_directory(fs: &mut MemoryFileSystem, path: &str) -> (r: Result<(), String>)
    ensures
        old(fs).wf() ==> final(fs).wf(),
        final(fs).root() == old(fs).root(),
        match spec_cd(old(fs).root(), old(fs).cwd(), path@) {
            Ok(d) => r is Ok && final(fs).cwd() == d,
            Err(f) => final(fs).cwd() == old(fs).cwd() && (r matches Err(m) && m@
                == failure_debug(f)),
        },
{
    match fs.set_current_directory(path) {
        Ok(()) => Ok(()),
        Err(e) => {
            proof {
                lemma_failure_debug(e, spec_cd(old(fs).root(), old(fs).cwd(), path@)->Err_0);
            }
            Err(e.debug_string())
        },
    }
}

/// Creates the file `name` in the current directory and writes `content`
/// to it; errors are rendered with `Debug`. When the write fails, the empty
/// file stays.
pub fn create_file(fs: &mut MemoryFileSystem, name: &str, content: Vec<u8>) -> (r: Result<(), String>)
    ensures
        old(fs).wf() ==> final(fs).wf(),
        final(fs).cwd() == old(fs).cwd(),
        match spec_create(old(fs).root(), old(fs).cwd(), name@, false) {
            Err(f) => final(fs).root() == old(fs).root() && (r matches Err(m) && m@
                == failure_debug(f)),
            Ok(t) => match spec_write(t, old(fs).cwd(), name@, content@) {
                Ok(t2) => r is Ok && final(fs).root() == t2,
                Err(f) => final(fs).root() == t && (r matches Err(m) && m@ == failure_debug(f)),
            },
        },
{
    match fs.create_file(name) {
        Ok(()) => {},
        Err(e) => {
            proof {
                lemma_failure_debug(e, spec_create(old(fs).root(), old(fs).cwd(), name@, false)->Err_0);
            }
            return Err(e.debug_string());
        },
    }
    let ghost mid = fs.root();
    match fs.write_file(name, content.as_slice()) {
        Ok(()) => Ok(()),
        Err(e) => {
            proof {
                lemma_failure_debug(e, spec_write(mid, old(fs).cwd(), name@, content@)->Err_0);
            }
            Err(e.debug_string())
        },
    }
}

/// Reads the file `name`; errors are rendered with `Debug`.
pub fn read_file(fs: &mut MemoryFileSystem, name: &str) -> (r: Result<Vec<u8>, String>)
    ensures
        *final(fs) == *old(fs),
        match spec_read(old(fs).root(), old(fs).cwd(), name@) {
            Ok(d) => r matches Ok(v) && v@ == d,
            Err(f) => r matches Err(m) && m@ == failure_debug(f),
        },
{
    match fs.read_file(name) {
        Ok(v) => Ok(v),
        Err(e) => {
            proof {
                lemma_failure_debug(e, spec_read(old(fs).root(), old(fs).cwd(), name@)->Err_0);
            }
            Err(e.debug_string())
        },
    }
}

/// Creates the directory `name`; errors are rendered with `Debug`.
pub fn create_directory(fs: &mut MemoryFileSystem, name: &str) -> (r: Result<(), String>)
    ensures
        old(fs).wf() ==> final(fs).wf(),
        final(fs).cwd() == old(fs).cwd(),
        match spec_create(old(fs).root(), old(fs).cwd(), name@, true) {
            Ok(t) => r is Ok && final(fs).root() == t,
            Err(f) => final(fs).root() == old(fs).root() && (r matches Err(m) && m@
                == failure_debug(f)),
        },
{
    match fs.create_directory(name) {
        Ok(()) => Ok(()),
        Err(e) => {
            proof {
                lemma_failure_debug(e, spec_create(old(fs).root(), old(fs).cwd(), name@, true)->Err_0);
            }
            Err(e.debug_string())
        },
    }
}

/// Removes the file `name`; errors are rendered with `Debug`.
pub fn remove_file(fs: &mut MemoryFileSystem, name: &str) -> (r: Result<(), String>)
    ensures
        old(fs).wf() ==> final(fs).wf(),
        final(fs).cwd() == old(fs).cwd(),
        match spec_remove(old(fs).root(), old(fs).cwd(), name@, false) {
            Ok(t) => r is Ok && final(fs).root() == t,
            Err(f) => final(fs).root() == old(fs).root() && (r matches Err(m) && m@
                == failure_debug(f)),
        },
{
    match fs.delete_file(name) {
        Ok(()) => Ok(()),
        Err(e) => {
            proof {
                lemma_failure_debug(e, spec_remove(old(fs).root(), old(fs).cwd(), name@, false)->Err_0);
            }
            Err(e.debug_string())
        },
    }
}

/// The current directory.
pub fn get_current_path(fs: &MemoryFileSystem) -> (r: String)
    ensures
        r@ == fs.cwd(),
{
    fs.get_current_directory()
}

} // verus!
