//! A file (or directory) of a knot, as a crawl saw it.
use vstd::prelude::*;

use crate::error::KnotError;
use crate::paths::{file_name_of, relative_path_of};

verus! {

#[derive(Debug)]
pub struct KnotFile {
    pub path: String,
    pub content_hash: Option<u64>,
    pub is_dir: bool,
    /// Modification time.
    pub mtime: i64,
}

impl Clone for KnotFile {
    fn clone(&self) -> (r: Self)
        ensures
            r == *self,
    {
        KnotFile {
            path: self.path.clone(),
            content_hash: self.content_hash,
            is_dir: self.is_dir,
            mtime: self.mtime,
        }
    }
}

impl KnotFile {
    /// A file that is no directory and has no content hash: a symbolic link.
    pub fn is_symling(&self) -> (r: bool)
        ensures
            r == (!self.is_dir && self.content_hash is None),
    {
        !self.is_dir && self.content_hash.is_none()
    }

    /// The last component of the path, when it is a name.
    pub fn name(&self) -> (r: Result<String, KnotError>)
        ensures
            match r {
                Ok(n) => crate::paths::file_name_spec(self.path@) == Some(n@),
                Err(e) => crate::paths::file_name_spec(self.path@) is None && e
                    == (KnotError::NoFileName { path: self.path }),
            },
    {
        match file_name_of(self.path.as_str()) {
            Some(n) => Ok(n),
            None => Err(KnotError::NoFileName { path: self.path.clone() }),
        }
    }

    pub fn new(path: String, mtime: i64, is_dir: bool, content_hash: Option<u64>) -> (r: Self)
        ensures
            r == (KnotFile { path, mtime, is_dir, content_hash }),
    {
        KnotFile { path, mtime, content_hash, is_dir }
    }

    /// The path relative to `root`, with `/` between its names.
    pub fn relative_path(&self, root: &str) -> (r: String)
        ensures
            r@ == crate::paths::relative_path_spec(self.path@, root@),
    {
        relative_path_of(self.path.as_str(), root)
    }
}

} // verus!
