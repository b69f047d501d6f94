use vstd::prelude::*;
use crate::text::{push_str, string_from_chars};

verus! {

/// Where a resource file is looked up: embedded in the program, or in the
/// `resources/external/` directory.
#[derive(Debug, Copy, Clone, PartialEq, Eq, Structural)]
pub enum FileSystem {
    Internal,
    External,
}

/// A resource path.
#[derive(Debug)]
pub struct Path {
    fs: FileSystem,
    p: String,
}

/// A resource path known at compile time.
#[derive(Debug)]
pub struct ConsPath {
    fs: FileSystem,
    p: &'static str,
}

/// Directory of the external resources, relative to the working directory.
pub const EXTERNAL_ROOT: &'static str = "resources/external/";

impl Path {
    pub closed spec fn spec_fs(&self) -> FileSystem {
        self.fs
    }

    pub closed spec fn spec_p(&self) -> Seq<char> {
        self.p@
    }

    pub fn new(fs: FileSystem, p: String) -> (r: Path)
        ensures
            r.spec_fs() == fs,
            r.spec_p() == p@,
    {
        Path { fs, p }
    }

    pub fn fs(&self) -> (r: FileSystem)
        ensures
            r == self.spec_fs(),
    {
        self.fs
    }

    pub fn p(&self) -> (r: String)
        ensures
            r@ == self.spec_p(),
    {
        self.p.clone()
    }

    /// The same path with `other` appended.
    pub fn join_str(self, other: &str) -> (r: Path)
        ensures
            r.spec_fs() == self.spec_fs(),
            r.spec_p() == self.spec_p() + other@,
    {
        let mut cs: Vec<char> = Vec::new();
        push_str(&mut cs, self.p.as_str());
        push_str(&mut cs, other);
        Path { fs: self.fs, p: string_from_chars(cs) }
    }

    /// The file-system location of an external resource.
    pub fn external_location(&self) -> (r: String)
        ensures
            r@ == EXTERNAL_ROOT@ + self.spec_p(),
    {
        let mut cs: Vec<char> = Vec::new();
        push_str(&mut cs, EXTERNAL_ROOT);
        push_str(&mut cs, self.p.as_str());
        string_from_chars(cs)
    }
}

impl ConsPath {
    pub closed spec fn spec_fs(&self) -> FileSystem {
        self.fs
    }

    pub closed spec fn spec_p(&self) -> Seq<char> {
        self.p@
    }

    pub fn new(fs: FileSystem, p: &'static str) -> (r: ConsPath)
        ensures
            r.spec_fs() == fs,
            r.spec_p() == p@,
    {
        ConsPath { fs, p }
    }

    pub fn fs(&self) -> (r: FileSystem)
        ensures
            r == self.spec_fs(),
    {
        self.fs
    }

    pub fn p(&self) -> (r: &'static str)
        ensures
            r@ == self.spec_p(),
    {
        self.p
    }

    /// The owned path naming the same resource.
    pub fn to_path(&self) -> (r: Path)
        ensures
            r.spec_fs() == self.spec_fs(),
            r.spec_p() == self.spec_p(),
    {
        let mut cs: Vec<char> = Vec::new();
        push_str(&mut cs, self.p);
        Path { fs: self.fs, p: string_from_chars(cs) }
    }
}

} // verus!
