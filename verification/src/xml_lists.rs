use vstd::prelude::*;

verus! {

/// The list shell an author set travels in within an XML manifest.
#[derive(Debug)]
pub struct Authors {
    inner: Vec<String>,
}

impl Authors {
    /// The names held.
    pub closed spec fn spec_inner(&self) -> Seq<String> {
        self.inner@
    }

    /// Wrap an author list.
    pub fn new(authors: Vec<String>) -> (r: Self)
        ensures
            r.spec_inner() == authors@,
    {
        Authors { inner: authors }
    }

    /// Unwrap the author list.
    pub fn inner(self) -> (r: Vec<String>)
        ensures
            r@ == self.spec_inner(),
    {
        self.inner
    }
}

/// The list shell a dependency set travels in within an XML manifest.
#[derive(Debug)]
pub struct Dependencies {
    inner: Vec<String>,
}

impl Dependencies {
    /// The names held.
    pub closed spec fn spec_inner(&self) -> Seq<String> {
        self.inner@
    }

    /// Wrap a dependency list.
    pub fn new(dependencies: Vec<String>) -> (r: Self)
        ensures
            r.spec_inner() == dependencies@,
    {
        Dependencies { inner: dependencies }
    }

    /// Unwrap the dependency list.
    pub fn inner(self) -> (r: Vec<String>)
        ensures
            r@ == self.spec_inner(),
    {
        self.inner
    }
}

/// The list shell an integration set travels in within an XML manifest.
#[derive(Debug)]
pub struct Integrations {
    inner: Vec<String>,
}

impl Integrations {
    /// The names held.
    pub closed spec fn spec_inner(&self) -> Seq<String> {
        self.inner@
    }

    /// Wrap an integration list.
    pub fn new(integrations: Vec<String>) -> (r: Self)
        ensures
            r.spec_inner() == integrations@,
    {
        Integrations { inner: integrations }
    }

    /// Unwrap the integration list.
    pub fn inner(self) -> (r: Vec<String>)
        ensures
            r@ == self.spec_inner(),
    {
        self.inner
    }
}

/// The list shell a tag set travels in within an XML manifest; the tags are
/// carried as their names.
#[derive(Debug)]
pub struct Tags {
    inner: Vec<String>,
}

impl Tags {
    /// The tag names held.
    pub closed spec fn spec_inner(&self) -> Seq<String> {
        self.inner@
    }

    /// Wrap a tag-name list.
    pub fn new(tags: Vec<String>) -> (r: Self)
        ensures
            r.spec_inner() == tags@,
    {
        Tags { inner: tags }
    }

    /// Unwrap the tag-name list.
    pub fn into_inner(self) -> (r: Vec<String>)
        ensures
            r@ == self.spec_inner(),
    {
        self.inner
    }
}

/// The list shell an API file list travels in within an XML manifest.
#[derive(Debug)]
pub struct FileList {
    inner: Vec<String>,
}

impl FileList {
    /// The file names held.
    pub closed spec fn spec_inner(&self) -> Seq<String> {
        self.inner@
    }

    /// Wrap a file-name list.
    pub fn new(inner: Vec<String>) -> (r: Self)
        ensures
            r.spec_inner() == inner@,
    {
        FileList { inner }
    }

    /// Unwrap the file-name list.
    pub fn into_inner(self) -> (r: Vec<String>)
        ensures
            r@ == self.spec_inner(),
    {
        self.inner
    }

    /// The file names held, by reference.
    pub fn inner(&self) -> (r: &Vec<String>)
        ensures
            r@ == self.spec_inner(),
    {
        &self.inner
    }
}

} // verus!
