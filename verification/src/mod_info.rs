use vstd::prelude::*;

verus! {

use crate::links::Links;
use crate::tag::Tag;
use crate::version::Version;

/// One mod's manifest. Name sets (dependencies, integrations, authors) are
/// held as vectors of names; their set meaning is the set of their members'
/// character sequences.
#[derive(Debug, Clone)]
pub struct ModInfo {
    /// The name shown for the mod where it differs from its key.
    pub display_name: Option<String>,
    /// The mod's description text.
    pub description: String,
    /// The mod's version.
    pub version: Version,
    /// Where the mod is downloaded from.
    pub links: Links,
    /// Names of mods this mod requires.
    pub dependencies: Vec<String>,
    /// The mod's source repository, if any.
    pub repository: Option<String>,
    /// Where issues against the mod are filed, if any.
    pub issues: Option<String>,
    /// Names of mods this mod cooperates with but does not require.
    pub integrations: Vec<String>,
    /// The mod's categories.
    pub tags: Vec<Tag>,
    /// The mod's authors.
    pub authors: Vec<String>,
}

impl ModInfo {
    /// An empty builder.
    pub fn builder() -> (r: ModInfoBuilder)
        ensures
            r.spec_is_empty(),
    {
        ModInfoBuilder {
            display_name: None,
            description: None,
            version: None,
            links: None,
            dependencies: Vec::new(),
            repository: None,
            issues: None,
            integrations: Vec::new(),
            tags: Vec::new(),
            authors: Vec::new(),
        }
    }

    /// A builder preloaded with every field of this manifest, so that a few
    /// fields can be changed and the rest kept.
    pub fn into_builder(self) -> (r: ModInfoBuilder)
        ensures
            r.display_name == self.display_name,
            r.description matches Some(d) && d == self.description,
            r.version matches Some(v) && v == self.version,
            r.links matches Some(l) && l == self.links,
            r.dependencies == self.dependencies,
            r.repository == self.repository,
            r.issues == self.issues,
            r.integrations == self.integrations,
            r.tags == self.tags,
            r.authors == self.authors,
    {
        let ModInfo {
            display_name,
            description,
            version,
            links,
            dependencies,
            repository,
            issues,
            integrations,
            tags,
            authors,
        } = self;
        ModInfoBuilder {
            display_name,
            description: Some(description),
            version: Some(version),
            links: Some(links),
            dependencies,
            repository,
            issues,
            integrations,
            tags,
            authors,
        }
    }
}

/// A step-by-step constructor for [`ModInfo`]: version and links are
/// mandatory, everything else defaults to empty.
#[derive(Debug, Clone)]
pub struct ModInfoBuilder {
    pub display_name: Option<String>,
    pub description: Option<String>,
    pub version: Option<Version>,
    pub links: Option<Links>,
    pub dependencies: Vec<String>,
    pub repository: Option<String>,
    pub issues: Option<String>,
    pub integrations: Vec<String>,
    pub tags: Vec<Tag>,
    pub authors: Vec<String>,
}

/// The error of building a manifest with a mandatory field missing.
#[derive(Debug, Clone, Copy, PartialEq, Eq, Structural)]
pub enum ModInfoBuilderError {
    /// The version was never set.
    MissingVersion,
    /// The links were never set.
    MissingLinks,
}

impl ModInfoBuilder {
    /// The builder with nothing set.
    pub open spec fn spec_is_empty(&self) -> bool {
        &&& self.display_name is None
        &&& self.description is None
        &&& self.version is None
        &&& self.links is None
        &&& self.dependencies@ == Seq::<String>::empty()
        &&& self.repository is None
        &&& self.issues is None
        &&& self.integrations@ == Seq::<String>::empty()
        &&& self.tags@ == Seq::<crate::tag::Tag>::empty()
        &&& self.authors@ == Seq::<String>::empty()
    }

    /// Set the display name.
    pub fn display_name(self, value: String) -> (r: Self)
        ensures
            r == (ModInfoBuilder { display_name: Some(value), ..self }),
    {
        ModInfoBuilder { display_name: Some(value), ..self }
    }

    /// Set the description.
    pub fn description(self, value: String) -> (r: Self)
        ensures
            r == (ModInfoBuilder { description: Some(value), ..self }),
    {
        ModInfoBuilder { description: Some(value), ..self }
    }

    /// Set the version.
    pub fn version(self, value: Version) -> (r: Self)
        ensures
            r == (ModInfoBuilder { version: Some(value), ..self }),
    {
        ModInfoBuilder { version: Some(value), ..self }
    }

    /// Set the links.
    pub fn links(self, value: Links) -> (r: Self)
        ensures
            r == (ModInfoBuilder { links: Some(value), ..self }),
    {
        ModInfoBuilder { links: Some(value), ..self }
    }

    /// Set the whole dependency list.
    pub fn dependencies(self, value: Vec<String>) -> (r: Self)
        ensures
            r == (ModInfoBuilder { dependencies: value, ..self }),
    {
        ModInfoBuilder { dependencies: value, ..self }
    }

    /// Add one dependency.
    pub fn dependency(self, value: String) -> (r: Self)
        ensures
            r.dependencies@ == self.dependencies@.push(value),
            r == (ModInfoBuilder { dependencies: r.dependencies, ..self }),
    {
        let mut b = self;
        b.dependencies.push(value);
        b
    }

    /// Set the repository.
    pub fn repository(self, value: String) -> (r: Self)
        ensures
            r == (ModInfoBuilder { repository: Some(value), ..self }),
    {
        ModInfoBuilder { repository: Some(value), ..self }
    }

    /// Set the issues link.
    pub fn issues(self, value: String) -> (r: Self)
        ensures
            r == (ModInfoBuilder { issues: Some(value), ..self }),
    {
        ModInfoBuilder { issues: Some(value), ..self }
    }

    /// Set the whole integration list.
    pub fn integrations(self, value: Vec<String>) -> (r: Self)
        ensures
            r == (ModInfoBuilder { integrations: value, ..self }),
    {
        ModInfoBuilder { integrations: value, ..self }
    }

    /// Add one integration.
    pub fn integration(self, value: String) -> (r: Self)
        ensures
            r.integrations@ == self.integrations@.push(value),
            r == (ModInfoBuilder { integrations: r.integrations, ..self }),
    {
        let mut b = self;
        b.integrations.push(value);
        b
    }

    /// Set the whole tag list.
    pub fn tags(self, value: Vec<Tag>) -> (r: Self)
        ensures
            r == (ModInfoBuilder { tags: value, ..self }),
    {
        ModInfoBuilder { tags: value, ..self }
    }

    /// Add one tag.
    pub fn tag(self, value: Tag) -> (r: Self)
        ensures
            r.tags@ == self.tags@.push(value),
            r == (ModInfoBuilder { tags: r.tags, ..self }),
    {
        let mut b = self;
        b.tags.push(value);
        b
    }

    /// Set the whole author list.
    pub fn authors(self, value: Vec<String>) -> (r: Self)
        ensures
            r == (ModInfoBuilder { authors: value, ..self }),
    {
        ModInfoBuilder { authors: value, ..self }
    }

    /// Add one author.
    pub fn author(self, value: String) -> (r: Self)
        ensures
            r.authors@ == self.authors@.push(value),
            r == (ModInfoBuilder { authors: r.authors, ..self }),
    {
        let mut b = self;
        b.authors.push(value);
        b
    }

    /// Build the manifest: succeeds iff version and links were both set; the
    /// description defaults to empty text.
    pub fn build(self) -> (r: Result<ModInfo, ModInfoBuilderError>)
        ensures
            (r matches Ok(m) <==> (self.version is Some && self.links is Some)),
            (r matches Ok(m) ==> {
                &&& m.display_name == self.display_name
                &&& (self.description matches Some(d) ==> m.description == d)
                &&& (self.description is None ==> m.description@ == Seq::<char>::empty())
                &&& Some(m.version) == self.version
                &&& Some(m.links) == self.links
                &&& m.dependencies == self.dependencies
                &&& m.repository == self.repository
                &&& m.issues == self.issues
                &&& m.integrations == self.integrations
                &&& m.tags == self.tags
                &&& m.authors == self.authors
            }),
            (self.version is None ==> r == Err::<ModInfo, ModInfoBuilderError>(
                ModInfoBuilderError::MissingVersion,
            )),
            (self.version is Some && self.links is None ==> r == Err::<
                ModInfo,
                ModInfoBuilderError,
            >(ModInfoBuilderError::MissingLinks)),
    {
        let ModInfoBuilder {
            display_name,
            description,
            version,
            links,
            dependencies,
            repository,
            issues,
            integrations,
            tags,
            authors,
        } = self;
        let version = match version {
            Some(v) => v,
            None => {
                return Err(ModInfoBuilderError::MissingVersion);
            },
        };
        let links = match links {
            Some(l) => l,
            None => {
                return Err(ModInfoBuilderError::MissingLinks);
            },
        };
        let description = match description {
            Some(d) => d,
            None => String::new(),
        };
        Ok(ModInfo {
            display_name,
            description,
            version,
            links,
            dependencies,
            repository,
            issues,
            integrations,
            tags,
            authors,
        })
    }
}

} // verus!
