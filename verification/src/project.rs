//! The `wispee.toml` project manifest, as the toolchain reads it.
use vstd::prelude::*;

verus! {

/// Top-level `wispee.toml` configuration.
#[derive(Debug)]
pub struct ProjectConfig {
    /// `[project]` section; always present.
    pub project: ProjectMeta,
    /// `[lib]` section; present when the project is a library.
    pub lib: Option<LibConfig>,
}

/// `[project]` section of `wispee.toml`.
#[derive(Debug)]
pub struct ProjectMeta {
    /// Project name (the bundle name of a library without a `[lib]` name).
    pub name: String,
    /// Semantic version string.
    pub version: String,
    /// Default entry-point source file, relative to the project root.
    pub entry: String,
}

/// `[lib]` section of `wispee.toml`: the project is a library.
#[derive(Debug)]
pub struct LibConfig {
    /// Library entry-point source file, relative to the project root.
    pub entry: String,
    /// Library bundle name (the `.walb` file's stem).
    pub name: String,
}

impl ProjectConfig {
    /// The name a library bundle of this project carries: the `[lib]` name,
    /// else the project's name.
    pub fn bundle_name(&self) -> (r: String)
        ensures
            r@ == match self.lib {
                Some(l) => l.name@,
                None => self.project.name@,
            },
    {
        match &self.lib {
            Some(l) => l.name.clone(),
            None => self.project.name.clone(),
        }
    }

    /// The source file to compile: the library's entry when `lib` is asked
    /// for and there is a `[lib]` section, else the project's entry.
    pub fn entry_for(&self, lib: bool) -> (r: String)
        ensures
            r@ == match self.lib {
                Some(l) => if lib {
                    l.entry@
                } else {
                    self.project.entry@
                },
                None => self.project.entry@,
            },
    {
        match &self.lib {
            Some(l) => if lib {
                l.entry.clone()
            } else {
                self.project.entry.clone()
            },
            None => self.project.entry.clone(),
        }
    }
}

} // verus!
