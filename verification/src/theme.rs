//! The finished build artifacts, bundled for packaging: the theme's name,
//! the expanded descriptor text, the merged configuration and the resource
//! manifest. Writing the archive itself is the packager's work, outside
//! this library.

use vstd::prelude::*;

use crate::table::{ConfigTable, ResourceManifest, SpConfigSection, SpResourceEntry};

verus! {

pub ghost struct SpTheme {
    pub name: Seq<u8>,
    pub rtconfig: Seq<u8>,
    pub config: Seq<SpConfigSection>,
    pub resources: Seq<SpResourceEntry>,
}

pub struct Theme {
    name: Vec<u8>,
    rtconfig: Vec<u8>,
    config: ConfigTable,
    resources: ResourceManifest,
}

impl View for Theme {
    type V = SpTheme;

    closed spec fn view(&self) -> SpTheme {
        SpTheme {
            name: self.name@,
            rtconfig: self.rtconfig@,
            config: self.config@,
            resources: self.resources@,
        }
    }
}

impl Default for Theme {
    fn default() -> (r: Self)
        ensures
            r@.name == Seq::<u8>::empty(),
            r@.rtconfig == Seq::<u8>::empty(),
            r@.config == Seq::<SpConfigSection>::empty(),
            r@.resources == Seq::<SpResourceEntry>::empty(),
    {
        Theme {
            name: Vec::new(),
            rtconfig: Vec::new(),
            config: ConfigTable::new(),
            resources: ResourceManifest::new(),
        }
    }
}

impl Theme {
    pub fn new(
        name: Vec<u8>,
        rtconfig: Vec<u8>,
        config: ConfigTable,
        resources: ResourceManifest,
    ) -> (r: Self)
        ensures
            r@ == (SpTheme {
                name: name@,
                rtconfig: rtconfig@,
                config: config@,
                resources: resources@,
            }),
    {
        Theme { name, rtconfig, config, resources }
    }

    pub fn name(&self) -> (r: &Vec<u8>)
        ensures
            r@ == self@.name,
    {
        &self.name
    }

    pub fn rtconfig(&self) -> (r: &Vec<u8>)
        ensures
            r@ == self@.rtconfig,
    {
        &self.rtconfig
    }

    pub fn reapertheme(&self) -> (r: &ConfigTable)
        ensures
            r@ == self@.config,
    {
        &self.config
    }

    pub fn resources(&self) -> (r: &ResourceManifest)
        ensures
            r@ == self@.resources,
    {
        &self.resources
    }
}

pub struct BuildOptions {
    overwrite: bool,
}

impl Default for BuildOptions {
    fn default() -> (r: Self)
        ensures
            r.overwrite_set() == false,
    {
        BuildOptions { overwrite: false }
    }
}

impl BuildOptions {
    /// Allow the build to replace an existing output file.
    pub fn overwrite(self, x: bool) -> (r: Self)
        ensures
            r.overwrite_set() == x,
    {
        BuildOptions { overwrite: x }
    }

    /// Whether replacing an existing output file is allowed.
    #[verifier::when_used_as_spec(spec_overwrite_set)]
    pub fn overwrite_set(&self) -> (r: bool)
        ensures
            r == self.spec_overwrite_set(),
    {
        self.overwrite
    }

    pub closed spec fn spec_overwrite_set(&self) -> bool {
        self.overwrite
    }
}

/// A failure of the packaging step. The descriptor pipeline never raises
/// it; the packager does, before writing the archive.
#[derive(Debug)]
pub enum BuildError {
    /// The output path exists (a file, without overwrite allowed, or a
    /// directory).
    PathExistsError(Vec<u8>),
}

impl BuildError {
    /// A short fixed description.
    pub fn message(&self) -> (r: &'static str)
        ensures
            r@ == "the output path already exists"@,
    {
        match self {
            BuildError::PathExistsError(_) => "the output path already exists",
        }
    }
}

} // verus!
