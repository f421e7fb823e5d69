//! The libraries that librnp links.

use vstd::prelude::*;

use crate::command::Arg;
use crate::location::{places, Location, LocationView};
use crate::words::texts;

verus! {

/// How a dependency with a CMake build is fetched, built and installed.
#[derive(Debug)]
pub struct CmakeDep {
    pub name: String,
    pub version: String,
    /// The address of the source tarball.
    pub url: String,
    /// The directory that the tarball unpacks to.
    pub source_name: String,
    /// The directory to build in.
    pub build_name: String,
    pub extra_cmake_args: Vec<String>,
    /// The oldest CMake policy version to accept, where the project's own is too
    /// old for current CMake.
    pub cmake_policy_minimum: Option<String>,
    /// Names that the installed library may have, each with the name that it needs.
    pub installed_lib_aliases: Vec<(String, String)>,
}

/// The model of a [`CmakeDep`].
pub struct CmakeDepView {
    pub name: Seq<char>,
    pub version: Seq<char>,
    pub url: Seq<char>,
    pub source_name: Seq<char>,
    pub build_name: Seq<char>,
    pub extra_cmake_args: Seq<Seq<char>>,
    pub cmake_policy_minimum: Option<Seq<char>>,
    pub installed_lib_aliases: Seq<(Seq<char>, Seq<char>)>,
}

impl View for CmakeDep {
    type V = CmakeDepView;

    open spec fn view(&self) -> CmakeDepView {
        CmakeDepView {
            name: self.name@,
            version: self.version@,
            url: self.url@,
            source_name: self.source_name@,
            build_name: self.build_name@,
            extra_cmake_args: texts(self.extra_cmake_args@),
            cmake_policy_minimum: crate::host::optional_text(self.cmake_policy_minimum),
            installed_lib_aliases: crate::aliases::pairs(self.installed_lib_aliases@),
        }
    }
}

/// The dependencies of a librnp build, in order: what each is called and where it
/// is installed.
#[derive(Debug)]
pub struct Deps {
    entries: Vec<(String, Location)>,
}

impl View for Deps {
    type V = Seq<(Seq<char>, LocationView)>;

    closed spec fn view(&self) -> Seq<(Seq<char>, LocationView)> {
        self.entries@.map_values(|entry: (String, Location)| (entry.0@, entry.1@))
    }
}

/// The prefixes of `deps`, in order.
pub open spec fn prefixes(deps: Seq<(Seq<char>, LocationView)>) -> Seq<LocationView> {
    deps.map_values(|dep: (Seq<char>, LocationView)| dep.1)
}

/// The library directories of `deps`, in order.
pub open spec fn lib_directories(deps: Seq<(Seq<char>, LocationView)>) -> Seq<LocationView> {
    deps.map_values(|dep: (Seq<char>, LocationView)| dep.1.join("lib"@))
}

impl Deps {
    /// No dependencies.
    pub fn new() -> (deps: Deps)
        ensures
            deps@ == Seq::<(Seq<char>, LocationView)>::empty(),
    {
        let deps: Deps = Deps { entries: Vec::new() };
        assert(deps@ =~= seq![]);
        deps
    }

    /// Adds the dependency `name`, installed in `prefix`.
    pub fn push(&mut self, name: &str, prefix: Location)
        ensures
            final(self)@ == old(self)@.push((name@, prefix@)),
    {
        let ghost before = self@;
        self.entries.push((name.to_string(), prefix));
        assert(self@ =~= before.push((name@, prefix@)));
    }

    /// The argument that tells CMake where the dependencies are.
    pub fn cmake_prefix_path(&self) -> (arg: Arg)
        ensures
            arg@ == crate::command::ArgView::PathList("-DCMAKE_PREFIX_PATH="@, prefixes(self@)),
    {
        let mut paths: Vec<Location> = Vec::new();
        let mut i: usize = 0;
        while i < self.entries.len()
            invariant
                i <= self.entries@.len(),
                places(paths@) == prefixes(self@).take(i as int),
            decreases self.entries@.len() - i,
        {
            let ghost sofar = places(paths@);
            paths.push(self.entries[i].1.clone());
            assert(places(paths@) =~= sofar.push(self.entries@[i as int].1@));
            assert(places(paths@) =~= prefixes(self@).take(i + 1));
            i = i + 1;
        }
        assert(places(paths@) =~= prefixes(self@));
        Arg::PathList { flag: "-DCMAKE_PREFIX_PATH=".to_string(), paths }
    }

    /// The library directories of the dependencies, in order.
    pub fn lib_dirs(&self) -> (dirs: Vec<Location>)
        ensures
            places(dirs@) == lib_directories(self@),
    {
        let mut dirs: Vec<Location> = Vec::new();
        let mut i: usize = 0;
        while i < self.entries.len()
            invariant
                i <= self.entries@.len(),
                places(dirs@) == lib_directories(self@).take(i as int),
            decreases self.entries@.len() - i,
        {
            let ghost sofar = places(dirs@);
            dirs.push(self.entries[i].1.join("lib"));
            assert(places(dirs@) =~= sofar.push(self.entries@[i as int].1@.join("lib"@)));
            assert(places(dirs@) =~= lib_directories(self@).take(i + 1));
            i = i + 1;
        }
        assert(places(dirs@) =~= lib_directories(self@));
        dirs
    }
}

/// Where the dependencies are is told in their order, one place each: their prefixes to
/// CMake, and their library directories to the caller.
pub proof fn law_dependencies_are_told_in_order(deps: Seq<(Seq<char>, LocationView)>)
    ensures
        prefixes(deps).len() == deps.len(),
        lib_directories(deps).len() == deps.len(),
        forall|i: int| 0 <= i < deps.len() ==> #[trigger] prefixes(deps)[i] == deps[i].1,
        forall|i: int|
            0 <= i < deps.len() ==> #[trigger] lib_directories(deps)[i] == deps[i].1.join("lib"@),
{
}

} // verus!
