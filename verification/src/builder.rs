//! The whole build, from an empty output directory to an installed librnp.

use vstd::prelude::*;

use crate::botan::{botan_steps, build_botan};
use crate::bzip2::{build_bzip2, bzip2_steps};
use crate::cmake::{cmake_dep_build, dep_steps};
use crate::flavor::Flavor;
use crate::host::{Host, HostView};
use crate::librnp::{build_librnp, librnp_steps};
use crate::links::{lib_directories, prefixes, CmakeDep, CmakeDepView, Deps};
use crate::location::{places, Location, LocationView, Root};
use crate::plan::{guarded, Plan, Step, StepView};

verus! {

/// Where a build leaves what it installs.
#[derive(Debug)]
pub struct Installed {
    /// The directory with `librnp.a` and `libsexpp.a`.
    pub lib_dir: Location,
    /// The directory with `rnp/rnp.h` and its like.
    pub include_dir: Location,
    /// `"0.18.1"` or `"head"`: the librnp source that was built.
    pub librnp_version: String,
    /// The flavor that was built.
    pub flavor: Flavor,
    /// The library directories of the dependencies.
    pub dep_lib_dirs: Vec<Location>,
}

/// The model of an [`Installed`].
#[verifier::ext_equal]
pub struct InstalledView {
    pub lib_dir: LocationView,
    pub include_dir: LocationView,
    pub librnp_version: Seq<char>,
    pub flavor: Flavor,
    pub dep_lib_dirs: Seq<LocationView>,
}

impl View for Installed {
    type V = InstalledView;

    open spec fn view(&self) -> InstalledView {
        InstalledView {
            lib_dir: self.lib_dir@,
            include_dir: self.include_dir@,
            librnp_version: self.librnp_version@,
            flavor: self.flavor,
            dep_lib_dirs: places(self.dep_lib_dirs@),
        }
    }
}

impl Clone for Installed {
    fn clone(&self) -> (copy: Self)
        ensures
            copy@ == self@,
    {
        let mut dirs: Vec<Location> = Vec::new();
        let mut i: usize = 0;
        while i < self.dep_lib_dirs.len()
            invariant
                i <= self.dep_lib_dirs@.len(),
                places(dirs@) == places(self.dep_lib_dirs@).take(i as int),
            decreases self.dep_lib_dirs@.len() - i,
        {
            let ghost sofar = places(dirs@);
            dirs.push(self.dep_lib_dirs[i].clone());
            assert(places(dirs@) =~= sofar.push(self.dep_lib_dirs@[i as int]@));
            assert(places(dirs@) =~= places(self.dep_lib_dirs@).take(i + 1));
            i = i + 1;
        }
        assert(places(dirs@) =~= places(self.dep_lib_dirs@));
        Installed {
            lib_dir: self.lib_dir.clone(),
            include_dir: self.include_dir.clone(),
            librnp_version: self.librnp_version.clone(),
            flavor: self.flavor,
            dep_lib_dirs: dirs,
        }
    }
}

/// Where sources are unpacked and built.
pub open spec fn source_root() -> LocationView {
    LocationView::root(Root::OutDir).join("src"@)
}

/// Where everything is installed.
pub open spec fn install_root() -> LocationView {
    LocationView::root(Root::OutDir).join("install"@)
}

/// Where librnp is installed.
pub open spec fn librnp_prefix(flavor: Flavor) -> LocationView {
    install_root().join(flavor.cache_name())
}

/// The dependencies of a flavor: names and prefixes, in order.
pub open spec fn dependencies(flavor: Flavor) -> Seq<(Seq<char>, LocationView)> {
    seq![("botan"@, install_root().join("botan"@))] + (if flavor == Flavor::Release0181B1 {
        seq![("jsonc"@, install_root().join("json-c"@))]
    } else {
        seq![]
    }) + seq![
        ("zlib"@, install_root().join("zlib"@)),
        ("bzip2"@, install_root().join("bzip2"@)),
    ]
}

/// The static library called `name` that is installed in `prefix`.
pub open spec fn library(prefix: LocationView, name: Seq<char>) -> LocationView {
    prefix.join("lib"@).join(name)
}

/// What is done in every build: the directories, the variables and Botan.
pub open spec fn opening_steps(host: HostView) -> Seq<StepView> {
    seq![StepView::CreateDirs(source_root()), StepView::CreateDirs(install_root())]
        + host.environment() + botan_steps(host, install_root())
}

/// The part for json-c, of a flavor that needs it.
pub open spec fn json_c_part(host: HostView, json_c: CmakeDepView) -> Seq<StepView> {
    let prefix = install_root().join("json-c"@);
    if Flavor::of_features(host.features) == Flavor::Release0181B1 {
        guarded(
            library(prefix, "libjson-c.a"@),
            dep_steps(json_c, host, source_root(), prefix),
        )
    } else {
        seq![]
    }
}

/// The part for zlib.
pub open spec fn zlib_part(host: HostView, zlib: CmakeDepView) -> Seq<StepView> {
    let prefix = install_root().join("zlib"@);
    guarded(library(prefix, "libz.a"@), dep_steps(zlib, host, source_root(), prefix))
}

/// The part for bzip2.
pub open spec fn bzip2_part(host: HostView) -> Seq<StepView> {
    let prefix = install_root().join("bzip2"@);
    guarded(library(prefix, "libbz2.a"@), bzip2_steps(host, source_root(), prefix))
}

/// The part for librnp.
pub open spec fn librnp_part(host: HostView) -> Seq<StepView> {
    let flavor = Flavor::of_features(host.features);
    guarded(
        library(librnp_prefix(flavor), "librnp.a"@),
        librnp_steps(host, source_root(), librnp_prefix(flavor), prefixes(dependencies(flavor))),
    )
}

/// The steps of a build.
pub open spec fn build_steps(
    host: HostView,
    json_c: CmakeDepView,
    zlib: CmakeDepView,
) -> Seq<StepView> {
    opening_steps(host) + json_c_part(host, json_c) + zlib_part(host, zlib) + bzip2_part(host)
        + librnp_part(host)
}

/// The index of the step after the opening ones.
pub open spec fn json_c_index(host: HostView) -> int {
    opening_steps(host).len() as int
}

/// The index of zlib's condition.
pub open spec fn zlib_index(host: HostView, json_c: CmakeDepView) -> int {
    json_c_index(host) + json_c_part(host, json_c).len()
}

/// The index of bzip2's condition.
pub open spec fn bzip2_index(host: HostView, json_c: CmakeDepView, zlib: CmakeDepView) -> int {
    zlib_index(host, json_c) + zlib_part(host, zlib).len()
}

/// The index of librnp's condition.
pub open spec fn librnp_index(host: HostView, json_c: CmakeDepView, zlib: CmakeDepView) -> int {
    bzip2_index(host, json_c, zlib) + bzip2_part(host).len()
}

/// What a build of `flavor` installs, and where.
pub open spec fn installation(flavor: Flavor) -> InstalledView {
    InstalledView {
        lib_dir: librnp_prefix(flavor).join("lib"@),
        include_dir: librnp_prefix(flavor).join("include"@),
        librnp_version: flavor.version_name(),
        flavor,
        dep_lib_dirs: lib_directories(dependencies(flavor)),
    }
}

fn dependencies_of(flavor: Flavor, prefix: &Location) -> (deps: Deps)
    requires
        prefix@ == install_root(),
    ensures
        deps@ == dependencies(flavor),
{
    let mut deps: Deps = Deps::new();
    deps.push("botan", prefix.join("botan"));
    if flavor.needs_json_c() {
        deps.push("jsonc", prefix.join("json-c"));
    }
    deps.push("zlib", prefix.join("zlib"));
    deps.push("bzip2", prefix.join("bzip2"));
    assert(deps@ =~= dependencies(flavor));
    deps
}

/// Plans a build, with the given recipes for json-c and zlib: the steps, and what
/// is installed where once they are taken.
pub fn build(host: &Host, json_c: &CmakeDep, zlib: &CmakeDep) -> (result: (Plan, Installed))
    ensures
        result.0.wf(),
        result.0@ == build_steps(host@, json_c@, zlib@),
        result.1@ == installation(Flavor::of_features(host@.features)),
{
    let out_dir: Location = Location::at(Root::OutDir);
    let src_dir: Location = out_dir.join("src");
    let prefix: Location = out_dir.join("install");
    let mut plan: Plan = Plan::new();
    plan.push(Step::CreateDirs { path: src_dir.clone() });
    plan.push(Step::CreateDirs { path: prefix.clone() });
    plan.append(host.environment());
    plan.append(build_botan(host, &prefix));
    assert(plan@ =~= opening_steps(host@));

    let flavor: Flavor = Flavor::from_features(host.features);
    let jsonc_prefix: Location = prefix.join("json-c");
    if flavor.needs_json_c() {
        plan.guard(
            &jsonc_prefix.join("lib").join("libjson-c.a"),
            cmake_dep_build(json_c, host, &src_dir, &jsonc_prefix),
        );
    }
    assert(plan@ =~= opening_steps(host@) + json_c_part(host@, json_c@));
    let zlib_prefix: Location = prefix.join("zlib");
    plan.guard(
        &zlib_prefix.join("lib").join("libz.a"),
        cmake_dep_build(zlib, host, &src_dir, &zlib_prefix),
    );
    let bzip2_prefix: Location = prefix.join("bzip2");
    plan.guard(
        &bzip2_prefix.join("lib").join("libbz2.a"),
        build_bzip2(host, &src_dir, &bzip2_prefix),
    );
    let rnp_prefix: Location = prefix.join(flavor.cache_dir().as_str());
    let deps: Deps = dependencies_of(flavor, &prefix);
    plan.guard(
        &rnp_prefix.join("lib").join("librnp.a"),
        build_librnp(host, &src_dir, &rnp_prefix, &deps),
    );
    let installed: Installed = Installed {
        lib_dir: rnp_prefix.join("lib"),
        include_dir: rnp_prefix.join("include"),
        librnp_version: flavor.librnp_version().to_string(),
        flavor,
        dep_lib_dirs: deps.lib_dirs(),
    };
    (plan, installed)
}

} // verus!
