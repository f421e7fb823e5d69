//! What holds of every build.

use vstd::prelude::*;

use crate::botan::botan_steps;
use crate::builder::{
    build_steps, bzip2_index, bzip2_part, dependencies, install_root, installation, json_c_index,
    json_c_part, library, librnp_index, librnp_part, librnp_prefix, opening_steps, source_root,
    zlib_index, zlib_part,
};
use crate::bzip2::bzip2_steps;
use crate::cmake::dep_steps;
use crate::flavor::Flavor;
use crate::host::HostView;
use crate::librnp::librnp_steps;
use crate::links::{prefixes, CmakeDepView};
use crate::location::{LocationView, Root};
use crate::plan::{
    guarded, law_append_guarded, law_unconditional_steps_are_taken, lemma_well_nested_append,
    lemma_well_nested_guarded, part, taken, unconditional, well_nested, writes_below, written,
    StepView,
};

verus! {

/// Flavors never share installed files: their prefixes differ.
pub proof fn law_flavors_never_share_a_prefix(a: Flavor, b: Flavor)
    requires
        librnp_prefix(a) == librnp_prefix(b),
    ensures
        a == b,
{
    crate::location::law_join_is_injective(
        install_root(),
        a.cache_name(),
        install_root(),
        b.cache_name(),
    );
    crate::flavor::law_cache_names_never_collide(a, b);
}

/// A build of the upstream commit has no use for json-c: its steps do not depend on
/// the recipe, and json-c is not among its dependencies.
pub proof fn law_head_ignores_json_c(
    host: HostView,
    json_c: CmakeDepView,
    other: CmakeDepView,
    zlib: CmakeDepView,
)
    requires
        Flavor::of_features(host.features) == Flavor::Head,
    ensures
        build_steps(host, json_c, zlib) == build_steps(host, other, zlib),
        forall|i: int|
            0 <= i < dependencies(Flavor::Head).len() ==> (#[trigger] dependencies(
                Flavor::Head,
            )[i]).0 != "jsonc"@,
{
    reveal_strlit("jsonc");
    reveal_strlit("botan");
    reveal_strlit("zlib");
    reveal_strlit("bzip2");
    assert("botan"@[0] == 'b' && "zlib"@[0] == 'z' && "bzip2"@[0] == 'b' && "jsonc"@[0] == 'j');
}

/// The library directories that are reported are those of the prefixes that librnp
/// is configured with, one for one.
pub proof fn law_reported_libraries_are_the_linked_ones(flavor: Flavor)
    ensures
        installation(flavor).dep_lib_dirs.len() == prefixes(dependencies(flavor)).len(),
        forall|i: int|
            0 <= i < prefixes(dependencies(flavor)).len() ==> #[trigger] installation(
                flavor,
            ).dep_lib_dirs[i] == prefixes(dependencies(flavor))[i].join("lib"@),
{
}

proof fn lemma_opening(host: HostView)
    ensures
        unconditional(opening_steps(host)),
{
    let head = seq![StepView::CreateDirs(source_root()), StepView::CreateDirs(install_root())];
    assert(unconditional(head));
    assert(unconditional(host.environment()));
    assert(unconditional(botan_steps(host, install_root())));
    let list = opening_steps(host);
    let first = head + host.environment();
    assert forall|i: int| 0 <= i < list.len() implies !(#[trigger] list[i] is Unless) by {
        if i < head.len() {
            assert(list[i] == head[i]);
        } else if i < first.len() {
            assert(list[i] == host.environment()[i - head.len()]);
        } else {
            assert(list[i] == botan_steps(host, install_root())[i - first.len()]);
        }
    }
}

proof fn lemma_dep_steps(
    dep: CmakeDepView,
    host: HostView,
    src_root: LocationView,
    prefix: LocationView,
)
    ensures
        well_nested(dep_steps(dep, host, src_root, prefix)),
{
    let fetch = seq![StepView::Fetch(dep.url, src_root)];
    let source = src_root.join(dep.source_name);
    let list = dep_steps(dep, host, src_root, prefix);
    let rest = list.skip(2);
    lemma_well_nested_guarded(source, fetch);
    assert(well_nested(rest));
    assert(list =~= guarded(source, fetch) + rest);
    lemma_well_nested_append(guarded(source, fetch), rest);
}

proof fn lemma_bzip2_steps(host: HostView, src_dir: LocationView, prefix: LocationView)
    ensures
        well_nested(bzip2_steps(host, src_dir, prefix)),
{
    let source = crate::bzip2::bzip2_source(src_dir);
    let fetch = seq![StepView::Fetch(crate::bzip2::bzip2_url(), src_dir)];
    let list = bzip2_steps(host, src_dir, prefix);
    let rest = list.skip(2);
    lemma_well_nested_guarded(source, fetch);
    assert(well_nested(rest));
    assert(list =~= guarded(source, fetch) + rest);
    lemma_well_nested_append(guarded(source, fetch), rest);
}

/// How a build depends on what it finds installed. The opening steps are taken in
/// any case. After them come, in this order, json-c where the flavor needs it, zlib,
/// bzip2 and librnp, each of them only where its static library is not there; so
/// librnp is never built before a dependency, and nothing that is installed is built
/// again.
pub proof fn law_build_takes_its_parts(
    host: HostView,
    json_c: CmakeDepView,
    zlib: CmakeDepView,
    found: spec_fn(int) -> bool,
)
    ensures
        ({
            let flavor = Flavor::of_features(host.features);
            taken(build_steps(host, json_c, zlib), found) == opening_steps(host) + (if flavor
                == Flavor::Release0181B1 {
                part(
                    dep_steps(json_c, host, source_root(), install_root().join("json-c"@)),
                    json_c_index(host),
                    found,
                )
            } else {
                seq![]
            }) + part(
                dep_steps(zlib, host, source_root(), install_root().join("zlib"@)),
                zlib_index(host, json_c),
                found,
            ) + part(
                bzip2_steps(host, source_root(), install_root().join("bzip2"@)),
                bzip2_index(host, json_c, zlib),
                found,
            ) + part(
                librnp_steps(
                    host,
                    source_root(),
                    librnp_prefix(flavor),
                    prefixes(dependencies(flavor)),
                ),
                librnp_index(host, json_c, zlib),
                found,
            )
        }),
{
    let flavor = Flavor::of_features(host.features);
    let start = opening_steps(host);
    lemma_opening(host);
    law_unconditional_steps_are_taken(start, found);

    let json_c_prefix = install_root().join("json-c"@);
    let json_c_body = dep_steps(json_c, host, source_root(), json_c_prefix);
    let after_json_c = start + json_c_part(host, json_c);
    lemma_dep_steps(json_c, host, source_root(), json_c_prefix);
    if flavor == Flavor::Release0181B1 {
        law_append_guarded(start, library(json_c_prefix, "libjson-c.a"@), json_c_body, found);
        lemma_well_nested_guarded(library(json_c_prefix, "libjson-c.a"@), json_c_body);
        lemma_well_nested_append(start, json_c_part(host, json_c));
    } else {
        assert(after_json_c =~= start);
        assert(start + Seq::<StepView>::empty() =~= start);
    }

    let zlib_prefix = install_root().join("zlib"@);
    let zlib_body = dep_steps(zlib, host, source_root(), zlib_prefix);
    let after_zlib = after_json_c + zlib_part(host, zlib);
    lemma_dep_steps(zlib, host, source_root(), zlib_prefix);
    law_append_guarded(after_json_c, library(zlib_prefix, "libz.a"@), zlib_body, found);
    lemma_well_nested_guarded(library(zlib_prefix, "libz.a"@), zlib_body);
    lemma_well_nested_append(after_json_c, zlib_part(host, zlib));

    let bzip2_prefix = install_root().join("bzip2"@);
    let bzip2_body = bzip2_steps(host, source_root(), bzip2_prefix);
    let after_bzip2 = after_zlib + bzip2_part(host);
    lemma_bzip2_steps(host, source_root(), bzip2_prefix);
    law_append_guarded(after_zlib, library(bzip2_prefix, "libbz2.a"@), bzip2_body, found);
    lemma_well_nested_guarded(library(bzip2_prefix, "libbz2.a"@), bzip2_body);
    lemma_well_nested_append(after_zlib, bzip2_part(host));

    law_append_guarded(
        after_bzip2,
        library(librnp_prefix(flavor), "librnp.a"@),
        librnp_steps(
            host,
            source_root(),
            librnp_prefix(flavor),
            prefixes(dependencies(flavor)),
        ),
        found,
    );
}

/// Where every static library is found installed, a build does nothing after its
/// opening steps.
pub proof fn law_cached_build_stops_after_botan(
    host: HostView,
    json_c: CmakeDepView,
    zlib: CmakeDepView,
    found: spec_fn(int) -> bool,
)
    requires
        Flavor::of_features(host.features) == Flavor::Release0181B1 ==> found(json_c_index(host)),
        found(zlib_index(host, json_c)),
        found(bzip2_index(host, json_c, zlib)),
        found(librnp_index(host, json_c, zlib)),
    ensures
        taken(build_steps(host, json_c, zlib), found) == opening_steps(host),
{
    law_build_takes_its_parts(host, json_c, zlib, found);
    assert(taken(build_steps(host, json_c, zlib), found) =~= opening_steps(host));
}

/// The conditions of a build ask for the static libraries that its parts install.
pub proof fn law_conditions_ask_for_the_libraries(
    host: HostView,
    json_c: CmakeDepView,
    zlib: CmakeDepView,
)
    ensures
        ({
            let list = build_steps(host, json_c, zlib);
            let flavor = Flavor::of_features(host.features);
            &&& flavor == Flavor::Release0181B1 ==> asks_for(
                list,
                json_c_index(host),
                library(install_root().join("json-c"@), "libjson-c.a"@),
            )
            &&& asks_for(
                list,
                zlib_index(host, json_c),
                library(install_root().join("zlib"@), "libz.a"@),
            )
            &&& asks_for(
                list,
                bzip2_index(host, json_c, zlib),
                library(install_root().join("bzip2"@), "libbz2.a"@),
            )
            &&& asks_for(
                list,
                librnp_index(host, json_c, zlib),
                library(librnp_prefix(flavor), "librnp.a"@),
            )
        }),
{
    let list = build_steps(host, json_c, zlib);
    if Flavor::of_features(host.features) == Flavor::Release0181B1 {
        assert(list[json_c_index(host)] == json_c_part(host, json_c)[0]);
    }
    assert(list[zlib_index(host, json_c)] == zlib_part(host, zlib)[0]);
    assert(list[bzip2_index(host, json_c, zlib)] == bzip2_part(host)[0]);
    assert(list[librnp_index(host, json_c, zlib)] == librnp_part(host)[0]);
}

/// The step at index `at` is a condition on `path`.
pub open spec fn asks_for(list: Seq<StepView>, at: int, path: LocationView) -> bool {
    &&& 0 <= at < list.len()
    &&& list[at] matches StepView::Unless(asked, _) && asked == path
}

proof fn lemma_writes_append(a: Seq<StepView>, b: Seq<StepView>)
    requires
        writes_below(a, source_root(), install_root()),
        writes_below(b, source_root(), install_root()),
    ensures
        writes_below(a + b, source_root(), install_root()),
{
    assert forall|i: int| 0 <= i < (a + b).len() implies match written(#[trigger] (a + b)[i]) {
        Some(path) => path.is_under(source_root()) || path.is_under(install_root()),
        None => true,
    } by {
        if i < a.len() {
            assert((a + b)[i] == a[i]);
        } else {
            assert((a + b)[i] == b[i - a.len()]);
        }
    }
}

proof fn lemma_writes_guarded(path: LocationView, body: Seq<StepView>)
    requires
        writes_below(body, source_root(), install_root()),
    ensures
        writes_below(guarded(path, body), source_root(), install_root()),
{
    let head = seq![StepView::Unless(path, body.len())];
    assert(writes_below(head, source_root(), install_root()));
    lemma_writes_append(head, body);
}

proof fn lemma_under(base: LocationView, ancestor: LocationView, name: Seq<char>)
    requires
        base.is_under(ancestor),
    ensures
        base.join(name).is_under(ancestor),
{
    assert(base.join(name).parts.subrange(0, ancestor.parts.len() as int)
        =~= base.parts.subrange(0, ancestor.parts.len() as int));
}

proof fn lemma_dep_writes(
    dep: CmakeDepView,
    host: HostView,
    prefix: LocationView,
)
    requires
        prefix.is_under(install_root()),
    ensures
        writes_below(
            dep_steps(dep, host, source_root(), prefix),
            source_root(),
            install_root(),
        ),
{
    let fetch = seq![StepView::Fetch(dep.url, source_root())];
    let source = source_root().join(dep.source_name);
    let list = dep_steps(dep, host, source_root(), prefix);
    let rest = list.skip(2);
    lemma_under(prefix, install_root(), "lib"@);
    assert(writes_below(fetch, source_root(), install_root()));
    lemma_writes_guarded(source, fetch);
    assert(writes_below(rest, source_root(), install_root()));
    assert(list =~= guarded(source, fetch) + rest);
    lemma_writes_append(guarded(source, fetch), rest);
}

proof fn lemma_bzip2_writes(host: HostView, prefix: LocationView)
    requires
        prefix.is_under(install_root()),
    ensures
        writes_below(bzip2_steps(host, source_root(), prefix), source_root(), install_root()),
{
    let source = crate::bzip2::bzip2_source(source_root());
    let fetch = seq![StepView::Fetch(crate::bzip2::bzip2_url(), source_root())];
    let list = bzip2_steps(host, source_root(), prefix);
    let rest = list.skip(2);
    lemma_under(source_root(), source_root(), "bzip2-"@ + crate::bzip2::BZIP2_VERSION@);
    lemma_under(source, source_root(), "bz_internal_error_shim.c"@);
    lemma_under(prefix, install_root(), "lib"@);
    lemma_under(prefix, install_root(), "include"@);
    lemma_under(prefix.join("lib"@), install_root(), "libbz2.a"@);
    lemma_under(prefix.join("include"@), install_root(), "bzlib.h"@);
    assert(writes_below(fetch, source_root(), install_root()));
    lemma_writes_guarded(source, fetch);
    assert(writes_below(rest, source_root(), install_root()));
    assert(list =~= guarded(source, fetch) + rest);
    lemma_writes_append(guarded(source, fetch), rest);
}

proof fn lemma_librnp_writes(
    host: HostView,
    prefix: LocationView,
    dep_prefixes: Seq<LocationView>,
)
    ensures
        writes_below(
            librnp_steps(host, source_root(), prefix, dep_prefixes),
            source_root(),
            install_root(),
        ),
{
    let release = crate::librnp::release_source(source_root());
    let clone = crate::librnp::head_source(source_root());
    lemma_under(source_root(), source_root(), "rnp-v"@ + crate::flavor::RNP_VERSION@);
    lemma_under(release, source_root(), ".rnp-backports-b1"@);
    lemma_under(source_root(), source_root(), "rnp-head"@);
    lemma_under(clone, source_root(), "src/lib/crypto"@);

    let fetch = seq![StepView::Fetch(crate::librnp::release_url(), source_root())];
    assert(writes_below(fetch, source_root(), install_root()));
    lemma_writes_guarded(release, fetch);
    let backport = crate::librnp::backport_steps(release).skip(1);
    assert(writes_below(backport, source_root(), install_root()));
    assert(crate::librnp::backport_steps(release) =~= guarded(
        release.join(".rnp-backports-b1"@),
        backport,
    ));
    lemma_writes_guarded(release.join(".rnp-backports-b1"@), backport);
    lemma_writes_append(guarded(release, fetch), crate::librnp::backport_steps(release));

    assert(writes_below(
        crate::librnp::head_steps(source_root()),
        source_root(),
        install_root(),
    ));

    let list = librnp_steps(host, source_root(), prefix, dep_prefixes);
    let source = crate::librnp::source_steps(Flavor::of_features(host.features), source_root());
    let rest = list.skip(source.len() as int);
    assert(writes_below(rest, source_root(), install_root()));
    assert(list =~= source + rest);
    lemma_writes_append(source, rest);
}

proof fn lemma_opening_writes(host: HostView)
    ensures
        writes_below(opening_steps(host), source_root(), install_root()),
{
    let botan = install_root().join("botan"@);
    lemma_under(install_root(), install_root(), "botan"@);
    lemma_under(botan, install_root(), "lib"@);
    lemma_under(botan, install_root(), "include"@);
    lemma_under(botan.join("lib"@), install_root(), "libbotan-3.a"@);
    lemma_under(botan.join("include"@), install_root(), "botan-3"@);
    lemma_under(botan.join("lib"@), install_root(), "cmake"@);
    let cmake = botan.join("lib"@).join("cmake"@);
    let dir = crate::botan::cmake_directory(botan);
    lemma_under(cmake, install_root(), "Botan-"@ + crate::outside::botan_release());
    lemma_under(dir, install_root(), "BotanConfig.cmake"@);
    lemma_under(dir, install_root(), "BotanConfigVersion.cmake"@);
    assert(writes_below(botan_steps(host, install_root()), source_root(), install_root()));
    assert(writes_below(host.environment(), source_root(), install_root()));
    let head = seq![StepView::CreateDirs(source_root()), StepView::CreateDirs(install_root())];
    assert(writes_below(head, source_root(), install_root()));
    lemma_writes_append(head, host.environment());
    lemma_writes_append(head + host.environment(), botan_steps(host, install_root()));
}

/// A build's own steps write nowhere but below the source and install directories of
/// the output directory.
pub proof fn law_build_writes_below_its_directories(
    host: HostView,
    json_c: CmakeDepView,
    zlib: CmakeDepView,
)
    ensures
        writes_below(build_steps(host, json_c, zlib), source_root(), install_root()),
{
    let flavor = Flavor::of_features(host.features);
    let json_c_prefix = install_root().join("json-c"@);
    let zlib_prefix = install_root().join("zlib"@);
    let bzip2_prefix = install_root().join("bzip2"@);
    lemma_under(install_root(), install_root(), "json-c"@);
    lemma_under(install_root(), install_root(), "zlib"@);
    lemma_under(install_root(), install_root(), "bzip2"@);
    lemma_opening_writes(host);
    lemma_dep_writes(json_c, host, json_c_prefix);
    lemma_writes_guarded(
        library(json_c_prefix, "libjson-c.a"@),
        dep_steps(json_c, host, source_root(), json_c_prefix),
    );
    lemma_writes_append(opening_steps(host), json_c_part(host, json_c));
    lemma_dep_writes(zlib, host, zlib_prefix);
    lemma_writes_guarded(
        library(zlib_prefix, "libz.a"@),
        dep_steps(zlib, host, source_root(), zlib_prefix),
    );
    lemma_writes_append(
        opening_steps(host) + json_c_part(host, json_c),
        zlib_part(host, zlib),
    );
    lemma_bzip2_writes(host, bzip2_prefix);
    lemma_writes_guarded(
        library(bzip2_prefix, "libbz2.a"@),
        bzip2_steps(host, source_root(), bzip2_prefix),
    );
    lemma_writes_append(
        opening_steps(host) + json_c_part(host, json_c) + zlib_part(host, zlib),
        bzip2_part(host),
    );
    let dep_prefixes = prefixes(dependencies(flavor));
    lemma_librnp_writes(host, librnp_prefix(flavor), dep_prefixes);
    lemma_writes_guarded(
        library(librnp_prefix(flavor), "librnp.a"@),
        librnp_steps(host, source_root(), librnp_prefix(flavor), dep_prefixes),
    );
    lemma_writes_append(
        opening_steps(host) + json_c_part(host, json_c) + zlib_part(host, zlib) + bzip2_part(host),
        librnp_part(host),
    );
}

/// The index of the step that builds Botan.
pub open spec fn botan_index(host: HostView) -> int {
    host.environment().len() as int + 4
}

/// Botan is built, in every build, before anything of its build directory is used:
/// the steps before it only set variables and create directories below the output
/// directory.
pub proof fn law_botan_is_built_before_it_is_used(
    host: HostView,
    json_c: CmakeDepView,
    zlib: CmakeDepView,
)
    ensures
        0 <= botan_index(host) < opening_steps(host).len(),
        build_steps(host, json_c, zlib)[botan_index(host)] == StepView::BuildBotan,
        forall|i: int|
            0 <= i < botan_index(host) ==> match #[trigger] build_steps(host, json_c, zlib)[i] {
                StepView::SetEnv(_, _) => true,
                StepView::CreateDirs(path) => path.root == Root::OutDir,
                _ => false,
            },
{
    let list = build_steps(host, json_c, zlib);
    let opening = opening_steps(host);
    let head = seq![StepView::CreateDirs(source_root()), StepView::CreateDirs(install_root())];
    let staging = botan_steps(host, install_root());
    let first = head + host.environment();
    assert(opening == first + staging);
    assert forall|i: int| 0 <= i < opening.len() implies #[trigger] list[i] == opening[i] by {}
    assert(list[botan_index(host)] == staging[2]);
    assert forall|i: int| 0 <= i < botan_index(host) implies match #[trigger] list[i] {
        StepView::SetEnv(_, _) => true,
        StepView::CreateDirs(path) => path.root == Root::OutDir,
        _ => false,
    } by {
        assert(list[i] == opening[i]);
        if i < head.len() {
            assert(list[i] == head[i]);
        } else if i < first.len() {
            assert(list[i] == host.environment()[i - head.len()]);
        } else {
            assert(list[i] == staging[i - first.len()]);
        }
    }
}

/// What a build reports is where its last condition looks: librnp is built exactly
/// where its static library is not in the reported directory.
pub proof fn law_reported_directory_is_the_one_asked_for(flavor: Flavor)
    ensures
        library(librnp_prefix(flavor), "librnp.a"@) == installation(flavor).lib_dir.join(
            "librnp.a"@,
        ),
{
}

/// Every build opens the same way: its two directories are created below the output
/// directory, the variables are set that the host calls for, and Botan is built and
/// staged, all of it before anything else.
pub proof fn law_every_build_opens_with_botan(
    host: HostView,
    json_c: CmakeDepView,
    zlib: CmakeDepView,
)
    ensures
        ({
            let list = build_steps(host, json_c, zlib);
            let out = LocationView { root: Root::OutDir, parts: seq![] };
            let set = host.environment().len() as int;
            &&& list.len() >= 11 + set
            &&& list[0] == StepView::CreateDirs(out.join("src"@))
            &&& list[1] == StepView::CreateDirs(out.join("install"@))
            &&& list.subrange(2, 2 + set) == host.environment()
            &&& list.subrange(2 + set, 11 + set) == botan_steps(host, out.join("install"@))
        }),
{
    let list = build_steps(host, json_c, zlib);
    let set = host.environment().len() as int;
    let out = LocationView { root: Root::OutDir, parts: seq![] };
    assert(LocationView::root(Root::OutDir) =~= out);
    crate::botan::law_botan_is_staged_as_a_package(host, install_root());
    let opening = opening_steps(host);
    assert forall|i: int| 0 <= i < opening.len() implies #[trigger] list[i] == opening[i] by {}
    assert(list[0] == opening[0] && list[1] == opening[1]);
    assert(list.subrange(2, 2 + set) =~= host.environment());
    assert(list.subrange(2 + set, 11 + set) =~= botan_steps(host, install_root()));
}

/// A build leaves librnp in a directory of its flavor, reports the version and the
/// flavor that it built, and links Botan, zlib and bzip2, and json-c exactly for the
/// release, each from a directory of its own.
pub proof fn law_build_reports_what_it_installs(flavor: Flavor)
    ensures
        ({
            let install = LocationView { root: Root::OutDir, parts: seq!["install"@] };
            let deps = dependencies(flavor);
            let released = flavor == Flavor::Release0181B1;
            &&& installation(flavor).lib_dir == install.join(flavor.cache_name()).join("lib"@)
            &&& installation(flavor).include_dir == install.join(flavor.cache_name()).join(
                "include"@,
            )
            &&& installation(flavor).flavor == flavor
            &&& installation(flavor).librnp_version == (if released {
                "0.18.1"@
            } else {
                "head"@
            })
            &&& deps.len() == (if released {
                4int
            } else {
                3int
            })
            &&& deps[0] == ("botan"@, install.join("botan"@))
            &&& released ==> deps[1] == ("jsonc"@, install.join("json-c"@))
            &&& deps[deps.len() - 2] == ("zlib"@, install.join("zlib"@))
            &&& deps[deps.len() - 1] == ("bzip2"@, install.join("bzip2"@))
        }),
{
    let install = LocationView { root: Root::OutDir, parts: seq!["install"@] };
    assert(install_root() =~= install);
}

/// The conditions of a build ask for these files, whatever the host and the recipes: the
/// static library that each part installs.
pub proof fn law_parts_are_skipped_by_their_libraries(
    host: HostView,
    json_c: CmakeDepView,
    zlib: CmakeDepView,
)
    ensures
        ({
            let list = build_steps(host, json_c, zlib);
            let install = LocationView { root: Root::OutDir, parts: seq!["install"@] };
            let start = 11 + host.environment().len() as int;
            let released = !host.features.pqc && !host.features.crypto_refresh;
            let after: int = if released {
                start + 7
            } else {
                start
            };
            let flavor = Flavor::of_features(host.features);
            &&& released ==> list[start] == StepView::Unless(
                install.join("json-c"@).join("lib"@).join("libjson-c.a"@),
                6,
            )
            &&& list[after] == StepView::Unless(
                install.join("zlib"@).join("lib"@).join("libz.a"@),
                6,
            )
            &&& list[after + 7] == StepView::Unless(
                install.join("bzip2"@).join("lib"@).join("libbz2.a"@),
                10,
            )
            &&& list[after + 18] == StepView::Unless(
                install.join(flavor.cache_name()).join("lib"@).join("librnp.a"@),
                (list.len() - after - 19) as nat,
            )
        }),
{
    let list = build_steps(host, json_c, zlib);
    let install = LocationView { root: Root::OutDir, parts: seq!["install"@] };
    assert(install_root() =~= install);
    crate::botan::law_botan_is_staged_as_a_package(host, install_root());
    let zlib_prefix = install_root().join("zlib"@);
    let json_c_prefix = install_root().join("json-c"@);
    let bzip2_prefix = install_root().join("bzip2"@);
    crate::cmake::law_dependency_is_built_in_order(json_c, host, source_root(), json_c_prefix);
    crate::cmake::law_dependency_is_built_in_order(zlib, host, source_root(), zlib_prefix);
    crate::bzip2::law_bzip2_is_completed_and_installed(host, source_root(), bzip2_prefix);
    law_conditions_ask_for_the_libraries(host, json_c, zlib);
    assert(opening_steps(host).len() == 11 + host.environment().len());
    if Flavor::of_features(host.features) == Flavor::Release0181B1 {
        assert(list[json_c_index(host)] == json_c_part(host, json_c)[0]);
    }
    assert(list[zlib_index(host, json_c)] == zlib_part(host, zlib)[0]);
    assert(list[bzip2_index(host, json_c, zlib)] == bzip2_part(host)[0]);
    assert(list[librnp_index(host, json_c, zlib)] == librnp_part(host)[0]);
}

} // verus!
