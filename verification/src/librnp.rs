//! Building librnp.

use vstd::prelude::*;

use crate::command::{ArgView, Command, CommandView};
use crate::flavor::{Flavor, RNP_HEAD_REF, RNP_VERSION};
use crate::host::{joined, Host, HostView, Os};
use crate::links::{prefixes, Deps};
use crate::location::{Location, LocationView};
use crate::plan::{
    guarded, law_append_guarded, law_append_takes_both, law_unconditional_steps_are_taken,
    lemma_well_nested_guarded, part, taken, unconditional, Plan, Step, StepView,
};
use crate::words::words;

verus! {

/// The directory that the release tarball unpacks to.
pub open spec fn release_source(src_dir: LocationView) -> LocationView {
    src_dir.join("rnp-v"@ + RNP_VERSION@)
}

/// The address of the release tarball.
pub open spec fn release_url() -> Seq<char> {
    "https://github.com/rnpgp/rnp/releases/download/v"@ + RNP_VERSION@ + "/rnp-v"@ + RNP_VERSION@
        + ".tar.gz"@
}

/// The clone of the upstream repository.
pub open spec fn head_source(src_dir: LocationView) -> LocationView {
    src_dir.join("rnp-head"@)
}

/// The source tree that a flavor is built from.
pub open spec fn flavor_source(flavor: Flavor, src_dir: LocationView) -> LocationView {
    match flavor {
        Flavor::Release0181B1 => release_source(src_dir),
        Flavor::Head => head_source(src_dir),
    }
}

/// The command that applies the backport patch in `source`.
pub open spec fn patch_command(source: LocationView) -> CommandView {
    CommandView {
        program: "patch"@,
        args: seq![
            ArgView::Text("-p1"@),
            ArgView::Text("--batch"@),
            ArgView::Text("--forward"@),
        ],
        dir: Some(source),
        label: "patch"@,
    }
}

/// The steps that patch a release tree, unless its stamp says that it is patched.
pub open spec fn backport_steps(source: LocationView) -> Seq<StepView> {
    let stamp = source.join(".rnp-backports-b1"@);
    guarded(
        stamp,
        seq![
            StepView::ApplyPatch(patch_command(source)),
            StepView::Write(stamp, "applied\n"@, "write backport stamp"@),
        ],
    )
}

/// The steps that bring the patched release tree below `src_dir`.
pub open spec fn release_steps(src_dir: LocationView) -> Seq<StepView> {
    let source = release_source(src_dir);
    guarded(source, seq![StepView::Fetch(release_url(), src_dir)]) + backport_steps(source)
}

/// The command that clones the upstream repository to `clone`.
pub open spec fn clone_command(clone: LocationView) -> CommandView {
    CommandView {
        program: "git"@,
        args: seq![
            ArgView::Text("clone"@),
            ArgView::Text("--depth"@),
            ArgView::Text("1"@),
            ArgView::Text("--recurse-submodules"@),
            ArgView::Text("https://github.com/rnpgp/rnp.git"@),
            ArgView::Path(""@, clone),
        ],
        dir: None,
        label: "git clone librnp"@,
    }
}

/// A git command on `clone`.
pub open spec fn git_command(
    clone: LocationView,
    args: Seq<ArgView>,
    label: Seq<char>,
) -> CommandView {
    CommandView {
        program: "git"@,
        args: seq![ArgView::Text("-C"@), ArgView::Path(""@, clone)] + args,
        dir: None,
        label,
    }
}

/// The steps that bring the pinned upstream commit below `src_dir`: the clone is
/// made where it is not there, and moved to the pin in any case.
pub open spec fn head_steps(src_dir: LocationView) -> Seq<StepView> {
    let clone = head_source(src_dir);
    guarded(clone, seq![StepView::Run(clone_command(clone))]) + seq![
        StepView::Run(
            git_command(
                clone,
                seq![
                    ArgView::Text("fetch"@),
                    ArgView::Text("--depth"@),
                    ArgView::Text("1"@),
                    ArgView::Text("origin"@),
                    ArgView::Text(RNP_HEAD_REF@),
                ],
                "git fetch pinned librnp commit"@,
            ),
        ),
        StepView::Run(
            git_command(
                clone,
                seq![
                    ArgView::Text("checkout"@),
                    ArgView::Text("--force"@),
                    ArgView::Text("--detach"@),
                    ArgView::Text(RNP_HEAD_REF@),
                ],
                "git checkout pinned librnp commit"@,
            ),
        ),
        StepView::Run(
            git_command(
                clone,
                seq![
                    ArgView::Text("submodule"@),
                    ArgView::Text("sync"@),
                    ArgView::Text("--recursive"@),
                ],
                "git submodule sync"@,
            ),
        ),
        StepView::Run(
            git_command(
                clone,
                seq![
                    ArgView::Text("submodule"@),
                    ArgView::Text("update"@),
                    ArgView::Text("--init"@),
                    ArgView::Text("--recursive"@),
                ],
                "git submodule update"@,
            ),
        ),
        StepView::PatchIncludes(clone.join("src/lib/crypto"@)),
    ]
}

/// The steps that bring a flavor's source tree below `src_dir`.
pub open spec fn source_steps(flavor: Flavor, src_dir: LocationView) -> Seq<StepView> {
    match flavor {
        Flavor::Release0181B1 => release_steps(src_dir),
        Flavor::Head => head_steps(src_dir),
    }
}

/// The compilers that CMake is told to use, unless a toolchain file says.
pub open spec fn compiler_args(host: HostView) -> Seq<ArgView> {
    if host.names_toolchain() {
        seq![]
    } else if host.os == Os::MacOs {
        seq![
            ArgView::Text("-DCMAKE_C_COMPILER="@ + "/usr/bin/clang"@),
            ArgView::Text("-DCMAKE_CXX_COMPILER="@ + "/usr/bin/clang++"@),
        ]
    } else {
        seq![
            ArgView::Text("-DCMAKE_C_COMPILER="@ + "gcc"@),
            ArgView::Text("-DCMAKE_CXX_COMPILER="@ + "g++"@),
        ]
    }
}

/// The arguments that are always the same.
pub open spec fn fixed_args() -> Seq<ArgView> {
    seq![
        ArgView::Text("-DCRYPTO_BACKEND=botan3"@),
        ArgView::Text("-DBUILD_SHARED_LIBS=OFF"@),
        ArgView::Text("-DBUILD_TESTING=OFF"@),
        ArgView::Text("-DENABLE_DOC=OFF"@),
        ArgView::Text("-DCMAKE_BUILD_TYPE=Release"@),
        ArgView::Text("-DCMAKE_CXX_FLAGS=-include cstring"@),
    ]
}

/// The arguments that depend on the chosen features and the platform.
pub open spec fn feature_args(host: HostView) -> Seq<ArgView> {
    (if host.features.pqc {
        seq![ArgView::Text("-DENABLE_PQC=ON"@)]
    } else {
        seq![]
    }) + (if host.features.crypto_refresh {
        seq![ArgView::Text("-DENABLE_CRYPTO_REFRESH=ON"@)]
    } else {
        seq![]
    }) + (match host.os {
        Os::MacOs => seq![ArgView::Text("-DCMAKE_OSX_DEPLOYMENT_TARGET=11.0"@)],
        Os::Windows => seq![
            ArgView::Text("-DCMAKE_CXX_STANDARD_LIBRARIES=-lws2_32 -lcrypt32"@),
        ],
        Os::Other => seq![],
    })
}

/// The command that configures librnp in `source` for installation in `prefix`,
/// with the dependencies installed in `dep_prefixes`.
pub open spec fn configure_command(
    host: HostView,
    source: LocationView,
    build_dir: LocationView,
    prefix: LocationView,
    dep_prefixes: Seq<LocationView>,
) -> CommandView {
    CommandView {
        program: "cmake"@,
        args: seq![
            ArgView::Text("-S"@),
            ArgView::Path(""@, source),
            ArgView::Text("-B"@),
            ArgView::Path(""@, build_dir),
        ] + compiler_args(host) + fixed_args() + seq![
            ArgView::PathList("-DCMAKE_PREFIX_PATH="@, dep_prefixes),
            ArgView::Path("-DCMAKE_INSTALL_PREFIX="@, prefix),
            ArgView::Text("-DCMAKE_POLICY_VERSION_MINIMUM=3.5"@),
        ] + host.cross_passthrough() + feature_args(host),
        dir: None,
        label: "librnp cmake"@,
    }
}

/// The command that builds the library, and only it, in `build_dir`.
pub open spec fn build_command(host: HostView, build_dir: LocationView) -> CommandView {
    CommandView {
        program: "cmake"@,
        args: seq![
            ArgView::Text("--build"@),
            ArgView::Path(""@, build_dir),
            ArgView::Text("--target"@),
            ArgView::Text("librnp"@),
            ArgView::Text("--parallel"@),
            ArgView::Text(host.jobs),
        ],
        dir: None,
        label: "librnp build"@,
    }
}

/// The command that installs the library and its headers from `build_dir`.
pub open spec fn install_command(build_dir: LocationView) -> CommandView {
    CommandView {
        program: "cmake"@,
        args: seq![
            ArgView::Text("--install"@),
            ArgView::Path(""@, build_dir),
            ArgView::Text("--component"@),
            ArgView::Text("development"@),
        ],
        dir: None,
        label: "librnp install"@,
    }
}

/// The steps that bring librnp to `prefix`.
pub open spec fn librnp_steps(
    host: HostView,
    src_dir: LocationView,
    prefix: LocationView,
    dep_prefixes: Seq<LocationView>,
) -> Seq<StepView> {
    let flavor = Flavor::of_features(host.features);
    let build_dir = src_dir.join("rnp-build"@);
    source_steps(flavor, src_dir) + seq![
        StepView::Run(
            configure_command(
                host,
                flavor_source(flavor, src_dir),
                build_dir,
                prefix,
                dep_prefixes,
            ),
        ),
        StepView::Run(build_command(host, build_dir)),
        StepView::Run(install_command(build_dir)),
    ]
}

/// How the program that applies the backport patch ended.
#[derive(Debug)]
pub enum PatchOutcome {
    Applied,
    /// It failed with this status.
    Failed(String),
    /// It could not be run, or not be given the patch, for this reason.
    NotRun(String),
}

/// What a failure to apply the backport patch is reported with.
pub open spec fn backport_failure(outcome: PatchOutcome) -> Option<Seq<char>> {
    match outcome {
        PatchOutcome::Applied => None,
        PatchOutcome::Failed(status) => Some(
            "rnp-src: backport patch failed with "@ + status@
                + ";              the extracted librnp "@
                + RNP_VERSION@ + " tree may be partially patched"@,
        ),
        PatchOutcome::NotRun(error) => Some(
            "rnp-src: failed to run `patch` (required to apply librnp backports): "@
                + error@
                + ".              Install patch (e.g. pacman -S patch on MSYS2, apt-get install patch on Debian)"@,
        ),
    }
}

/// Whether the backport patch is applied, or else the report of the failure.
pub fn check_backport(outcome: &PatchOutcome) -> (result: Result<(), String>)
    ensures
        match result {
            Ok(_) => backport_failure(*outcome) is None,
            Err(report) => backport_failure(*outcome) == Some(report@),
        },
{
    match outcome {
        PatchOutcome::Applied => Ok(()),
        PatchOutcome::Failed(status) => {
            let report: String = joined("rnp-src: backport patch failed with ", status.as_str());
            let report: String = joined(
                report.as_str(),
                ";              the extracted librnp ",
            );
            let report: String = joined(report.as_str(), RNP_VERSION);
            Err(joined(report.as_str(), " tree may be partially patched"))
        },
        PatchOutcome::NotRun(error) => {
            let report: String = joined(
                "rnp-src: failed to run `patch` (required to apply librnp backports): ",
                error.as_str(),
            );
            Err(
                joined(
                    report.as_str(),
                    ".              Install patch (e.g. pacman -S patch on MSYS2, apt-get install patch on Debian)",
                ),
            )
        },
    }
}

fn patch(source: &Location) -> (command: Command)
    ensures
        command@ == patch_command(source@),
{
    let mut command: Command = Command::new("patch", "patch");
    command.arg("-p1");
    command.arg("--batch");
    command.arg("--forward");
    command.current_dir(source);
    assert(command@ =~= patch_command(source@));
    command
}

/// The steps that patch the release tree `source`, unless it is patched.
pub fn apply_backports(source: &Location) -> (plan: Plan)
    ensures
        plan.wf(),
        plan@ == backport_steps(source@),
{
    let stamp: Location = source.join(".rnp-backports-b1");
    let mut body: Plan = Plan::new();
    body.push(Step::ApplyPatch { command: patch(source) });
    body.push(
        Step::Write {
            path: stamp.clone(),
            text: "applied\n".to_string(),
            failure: "write backport stamp".to_string(),
        },
    );
    assert(body@ =~= seq![
        StepView::ApplyPatch(patch_command(source@)),
        StepView::Write(stamp@, "applied\n"@, "write backport stamp"@),
    ]);
    let mut plan: Plan = Plan::new();
    plan.guard(&stamp, body);
    assert(plan@ =~= backport_steps(source@));
    plan
}

/// The steps that bring the patched release tree below `src_dir`, and the tree.
pub fn prepare_librnp_release(src_dir: &Location) -> (prepared: (Plan, Location))
    ensures
        prepared.0.wf(),
        prepared.0@ == release_steps(src_dir@),
        prepared.1@ == release_source(src_dir@),
{
    let source: Location = src_dir.join(joined("rnp-v", RNP_VERSION).as_str());
    let url: String = joined("https://github.com/rnpgp/rnp/releases/download/v", RNP_VERSION);
    let url: String = joined(url.as_str(), "/rnp-v");
    let url: String = joined(url.as_str(), RNP_VERSION);
    let url: String = joined(url.as_str(), ".tar.gz");
    let mut fetch: Plan = Plan::new();
    fetch.push(Step::Fetch { url, into: src_dir.clone() });
    assert(fetch@ =~= seq![StepView::Fetch(release_url(), src_dir@)]);
    let mut plan: Plan = Plan::new();
    plan.guard(&source, fetch);
    plan.append(apply_backports(&source));
    assert(plan@ =~= release_steps(src_dir@));
    (plan, source)
}

fn git(clone: &Location, label: &str) -> (command: Command)
    ensures
        command@ == git_command(clone@, seq![], label@),
{
    let mut command: Command = Command::new("git", label);
    command.arg("-C");
    command.path("", clone);
    assert(command@ =~= git_command(clone@, seq![], label@));
    command
}

/// The steps that bring the pinned upstream commit below `src_dir`, and its tree.
pub fn prepare_librnp_head(src_dir: &Location) -> (prepared: (Plan, Location))
    ensures
        prepared.0.wf(),
        prepared.0@ == head_steps(src_dir@),
        prepared.1@ == head_source(src_dir@),
{
    let clone: Location = src_dir.join("rnp-head");
    let mut plan: Plan = Plan::new();

    let mut make_clone: Command = Command::new("git", "git clone librnp");
    make_clone.arg("clone");
    make_clone.arg("--depth");
    make_clone.arg("1");
    make_clone.arg("--recurse-submodules");
    make_clone.arg("https://github.com/rnpgp/rnp.git");
    make_clone.path("", &clone);
    assert(make_clone@ =~= clone_command(clone@));
    let mut body: Plan = Plan::new();
    body.push(Step::Run { command: make_clone });
    assert(body@ =~= seq![StepView::Run(clone_command(clone@))]);
    plan.guard(&clone, body);

    let mut fetch: Command = git(&clone, "git fetch pinned librnp commit");
    fetch.arg("fetch");
    fetch.arg("--depth");
    fetch.arg("1");
    fetch.arg("origin");
    fetch.arg(RNP_HEAD_REF);
    assert(StepView::Run(fetch@) =~= head_steps(src_dir@)[2]);
    plan.push(Step::Run { command: fetch });

    let mut checkout: Command = git(&clone, "git checkout pinned librnp commit");
    checkout.arg("checkout");
    checkout.arg("--force");
    checkout.arg("--detach");
    checkout.arg(RNP_HEAD_REF);
    assert(StepView::Run(checkout@) =~= head_steps(src_dir@)[3]);
    plan.push(Step::Run { command: checkout });

    let mut sync: Command = git(&clone, "git submodule sync");
    sync.arg("submodule");
    sync.arg("sync");
    sync.arg("--recursive");
    assert(StepView::Run(sync@) =~= head_steps(src_dir@)[4]);
    plan.push(Step::Run { command: sync });

    let mut update: Command = git(&clone, "git submodule update");
    update.arg("submodule");
    update.arg("update");
    update.arg("--init");
    update.arg("--recursive");
    assert(StepView::Run(update@) =~= head_steps(src_dir@)[5]);
    plan.push(Step::Run { command: update });

    plan.push(Step::PatchIncludes { dir: clone.join("src/lib/crypto") });
    assert(plan@ =~= head_steps(src_dir@));
    (plan, clone)
}

/// Appends the compilers to use, unless a toolchain file says.
fn push_compilers(host: &Host, command: &mut Command)
    ensures
        final(command)@ == old(command)@.with(compiler_args(host@)),
{
    let ghost before = command@;
    if !host.cross_toolchain_set() {
        match host.os {
            Os::MacOs => {
                command.arg(joined("-DCMAKE_C_COMPILER=", "/usr/bin/clang").as_str());
                command.arg(joined("-DCMAKE_CXX_COMPILER=", "/usr/bin/clang++").as_str());
            },
            _ => {
                command.arg(joined("-DCMAKE_C_COMPILER=", "gcc").as_str());
                command.arg(joined("-DCMAKE_CXX_COMPILER=", "g++").as_str());
            },
        }
    }
    assert(command@.args =~= before.args + compiler_args(host@));
}

/// Appends the arguments that depend on the features and the platform.
fn push_features(host: &Host, command: &mut Command)
    ensures
        final(command)@ == old(command)@.with(feature_args(host@)),
{
    let ghost before = command@;
    if host.features.pqc {
        command.arg("-DENABLE_PQC=ON");
    }
    if host.features.crypto_refresh {
        command.arg("-DENABLE_CRYPTO_REFRESH=ON");
    }
    match host.os {
        Os::MacOs => {
            command.arg("-DCMAKE_OSX_DEPLOYMENT_TARGET=11.0");
        },
        Os::Windows => {
            command.arg("-DCMAKE_CXX_STANDARD_LIBRARIES=-lws2_32 -lcrypt32");
        },
        Os::Other => {},
    }
    assert(command@.args =~= before.args + feature_args(host@));
}

/// Appends the arguments that are always the same.
fn push_fixed(command: &mut Command)
    ensures
        final(command)@ == old(command)@.with(fixed_args()),
{
    let ghost before = command@;
    command.arg("-DCRYPTO_BACKEND=botan3");
    command.arg("-DBUILD_SHARED_LIBS=OFF");
    command.arg("-DBUILD_TESTING=OFF");
    command.arg("-DENABLE_DOC=OFF");
    command.arg("-DCMAKE_BUILD_TYPE=Release");
    command.arg("-DCMAKE_CXX_FLAGS=-include cstring");
    assert(command@.args =~= before.args + fixed_args());
}

fn configure(
    host: &Host,
    source: &Location,
    build_dir: &Location,
    prefix: &Location,
    deps: &Deps,
) -> (command: Command)
    ensures
        command@ == configure_command(host@, source@, build_dir@, prefix@, prefixes(deps@)),
{
    let mut command: Command = Command::new("cmake", "librnp cmake");
    command.arg("-S");
    command.path("", source);
    command.arg("-B");
    command.path("", build_dir);
    push_compilers(host, &mut command);
    push_fixed(&mut command);
    command.push(deps.cmake_prefix_path());
    command.path("-DCMAKE_INSTALL_PREFIX=", prefix);
    command.arg("-DCMAKE_POLICY_VERSION_MINIMUM=3.5");
    host.append_cross_passthrough(&mut command);
    push_features(host, &mut command);
    assert(command@ =~= configure_command(
        host@,
        source@,
        build_dir@,
        prefix@,
        prefixes(deps@),
    ));
    command
}

fn build_library(host: &Host, build_dir: &Location) -> (command: Command)
    ensures
        command@ == build_command(host@, build_dir@),
{
    let mut command: Command = Command::new("cmake", "librnp build");
    command.arg("--build");
    command.path("", build_dir);
    command.arg("--target");
    command.arg("librnp");
    command.arg("--parallel");
    command.arg(host.jobs.as_str());
    assert(command@ =~= build_command(host@, build_dir@));
    command
}

fn install_library(build_dir: &Location) -> (command: Command)
    ensures
        command@ == install_command(build_dir@),
{
    let mut command: Command = Command::new("cmake", "librnp install");
    command.arg("--install");
    command.path("", build_dir);
    command.arg("--component");
    command.arg("development");
    assert(command@ =~= install_command(build_dir@));
    command
}

/// The steps that bring librnp to `prefix`, linked against `deps`.
pub fn build_librnp(host: &Host, src_dir: &Location, prefix: &Location, deps: &Deps) -> (plan: Plan)
    ensures
        plan.wf(),
        plan@ == librnp_steps(host@, src_dir@, prefix@, prefixes(deps@)),
{
    let flavor: Flavor = Flavor::from_features(host.features);
    let (prepared, source): (Plan, Location) = if flavor.is_head() {
        prepare_librnp_head(src_dir)
    } else {
        prepare_librnp_release(src_dir)
    };
    let build_dir: Location = src_dir.join("rnp-build");
    let mut plan: Plan = prepared;
    plan.push(Step::Run { command: configure(host, &source, &build_dir, prefix, deps) });
    plan.push(Step::Run { command: build_library(host, &build_dir) });
    plan.push(Step::Run { command: install_library(&build_dir) });
    assert(plan@ =~= librnp_steps(host@, src_dir@, prefix@, prefixes(deps@)));
    plan
}

/// A release tree is patched unless its stamp is there, whether the tree was fetched
/// just now or found: the two conditions are independent of each other. A tree with a
/// stamp is left alone.
pub proof fn law_release_is_patched_unless_stamped(
    src_dir: LocationView,
    found: spec_fn(int) -> bool,
)
    ensures
        taken(release_steps(src_dir), found) == part(
            seq![StepView::Fetch(release_url(), src_dir)],
            0,
            found,
        ) + part(
            seq![
                StepView::ApplyPatch(patch_command(release_source(src_dir))),
                StepView::Write(
                    release_source(src_dir).join(".rnp-backports-b1"@),
                    "applied\n"@,
                    "write backport stamp"@,
                ),
            ],
            2,
            found,
        ),
        found(2) ==> taken(release_steps(src_dir), found) == part(
            seq![StepView::Fetch(release_url(), src_dir)],
            0,
            found,
        ),
{
    let source = release_source(src_dir);
    let stamp = source.join(".rnp-backports-b1"@);
    let fetch = seq![StepView::Fetch(release_url(), src_dir)];
    let body = seq![
        StepView::ApplyPatch(patch_command(source)),
        StepView::Write(stamp, "applied\n"@, "write backport stamp"@),
    ];
    let nothing = Seq::<StepView>::empty();
    law_unconditional_steps_are_taken(fetch, found);
    lemma_well_nested_guarded(source, fetch);
    law_append_guarded(nothing, source, fetch, found);
    assert(nothing + guarded(source, fetch) =~= guarded(source, fetch));
    assert(taken(nothing, found) + part(fetch, 0, found) =~= part(fetch, 0, found));
    law_append_guarded(guarded(source, fetch), stamp, body, found);
    if found(2) {
        assert(part(fetch, 0, found) + part(body, 2, found) =~= part(fetch, 0, found));
    }
}

/// The clone of the upstream repository is moved to the pin, and its sources are
/// patched, in every build, whether the clone was made just now or found.
pub proof fn law_clone_is_moved_to_the_pin(src_dir: LocationView, found: spec_fn(int) -> bool)
    ensures
        taken(head_steps(src_dir), found) == part(
            seq![StepView::Run(clone_command(head_source(src_dir)))],
            0,
            found,
        ) + head_steps(src_dir).skip(2),
{
    let clone = head_source(src_dir);
    let body = seq![StepView::Run(clone_command(clone))];
    let list = head_steps(src_dir);
    let rest = list.skip(2);
    let nothing = Seq::<StepView>::empty();
    assert(list =~= guarded(clone, body) + rest);
    law_append_guarded(nothing, clone, body, found);
    assert(nothing + guarded(clone, body) =~= guarded(clone, body));
    assert(taken(nothing, found) + part(body, 0, found) =~= part(body, 0, found));
    law_unconditional_steps_are_taken(body, found);
    lemma_well_nested_guarded(clone, body);
    let shifted = |i: int| found(guarded(clone, body).len() + i);
    assert(unconditional(rest));
    law_unconditional_steps_are_taken(rest, shifted);
    law_append_takes_both(guarded(clone, body), rest, found);
}

/// A toolchain file owns the choice of compilers: librnp is configured with none of
/// the library's own where the caller named one.
pub proof fn law_toolchain_owns_the_compilers(host: HostView)
    ensures
        host.names_toolchain() <==> compiler_args(host).len() == 0,
{
}

/// What holds a list is what holds one of its two halves.
proof fn lemma_contains_either(a: Seq<ArgView>, b: Seq<ArgView>, arg: ArgView)
    ensures
        (a + b).contains(arg) <==> a.contains(arg) || b.contains(arg),
{
    if a.contains(arg) {
        let i = choose|i: int| 0 <= i < a.len() && a[i] == arg;
        assert((a + b)[i] == arg);
    }
    if b.contains(arg) {
        let i = choose|i: int| 0 <= i < b.len() && b[i] == arg;
        assert((a + b)[a.len() + i] == arg);
    }
    if (a + b).contains(arg) {
        let i = choose|i: int| 0 <= i < (a + b).len() && (a + b)[i] == arg;
        if i < a.len() {
            assert(a[i] == arg);
        } else {
            assert(b[i - a.len()] == arg);
        }
    }
}

/// Where an argument of the configure command can come from.
proof fn lemma_configure_contains(
    host: HostView,
    source: LocationView,
    build_dir: LocationView,
    prefix: LocationView,
    dep_prefixes: Seq<LocationView>,
    arg: ArgView,
)
    ensures
        configure_command(host, source, build_dir, prefix, dep_prefixes).args.contains(arg) <==> {
            ||| seq![
                ArgView::Text("-S"@),
                ArgView::Path(""@, source),
                ArgView::Text("-B"@),
                ArgView::Path(""@, build_dir),
            ].contains(arg)
            ||| compiler_args(host).contains(arg)
            ||| fixed_args().contains(arg)
            ||| seq![
                ArgView::PathList("-DCMAKE_PREFIX_PATH="@, dep_prefixes),
                ArgView::Path("-DCMAKE_INSTALL_PREFIX="@, prefix),
                ArgView::Text("-DCMAKE_POLICY_VERSION_MINIMUM=3.5"@),
            ].contains(arg)
            ||| host.cross_passthrough().contains(arg)
            ||| feature_args(host).contains(arg)
        },
{
    let a = seq![
        ArgView::Text("-S"@),
        ArgView::Path(""@, source),
        ArgView::Text("-B"@),
        ArgView::Path(""@, build_dir),
    ];
    let b = compiler_args(host);
    let c = fixed_args();
    let d = seq![
        ArgView::PathList("-DCMAKE_PREFIX_PATH="@, dep_prefixes),
        ArgView::Path("-DCMAKE_INSTALL_PREFIX="@, prefix),
        ArgView::Text("-DCMAKE_POLICY_VERSION_MINIMUM=3.5"@),
    ];
    let e = host.cross_passthrough();
    let f = feature_args(host);
    lemma_contains_either(a, b, arg);
    lemma_contains_either(a + b, c, arg);
    lemma_contains_either(a + b + c, d, arg);
    lemma_contains_either(a + b + c + d, e, arg);
    lemma_contains_either(a + b + c + d + e, f, arg);
}

/// What the caller hands on holds a text exactly where it is a word of the further
/// arguments or the toolchain file's.
proof fn lemma_passthrough_contains(host: HostView, text: Seq<char>)
    ensures
        host.cross_passthrough().contains(ArgView::Text(text)) <==> {
            ||| host.names_toolchain() && text == "-DCMAKE_TOOLCHAIN_FILE="@ + host.toolchain->0
            ||| host.cmake_args matches Some(args) && words(args).contains(text)
        },
{
    let list = host.cross_passthrough();
    let named: int = if host.names_toolchain() {
        1
    } else {
        0
    };
    if host.names_toolchain() {
        assert(list[0] == ArgView::Text("-DCMAKE_TOOLCHAIN_FILE="@ + host.toolchain->0));
    }
    match host.cmake_args {
        Some(args) => {
            let given = words(args);
            assert forall|i: int| 0 <= i < given.len() implies list[named + i] == ArgView::Text(
                #[trigger] given[i],
            ) by {}
            if given.contains(text) {
                let i = choose|i: int| 0 <= i < given.len() && given[i] == text;
                assert(list[named + i] == ArgView::Text(text));
            }
            if list.contains(ArgView::Text(text)) {
                let i = choose|i: int| 0 <= i < list.len() && list[i] == ArgView::Text(text);
                if i >= named {
                    assert(list[named + (i - named)] == ArgView::Text(given[i - named]));
                }
            }
        },
        None => {},
    }
}

/// The literals below, and those that they could be taken for, are different texts.
proof fn lemma_flags_differ(host: HostView)
    ensures
        forall|arg: ArgView| #[trigger]
            fixed_args().contains(arg) ==> arg != ArgView::Text("-DENABLE_PQC=ON"@) && arg
                != ArgView::Text("-DENABLE_CRYPTO_REFRESH=ON"@) && arg != ArgView::Text(
                "-DCMAKE_OSX_DEPLOYMENT_TARGET=11.0"@,
            ) && arg != ArgView::Text("-DCMAKE_CXX_STANDARD_LIBRARIES=-lws2_32 -lcrypt32"@),
        forall|arg: ArgView| #[trigger]
            compiler_args(host).contains(arg) ==> arg != ArgView::Text("-DENABLE_PQC=ON"@) && arg
                != ArgView::Text("-DENABLE_CRYPTO_REFRESH=ON"@) && arg != ArgView::Text(
                "-DCMAKE_OSX_DEPLOYMENT_TARGET=11.0"@,
            ) && arg != ArgView::Text("-DCMAKE_CXX_STANDARD_LIBRARIES=-lws2_32 -lcrypt32"@),
        "-DENABLE_PQC=ON"@.len() == 15,
        "-DENABLE_PQC=ON"@[2] == 'E',
        "-DENABLE_CRYPTO_REFRESH=ON"@.len() == 26,
        "-DENABLE_CRYPTO_REFRESH=ON"@[2] == 'E',
        "-DCMAKE_OSX_DEPLOYMENT_TARGET=11.0"@.len() == 34,
        "-DCMAKE_OSX_DEPLOYMENT_TARGET=11.0"@[8] == 'O',
        "-DCMAKE_CXX_STANDARD_LIBRARIES=-lws2_32 -lcrypt32"@.len() == 49,
        "-DCMAKE_CXX_STANDARD_LIBRARIES=-lws2_32 -lcrypt32"@[8] == 'C',
        "-DCMAKE_TOOLCHAIN_FILE="@.len() == 23,
        "-DCMAKE_TOOLCHAIN_FILE="@[2] == 'C',
        "-DCMAKE_TOOLCHAIN_FILE="@[8] == 'T',
        "-DCMAKE_POLICY_VERSION_MINIMUM=3.5"@[2] == 'C',
        "-DCMAKE_POLICY_VERSION_MINIMUM=3.5"@[8] == 'P',
        "-DCMAKE_POLICY_VERSION_MINIMUM=3.5"@.len() == 34,
        "-S"@.len() == 2,
        "-B"@.len() == 2,
{
    reveal_strlit("-S");
    reveal_strlit("-B");
    reveal_strlit("-DENABLE_PQC=ON");
    reveal_strlit("-DENABLE_CRYPTO_REFRESH=ON");
    reveal_strlit("-DCMAKE_OSX_DEPLOYMENT_TARGET=11.0");
    reveal_strlit("-DCMAKE_CXX_STANDARD_LIBRARIES=-lws2_32 -lcrypt32");
    reveal_strlit("-DCMAKE_TOOLCHAIN_FILE=");
    reveal_strlit("-DCMAKE_POLICY_VERSION_MINIMUM=3.5");
    reveal_strlit("-DCRYPTO_BACKEND=botan3");
    reveal_strlit("-DBUILD_SHARED_LIBS=OFF");
    reveal_strlit("-DBUILD_TESTING=OFF");
    reveal_strlit("-DENABLE_DOC=OFF");
    reveal_strlit("-DCMAKE_BUILD_TYPE=Release");
    reveal_strlit("-DCMAKE_CXX_FLAGS=-include cstring");
    reveal_strlit("-DCMAKE_C_COMPILER=");
    reveal_strlit("-DCMAKE_CXX_COMPILER=");
    reveal_strlit("/usr/bin/clang");
    reveal_strlit("/usr/bin/clang++");
    reveal_strlit("gcc");
    reveal_strlit("g++");
    assert("-DCRYPTO_BACKEND=botan3"@.len() == 23);
    assert("-DBUILD_SHARED_LIBS=OFF"@.len() == 23);
    assert("-DBUILD_TESTING=OFF"@.len() == 19);
    assert("-DENABLE_DOC=OFF"@.len() == 16);
    assert("-DCMAKE_BUILD_TYPE=Release"@.len() == 26);
    assert("-DCMAKE_BUILD_TYPE=Release"@[2] == 'C');
    assert("-DCMAKE_CXX_FLAGS=-include cstring"@.len() == 34);
    assert("-DCMAKE_CXX_FLAGS=-include cstring"@[8] == 'C');
    assert(("-DCMAKE_C_COMPILER="@ + "/usr/bin/clang"@).len() == 33);
    assert(("-DCMAKE_CXX_COMPILER="@ + "/usr/bin/clang++"@).len() == 37);
    assert(("-DCMAKE_C_COMPILER="@ + "gcc"@).len() == 22);
    assert(("-DCMAKE_CXX_COMPILER="@ + "g++"@).len() == 24);
}

/// librnp is configured, built and installed as the last three steps, in this order, in
/// one build directory: from the source of the flavor that the features call for, only
/// the library is built, and only what a developer needs is installed.
pub proof fn law_librnp_is_built_in_order(
    host: HostView,
    src_dir: LocationView,
    prefix: LocationView,
    dep_prefixes: Seq<LocationView>,
)
    ensures
        ({
            let list = librnp_steps(host, src_dir, prefix, dep_prefixes);
            let n = list.len() as int;
            let configure = list[n - 3]->Run_0;
            let build = list[n - 2]->Run_0;
            let install = list[n - 1]->Run_0;
            let build_dir = src_dir.join("rnp-build"@);
            &&& n >= 3
            &&& forall|i: int|
                n - 3 <= i < n ==> #[trigger] list[i] is Run && list[i]->Run_0.program == "cmake"@
                    && list[i]->Run_0.dir is None
            &&& configure.label == "librnp cmake"@
            &&& build.label == "librnp build"@
            &&& install.label == "librnp install"@
            &&& configure.args.len() > 4
            &&& configure.args[0] == ArgView::Text("-S"@)
            &&& host.features.pqc || host.features.crypto_refresh ==> configure.args[1]
                == ArgView::Path(""@, src_dir.join("rnp-head"@))
            &&& !host.features.pqc && !host.features.crypto_refresh ==> configure.args[1]
                == ArgView::Path(""@, src_dir.join("rnp-v0.18.1"@))
            &&& configure.args[2] == ArgView::Text("-B"@)
            &&& configure.args[3] == ArgView::Path(""@, build_dir)
            &&& build.args.len() == 6
            &&& build.args[0] == ArgView::Text("--build"@)
            &&& build.args[1] == ArgView::Path(""@, build_dir)
            &&& build.args[2] == ArgView::Text("--target"@)
            &&& build.args[3] == ArgView::Text("librnp"@)
            &&& build.args[4] == ArgView::Text("--parallel"@)
            &&& build.args[5] == ArgView::Text(host.jobs)
            &&& install.args.len() == 4
            &&& install.args[0] == ArgView::Text("--install"@)
            &&& install.args[1] == ArgView::Path(""@, build_dir)
            &&& install.args[2] == ArgView::Text("--component"@)
            &&& install.args[3] == ArgView::Text("development"@)
        }),
{
    reveal_strlit("rnp-v");
    reveal_strlit("0.18.1");
    reveal_strlit("rnp-v0.18.1");
    assert("rnp-v"@ + RNP_VERSION@ =~= "rnp-v0.18.1"@);
}

/// Each feature is switched on by itself: the configure command has a feature's flag
/// exactly where that feature is chosen, or where the caller's own words say so, and a
/// platform's flag exactly on that platform.
pub proof fn law_each_feature_is_switched_on_by_itself(
    host: HostView,
    src_dir: LocationView,
    prefix: LocationView,
    dep_prefixes: Seq<LocationView>,
)
    ensures
        ({
            let list = librnp_steps(host, src_dir, prefix, dep_prefixes);
            let args = list[list.len() - 3]->Run_0.args;
            let given = match host.cmake_args {
                Some(text) => words(text),
                None => seq![],
            };
            &&& args.contains(ArgView::Text("-DENABLE_PQC=ON"@)) <==> host.features.pqc
                || given.contains("-DENABLE_PQC=ON"@)
            &&& args.contains(ArgView::Text("-DENABLE_CRYPTO_REFRESH=ON"@)) <==>
                host.features.crypto_refresh || given.contains("-DENABLE_CRYPTO_REFRESH=ON"@)
            &&& args.contains(ArgView::Text("-DCMAKE_OSX_DEPLOYMENT_TARGET=11.0"@)) <==> host.os
                == Os::MacOs || given.contains("-DCMAKE_OSX_DEPLOYMENT_TARGET=11.0"@)
            &&& args.contains(
                ArgView::Text("-DCMAKE_CXX_STANDARD_LIBRARIES=-lws2_32 -lcrypt32"@),
            ) <==> host.os == Os::Windows || given.contains(
                "-DCMAKE_CXX_STANDARD_LIBRARIES=-lws2_32 -lcrypt32"@,
            )
        }),
{
    let list = librnp_steps(host, src_dir, prefix, dep_prefixes);
    let flavor = Flavor::of_features(host.features);
    let source = flavor_source(flavor, src_dir);
    let build_dir = src_dir.join("rnp-build"@);
    let args = list[list.len() - 3]->Run_0.args;
    assert(args == configure_command(host, source, build_dir, prefix, dep_prefixes).args);
    lemma_flags_differ(host);
    let flags = feature_args(host);
    let first: int = if host.features.pqc {
        1
    } else {
        0
    };
    let second: int = if host.features.crypto_refresh {
        1
    } else {
        0
    };
    if host.features.pqc {
        assert(flags[0] == ArgView::Text("-DENABLE_PQC=ON"@));
    }
    if host.features.crypto_refresh {
        assert(flags[first] == ArgView::Text("-DENABLE_CRYPTO_REFRESH=ON"@));
    }
    if host.os == Os::MacOs {
        assert(flags[first + second] == ArgView::Text("-DCMAKE_OSX_DEPLOYMENT_TARGET=11.0"@));
    }
    if host.os == Os::Windows {
        assert(flags[first + second] == ArgView::Text(
            "-DCMAKE_CXX_STANDARD_LIBRARIES=-lws2_32 -lcrypt32"@,
        ));
    }
    assert forall|i: int| 0 <= i < flags.len() implies {
        ||| host.features.pqc && #[trigger] flags[i] == ArgView::Text("-DENABLE_PQC=ON"@)
        ||| host.features.crypto_refresh && flags[i] == ArgView::Text(
            "-DENABLE_CRYPTO_REFRESH=ON"@,
        )
        ||| host.os == Os::MacOs && flags[i] == ArgView::Text(
            "-DCMAKE_OSX_DEPLOYMENT_TARGET=11.0"@,
        )
        ||| host.os == Os::Windows && flags[i] == ArgView::Text(
            "-DCMAKE_CXX_STANDARD_LIBRARIES=-lws2_32 -lcrypt32"@,
        )
    } by {}
    lemma_flag_comes_from(host, source, build_dir, prefix, dep_prefixes, "-DENABLE_PQC=ON"@);
    lemma_flag_comes_from(
        host,
        source,
        build_dir,
        prefix,
        dep_prefixes,
        "-DENABLE_CRYPTO_REFRESH=ON"@,
    );
    lemma_flag_comes_from(
        host,
        source,
        build_dir,
        prefix,
        dep_prefixes,
        "-DCMAKE_OSX_DEPLOYMENT_TARGET=11.0"@,
    );
    lemma_flag_comes_from(
        host,
        source,
        build_dir,
        prefix,
        dep_prefixes,
        "-DCMAKE_CXX_STANDARD_LIBRARIES=-lws2_32 -lcrypt32"@,
    );
}

/// A flag that is none of the always-present texts comes from the features, the platform
/// or the caller's words.
proof fn lemma_flag_comes_from(
    host: HostView,
    source: LocationView,
    build_dir: LocationView,
    prefix: LocationView,
    dep_prefixes: Seq<LocationView>,
    flag: Seq<char>,
)
    requires
        flag.len() > 8,
        flag != "-DCMAKE_POLICY_VERSION_MINIMUM=3.5"@,
        flag[2] == 'E' || flag[8] == 'O' || flag[8] == 'C',
        !fixed_args().contains(ArgView::Text(flag)),
        !compiler_args(host).contains(ArgView::Text(flag)),
    ensures
        configure_command(host, source, build_dir, prefix, dep_prefixes).args.contains(
            ArgView::Text(flag),
        ) <==> feature_args(host).contains(ArgView::Text(flag)) || (host.cmake_args matches Some(
            args,
        ) && words(args).contains(flag)),
{
    let arg = ArgView::Text(flag);
    lemma_flags_differ(host);
    lemma_configure_contains(host, source, build_dir, prefix, dep_prefixes, arg);
    lemma_passthrough_contains(host, flag);
    if host.names_toolchain() {
        let toolchain = "-DCMAKE_TOOLCHAIN_FILE="@ + host.toolchain->0;
        assert(toolchain[2] == 'C' && toolchain[8] == 'T');
    }
    let start = seq![
        ArgView::Text("-S"@),
        ArgView::Path(""@, source),
        ArgView::Text("-B"@),
        ArgView::Path(""@, build_dir),
    ];
    assert(!start.contains(arg));
    let places = seq![
        ArgView::PathList("-DCMAKE_PREFIX_PATH="@, dep_prefixes),
        ArgView::Path("-DCMAKE_INSTALL_PREFIX="@, prefix),
        ArgView::Text("-DCMAKE_POLICY_VERSION_MINIMUM=3.5"@),
    ];
    assert(!places.contains(arg));
}

/// librnp is configured against Botan, as a static release build without tests and
/// documentation, with the dependencies where they are installed, for installation in
/// `prefix`: these arguments are there for every host.
pub proof fn law_librnp_is_configured_as_a_static_library(
    host: HostView,
    src_dir: LocationView,
    prefix: LocationView,
    dep_prefixes: Seq<LocationView>,
)
    ensures
        ({
            let list = librnp_steps(host, src_dir, prefix, dep_prefixes);
            let args = list[list.len() - 3]->Run_0.args;
            let own: int = if host.names_toolchain() {
                0
            } else {
                2
            };
            &&& args.len() >= 13 + own
            &&& args[4 + own] == ArgView::Text("-DCRYPTO_BACKEND=botan3"@)
            &&& args[5 + own] == ArgView::Text("-DBUILD_SHARED_LIBS=OFF"@)
            &&& args[6 + own] == ArgView::Text("-DBUILD_TESTING=OFF"@)
            &&& args[7 + own] == ArgView::Text("-DENABLE_DOC=OFF"@)
            &&& args[8 + own] == ArgView::Text("-DCMAKE_BUILD_TYPE=Release"@)
            &&& args[9 + own] == ArgView::Text("-DCMAKE_CXX_FLAGS=-include cstring"@)
            &&& args[10 + own] == ArgView::PathList("-DCMAKE_PREFIX_PATH="@, dep_prefixes)
            &&& args[11 + own] == ArgView::Path("-DCMAKE_INSTALL_PREFIX="@, prefix)
            &&& args[12 + own] == ArgView::Text("-DCMAKE_POLICY_VERSION_MINIMUM=3.5"@)
        }),
{
}

/// librnp is built for the caller's target: a toolchain file that is named is handed on
/// and the choice of compilers left to it, and without one the platform's compilers are
/// named; the words of the further arguments follow in order, in either case. Only the
/// flags of the chosen features and the platform come after them.
pub proof fn law_librnp_is_built_for_the_target(
    host: HostView,
    src_dir: LocationView,
    prefix: LocationView,
    dep_prefixes: Seq<LocationView>,
)
    ensures
        ({
            let list = librnp_steps(host, src_dir, prefix, dep_prefixes);
            let args = list[list.len() - 3]->Run_0.args;
            let given = match host.cmake_args {
                Some(text) => words(text),
                None => seq![],
            };
            let flags: int = (if host.features.pqc {
                1int
            } else {
                0int
            }) + (if host.features.crypto_refresh {
                1int
            } else {
                0int
            }) + (if host.os == Os::Other {
                0int
            } else {
                1int
            });
            let after = args.len() - flags;
            &&& host.names_toolchain() ==> args.len() == 13 + 1 + given.len() + flags
            &&& !host.names_toolchain() ==> args.len() == 13 + 2 + given.len() + flags
            &&& host.names_toolchain() ==> args[after - given.len() - 1] == ArgView::Text(
                "-DCMAKE_TOOLCHAIN_FILE="@ + host.toolchain->0,
            )
            &&& forall|i: int|
                0 <= i < given.len() ==> args[after - given.len() + i] == ArgView::Text(
                    #[trigger] given[i],
                )
            &&& !host.names_toolchain() && host.os == Os::MacOs ==> args[4] == ArgView::Text(
                "-DCMAKE_C_COMPILER=/usr/bin/clang"@,
            ) && args[5] == ArgView::Text("-DCMAKE_CXX_COMPILER=/usr/bin/clang++"@)
            &&& !host.names_toolchain() && host.os != Os::MacOs ==> args[4] == ArgView::Text(
                "-DCMAKE_C_COMPILER=gcc"@,
            ) && args[5] == ArgView::Text("-DCMAKE_CXX_COMPILER=g++"@)
        }),
{
    reveal_strlit("-DCMAKE_C_COMPILER=");
    reveal_strlit("-DCMAKE_CXX_COMPILER=");
    reveal_strlit("/usr/bin/clang");
    reveal_strlit("/usr/bin/clang++");
    reveal_strlit("gcc");
    reveal_strlit("g++");
    reveal_strlit("-DCMAKE_C_COMPILER=/usr/bin/clang");
    reveal_strlit("-DCMAKE_CXX_COMPILER=/usr/bin/clang++");
    reveal_strlit("-DCMAKE_C_COMPILER=gcc");
    reveal_strlit("-DCMAKE_CXX_COMPILER=g++");
    assert("-DCMAKE_C_COMPILER="@ + "/usr/bin/clang"@ =~= "-DCMAKE_C_COMPILER=/usr/bin/clang"@);
    assert("-DCMAKE_CXX_COMPILER="@ + "/usr/bin/clang++"@
        =~= "-DCMAKE_CXX_COMPILER=/usr/bin/clang++"@);
    assert("-DCMAKE_C_COMPILER="@ + "gcc"@ =~= "-DCMAKE_C_COMPILER=gcc"@);
    assert("-DCMAKE_CXX_COMPILER="@ + "g++"@ =~= "-DCMAKE_CXX_COMPILER=g++"@);
}

/// librnp's source is brought before anything is configured: the pinned upstream commit
/// where a feature is chosen, and else the patched release.
pub proof fn law_source_is_brought_first(
    host: HostView,
    src_dir: LocationView,
    prefix: LocationView,
    dep_prefixes: Seq<LocationView>,
)
    ensures
        ({
            let list = librnp_steps(host, src_dir, prefix, dep_prefixes);
            let before = list.take(list.len() - 3);
            &&& host.features.pqc || host.features.crypto_refresh ==> before == head_steps(src_dir)
            &&& !host.features.pqc && !host.features.crypto_refresh ==> before == release_steps(
                src_dir,
            )
        }),
{
    let list = librnp_steps(host, src_dir, prefix, dep_prefixes);
    assert(list.take(list.len() - 3) =~= source_steps(
        Flavor::of_features(host.features),
        src_dir,
    ));
}

/// The release: its tarball is fetched unless its tree is there; unless the tree's stamp
/// is there, the patch is applied in it, and the stamp is written after that.
pub proof fn law_release_is_fetched_and_patched(src_dir: LocationView)
    ensures
        ({
            let list = release_steps(src_dir);
            let source = src_dir.join("rnp-v0.18.1"@);
            let stamp = source.join(".rnp-backports-b1"@);
            &&& list.len() == 5
            &&& list[0] == StepView::Unless(source, 1)
            &&& list[1] == StepView::Fetch(
                "https://github.com/rnpgp/rnp/releases/download/v0.18.1/rnp-v0.18.1.tar.gz"@,
                src_dir,
            )
            &&& list[2] == StepView::Unless(stamp, 2)
            &&& list[3] is ApplyPatch
            &&& list[3]->ApplyPatch_0.program == "patch"@
            &&& list[3]->ApplyPatch_0.dir == Some(source)
            &&& list[3]->ApplyPatch_0.args.len() == 3
            &&& list[3]->ApplyPatch_0.args[0] == ArgView::Text("-p1"@)
            &&& list[3]->ApplyPatch_0.args[1] == ArgView::Text("--batch"@)
            &&& list[3]->ApplyPatch_0.args[2] == ArgView::Text("--forward"@)
            &&& list[4] == StepView::Write(stamp, "applied\n"@, "write backport stamp"@)
        }),
{
    reveal_strlit("rnp-v");
    reveal_strlit("0.18.1");
    reveal_strlit("rnp-v0.18.1");
    reveal_strlit("https://github.com/rnpgp/rnp/releases/download/v");
    reveal_strlit("/rnp-v");
    reveal_strlit(".tar.gz");
    reveal_strlit("https://github.com/rnpgp/rnp/releases/download/v0.18.1/rnp-v0.18.1.tar.gz");
    assert("rnp-v"@ + RNP_VERSION@ =~= "rnp-v0.18.1"@);
    assert(release_url()
        =~= "https://github.com/rnpgp/rnp/releases/download/v0.18.1/rnp-v0.18.1.tar.gz"@);
}

/// The upstream commit: a clone is made unless it is there; in it the pin is fetched and
/// checked out over any change, its submodules follow, and then its sources are patched.
/// Only the making of the clone depends on a condition.
pub proof fn law_pin_is_fetched_and_checked_out(src_dir: LocationView)
    ensures
        ({
            let list = head_steps(src_dir);
            let clone = src_dir.join("rnp-head"@);
            &&& list.len() == 7
            &&& list[0] == StepView::Unless(clone, 1)
            &&& forall|i: int|
                1 <= i < 6 ==> #[trigger] list[i] is Run && list[i]->Run_0.program == "git"@
                    && list[i]->Run_0.dir is None
            &&& list[1]->Run_0.label == "git clone librnp"@
            &&& list[2]->Run_0.label == "git fetch pinned librnp commit"@
            &&& list[3]->Run_0.label == "git checkout pinned librnp commit"@
            &&& list[4]->Run_0.label == "git submodule sync"@
            &&& list[5]->Run_0.label == "git submodule update"@
            &&& list[1]->Run_0.args.len() == 6
            &&& list[1]->Run_0.args[0] == ArgView::Text("clone"@)
            &&& list[1]->Run_0.args[1] == ArgView::Text("--depth"@)
            &&& list[1]->Run_0.args[2] == ArgView::Text("1"@)
            &&& list[1]->Run_0.args[3] == ArgView::Text("--recurse-submodules"@)
            &&& list[1]->Run_0.args[4] == ArgView::Text("https://github.com/rnpgp/rnp.git"@)
            &&& list[1]->Run_0.args[5] == ArgView::Path(""@, clone)
            &&& forall|i: int|
                2 <= i < 6 ==> (#[trigger] list[i])->Run_0.args.len() > 2
                    && list[i]->Run_0.args[0] == ArgView::Text("-C"@) && list[i]->Run_0.args[1]
                    == ArgView::Path(""@, clone)
            &&& list[2]->Run_0.args.len() == 7
            &&& list[2]->Run_0.args[2] == ArgView::Text("fetch"@)
            &&& list[2]->Run_0.args[3] == ArgView::Text("--depth"@)
            &&& list[2]->Run_0.args[4] == ArgView::Text("1"@)
            &&& list[2]->Run_0.args[5] == ArgView::Text("origin"@)
            &&& list[2]->Run_0.args[6] == ArgView::Text(RNP_HEAD_REF@)
            &&& list[3]->Run_0.args.len() == 6
            &&& list[3]->Run_0.args[2] == ArgView::Text("checkout"@)
            &&& list[3]->Run_0.args[3] == ArgView::Text("--force"@)
            &&& list[3]->Run_0.args[4] == ArgView::Text("--detach"@)
            &&& list[3]->Run_0.args[5] == ArgView::Text(RNP_HEAD_REF@)
            &&& list[4]->Run_0.args.len() == 5
            &&& list[4]->Run_0.args[2] == ArgView::Text("submodule"@)
            &&& list[4]->Run_0.args[3] == ArgView::Text("sync"@)
            &&& list[4]->Run_0.args[4] == ArgView::Text("--recursive"@)
            &&& list[5]->Run_0.args.len() == 6
            &&& list[5]->Run_0.args[2] == ArgView::Text("submodule"@)
            &&& list[5]->Run_0.args[3] == ArgView::Text("update"@)
            &&& list[5]->Run_0.args[4] == ArgView::Text("--init"@)
            &&& list[5]->Run_0.args[5] == ArgView::Text("--recursive"@)
            &&& list[6] == StepView::PatchIncludes(clone.join("src/lib/crypto"@))
        }),
{
}

/// A backport counts as applied exactly where the program that applies it succeeded, and
/// each report holds what went wrong, word for word.
pub proof fn law_backport_failures_are_reported(outcome: PatchOutcome)
    ensures
        backport_failure(outcome) is None <==> outcome is Applied,
        outcome matches PatchOutcome::Failed(status) ==> {
            let report = backport_failure(outcome)->0;
            let start = "rnp-src: backport patch failed with "@;
            &&& report.take((start.len() + status@.len()) as int) == start + status@
            &&& report.skip((start.len() + status@.len()) as int)
                == ";              the extracted librnp 0.18.1 tree may be partially patched"@
        },
        outcome matches PatchOutcome::NotRun(error) ==> {
            let report = backport_failure(outcome)->0;
            let start = "rnp-src: failed to run `patch` (required to apply librnp backports): "@;
            &&& report.take((start.len() + error@.len()) as int) == start + error@
            &&& report.skip((start.len() + error@.len()) as int)
                == ".              Install patch (e.g. pacman -S patch on MSYS2, apt-get install patch on Debian)"@
        },
{
    reveal_strlit(";              the extracted librnp ");
    reveal_strlit("0.18.1");
    reveal_strlit(" tree may be partially patched");
    reveal_strlit(";              the extracted librnp 0.18.1 tree may be partially patched");
    let end = ";              the extracted librnp "@ + RNP_VERSION@
        + " tree may be partially patched"@;
    assert(end =~= ";              the extracted librnp 0.18.1 tree may be partially patched"@);
    match outcome {
        PatchOutcome::Applied => {},
        PatchOutcome::Failed(status) => {
            let report = backport_failure(outcome)->0;
            let start = "rnp-src: backport patch failed with "@;
            assert(report =~= (start + status@) + end);
            assert(report.take((start.len() + status@.len()) as int) =~= start + status@);
            assert(report.skip((start.len() + status@.len()) as int) =~= end);
        },
        PatchOutcome::NotRun(error) => {
            let report = backport_failure(outcome)->0;
            let start = "rnp-src: failed to run `patch` (required to apply librnp backports): "@;
            assert(report.take((start.len() + error@.len()) as int) =~= start + error@);
            assert(report.skip((start.len() + error@.len()) as int)
                =~= ".              Install patch (e.g. pacman -S patch on MSYS2, apt-get install patch on Debian)"@);
        },
    }
}

} // verus!
