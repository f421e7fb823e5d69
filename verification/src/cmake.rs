//! Building a dependency with CMake.

use vstd::prelude::*;

use crate::aliases::clone_pairs;
use crate::command::{ArgView, Command, CommandView};
use crate::host::{joined, push_texts, text_args, Host, HostView};
use crate::links::{CmakeDep, CmakeDepView};
use crate::location::{Location, LocationView};
use crate::plan::{guarded, Plan, Step, StepView};
use crate::words::words;

verus! {

/// The command that configures `dep`, unpacked below `src_root`, for installation
/// in `prefix`.
pub open spec fn configure_command(
    dep: CmakeDepView,
    host: HostView,
    src_root: LocationView,
    prefix: LocationView,
) -> CommandView {
    CommandView {
        program: "cmake"@,
        args: seq![
            ArgView::Text("-S"@),
            ArgView::Path(""@, src_root.join(dep.source_name)),
            ArgView::Text("-B"@),
            ArgView::Path(""@, src_root.join(dep.build_name)),
            ArgView::Text("-DCMAKE_BUILD_TYPE=Release"@),
            ArgView::Text("-DBUILD_SHARED_LIBS=OFF"@),
        ] + text_args(dep.extra_cmake_args) + seq![
            ArgView::Path("-DCMAKE_INSTALL_PREFIX="@, prefix),
        ] + (match dep.cmake_policy_minimum {
            Some(minimum) => seq![ArgView::Text("-DCMAKE_POLICY_VERSION_MINIMUM="@ + minimum)],
            None => seq![],
        }) + host.cross_passthrough(),
        dir: None,
        label: dep.name + " cmake"@,
    }
}

/// The command that builds what was configured in `build_dir`.
pub open spec fn build_command(
    dep: CmakeDepView,
    host: HostView,
    build_dir: LocationView,
) -> CommandView {
    CommandView {
        program: "cmake"@,
        args: seq![
            ArgView::Text("--build"@),
            ArgView::Path(""@, build_dir),
            ArgView::Text("--parallel"@),
            ArgView::Text(host.jobs),
        ],
        dir: None,
        label: dep.name + " build"@,
    }
}

/// The command that installs what was built in `build_dir`.
pub open spec fn install_command(dep: CmakeDepView, build_dir: LocationView) -> CommandView {
    CommandView {
        program: "cmake"@,
        args: seq![ArgView::Text("--install"@), ArgView::Path(""@, build_dir)],
        dir: None,
        label: dep.name + " install"@,
    }
}

/// The steps that bring `dep` to `prefix`: fetch its source where it is not there,
/// configure, build and install it, and alias its library files.
pub open spec fn dep_steps(
    dep: CmakeDepView,
    host: HostView,
    src_root: LocationView,
    prefix: LocationView,
) -> Seq<StepView> {
    guarded(src_root.join(dep.source_name), seq![StepView::Fetch(dep.url, src_root)]) + seq![
        StepView::Run(configure_command(dep, host, src_root, prefix)),
        StepView::Run(build_command(dep, host, src_root.join(dep.build_name))),
        StepView::Run(install_command(dep, src_root.join(dep.build_name))),
        StepView::Alias(dep.name, dep.installed_lib_aliases, prefix.join("lib"@)),
    ]
}

fn configure(dep: &CmakeDep, host: &Host, src_root: &Location, prefix: &Location) -> (command:
    Command)
    ensures
        command@ == configure_command(dep@, host@, src_root@, prefix@),
{
    let mut command: Command = Command::new("cmake", joined(dep.name.as_str(), " cmake").as_str());
    command.arg("-S");
    command.path("", &src_root.join(dep.source_name.as_str()));
    command.arg("-B");
    command.path("", &src_root.join(dep.build_name.as_str()));
    command.arg("-DCMAKE_BUILD_TYPE=Release");
    command.arg("-DBUILD_SHARED_LIBS=OFF");
    push_texts(&mut command, &dep.extra_cmake_args);
    command.path("-DCMAKE_INSTALL_PREFIX=", prefix);
    match &dep.cmake_policy_minimum {
        Some(minimum) => {
            command.arg(joined("-DCMAKE_POLICY_VERSION_MINIMUM=", minimum.as_str()).as_str());
        },
        None => {},
    }
    host.append_cross_passthrough(&mut command);
    assert(command@ =~= configure_command(dep@, host@, src_root@, prefix@));
    command
}

fn build_with_cmake(dep: &CmakeDep, host: &Host, build_dir: &Location) -> (command: Command)
    ensures
        command@ == build_command(dep@, host@, build_dir@),
{
    let mut command: Command = Command::new("cmake", joined(dep.name.as_str(), " build").as_str());
    command.arg("--build");
    command.path("", build_dir);
    command.arg("--parallel");
    command.arg(host.jobs.as_str());
    assert(command@ =~= build_command(dep@, host@, build_dir@));
    command
}

fn install_with_cmake(dep: &CmakeDep, build_dir: &Location) -> (command: Command)
    ensures
        command@ == install_command(dep@, build_dir@),
{
    let mut command: Command = Command::new(
        "cmake",
        joined(dep.name.as_str(), " install").as_str(),
    );
    command.arg("--install");
    command.path("", build_dir);
    assert(command@ =~= install_command(dep@, build_dir@));
    command
}

/// The steps that bring `dep` to `prefix`.
pub fn cmake_dep_build(dep: &CmakeDep, host: &Host, src_root: &Location, prefix: &Location) -> (plan:
    Plan)
    ensures
        plan.wf(),
        plan@ == dep_steps(dep@, host@, src_root@, prefix@),
{
    let source: Location = src_root.join(dep.source_name.as_str());
    let build_dir: Location = src_root.join(dep.build_name.as_str());
    let mut plan: Plan = Plan::new();
    let mut fetch: Plan = Plan::new();
    fetch.push(Step::Fetch { url: dep.url.clone(), into: src_root.clone() });
    assert(fetch@ =~= seq![StepView::Fetch(dep@.url, src_root@)]);
    plan.guard(&source, fetch);
    plan.push(Step::Run { command: configure(dep, host, src_root, prefix) });
    plan.push(Step::Run { command: build_with_cmake(dep, host, &build_dir) });
    plan.push(Step::Run { command: install_with_cmake(dep, &build_dir) });
    plan.push(
        Step::Alias {
            dep: dep.name.clone(),
            aliases: clone_pairs(&dep.installed_lib_aliases),
            lib_dir: prefix.join("lib"),
        },
    );
    assert(plan@ =~= dep_steps(dep@, host@, src_root@, prefix@));
    plan
}

/// The course of a dependency's build: its source is fetched unless it is there; then it
/// is configured, built and installed, in this order, in one build directory; last, its
/// library files are aliased where they were installed.
pub proof fn law_dependency_is_built_in_order(
    dep: CmakeDepView,
    host: HostView,
    src_root: LocationView,
    prefix: LocationView,
)
    ensures
        ({
            let list = dep_steps(dep, host, src_root, prefix);
            &&& list.len() == 6
            &&& list[0] == StepView::Unless(src_root.join(dep.source_name), 1)
            &&& list[1] == StepView::Fetch(dep.url, src_root)
            &&& forall|i: int|
                2 <= i < 5 ==> #[trigger] list[i] is Run && list[i]->Run_0.program == "cmake"@
                    && list[i]->Run_0.dir is None
            &&& list[2]->Run_0.label == dep.name + " cmake"@
            &&& list[3]->Run_0.label == dep.name + " build"@
            &&& list[4]->Run_0.label == dep.name + " install"@
            &&& list[3]->Run_0.args.len() == 4
            &&& list[3]->Run_0.args[0] == ArgView::Text("--build"@)
            &&& list[3]->Run_0.args[1] == ArgView::Path(""@, src_root.join(dep.build_name))
            &&& list[3]->Run_0.args[2] == ArgView::Text("--parallel"@)
            &&& list[3]->Run_0.args[3] == ArgView::Text(host.jobs)
            &&& list[4]->Run_0.args.len() == 2
            &&& list[4]->Run_0.args[0] == ArgView::Text("--install"@)
            &&& list[4]->Run_0.args[1] == ArgView::Path(""@, src_root.join(dep.build_name))
            &&& list[5] == StepView::Alias(
                dep.name,
                dep.installed_lib_aliases,
                prefix.join("lib"@),
            )
        }),
{
}

/// A dependency is configured from its source for its build directory, as a static
/// release build, with what its recipe adds, to be installed in `prefix`.
pub proof fn law_dependency_is_configured_by_its_recipe(
    dep: CmakeDepView,
    host: HostView,
    src_root: LocationView,
    prefix: LocationView,
)
    ensures
        ({
            let args = dep_steps(dep, host, src_root, prefix)[2]->Run_0.args;
            let added = dep.extra_cmake_args.len() as int;
            &&& args.len() > 6 + added
            &&& args[0] == ArgView::Text("-S"@)
            &&& args[1] == ArgView::Path(""@, src_root.join(dep.source_name))
            &&& args[2] == ArgView::Text("-B"@)
            &&& args[3] == ArgView::Path(""@, src_root.join(dep.build_name))
            &&& args[4] == ArgView::Text("-DCMAKE_BUILD_TYPE=Release"@)
            &&& args[5] == ArgView::Text("-DBUILD_SHARED_LIBS=OFF"@)
            &&& forall|i: int|
                0 <= i < added ==> args[6 + i] == ArgView::Text(#[trigger] dep.extra_cmake_args[i])
            &&& args[6 + added] == ArgView::Path("-DCMAKE_INSTALL_PREFIX="@, prefix)
            &&& dep.cmake_policy_minimum matches Some(minimum) ==> args.len() > 7 + added && args[7
                + added] == ArgView::Text("-DCMAKE_POLICY_VERSION_MINIMUM="@ + minimum)
        }),
{
}

/// A dependency is built for the caller's target: where the caller names a toolchain
/// file, the configure command is given it, and where the caller gives further
/// arguments, the configure command ends with their words in order, whether or not a
/// toolchain file is named.
pub proof fn law_dependency_is_built_for_the_target(
    dep: CmakeDepView,
    host: HostView,
    src_root: LocationView,
    prefix: LocationView,
)
    ensures
        ({
            let args = dep_steps(dep, host, src_root, prefix)[2]->Run_0.args;
            let given = match host.cmake_args {
                Some(text) => words(text),
                None => seq![],
            };
            let named: int = if host.names_toolchain() {
                1
            } else {
                0
            };
            let minimum: int = if dep.cmake_policy_minimum is Some {
                1
            } else {
                0
            };
            &&& args.len() == 7 + dep.extra_cmake_args.len() + minimum + named + given.len()
            &&& host.names_toolchain() ==> args[args.len() - given.len() - 1] == ArgView::Text(
                "-DCMAKE_TOOLCHAIN_FILE="@ + host.toolchain->0,
            )
            &&& host.names_toolchain() ==> args.contains(
                ArgView::Text("-DCMAKE_TOOLCHAIN_FILE="@ + host.toolchain->0),
            )
            &&& forall|i: int|
                0 <= i < given.len() ==> args[args.len() - given.len() + i] == ArgView::Text(
                    #[trigger] given[i],
                )
        }),
{
    let args = dep_steps(dep, host, src_root, prefix)[2]->Run_0.args;
    let given = match host.cmake_args {
        Some(text) => words(text),
        None => seq![],
    };
    if host.names_toolchain() {
        let at = args.len() - given.len() - 1;
        assert(args[at] == ArgView::Text("-DCMAKE_TOOLCHAIN_FILE="@ + host.toolchain->0));
    }
}

} // verus!
