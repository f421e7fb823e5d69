//! Building bzip2, which has a plain Makefile and leaves one symbol undefined.

use vstd::prelude::*;

use crate::command::{ArgView, Command, CommandView};
use crate::host::{joined, Host, HostView, Os};
use crate::location::{Location, LocationView};
use crate::plan::{guarded, Plan, Step, StepView};

verus! {

/// bzip2 release that is compiled.
pub const BZIP2_VERSION: &'static str = "1.0.8";

/// The C source that defines `bz_internal_error`.
pub const BZIP2_SHIM: &'static str =
    "#include <stdlib.h>\nvoid bz_internal_error(int errcode) { (void)errcode; abort(); }\n";

/// The directory that the source tarball unpacks to.
pub open spec fn bzip2_source(src_dir: LocationView) -> LocationView {
    src_dir.join("bzip2-"@ + BZIP2_VERSION@)
}

/// The address of the source tarball.
pub open spec fn bzip2_url() -> Seq<char> {
    "https://sourceware.org/pub/bzip2/bzip2-"@ + BZIP2_VERSION@ + ".tar.gz"@
}

/// The C compiler: the caller's, or else the platform's.
pub open spec fn c_compiler(host: HostView) -> Seq<char> {
    match host.cc {
        Some(cc) => cc,
        None => if host.os == Os::MacOs {
            "/usr/bin/clang"@
        } else {
            "gcc"@
        },
    }
}

/// The command that compiles the static library in `source`.
pub open spec fn make_command(host: HostView, source: LocationView) -> CommandView {
    CommandView {
        program: "make"@,
        args: seq![
            ArgView::Text("libbz2.a"@),
            ArgView::Text("-j"@),
            ArgView::Text(host.jobs),
            ArgView::Text("CC="@ + c_compiler(host)),
            ArgView::Text("CFLAGS=-O3 -fPIC"@),
        ],
        dir: Some(source),
        label: "bzip2 make"@,
    }
}

/// The command that compiles the missing symbol in `source`.
pub open spec fn shim_command(host: HostView, source: LocationView) -> CommandView {
    CommandView {
        program: c_compiler(host),
        args: seq![
            ArgView::Text("-c"@),
            ArgView::Text("-O3"@),
            ArgView::Text("-fPIC"@),
            ArgView::Path(""@, source.join("bz_internal_error_shim.c"@)),
            ArgView::Text("-o"@),
            ArgView::Path(""@, source.join("bz_internal_error_shim.o"@)),
        ],
        dir: Some(source),
        label: "bzip2 bz_internal_error shim compile"@,
    }
}

/// The command that adds the missing symbol to the static library in `source`.
pub open spec fn archive_command(source: LocationView) -> CommandView {
    CommandView {
        program: "ar"@,
        args: seq![
            ArgView::Text("rcs"@),
            ArgView::Text("libbz2.a"@),
            ArgView::Text("bz_internal_error_shim.o"@),
        ],
        dir: Some(source),
        label: "bzip2 append shim to libbz2.a"@,
    }
}

/// The steps that bring bzip2 to `prefix`.
pub open spec fn bzip2_steps(
    host: HostView,
    src_dir: LocationView,
    prefix: LocationView,
) -> Seq<StepView> {
    let source = bzip2_source(src_dir);
    guarded(source, seq![StepView::Fetch(bzip2_url(), src_dir)]) + seq![
        StepView::Run(make_command(host, source)),
        StepView::Write(source.join("bz_internal_error_shim.c"@), BZIP2_SHIM@, ""@),
        StepView::Run(shim_command(host, source)),
        StepView::Run(archive_command(source)),
        StepView::CreateDirs(prefix.join("lib"@)),
        StepView::CreateDirs(prefix.join("include"@)),
        StepView::Copy(source.join("libbz2.a"@), prefix.join("lib"@).join("libbz2.a"@), ""@),
        StepView::Copy(source.join("bzlib.h"@), prefix.join("include"@).join("bzlib.h"@), ""@),
    ]
}

fn compiler(host: &Host) -> (cc: String)
    ensures
        cc@ == c_compiler(host@),
{
    match &host.cc {
        Some(cc) => cc.clone(),
        None => match host.os {
            Os::MacOs => "/usr/bin/clang".to_string(),
            _ => "gcc".to_string(),
        },
    }
}

fn make(host: &Host, source: &Location) -> (command: Command)
    ensures
        command@ == make_command(host@, source@),
{
    let mut command: Command = Command::new("make", "bzip2 make");
    command.arg("libbz2.a");
    command.arg("-j");
    command.arg(host.jobs.as_str());
    command.arg(joined("CC=", compiler(host).as_str()).as_str());
    command.arg("CFLAGS=-O3 -fPIC");
    command.current_dir(source);
    assert(command@ =~= make_command(host@, source@));
    command
}

fn compile_shim(host: &Host, source: &Location) -> (command: Command)
    ensures
        command@ == shim_command(host@, source@),
{
    let mut command: Command = Command::new(
        compiler(host).as_str(),
        "bzip2 bz_internal_error shim compile",
    );
    command.arg("-c");
    command.arg("-O3");
    command.arg("-fPIC");
    command.path("", &source.join("bz_internal_error_shim.c"));
    command.arg("-o");
    command.path("", &source.join("bz_internal_error_shim.o"));
    command.current_dir(source);
    assert(command@ =~= shim_command(host@, source@));
    command
}

fn append_shim(source: &Location) -> (command: Command)
    ensures
        command@ == archive_command(source@),
{
    let mut command: Command = Command::new("ar", "bzip2 append shim to libbz2.a");
    command.arg("rcs");
    command.arg("libbz2.a");
    command.arg("bz_internal_error_shim.o");
    command.current_dir(source);
    assert(command@ =~= archive_command(source@));
    command
}

/// The steps that bring bzip2 to `prefix`.
pub fn build_bzip2(host: &Host, src_dir: &Location, prefix: &Location) -> (plan: Plan)
    ensures
        plan.wf(),
        plan@ == bzip2_steps(host@, src_dir@, prefix@),
{
    let source: Location = src_dir.join(joined("bzip2-", BZIP2_VERSION).as_str());
    let lib: Location = prefix.join("lib");
    let headers: Location = prefix.join("include");
    let url: String = joined(
        joined("https://sourceware.org/pub/bzip2/bzip2-", BZIP2_VERSION).as_str(),
        ".tar.gz",
    );
    let mut plan: Plan = Plan::new();
    let mut fetch: Plan = Plan::new();
    fetch.push(Step::Fetch { url, into: src_dir.clone() });
    assert(fetch@ =~= seq![StepView::Fetch(bzip2_url(), src_dir@)]);
    plan.guard(&source, fetch);
    plan.push(Step::Run { command: make(host, &source) });
    plan.push(
        Step::Write {
            path: source.join("bz_internal_error_shim.c"),
            text: BZIP2_SHIM.to_string(),
            failure: "".to_string(),
        },
    );
    plan.push(Step::Run { command: compile_shim(host, &source) });
    plan.push(Step::Run { command: append_shim(&source) });
    plan.push(Step::CreateDirs { path: lib.clone() });
    plan.push(Step::CreateDirs { path: headers.clone() });
    plan.push(
        Step::Copy {
            from: source.join("libbz2.a"),
            to: lib.join("libbz2.a"),
            failure: "".to_string(),
        },
    );
    plan.push(
        Step::Copy {
            from: source.join("bzlib.h"),
            to: headers.join("bzlib.h"),
            failure: "".to_string(),
        },
    );
    assert(plan@ =~= bzip2_steps(host@, src_dir@, prefix@));
    plan
}

/// The course of bzip2's build: its source is fetched unless it is there; then the
/// library is made, the missing symbol is written, compiled and added to the library,
/// and only after that the library and its header are copied to `prefix`.
pub proof fn law_bzip2_is_completed_and_installed(
    host: HostView,
    src_dir: LocationView,
    prefix: LocationView,
)
    ensures
        ({
            let list = bzip2_steps(host, src_dir, prefix);
            let source = src_dir.join("bzip2-1.0.8"@);
            &&& list.len() == 10
            &&& list[0] == StepView::Unless(source, 1)
            &&& list[1] == StepView::Fetch(
                "https://sourceware.org/pub/bzip2/bzip2-1.0.8.tar.gz"@,
                src_dir,
            )
            &&& list[2] is Run && list[4] is Run && list[5] is Run
            &&& list[2]->Run_0.dir == Some(source)
            &&& list[2]->Run_0.program == "make"@
            &&& list[2]->Run_0.label == "bzip2 make"@
            &&& list[4]->Run_0.label == "bzip2 bz_internal_error shim compile"@
            &&& list[5]->Run_0.label == "bzip2 append shim to libbz2.a"@
            &&& list[2]->Run_0.args.len() == 5
            &&& list[2]->Run_0.args[0] == ArgView::Text("libbz2.a"@)
            &&& list[2]->Run_0.args[1] == ArgView::Text("-j"@)
            &&& list[2]->Run_0.args[2] == ArgView::Text(host.jobs)
            &&& list[2]->Run_0.args[4] == ArgView::Text("CFLAGS=-O3 -fPIC"@)
            &&& list[3] == StepView::Write(
                source.join("bz_internal_error_shim.c"@),
                BZIP2_SHIM@,
                ""@,
            )
            &&& list[4]->Run_0.dir == Some(source)
            &&& list[4]->Run_0.args.len() == 6
            &&& list[4]->Run_0.args[0] == ArgView::Text("-c"@)
            &&& list[4]->Run_0.args[1] == ArgView::Text("-O3"@)
            &&& list[4]->Run_0.args[2] == ArgView::Text("-fPIC"@)
            &&& list[4]->Run_0.args[3] == ArgView::Path(
                ""@,
                source.join("bz_internal_error_shim.c"@),
            )
            &&& list[4]->Run_0.args[4] == ArgView::Text("-o"@)
            &&& list[4]->Run_0.args[5] == ArgView::Path(
                ""@,
                source.join("bz_internal_error_shim.o"@),
            )
            &&& list[5]->Run_0.dir == Some(source)
            &&& list[5]->Run_0.program == "ar"@
            &&& list[5]->Run_0.args.len() == 3
            &&& list[5]->Run_0.args[0] == ArgView::Text("rcs"@)
            &&& list[5]->Run_0.args[1] == ArgView::Text("libbz2.a"@)
            &&& list[5]->Run_0.args[2] == ArgView::Text("bz_internal_error_shim.o"@)
            &&& list[6] == StepView::CreateDirs(prefix.join("lib"@))
            &&& list[7] == StepView::CreateDirs(prefix.join("include"@))
            &&& list[8] == StepView::Copy(
                source.join("libbz2.a"@),
                prefix.join("lib"@).join("libbz2.a"@),
                ""@,
            )
            &&& list[9] == StepView::Copy(
                source.join("bzlib.h"@),
                prefix.join("include"@).join("bzlib.h"@),
                ""@,
            )
        }),
{
    reveal_strlit("bzip2-");
    reveal_strlit("1.0.8");
    reveal_strlit("bzip2-1.0.8");
    reveal_strlit("https://sourceware.org/pub/bzip2/bzip2-");
    reveal_strlit(".tar.gz");
    reveal_strlit("https://sourceware.org/pub/bzip2/bzip2-1.0.8.tar.gz");
    assert("bzip2-"@ + BZIP2_VERSION@ =~= "bzip2-1.0.8"@);
    assert(bzip2_url() =~= "https://sourceware.org/pub/bzip2/bzip2-1.0.8.tar.gz"@);
}

/// One compiler compiles all of bzip2: the caller's, as it was given, whatever the
/// platform, and else the platform's own.
pub proof fn law_bzip2_is_compiled_by_one_compiler(
    host: HostView,
    src_dir: LocationView,
    prefix: LocationView,
)
    ensures
        ({
            let list = bzip2_steps(host, src_dir, prefix);
            let compiler = list[4]->Run_0.program;
            &&& list[2]->Run_0.args[3] == ArgView::Text("CC="@ + compiler)
            &&& host.cc matches Some(cc) ==> compiler == cc
            &&& host.cc is None && host.os == Os::MacOs ==> compiler == "/usr/bin/clang"@
            &&& host.cc is None && host.os != Os::MacOs ==> compiler == "gcc"@
        }),
{
}

} // verus!
