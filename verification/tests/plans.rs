use rnp_src::botan::{build_botan, write_botan_cmake_config};
use rnp_src::builder::{build, Installed};
use rnp_src::bzip2::build_bzip2;
use rnp_src::cmake::cmake_dep_build;
use rnp_src::command::{Arg, Command};
use rnp_src::flavor::{Features, Flavor};
use rnp_src::host::{Host, Os};
use rnp_src::librnp::{
    apply_backports, build_librnp, prepare_librnp_head, prepare_librnp_release,
};
use rnp_src::links::{CmakeDep, Deps};
use rnp_src::location::{Location, Root};
use rnp_src::plan::{Plan, Runner, Step};

fn host(os: Os, pqc: bool, crypto_refresh: bool) -> Host {
    Host {
        os,
        features: Features { pqc, crypto_refresh },
        cc: None,
        toolchain: None,
        cmake_args: None,
        botan_cc_set: false,
        jobs: "8".to_string(),
    }
}

fn dep(name: &str) -> CmakeDep {
    CmakeDep {
        name: name.to_string(),
        version: "1".to_string(),
        url: format!("https://example.org/{name}.tar.gz"),
        source_name: format!("{name}-1"),
        build_name: format!("{name}-build"),
        extra_cmake_args: vec!["-DX=1".to_string()],
        cmake_policy_minimum: Some("3.5".to_string()),
        installed_lib_aliases: vec![("libzlibstatic.a".to_string(), "libz.a".to_string())],
    }
}

fn path(location: &Location) -> String {
    let mut text = match location.root {
        Root::OutDir => "OUT".to_string(),
        Root::BotanBuild => "BOTAN".to_string(),
    };
    for part in &location.parts {
        text.push('/');
        text.push_str(part);
    }
    text
}

fn arg(arg: &Arg) -> String {
    match arg {
        Arg::Text(text) => text.clone(),
        Arg::Path { flag, path: p } => format!("{flag}{}", path(p)),
        Arg::PathList { flag, paths } => {
            let list: Vec<String> = paths.iter().map(path).collect();
            format!("{flag}{}", list.join(";"))
        }
    }
}

fn line(command: &Command) -> String {
    let mut text = command.program.clone();
    for a in &command.args {
        text.push('|');
        text.push_str(&arg(a));
    }
    if let Some(dir) = &command.dir {
        text.push_str(&format!(" @{}", path(dir)));
    }
    text
}

fn show(step: &Step) -> String {
    match step {
        Step::SetEnv { name, value } => format!("env {name}={value}"),
        Step::CreateDirs { path: p } => format!("mkdir {}", path(p)),
        Step::BuildBotan => "botan".to_string(),
        Step::Require { path: p } => format!("require {}", path(p)),
        Step::Copy { from, to, failure } => format!("cp {} {} [{failure}]", path(from), path(to)),
        Step::CopyTree { from, to, failure } => {
            format!("cp -r {} {} [{failure}]", path(from), path(to))
        }
        Step::Write {
            path: p,
            text,
            failure,
        } => format!("write {} {text:?} [{failure}]", path(p)),
        Step::WriteBotanConfig {
            path: p,
            prefix,
            failure,
        } => format!("config {} {} [{failure}]", path(p), path(prefix)),
        Step::Fetch { url, into } => format!("fetch {url} {}", path(into)),
        Step::Run { command } => format!("run {} ({})", line(command), command.label),
        Step::ApplyPatch { command } => format!("patch {}", line(command)),
        Step::Alias {
            dep,
            aliases,
            lib_dir,
        } => format!("alias {dep} {aliases:?} {}", path(lib_dir)),
        Step::PatchIncludes { dir } => format!("includes {}", path(dir)),
        Step::Unless { path: p, skip } => format!("unless {} {skip}", path(p)),
    }
}

/// Walks through a plan in a world where exactly the files in `there` exist.
fn walk(plan: Plan, there: &dyn Fn(&str) -> bool) -> (Vec<String>, Vec<String>) {
    let mut runner = Runner::new(plan);
    let mut taken = Vec::new();
    let mut asked = Vec::new();
    loop {
        let mut found = false;
        match runner.current() {
            Some(Step::Unless { path: p, .. }) => {
                asked.push(path(p));
                found = there(&path(p));
            }
            Some(step) => taken.push(show(step)),
            None => break,
        }
        runner.advance(found);
    }
    (taken, asked)
}

fn steps(plan: Plan) -> Vec<String> {
    walk(plan, &|_| false).0
}

fn src() -> Location {
    Location::at(Root::OutDir).join("src")
}

fn prefix(name: &str) -> Location {
    Location::at(Root::OutDir).join("install").join(name)
}

#[test]
fn the_environment_depends_on_platform_and_features() {
    assert!(steps(host(Os::Other, false, true).environment()).is_empty());
    assert_eq!(
        steps(host(Os::MacOs, true, false).environment()),
        [
            "env MACOSX_DEPLOYMENT_TARGET=11.0",
            "env BOTAN_CONFIGURE_ENABLE_MODULES=ml_kem,ml_dsa,slh_dsa_sha2,slh_dsa_shake",
        ]
    );
    assert_eq!(
        steps(host(Os::Windows, false, false).environment()),
        [
            "env BOTAN_CONFIGURE_CC=gcc",
            "env BOTAN_CONFIGURE_CC_BIN=g++",
            "env BOTAN_CONFIGURE_DISABLE_MODULES=certstor_system_windows",
        ]
    );
}

#[test]
fn a_callers_botan_compiler_is_kept() {
    let mut named = host(Os::Windows, false, false);
    named.botan_cc_set = true;
    assert_eq!(
        steps(named.environment()),
        ["env BOTAN_CONFIGURE_DISABLE_MODULES=certstor_system_windows"]
    );
}

#[test]
fn a_toolchain_counts_only_with_words() {
    let mut h = host(Os::Other, false, false);
    assert!(!h.cross_toolchain_set());
    h.toolchain = Some(" \t".to_string());
    assert!(!h.cross_toolchain_set());
    let mut command = Command::new("cmake", "x");
    h.append_cross_passthrough(&mut command);
    assert_eq!(line(&command), "cmake");
    h.toolchain = Some(" /t.cmake ".to_string());
    h.cmake_args = Some("  -DA=1 \n-DB=2".to_string());
    assert!(h.cross_toolchain_set());
    h.append_cross_passthrough(&mut command);
    assert_eq!(
        line(&command),
        "cmake|-DCMAKE_TOOLCHAIN_FILE= /t.cmake |-DA=1|-DB=2"
    );
}

#[test]
fn a_cmake_dependency_is_fetched_built_installed_and_aliased() {
    let h = host(Os::Other, false, false);
    let plan = cmake_dep_build(&dep("zlib"), &h, &src(), &prefix("zlib"));
    assert_eq!(
        steps(plan),
        [
            "fetch https://example.org/zlib.tar.gz OUT/src",
            "run cmake|-S|OUT/src/zlib-1|-B|OUT/src/zlib-build|-DCMAKE_BUILD_TYPE=Release|-DBUILD_SHARED_LIBS=OFF|-DX=1|-DCMAKE_INSTALL_PREFIX=OUT/install/zlib|-DCMAKE_POLICY_VERSION_MINIMUM=3.5 (zlib cmake)",
            "run cmake|--build|OUT/src/zlib-build|--parallel|8 (zlib build)",
            "run cmake|--install|OUT/src/zlib-build (zlib install)",
            "alias zlib [(\"libzlibstatic.a\", \"libz.a\")] OUT/install/zlib/lib",
        ]
    );
}

#[test]
fn a_source_that_is_there_is_not_fetched() {
    let mut h = host(Os::Other, false, false);
    h.cmake_args = Some("-DQ=1".to_string());
    let mut recipe = dep("zlib");
    recipe.cmake_policy_minimum = None;
    let plan = cmake_dep_build(&recipe, &h, &src(), &prefix("zlib"));
    let (taken, asked) = walk(plan, &|_| true);
    assert_eq!(asked, ["OUT/src/zlib-1"]);
    assert_eq!(taken.len(), 4);
    assert_eq!(
        taken[0],
        "run cmake|-S|OUT/src/zlib-1|-B|OUT/src/zlib-build|-DCMAKE_BUILD_TYPE=Release|-DBUILD_SHARED_LIBS=OFF|-DX=1|-DCMAKE_INSTALL_PREFIX=OUT/install/zlib|-DQ=1 (zlib cmake)"
    );
}

#[test]
fn bzip2_is_made_and_completed() {
    let mut h = host(Os::Other, false, false);
    assert_eq!(
        steps(build_bzip2(&h, &src(), &prefix("bzip2"))),
        [
            "fetch https://sourceware.org/pub/bzip2/bzip2-1.0.8.tar.gz OUT/src",
            "run make|libbz2.a|-j|8|CC=gcc|CFLAGS=-O3 -fPIC @OUT/src/bzip2-1.0.8 (bzip2 make)",
            "write OUT/src/bzip2-1.0.8/bz_internal_error_shim.c \"#include <stdlib.h>\\nvoid bz_internal_error(int errcode) { (void)errcode; abort(); }\\n\" []",
            "run gcc|-c|-O3|-fPIC|OUT/src/bzip2-1.0.8/bz_internal_error_shim.c|-o|OUT/src/bzip2-1.0.8/bz_internal_error_shim.o @OUT/src/bzip2-1.0.8 (bzip2 bz_internal_error shim compile)",
            "run ar|rcs|libbz2.a|bz_internal_error_shim.o @OUT/src/bzip2-1.0.8 (bzip2 append shim to libbz2.a)",
            "mkdir OUT/install/bzip2/lib",
            "mkdir OUT/install/bzip2/include",
            "cp OUT/src/bzip2-1.0.8/libbz2.a OUT/install/bzip2/lib/libbz2.a []",
            "cp OUT/src/bzip2-1.0.8/bzlib.h OUT/install/bzip2/include/bzlib.h []",
        ]
    );
    h.cc = Some("clang-19".to_string());
    assert!(steps(build_bzip2(&h, &src(), &prefix("bzip2")))[1].contains("CC=clang-19"));
    let mac = host(Os::MacOs, false, false);
    assert!(steps(build_bzip2(&mac, &src(), &prefix("bzip2")))[1].contains("CC=/usr/bin/clang|"));
}

#[test]
fn the_release_is_fetched_and_patched_once() {
    let (plan, tree) = prepare_librnp_release(&src());
    assert_eq!(path(&tree), "OUT/src/rnp-v0.18.1");
    assert_eq!(
        steps(plan),
        [
            "fetch https://github.com/rnpgp/rnp/releases/download/v0.18.1/rnp-v0.18.1.tar.gz OUT/src",
            "patch patch|-p1|--batch|--forward @OUT/src/rnp-v0.18.1",
            "write OUT/src/rnp-v0.18.1/.rnp-backports-b1 \"applied\\n\" [write backport stamp]",
        ]
    );
    let (taken, asked) = walk(apply_backports(&tree), &|_| true);
    assert!(taken.is_empty());
    assert_eq!(asked, ["OUT/src/rnp-v0.18.1/.rnp-backports-b1"]);
    // An unpacked tree without a stamp is still patched.
    let (plan, _) = prepare_librnp_release(&src());
    let (taken, _) = walk(plan, &|p| p == "OUT/src/rnp-v0.18.1");
    assert_eq!(taken.len(), 2);
}

#[test]
fn the_clone_is_moved_to_the_pin_every_time() {
    let (plan, tree) = prepare_librnp_head(&src());
    assert_eq!(path(&tree), "OUT/src/rnp-head");
    let (taken, asked) = walk(plan, &|_| true);
    assert_eq!(asked, ["OUT/src/rnp-head"]);
    assert_eq!(
        taken,
        [
            "run git|-C|OUT/src/rnp-head|fetch|--depth|1|origin|470695b98abe8a427fc47847acb387c089cb156d (git fetch pinned librnp commit)",
            "run git|-C|OUT/src/rnp-head|checkout|--force|--detach|470695b98abe8a427fc47847acb387c089cb156d (git checkout pinned librnp commit)",
            "run git|-C|OUT/src/rnp-head|submodule|sync|--recursive (git submodule sync)",
            "run git|-C|OUT/src/rnp-head|submodule|update|--init|--recursive (git submodule update)",
            "includes OUT/src/rnp-head/src/lib/crypto",
        ]
    );
    let (plan, _) = prepare_librnp_head(&src());
    let fresh = steps(plan);
    assert_eq!(fresh.len(), 6);
    assert_eq!(
        fresh[0],
        "run git|clone|--depth|1|--recurse-submodules|https://github.com/rnpgp/rnp.git|OUT/src/rnp-head (git clone librnp)"
    );
}

#[test]
fn librnp_is_configured_with_its_dependencies() {
    let mut deps = Deps::new();
    deps.push("botan", prefix("botan"));
    deps.push("zlib", prefix("zlib"));
    let lib_dirs: Vec<String> = deps.lib_dirs().iter().map(path).collect();
    assert_eq!(lib_dirs, ["OUT/install/botan/lib", "OUT/install/zlib/lib"]);
    let h = host(Os::Other, false, false);
    let taken = steps(build_librnp(&h, &src(), &prefix("rnp-0.18.1-b1"), &deps));
    assert_eq!(
        taken[3],
        "run cmake|-S|OUT/src/rnp-v0.18.1|-B|OUT/src/rnp-build|-DCMAKE_C_COMPILER=gcc|-DCMAKE_CXX_COMPILER=g++|-DCRYPTO_BACKEND=botan3|-DBUILD_SHARED_LIBS=OFF|-DBUILD_TESTING=OFF|-DENABLE_DOC=OFF|-DCMAKE_BUILD_TYPE=Release|-DCMAKE_CXX_FLAGS=-include cstring|-DCMAKE_PREFIX_PATH=OUT/install/botan;OUT/install/zlib|-DCMAKE_INSTALL_PREFIX=OUT/install/rnp-0.18.1-b1|-DCMAKE_POLICY_VERSION_MINIMUM=3.5 (librnp cmake)"
    );
    assert_eq!(
        taken[4],
        "run cmake|--build|OUT/src/rnp-build|--target|librnp|--parallel|8 (librnp build)"
    );
    assert_eq!(
        taken[5],
        "run cmake|--install|OUT/src/rnp-build|--component|development (librnp install)"
    );
}

#[test]
fn librnp_flags_follow_platform_features_and_caller() {
    let deps = Deps::new();
    let mut h = host(Os::MacOs, true, true);
    h.toolchain = Some("/t.cmake".to_string());
    let taken = steps(build_librnp(&h, &src(), &prefix("p"), &deps));
    assert_eq!(
        taken[6],
        "run cmake|-S|OUT/src/rnp-head|-B|OUT/src/rnp-build|-DCRYPTO_BACKEND=botan3|-DBUILD_SHARED_LIBS=OFF|-DBUILD_TESTING=OFF|-DENABLE_DOC=OFF|-DCMAKE_BUILD_TYPE=Release|-DCMAKE_CXX_FLAGS=-include cstring|-DCMAKE_PREFIX_PATH=|-DCMAKE_INSTALL_PREFIX=OUT/install/p|-DCMAKE_POLICY_VERSION_MINIMUM=3.5|-DCMAKE_TOOLCHAIN_FILE=/t.cmake|-DENABLE_PQC=ON|-DENABLE_CRYPTO_REFRESH=ON|-DCMAKE_OSX_DEPLOYMENT_TARGET=11.0 (librnp cmake)"
    );
    let mac = steps(build_librnp(&host(Os::MacOs, false, false), &src(), &prefix("p"), &deps));
    assert!(mac[3].contains("|-DCMAKE_C_COMPILER=/usr/bin/clang|-DCMAKE_CXX_COMPILER=/usr/bin/clang++|"));
    let win = steps(build_librnp(&host(Os::Windows, false, false), &src(), &prefix("p"), &deps));
    assert!(win[3].contains("|-DCMAKE_CXX_STANDARD_LIBRARIES=-lws2_32 -lcrypt32 (librnp cmake)"));
}

#[test]
fn botan_is_built_and_staged() {
    let root = Location::at(Root::OutDir).join("install");
    assert_eq!(
        steps(build_botan(&host(Os::Other, false, false), &root)),
        [
            "mkdir OUT/install/botan/lib",
            "mkdir OUT/install/botan/include",
            "botan",
            "require BOTAN/libbotan-3.a",
            "cp BOTAN/libbotan-3.a OUT/install/botan/lib/libbotan-3.a [rnp-src: failed to copy Botan static library into prefix]",
            "cp -r BOTAN/build/include/public OUT/install/botan/include/botan-3 [rnp-src: failed to copy Botan public headers into prefix]",
            "mkdir OUT/install/botan/lib/cmake/Botan-3.13.0",
            "config OUT/install/botan/lib/cmake/Botan-3.13.0/BotanConfig.cmake OUT/install/botan [rnp-src: failed to write BotanConfig.cmake]",
            "write OUT/install/botan/lib/cmake/Botan-3.13.0/BotanConfigVersion.cmake \"set(PACKAGE_VERSION \\\"3.13.0\\\")\\n\" [rnp-src: failed to write BotanConfigVersion.cmake]",
        ]
    );
    let windows = steps(build_botan(&host(Os::Windows, false, false), &root));
    assert_eq!(windows[3], "require BOTAN/botan-3.lib");
    assert!(windows[4].starts_with("cp BOTAN/botan-3.lib OUT/install/botan/lib/libbotan-3.a"));
    assert_eq!(steps(write_botan_cmake_config(&prefix("botan"))).len(), 3);
}

fn whole(h: &Host) -> (Plan, Installed) {
    build(h, &dep("json-c"), &dep("zlib"))
}

#[test]
fn a_cached_build_stops_after_botan() {
    let h = host(Os::Other, false, false);
    let (taken, asked) = walk(whole(&h).0, &|_| true);
    assert_eq!(taken[0], "mkdir OUT/src");
    assert_eq!(taken[1], "mkdir OUT/install");
    let root = Location::at(Root::OutDir).join("install");
    assert_eq!(taken[2..], steps(build_botan(&h, &root))[..]);
    assert_eq!(
        asked,
        [
            "OUT/install/json-c/lib/libjson-c.a",
            "OUT/install/zlib/lib/libz.a",
            "OUT/install/bzip2/lib/libbz2.a",
            "OUT/install/rnp-0.18.1-b1/lib/librnp.a",
        ]
    );
}

#[test]
fn a_fresh_build_takes_every_part_in_order() {
    let h = host(Os::Other, false, false);
    let taken = steps(whole(&h).0);
    let at = |needle: &str| taken.iter().position(|s| s.contains(needle)).unwrap();
    assert!(at("(json-c install)") < at("(zlib cmake)"));
    assert!(at("(zlib install)") < at("(bzip2 make)"));
    assert!(at("(bzip2 append shim") < at("(librnp cmake)"));
    assert_eq!(taken.len(), 2 + 9 + 5 + 5 + 9 + 6);
    assert!(taken[at("(librnp cmake)")].contains(
        "-DCMAKE_PREFIX_PATH=OUT/install/botan;OUT/install/json-c;OUT/install/zlib;OUT/install/bzip2|"
    ));
}

#[test]
fn only_what_is_missing_is_built() {
    let h = host(Os::Other, false, false);
    let (taken, _) = walk(whole(&h).0, &|p| p != "OUT/install/zlib/lib/libz.a");
    assert_eq!(taken.len(), 2 + 9 + 4);
    assert!(taken[11].contains("(zlib cmake)"));
}

#[test]
fn head_builds_never_touch_json_c() {
    let h = host(Os::Other, true, false);
    let (plan, installed) = whole(&h);
    let (taken, asked) = walk(plan, &|_| false);
    assert!(!taken.iter().any(|s| s.contains("json-c")));
    assert!(!asked.iter().any(|s| s.contains("json-c")));
    assert_eq!(installed.flavor, Flavor::Head);
    assert_eq!(installed.librnp_version, "head");
    let dirs: Vec<String> = installed.dep_lib_dirs.iter().map(path).collect();
    assert_eq!(
        dirs,
        [
            "OUT/install/botan/lib",
            "OUT/install/zlib/lib",
            "OUT/install/bzip2/lib"
        ]
    );
}

#[test]
fn a_release_build_reports_where_it_installs() {
    let (_, installed) = whole(&host(Os::Other, false, false));
    assert_eq!(path(&installed.lib_dir), "OUT/install/rnp-0.18.1-b1/lib");
    assert_eq!(path(&installed.include_dir), "OUT/install/rnp-0.18.1-b1/include");
    assert_eq!(installed.librnp_version, "0.18.1");
    let dirs: Vec<String> = installed.dep_lib_dirs.iter().map(path).collect();
    assert_eq!(
        dirs,
        [
            "OUT/install/botan/lib",
            "OUT/install/json-c/lib",
            "OUT/install/zlib/lib",
            "OUT/install/bzip2/lib"
        ]
    );
    assert_eq!(format!("{:?}", installed.clone()), format!("{installed:?}"));
}

#[test]
fn flavors_install_in_different_places() {
    let (_, release) = whole(&host(Os::Other, false, false));
    let (_, head) = whole(&host(Os::Other, false, true));
    assert_ne!(path(&release.lib_dir), path(&head.lib_dir));
}

#[test]
fn plans_compose() {
    let h = host(Os::MacOs, true, false);
    let mut plan = h.environment();
    let count = plan.len();
    plan.append(h.environment());
    assert_eq!(plan.len(), 2 * count);
    let mut guarded = Plan::new();
    guarded.guard(&src(), plan);
    guarded.push(Step::BuildBotan);
    let (taken, asked) = walk(guarded, &|_| true);
    assert_eq!(taken, ["botan"]);
    assert_eq!(asked, ["OUT/src"]);
}

#[test]
fn a_build_writes_below_its_directories() {
    for (os, pqc) in [(Os::Other, false), (Os::Windows, true), (Os::MacOs, false)] {
        let (plan, _) = whole(&host(os, pqc, false));
        let mut runner = Runner::new(plan);
        loop {
            let written = match runner.current() {
                Some(Step::CreateDirs { path: p }) => Some(path(p)),
                Some(Step::Copy { to, .. }) => Some(path(to)),
                Some(Step::CopyTree { to, .. }) => Some(path(to)),
                Some(Step::Write { path: p, .. }) => Some(path(p)),
                Some(Step::WriteBotanConfig { path: p, .. }) => Some(path(p)),
                Some(Step::Fetch { into, .. }) => Some(path(into)),
                Some(Step::Alias { lib_dir, .. }) => Some(path(lib_dir)),
                Some(Step::PatchIncludes { dir }) => Some(path(dir)),
                Some(_) => None,
                None => break,
            };
            if let Some(p) = written {
                assert!(p.starts_with("OUT/src") || p.starts_with("OUT/install"));
            }
            runner.advance(false);
        }
    }
}

#[test]
fn botan_is_built_before_it_is_used() {
    for os in [Os::Other, Os::MacOs, Os::Windows] {
        let taken = steps(whole(&host(os, true, false)).0);
        let built = taken.iter().position(|s| s == "botan").unwrap();
        assert!(taken[..built].iter().all(|s| !s.contains("BOTAN/")));
        assert!(taken[built..].iter().any(|s| s.contains("BOTAN/")));
    }
}
