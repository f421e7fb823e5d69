//! What a build is told of the machine it runs on and of its caller's wishes.

use vstd::prelude::*;
use vstd::string::StringExecFns;

use crate::command::{ArgView, Command};
use crate::flavor::Features;
use crate::plan::{Plan, Step, StepView};
use crate::words::{
    has_words, law_only_white_space_trims_to_nothing, split_whitespace, texts, trimmed, white, words,
};

verus! {

/// The operating systems that a build tells apart.
#[derive(Clone, Copy, PartialEq, Eq, Debug, Structural)]
pub enum Os {
    MacOs,
    Windows,
    Other,
}

/// The circumstances of a build.
#[derive(Debug)]
pub struct Host {
    pub os: Os,
    pub features: Features,
    /// The value of `CC`.
    pub cc: Option<String>,
    /// The value of `RNP_CMAKE_TOOLCHAIN`, a CMake toolchain file.
    pub toolchain: Option<String>,
    /// The value of `RNP_CMAKE_ARGS`, more arguments for CMake.
    pub cmake_args: Option<String>,
    /// Whether `BOTAN_CONFIGURE_CC` has a value.
    pub botan_cc_set: bool,
    /// How many compilers to run at a time.
    pub jobs: String,
}

/// The model of a [`Host`].
pub struct HostView {
    pub os: Os,
    pub features: Features,
    pub cc: Option<Seq<char>>,
    pub toolchain: Option<Seq<char>>,
    pub cmake_args: Option<Seq<char>>,
    pub botan_cc_set: bool,
    pub jobs: Seq<char>,
}

/// The view of a text that may be absent.
pub open spec fn optional_text(text: Option<String>) -> Option<Seq<char>> {
    match text {
        Some(text) => Some(text@),
        None => None,
    }
}

impl View for Host {
    type V = HostView;

    open spec fn view(&self) -> HostView {
        HostView {
            os: self.os,
            features: self.features,
            cc: optional_text(self.cc),
            toolchain: optional_text(self.toolchain),
            cmake_args: optional_text(self.cmake_args),
            botan_cc_set: self.botan_cc_set,
            jobs: self.jobs@,
        }
    }
}

/// Each text of `list` as an argument.
pub open spec fn text_args(list: Seq<Seq<char>>) -> Seq<ArgView> {
    list.map_values(|text: Seq<char>| ArgView::Text(text))
}

impl HostView {
    /// The caller named a toolchain file.
    pub open spec fn names_toolchain(self) -> bool {
        match self.toolchain {
            Some(toolchain) => trimmed(toolchain).len() > 0,
            None => false,
        }
    }

    /// The CMake arguments that the caller asked for: the toolchain file, as it was
    /// given, and then the words of the further arguments.
    pub open spec fn cross_passthrough(self) -> Seq<ArgView> {
        (if self.names_toolchain() {
            seq![ArgView::Text("-DCMAKE_TOOLCHAIN_FILE="@ + self.toolchain->0)]
        } else {
            seq![]
        }) + (match self.cmake_args {
            Some(args) => text_args(words(args)),
            None => seq![],
        })
    }

    /// The variables that are set before anything is built.
    pub open spec fn environment(self) -> Seq<StepView> {
        (match self.os {
            Os::MacOs => seq![StepView::SetEnv("MACOSX_DEPLOYMENT_TARGET"@, "11.0"@)],
            Os::Windows => (if self.botan_cc_set {
                seq![]
            } else {
                seq![
                    StepView::SetEnv("BOTAN_CONFIGURE_CC"@, "gcc"@),
                    StepView::SetEnv("BOTAN_CONFIGURE_CC_BIN"@, "g++"@),
                ]
            }) + seq![
                StepView::SetEnv("BOTAN_CONFIGURE_DISABLE_MODULES"@, "certstor_system_windows"@),
            ],
            Os::Other => seq![],
        }) + (if self.features.pqc {
            seq![
                StepView::SetEnv(
                    "BOTAN_CONFIGURE_ENABLE_MODULES"@,
                    "ml_kem,ml_dsa,slh_dsa_sha2,slh_dsa_shake"@,
                ),
            ]
        } else {
            seq![]
        })
    }
}

/// `first` followed by `second`.
pub fn joined(first: &str, second: &str) -> (text: String)
    ensures
        text@ == first@ + second@,
{
    first.to_string().concat(second)
}

/// A step that sets a variable.
fn set_env(name: &str, value: &str) -> (step: Step)
    ensures
        !(step is Unless),
        step@ == StepView::SetEnv(name@, value@),
{
    Step::SetEnv { name: name.to_string(), value: value.to_string() }
}

/// Appends each text of `list` to `command`.
pub fn push_texts(command: &mut Command, list: &Vec<String>)
    ensures
        final(command)@ == old(command)@.with(text_args(texts(list@))),
{
    let ghost before = command@;
    let mut i: usize = 0;
    assert(before.args + text_args(texts(list@).take(0)) =~= before.args);
    while i < list.len()
        invariant
            i <= list@.len(),
            command@ == before.with(text_args(texts(list@).take(i as int))),
        decreases list@.len() - i,
    {
        command.arg(list[i].as_str());
        assert(text_args(texts(list@).take(i as int)) + seq![ArgView::Text(list@[i as int]@)]
            =~= text_args(texts(list@).take(i + 1)));
        assert(command@.args =~= before.args + text_args(texts(list@).take(i + 1)));
        i = i + 1;
    }
    assert(texts(list@).take(i as int) =~= texts(list@));
}

impl Host {
    /// Whether the caller named a toolchain file.
    pub fn cross_toolchain_set(&self) -> (result: bool)
        ensures
            result == self@.names_toolchain(),
    {
        match &self.toolchain {
            Some(toolchain) => has_words(toolchain.as_str()),
            None => false,
        }
    }

    /// Appends the CMake arguments that the caller asked for.
    pub fn append_cross_passthrough(&self, command: &mut Command)
        ensures
            final(command)@ == old(command)@.with(self@.cross_passthrough()),
    {
        let ghost before = command@;
        match &self.toolchain {
            Some(toolchain) => {
                if has_words(toolchain.as_str()) {
                    command.arg(joined("-DCMAKE_TOOLCHAIN_FILE=", toolchain.as_str()).as_str());
                }
            },
            None => {},
        }
        match &self.cmake_args {
            Some(args) => {
                push_texts(command, &split_whitespace(args.as_str()));
            },
            None => {},
        }
        assert(command@.args =~= before.args + self@.cross_passthrough());
    }

    /// The steps that set the variables that the build needs.
    pub fn environment(&self) -> (plan: Plan)
        ensures
            plan.wf(),
            plan@ == self@.environment(),
    {
        let mut plan: Plan = Plan::new();
        match self.os {
            Os::MacOs => {
                plan.push(set_env("MACOSX_DEPLOYMENT_TARGET", "11.0"));
            },
            Os::Windows => {
                if !self.botan_cc_set {
                    plan.push(set_env("BOTAN_CONFIGURE_CC", "gcc"));
                    plan.push(set_env("BOTAN_CONFIGURE_CC_BIN", "g++"));
                }
                plan.push(set_env("BOTAN_CONFIGURE_DISABLE_MODULES", "certstor_system_windows"));
            },
            Os::Other => {},
        }
        if self.features.pqc {
            plan.push(
                set_env(
                    "BOTAN_CONFIGURE_ENABLE_MODULES",
                    "ml_kem,ml_dsa,slh_dsa_sha2,slh_dsa_shake",
                ),
            );
        }
        assert(plan@ =~= self@.environment());
        plan
    }
}

/// A build never names a compiler for Botan where its caller has named one.
pub proof fn law_caller_keeps_its_compiler(host: HostView)
    requires
        host.botan_cc_set,
    ensures
        forall|i: int|
            0 <= i < host.environment().len() ==> match #[trigger] host.environment()[i] {
                StepView::SetEnv(name, _) => name != "BOTAN_CONFIGURE_CC"@ && name
                    != "BOTAN_CONFIGURE_CC_BIN"@,
                _ => false,
            },
{
    reveal_strlit("BOTAN_CONFIGURE_CC");
    reveal_strlit("BOTAN_CONFIGURE_CC_BIN");
    reveal_strlit("MACOSX_DEPLOYMENT_TARGET");
    reveal_strlit("BOTAN_CONFIGURE_DISABLE_MODULES");
    reveal_strlit("BOTAN_CONFIGURE_ENABLE_MODULES");
    assert("MACOSX_DEPLOYMENT_TARGET"@.len() == 24);
    assert("BOTAN_CONFIGURE_DISABLE_MODULES"@.len() == 31);
    assert("BOTAN_CONFIGURE_ENABLE_MODULES"@.len() == 30);
}

/// A toolchain file is named wherever the caller's text holds anything but white space.
pub proof fn law_toolchain_is_named_by_any_text(host: HostView)
    ensures
        host.names_toolchain() <==> (host.toolchain matches Some(toolchain) && exists|i: int|
            0 <= i < toolchain.len() && !white(#[trigger] toolchain[i])),
{
    match host.toolchain {
        Some(toolchain) => {
            law_only_white_space_trims_to_nothing(toolchain);
        },
        None => {},
    }
}

/// What the caller asks of CMake is handed on: a toolchain file that is named, as it was
/// given, and then each word of the further arguments, in order, whether or not a
/// toolchain file is named. Nothing else is.
pub proof fn law_callers_arguments_are_handed_on(host: HostView)
    ensures
        ({
            let given = match host.cmake_args {
                Some(text) => words(text),
                None => seq![],
            };
            let args = host.cross_passthrough();
            let named: int = if host.names_toolchain() {
                1
            } else {
                0
            };
            &&& args.len() == named + given.len()
            &&& host.names_toolchain() ==> args[0] == ArgView::Text(
                "-DCMAKE_TOOLCHAIN_FILE="@ + host.toolchain->0,
            )
            &&& forall|i: int|
                0 <= i < given.len() ==> args[named + i] == ArgView::Text(#[trigger] given[i])
        }),
{
}

/// The variables that are set, each on its own: what the platform and the features call
/// for, and nothing else.
pub proof fn law_variables_follow_platform_and_features(host: HostView)
    ensures
        host.environment().contains(StepView::SetEnv("MACOSX_DEPLOYMENT_TARGET"@, "11.0"@)) <==>
            host.os == Os::MacOs,
        host.environment().contains(
            StepView::SetEnv("BOTAN_CONFIGURE_DISABLE_MODULES"@, "certstor_system_windows"@),
        ) <==> host.os == Os::Windows,
        host.environment().contains(StepView::SetEnv("BOTAN_CONFIGURE_CC"@, "gcc"@)) <==> host.os
            == Os::Windows && !host.botan_cc_set,
        host.environment().contains(StepView::SetEnv("BOTAN_CONFIGURE_CC_BIN"@, "g++"@)) <==>
            host.os == Os::Windows && !host.botan_cc_set,
        host.environment().contains(
            StepView::SetEnv(
                "BOTAN_CONFIGURE_ENABLE_MODULES"@,
                "ml_kem,ml_dsa,slh_dsa_sha2,slh_dsa_shake"@,
            ),
        ) <==> host.features.pqc,
        host.environment().len() == (if host.os == Os::MacOs || host.os == Os::Windows {
            1int
        } else {
            0int
        }) + (if host.os == Os::Windows && !host.botan_cc_set {
            2int
        } else {
            0int
        }) + (if host.features.pqc {
            1int
        } else {
            0int
        }),
{
    reveal_strlit("BOTAN_CONFIGURE_CC");
    reveal_strlit("BOTAN_CONFIGURE_CC_BIN");
    reveal_strlit("MACOSX_DEPLOYMENT_TARGET");
    reveal_strlit("BOTAN_CONFIGURE_DISABLE_MODULES");
    reveal_strlit("BOTAN_CONFIGURE_ENABLE_MODULES");
    assert("BOTAN_CONFIGURE_CC"@.len() == 18);
    assert("BOTAN_CONFIGURE_CC_BIN"@.len() == 22);
    assert("MACOSX_DEPLOYMENT_TARGET"@.len() == 24);
    assert("BOTAN_CONFIGURE_DISABLE_MODULES"@.len() == 31);
    assert("BOTAN_CONFIGURE_ENABLE_MODULES"@.len() == 30);
    let list = host.environment();
    let last = list.len() - 1;
    if host.os == Os::MacOs {
        assert(list[0] == StepView::SetEnv("MACOSX_DEPLOYMENT_TARGET"@, "11.0"@));
    }
    if host.os == Os::Windows {
        if host.botan_cc_set {
            assert(list[0] == StepView::SetEnv(
                "BOTAN_CONFIGURE_DISABLE_MODULES"@,
                "certstor_system_windows"@,
            ));
        } else {
            assert(list[0] == StepView::SetEnv("BOTAN_CONFIGURE_CC"@, "gcc"@));
            assert(list[1] == StepView::SetEnv("BOTAN_CONFIGURE_CC_BIN"@, "g++"@));
            assert(list[2] == StepView::SetEnv(
                "BOTAN_CONFIGURE_DISABLE_MODULES"@,
                "certstor_system_windows"@,
            ));
        }
    }
    if host.features.pqc {
        assert(list[last] == StepView::SetEnv(
            "BOTAN_CONFIGURE_ENABLE_MODULES"@,
            "ml_kem,ml_dsa,slh_dsa_sha2,slh_dsa_shake"@,
        ));
    }
    assert forall|i: int| 0 <= i < list.len() implies match #[trigger] list[i] {
        StepView::SetEnv(name, _) => {
            ||| host.os == Os::MacOs && name == "MACOSX_DEPLOYMENT_TARGET"@
            ||| host.os == Os::Windows && name == "BOTAN_CONFIGURE_DISABLE_MODULES"@
            ||| host.os == Os::Windows && !host.botan_cc_set && name == "BOTAN_CONFIGURE_CC"@
            ||| host.os == Os::Windows && !host.botan_cc_set && name == "BOTAN_CONFIGURE_CC_BIN"@
            ||| host.features.pqc && name == "BOTAN_CONFIGURE_ENABLE_MODULES"@
        },
        _ => false,
    } by {}
}

} // verus!
