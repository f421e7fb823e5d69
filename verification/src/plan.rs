//! Build plans: steps to take in order, some of them only where a file is not yet
//! there.

use vstd::prelude::*;

use crate::command::{Command, CommandView};
use crate::location::{Location, LocationView};

verus! {

/// One step of a build.
#[derive(Debug)]
pub enum Step {
    /// Set an environment variable.
    SetEnv { name: String, value: String },
    /// Create a directory and those above it. That it fails is no failure of the
    /// build.
    CreateDirs { path: Location },
    /// Have the `botan-src` crate build Botan.
    BuildBotan,
    /// Fail unless the file is there.
    Require { path: Location },
    /// Copy a file. `failure` is what a failure is reported with.
    Copy { from: Location, to: Location, failure: String },
    /// Copy a directory and all that is in it.
    CopyTree { from: Location, to: Location, failure: String },
    /// Write a file.
    Write { path: Location, text: String, failure: String },
    /// Write the CMake package description of the Botan installed in `prefix`.
    WriteBotanConfig { path: Location, prefix: Location, failure: String },
    /// Download a gzipped tarball and unpack it into a directory.
    Fetch { url: String, into: Location },
    /// Run a command, which must succeed.
    Run { command: Command },
    /// Run a command that reads the librnp backport patch, which must succeed.
    ApplyPatch { command: Command },
    /// Give the library files of a dependency the names that linkers look for.
    Alias { dep: String, aliases: Vec<(String, String)>, lib_dir: Location },
    /// Add lacking Botan includes to the C++ sources below a directory.
    PatchIncludes { dir: Location },
    /// Pass over the next `skip` steps if the file is there.
    Unless { path: Location, skip: usize },
}

/// The model of a [`Step`].
#[verifier::ext_equal]
pub enum StepView {
    SetEnv(Seq<char>, Seq<char>),
    CreateDirs(LocationView),
    BuildBotan,
    Require(LocationView),
    Copy(LocationView, LocationView, Seq<char>),
    CopyTree(LocationView, LocationView, Seq<char>),
    Write(LocationView, Seq<char>, Seq<char>),
    WriteBotanConfig(LocationView, LocationView, Seq<char>),
    Fetch(Seq<char>, LocationView),
    Run(CommandView),
    ApplyPatch(CommandView),
    Alias(Seq<char>, Seq<(Seq<char>, Seq<char>)>, LocationView),
    PatchIncludes(LocationView),
    Unless(LocationView, nat),
}

impl View for Step {
    type V = StepView;

    open spec fn view(&self) -> StepView {
        match *self {
            Step::SetEnv { name, value } => StepView::SetEnv(name@, value@),
            Step::CreateDirs { path } => StepView::CreateDirs(path@),
            Step::BuildBotan => StepView::BuildBotan,
            Step::Require { path } => StepView::Require(path@),
            Step::Copy { from, to, failure } => StepView::Copy(from@, to@, failure@),
            Step::CopyTree { from, to, failure } => StepView::CopyTree(from@, to@, failure@),
            Step::Write { path, text, failure } => StepView::Write(path@, text@, failure@),
            Step::WriteBotanConfig { path, prefix, failure } => StepView::WriteBotanConfig(
                path@,
                prefix@,
                failure@,
            ),
            Step::Fetch { url, into } => StepView::Fetch(url@, into@),
            Step::Run { command } => StepView::Run(command@),
            Step::ApplyPatch { command } => StepView::ApplyPatch(command@),
            Step::Alias { dep, aliases, lib_dir } => StepView::Alias(
                dep@,
                crate::aliases::pairs(aliases@),
                lib_dir@,
            ),
            Step::PatchIncludes { dir } => StepView::PatchIncludes(dir@),
            Step::Unless { path, skip } => StepView::Unless(path@, skip as nat),
        }
    }
}

/// The views of a list of steps.
pub open spec fn steps(list: Seq<Step>) -> Seq<StepView> {
    list.map_values(|step: Step| step@)
}

/// No condition passes over more steps than follow it.
pub open spec fn well_nested(list: Seq<StepView>) -> bool {
    forall|i: int|
        0 <= i < list.len() ==> match #[trigger] list[i] {
            StepView::Unless(_, skip) => i + 1 + skip <= list.len(),
            _ => true,
        }
}

/// `body`, taken only where `path` is not there.
pub open spec fn guarded(path: LocationView, body: Seq<StepView>) -> Seq<StepView> {
    seq![StepView::Unless(path, body.len())] + body
}

/// The steps of `list` that are taken from index `at` on, conditions left out.
/// `found` says for each condition, by its index, whether its file was there.
pub open spec fn taken_from(
    list: Seq<StepView>,
    at: int,
    found: spec_fn(int) -> bool,
) -> Seq<StepView>
    decreases
            if at < list.len() {
                list.len() - at
            } else {
                0
            },
{
    if at >= list.len() {
        seq![]
    } else {
        match list[at] {
            StepView::Unless(_, skip) => if found(at) {
                taken_from(list, at + 1 + skip, found)
            } else {
                taken_from(list, at + 1, found)
            },
            step => seq![step] + taken_from(list, at + 1, found),
        }
    }
}

/// The steps of `list` that are taken, conditions left out.
pub open spec fn taken(list: Seq<StepView>, found: spec_fn(int) -> bool) -> Seq<StepView> {
    taken_from(list, 0, found)
}

/// The file or directory that a step writes to.
pub open spec fn written(step: StepView) -> Option<LocationView> {
    match step {
        StepView::CreateDirs(path) => Some(path),
        StepView::Copy(_, to, _) => Some(to),
        StepView::CopyTree(_, to, _) => Some(to),
        StepView::Write(path, _, _) => Some(path),
        StepView::WriteBotanConfig(path, _, _) => Some(path),
        StepView::Fetch(_, into) => Some(into),
        StepView::Alias(_, _, lib_dir) => Some(lib_dir),
        StepView::PatchIncludes(dir) => Some(dir),
        _ => None,
    }
}

/// Every step of `list` that writes a file or directory writes below `a` or `b`.
pub open spec fn writes_below(list: Seq<StepView>, a: LocationView, b: LocationView) -> bool {
    forall|i: int|
        0 <= i < list.len() ==> match written(#[trigger] list[i]) {
            Some(path) => path.is_under(a) || path.is_under(b),
            None => true,
        }
}

/// A list of steps in which no condition passes over more steps than follow it.
#[derive(Debug)]
pub struct Plan {
    steps: Vec<Step>,
}

impl View for Plan {
    type V = Seq<StepView>;

    closed spec fn view(&self) -> Seq<StepView> {
        steps(self.steps@)
    }
}

impl Plan {
    /// Conditions stay within the plan.
    pub open spec fn wf(&self) -> bool {
        well_nested(self@)
    }

    /// The plan without steps.
    pub fn new() -> (plan: Plan)
        ensures
            plan.wf(),
            plan@ == Seq::<StepView>::empty(),
    {
        let plan: Plan = Plan { steps: Vec::new() };
        assert(plan@ =~= seq![]);
        plan
    }

    /// How many steps the plan has, conditions counted.
    pub fn len(&self) -> (len: usize)
        ensures
            len == self@.len(),
    {
        self.steps.len()
    }

    /// Appends a step that is no condition.
    pub fn push(&mut self, step: Step)
        requires
            old(self).wf(),
            !(step is Unless),
        ensures
            final(self).wf(),
            final(self)@ == old(self)@ + seq![step@],
    {
        let ghost before = self@;
        self.steps.push(step);
        assert(self@ =~= before + seq![step@]);
        proof {
            lemma_well_nested_append(before, seq![step@]);
        }
    }

    /// Appends the steps of `other`.
    pub fn append(&mut self, other: Plan)
        requires
            old(self).wf(),
            other.wf(),
        ensures
            final(self).wf(),
            final(self)@ == old(self)@ + other@,
    {
        let ghost before = self@;
        let mut rest: Plan = other;
        self.steps.append(&mut rest.steps);
        assert(self@ =~= before + other@);
        proof {
            lemma_well_nested_append(before, other@);
        }
    }

    /// Appends the steps of `body`, to be taken only where `path` is not there.
    pub fn guard(&mut self, path: &Location, body: Plan)
        requires
            old(self).wf(),
            body.wf(),
        ensures
            final(self).wf(),
            final(self)@ == old(self)@ + guarded(path@, body@),
    {
        let ghost before = self@;
        let ghost inner = body@;
        let mut rest: Plan = body;
        self.steps.push(Step::Unless { path: path.clone(), skip: rest.steps.len() });
        self.steps.append(&mut rest.steps);
        assert(self@ =~= before + guarded(path@, inner));
        proof {
            lemma_well_nested_guarded(path@, inner);
            lemma_well_nested_append(before, guarded(path@, inner));
        }
    }
}

/// Plans whose conditions stay within them do so one after the other.
pub proof fn lemma_well_nested_append(a: Seq<StepView>, b: Seq<StepView>)
    requires
        well_nested(a),
        well_nested(b),
    ensures
        well_nested(a + b),
{
    assert forall|i: int| 0 <= i < (a + b).len() implies match #[trigger] (a + b)[i] {
        StepView::Unless(_, skip) => i + 1 + skip <= (a + b).len(),
        _ => true,
    } by {
        if i < a.len() {
            assert((a + b)[i] == a[i]);
        } else {
            assert((a + b)[i] == b[i - a.len()]);
        }
    }
}

/// A guarded plan's condition stays within it.
pub proof fn lemma_well_nested_guarded(path: LocationView, body: Seq<StepView>)
    requires
        well_nested(body),
    ensures
        well_nested(guarded(path, body)),
{
    let list = guarded(path, body);
    assert forall|i: int| 0 <= i < list.len() implies match #[trigger] list[i] {
        StepView::Unless(_, skip) => i + 1 + skip <= list.len(),
        _ => true,
    } by {
        if i > 0 {
            assert(list[i] == body[i - 1]);
        }
    }
}

/// A walk through a plan: what to do next, given what was found so far.
#[derive(Debug)]
pub struct Runner {
    plan: Plan,
    at: usize,
}

impl Runner {
    /// The plan that is walked through.
    pub closed spec fn plan(&self) -> Seq<StepView> {
        self.plan@
    }

    /// The index of the step that comes next.
    pub closed spec fn position(&self) -> int {
        self.at as int
    }

    /// The plan's conditions stay within it, and so does the walk.
    pub open spec fn wf(&self) -> bool {
        &&& well_nested(self.plan())
        &&& 0 <= self.position() <= self.plan().len()
    }

    /// The steps that are still to be taken if the conditions ahead come out as
    /// `found` says.
    pub open spec fn remaining(&self, found: spec_fn(int) -> bool) -> Seq<StepView> {
        taken_from(self.plan(), self.position(), found)
    }

    /// A walk that starts at the first step.
    pub fn new(plan: Plan) -> (runner: Runner)
        requires
            plan.wf(),
        ensures
            runner.wf(),
            runner.plan() == plan@,
            runner.position() == 0,
    {
        Runner { plan, at: 0 }
    }

    /// The next step, or `None` at the end.
    pub fn current(&self) -> (step: Option<&Step>)
        requires
            self.wf(),
        ensures
            match step {
                Some(step) => self.position() < self.plan().len() && step@
                    == self.plan()[self.position()],
                None => self.position() == self.plan().len(),
            },
    {
        if self.at < self.plan.steps.len() {
            Some(&self.plan.steps[self.at])
        } else {
            None
        }
    }

    /// Goes on past the next step. `found` says whether the file of a condition
    /// was there; for any other step it does not matter.
    pub fn advance(&mut self, found: bool)
        requires
            old(self).wf(),
            old(self).position() < old(self).plan().len(),
        ensures
            final(self).wf(),
            final(self).plan() == old(self).plan(),
            final(self).position() == (match old(self).plan()[old(self).position()] {
                StepView::Unless(_, skip) if found => old(self).position() + 1 + skip,
                _ => old(self).position() + 1,
            }),
            forall|answers: spec_fn(int) -> bool|
                answers(old(self).position()) == found ==> old(self).remaining(answers) == (
                match old(self).plan()[old(self).position()] {
                    StepView::Unless(_, _) => final(self).remaining(answers),
                    step => seq![step] + final(self).remaining(answers),
                }),
    {
        let length: usize = self.plan.steps.len();
        assert(self.plan@.len() == length);
        assert(self.plan@[self.at as int] == self.plan.steps@[self.at as int]@);
        match &self.plan.steps[self.at] {
            Step::Unless { path: _, skip } => {
                let skip: usize = *skip;
                if found {
                    self.at = self.at + 1 + skip;
                } else {
                    self.at = self.at + 1;
                }
            },
            _ => {
                self.at = self.at + 1;
            },
        }
    }
}

proof fn lemma_taken_from_append(
    a: Seq<StepView>,
    b: Seq<StepView>,
    at: int,
    found: spec_fn(int) -> bool,
)
    requires
        well_nested(a),
        0 <= at <= a.len(),
    ensures
        taken_from(a + b, at, found) == taken_from(a, at, found) + taken_from(
            a + b,
            a.len() as int,
            found,
        ),
    decreases a.len() - at,
{
    if at < a.len() {
        assert((a + b)[at] == a[at]);
        match a[at] {
            StepView::Unless(_, skip) => {
                if found(at) {
                    lemma_taken_from_append(a, b, at + 1 + skip, found);
                } else {
                    lemma_taken_from_append(a, b, at + 1, found);
                }
            },
            step => {
                lemma_taken_from_append(a, b, at + 1, found);
                assert(taken_from(a + b, at, found) =~= taken_from(a, at, found) + taken_from(
                    a + b,
                    a.len() as int,
                    found,
                ));
            },
        }
    } else {
        assert(taken_from(a + b, at, found) =~= taken_from(a, at, found) + taken_from(
            a + b,
            a.len() as int,
            found,
        ));
    }
}

proof fn lemma_taken_from_shift(
    a: Seq<StepView>,
    b: Seq<StepView>,
    at: int,
    found: spec_fn(int) -> bool,
)
    requires
        0 <= at,
    ensures
        taken_from(a + b, a.len() + at, found) == taken_from(b, at, |i: int| found(a.len() + i)),
    decreases
            if at < b.len() {
                b.len() - at
            } else {
                0
            },
{
    if at < b.len() {
        assert((a + b)[a.len() + at] == b[at]);
        match b[at] {
            StepView::Unless(_, skip) => {
                lemma_taken_from_shift(a, b, at + 1 + skip, found);
                lemma_taken_from_shift(a, b, at + 1, found);
            },
            _ => {
                lemma_taken_from_shift(a, b, at + 1, found);
            },
        }
    }
}

/// Plans compose: of two plans, one after the other, those steps are taken that
/// are taken of the first, and then those that are taken of the second.
pub proof fn law_append_takes_both(
    a: Seq<StepView>,
    b: Seq<StepView>,
    found: spec_fn(int) -> bool,
)
    requires
        well_nested(a),
    ensures
        taken(a + b, found) == taken(a, found) + taken(b, |i: int| found(a.len() + i)),
{
    lemma_taken_from_append(a, b, 0, found);
    lemma_taken_from_shift(a, b, 0, found);
}

/// A condition decides over exactly the steps that it guards: none of them is
/// taken where the file is there, and otherwise they are taken as they stand.
pub proof fn law_guard_takes_all_or_nothing(
    path: LocationView,
    body: Seq<StepView>,
    found: spec_fn(int) -> bool,
)
    ensures
        taken(guarded(path, body), found) == if found(0) {
            seq![]
        } else {
            taken(body, |i: int| found(1 + i))
        },
{
    let list = guarded(path, body);
    let head = seq![StepView::Unless(path, body.len())];
    assert(list[0] == StepView::Unless(path, body.len()));
    lemma_taken_from_shift(head, body, 0, found);
    assert(taken_from(list, list.len() as int, found) =~= seq![]);
    let shifted = |i: int| found(head.len() + i);
    let plain = |i: int| found(1 + i);
    assert(shifted =~= plain);
}

/// `list` holds no condition.
pub open spec fn unconditional(list: Seq<StepView>) -> bool {
    forall|i: int| 0 <= i < list.len() ==> !(#[trigger] list[i] is Unless)
}

/// The steps that are taken of `body` where it is guarded by a condition at index
/// `at` of a plan.
pub open spec fn part(
    body: Seq<StepView>,
    at: int,
    found: spec_fn(int) -> bool,
) -> Seq<StepView> {
    if found(at) {
        seq![]
    } else {
        taken(body, |i: int| found(at + 1 + i))
    }
}

/// Of a plan without conditions every step is taken, whatever is found.
pub proof fn law_unconditional_steps_are_taken(list: Seq<StepView>, found: spec_fn(int) -> bool)
    requires
        unconditional(list),
    ensures
        well_nested(list),
        taken(list, found) == list,
{
    lemma_taken_from_unconditional(list, 0, found);
    assert(list.skip(0) =~= list);
}

proof fn lemma_taken_from_unconditional(
    list: Seq<StepView>,
    at: int,
    found: spec_fn(int) -> bool,
)
    requires
        unconditional(list),
        0 <= at <= list.len(),
    ensures
        taken_from(list, at, found) == list.skip(at),
    decreases list.len() - at,
{
    if at < list.len() {
        lemma_taken_from_unconditional(list, at + 1, found);
        assert(!(list[at] is Unless));
        assert(list.skip(at) =~= seq![list[at]] + list.skip(at + 1));
    } else {
        assert(list.skip(at) =~= seq![]);
    }
}

/// Appending a guarded plan adds the steps that are taken of it where its file is
/// not there, and nothing where it is.
pub proof fn law_append_guarded(
    before: Seq<StepView>,
    path: LocationView,
    body: Seq<StepView>,
    found: spec_fn(int) -> bool,
)
    requires
        well_nested(before),
    ensures
        taken(before + guarded(path, body), found) == taken(before, found) + part(
            body,
            before.len() as int,
            found,
        ),
{
    law_append_takes_both(before, guarded(path, body), found);
    let shifted = |i: int| found(before.len() + i);
    law_guard_takes_all_or_nothing(path, body, shifted);
    let inner = |i: int| shifted(1 + i);
    let direct = |i: int| found(before.len() + 1 + i);
    assert(inner =~= direct);
}

} // verus!
