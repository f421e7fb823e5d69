//! Command lines.

use vstd::prelude::*;

use crate::location::{Location, LocationView};

verus! {

/// One argument of a command.
#[derive(Debug)]
pub enum Arg {
    /// The text as it stands.
    Text(String),
    /// `flag`, directly followed by the path of `path`.
    Path { flag: String, path: Location },
    /// `flag`, directly followed by the paths of `paths` with `;` between them.
    PathList { flag: String, paths: Vec<Location> },
}

/// The model of an [`Arg`].
#[verifier::ext_equal]
pub enum ArgView {
    Text(Seq<char>),
    Path(Seq<char>, LocationView),
    PathList(Seq<char>, Seq<LocationView>),
}

impl View for Arg {
    type V = ArgView;

    open spec fn view(&self) -> ArgView {
        match *self {
            Arg::Text(text) => ArgView::Text(text@),
            Arg::Path { flag, path } => ArgView::Path(flag@, path@),
            Arg::PathList { flag, paths } => ArgView::PathList(
                flag@,
                crate::location::places(paths@),
            ),
        }
    }
}

/// The views of a list of arguments.
pub open spec fn args(list: Seq<Arg>) -> Seq<ArgView> {
    list.map_values(|arg: Arg| arg@)
}

/// A program to run to its end.
#[derive(Debug)]
pub struct Command {
    pub program: String,
    pub args: Vec<Arg>,
    /// The directory to run in, if not the current one.
    pub dir: Option<Location>,
    /// What a failure report calls the command.
    pub label: String,
}

/// The model of a [`Command`].
#[verifier::ext_equal]
pub struct CommandView {
    pub program: Seq<char>,
    pub args: Seq<ArgView>,
    pub dir: Option<LocationView>,
    pub label: Seq<char>,
}

impl View for Command {
    type V = CommandView;

    open spec fn view(&self) -> CommandView {
        CommandView {
            program: self.program@,
            args: args(self.args@),
            dir: match self.dir {
                Some(dir) => Some(dir@),
                None => None,
            },
            label: self.label@,
        }
    }
}

impl CommandView {
    /// The command with `args` appended.
    pub open spec fn with(self, args: Seq<ArgView>) -> CommandView {
        CommandView { args: self.args + args, ..self }
    }
}

impl Command {
    /// The command that runs `program` without arguments.
    pub fn new(program: &str, label: &str) -> (command: Command)
        ensures
            command@ == (CommandView { program: program@, args: seq![], dir: None, label: label@ }),
    {
        let command: Command = Command {
            program: program.to_string(),
            args: Vec::new(),
            dir: None,
            label: label.to_string(),
        };
        assert(command@.args =~= seq![]);
        command
    }

    /// Appends one argument.
    pub fn push(&mut self, arg: Arg)
        ensures
            final(self)@ == old(self)@.with(seq![arg@]),
    {
        let ghost before = self@;
        self.args.push(arg);
        assert(self@.args =~= before.args + seq![arg@]);
    }

    /// Appends a text.
    pub fn arg(&mut self, text: &str)
        ensures
            final(self)@ == old(self)@.with(seq![ArgView::Text(text@)]),
    {
        self.push(Arg::Text(text.to_string()));
    }

    /// Appends `flag`, directly followed by a path.
    pub fn path(&mut self, flag: &str, path: &Location)
        ensures
            final(self)@ == old(self)@.with(seq![ArgView::Path(flag@, path@)]),
    {
        self.push(Arg::Path { flag: flag.to_string(), path: path.clone() });
    }

    /// Sets the directory to run in.
    pub fn current_dir(&mut self, dir: &Location)
        ensures
            final(self)@ == (CommandView { dir: Some(dir@), ..old(self)@ }),
    {
        self.dir = Some(dir.clone());
    }
}

} // verus!
