//! How a command ends.
use vstd::prelude::*;
use vstd::string::StringExecFns;

verus! {

/// Why a command did not end well.
#[derive(Debug, PartialEq, Eq)]
pub enum CliErr {
    /// The command line does not make sense.
    Usage(String),
    /// The daemon refused to spawn.
    Spawn(String),
    /// The exit code of the child (0..=255), or `128 + signum`.
    Exit(u8),
    /// Anything else.
    Other(String),
}

/// What a [`CliErr`] says.
pub enum CliErrView {
    Usage(Seq<char>),
    Spawn(Seq<char>),
    Exit(u8),
    Other(Seq<char>),
}

impl View for CliErr {
    type V = CliErrView;

    open spec fn view(&self) -> CliErrView {
        match *self {
            CliErr::Usage(m) => CliErrView::Usage(m@),
            CliErr::Spawn(m) => CliErrView::Spawn(m@),
            CliErr::Exit(c) => CliErrView::Exit(c),
            CliErr::Other(m) => CliErrView::Other(m@),
        }
    }
}

/// The exit code for a failure of the program itself.
pub const EX_SOFTWARE: u8 = 70;

/// What is printed on standard error.
pub open spec fn complaint(e: CliErrView) -> Option<Seq<char>> {
    match e {
        CliErrView::Usage(m) => Some("classic: "@ + m),
        CliErrView::Spawn(m) => Some("classic: spawn failed: "@ + m),
        CliErrView::Exit(_) => None,
        CliErrView::Other(m) => Some("classic: "@ + m),
    }
}

/// The exit code of the process.
pub open spec fn exit_code(e: CliErrView) -> u8 {
    match e {
        CliErrView::Usage(_) => 1,
        CliErrView::Spawn(_) => 2,
        CliErrView::Exit(c) => c,
        CliErrView::Other(_) => 1,
    }
}

impl CliErr {
    /// What is printed on standard error, if anything is.
    pub fn complaint(&self) -> (t: Option<String>)
        ensures
            match complaint(self@) {
                None => t is None,
                Some(m) => t is Some && t->Some_0@ == m,
            },
    {
        match self {
            CliErr::Usage(m) => {
                let mut t = "classic: ".to_owned();
                t.append(m.as_str());
                Some(t)
            },
            CliErr::Spawn(m) => {
                let mut t = "classic: spawn failed: ".to_owned();
                t.append(m.as_str());
                Some(t)
            },
            CliErr::Exit(_) => None,
            CliErr::Other(m) => {
                let mut t = "classic: ".to_owned();
                t.append(m.as_str());
                Some(t)
            },
        }
    }

    /// The exit code of the process.
    pub fn exit_code(&self) -> (c: u8)
        ensures
            c == exit_code(self@),
    {
        match self {
            CliErr::Usage(_) => 1,
            CliErr::Spawn(_) => 2,
            CliErr::Exit(c) => *c,
            CliErr::Other(_) => 1,
        }
    }
}

} // verus!
