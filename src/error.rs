use vstd::prelude::*;

verus! {

/// The class of a shell error, following the stage at which it arose.
#[derive(Clone, Copy, Debug, PartialEq, Eq, Structural)]
pub enum ErrorKind {
    /// The line does not follow the pipeline grammar.
    Parse,
    /// A built-in command reported a failure.
    Stage,
    /// Two adjacent stages of different kinds (built-in and external).
    UnsupportedTransport,
    /// An external program could not be started.
    Spawn,
}

/// An error reported to the user as a single line.
#[derive(Debug)]
pub struct ShellError {
    pub kind: ErrorKind,
    pub title: String,
}

impl View for ShellError {
    type V = (ErrorKind, Seq<char>);

    open spec fn view(&self) -> (ErrorKind, Seq<char>) {
        (self.kind, self.title@)
    }
}

impl ShellError {
    /// A failure reported by a built-in command.
    pub fn new(title: String) -> (r: Self)
        ensures
            r@ == (ErrorKind::Stage, title@),
    {
        ShellError { kind: ErrorKind::Stage, title }
    }

    /// Builds an error from a message given as a literal.
    pub fn from_str(kind: ErrorKind, title: &str) -> (r: Self)
        ensures
            r@ == (kind, title@),
    {
        ShellError { kind, title: String::from_str(title) }
    }

    /// The line shown to the user.
    pub fn title(&self) -> (r: &String)
        ensures
            r@ == self@.1,
    {
        &self.title
    }
}

} // verus!
