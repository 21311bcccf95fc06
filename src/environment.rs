use vstd::prelude::*;

verus! {

/// The shell's record of where it stands: its current directory. The host
/// moves the process there; the library keeps the path.
#[derive(Debug)]
pub struct Environment {
    pub cwd: String,
}

impl Environment {
    pub fn new(cwd: String) -> (r: Self)
        ensures
            r.cwd == cwd,
    {
        Environment { cwd }
    }

    pub fn cwd(&self) -> (r: &String)
        ensures
            r == &self.cwd,
    {
        &self.cwd
    }

    /// Records a move to another directory.
    pub fn set_cwd(&mut self, dir: String)
        ensures
            final(self).cwd == dir,
    {
        self.cwd = dir;
    }
}

/// A marker for the types of values that commands take.
pub trait Type {}

/// The type that admits every value.
#[derive(Debug)]
pub struct Any;

impl Type for Any {}

} // verus!
