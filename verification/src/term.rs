//! How a run terminated, as the status that the process exits with.
use vstd::prelude::*;

verus! {

/// The stage at which a run ended: `Success` after the last one, any other at the
/// stage that failed.
#[derive(Clone, Copy, Debug, PartialEq, Eq)]
pub enum Term {
    Success,
    Io,
    Eyre,
    Tracing,
    Clap,
    Input,
    Curve,
    Output,
}

impl Term {
    /// The exit status of each stage: its place in the order of the stages.
    pub open spec fn code(&self) -> u8 {
        match self {
            Term::Success => 0,
            Term::Io => 1,
            Term::Eyre => 2,
            Term::Tracing => 3,
            Term::Clap => 4,
            Term::Input => 5,
            Term::Curve => 6,
            Term::Output => 7,
        }
    }

    /// The status that the process exits with.
    pub fn report(self) -> (code: u8)
        ensures
            code == self.code(),
    {
        match self {
            Term::Success => 0,
            Term::Io => 1,
            Term::Eyre => 2,
            Term::Tracing => 3,
            Term::Clap => 4,
            Term::Input => 5,
            Term::Curve => 6,
            Term::Output => 7,
        }
    }
}

/// Only a run that went through exits with zero, and no two stages share a
/// status.
pub proof fn lemma_term_tells_stage(a: Term, b: Term)
    ensures
        a.code() == 0 <==> a == Term::Success,
        a.code() == b.code() <==> a == b,
{
}

} // verus!
