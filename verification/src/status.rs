//! How a run ended, as the status that the process exits with.
use vstd::prelude::*;

verus! {

/// The stage at which a run ended: `Success` after the last one, any other at the
/// stage that failed.
#[derive(Clone, Copy, Debug, PartialEq, Eq)]
pub enum StatusCode {
    Success,
    Io,
    Eyre,
    Tracing,
    Clap,
    Input,
    Curve,
    Output,
}

impl StatusCode {
    /// The exit status of each stage: its place in the order of the stages.
    pub open spec fn code(&self) -> u8 {
        match self {
            StatusCode::Success => 0,
            StatusCode::Io => 1,
            StatusCode::Eyre => 2,
            StatusCode::Tracing => 3,
            StatusCode::Clap => 4,
            StatusCode::Input => 5,
            StatusCode::Curve => 6,
            StatusCode::Output => 7,
        }
    }

    /// The status that the process exits with.
    pub fn report(self) -> (code: u8)
        ensures
            code == self.code(),
    {
        match self {
            StatusCode::Success => 0,
            StatusCode::Io => 1,
            StatusCode::Eyre => 2,
            StatusCode::Tracing => 3,
            StatusCode::Clap => 4,
            StatusCode::Input => 5,
            StatusCode::Curve => 6,
            StatusCode::Output => 7,
        }
    }
}

/// Only a run that went through exits with zero, and no two stages share a
/// status.
pub proof fn lemma_status_tells_stage(a: StatusCode, b: StatusCode)
    ensures
        a.code() == 0 <==> a == StatusCode::Success,
        a.code() == b.code() <==> a == b,
{
}

} // verus!
