//! The boot lifecycle of the server: booting through its phases, then ready
//! with a build generation, or failed for good.
use vstd::prelude::*;

use std::time::{Duration, Instant};

verus! {

#[verifier::external_type_specification]
#[verifier::external_body]
pub struct ExInstant(std::time::Instant);

/// `std::time::Instant` is `Copy`, and its `clone` gives back the same
/// instant; the derived `Clone` of [`BootState`] relies on it.
pub assume_specification[ <std::time::Instant as Clone>::clone ](i: &Instant) -> (r: Instant)
    ensures
        r == *i,
;

/// Calls `std::time::Instant::now`. What it returns depends on the clock, so
/// nothing is stated of it.
#[verifier::external_body]
fn instant_now() -> Instant {
    Instant::now()
}

/// Calls `std::time::Instant::elapsed` on `since`. What it returns depends on
/// the clock, so nothing is stated of it.
#[verifier::external_body]
fn instant_elapsed(since: &Instant) -> Duration {
    since.elapsed()
}

/// Where the server is in its boot.
#[derive(Clone, Debug)]
pub enum BootState {
    /// Cells are loading or the first revision is building.
    Booting { since: Instant, phase: BootPhase },
    /// Requests can be served.
    Ready { since: Instant, generation: u64 },
    /// Startup failed; requests get an error page.
    Fatal { since: Instant, error_kind: ErrorKind, message: String },
}

/// The phase of a boot in progress.
#[derive(Clone, Copy, Debug, PartialEq, Eq, Structural)]
pub enum BootPhase {
    LoadingCells,
    WaitingCellsReady,
    BuildingRevision,
}

/// Why a boot failed.
#[derive(Clone, Copy, Debug, PartialEq, Eq, Structural)]
pub enum ErrorKind {
    MissingCell,
    CellStartupFailed,
    RevisionBuildFailed,
}

impl BootState {
    /// The state a boot starts in: booting, loading cells. The instant it
    /// records comes from the clock, so the contract states nothing of it.
    pub fn booting() -> (r: Self)
        ensures
            r matches BootState::Booting { phase, .. } && phase == BootPhase::LoadingCells,
    {
        BootState::Booting { since: instant_now(), phase: BootPhase::LoadingCells }
    }

    /// Ready, serving the given build generation.
    pub fn ready(generation: u64) -> (r: Self)
        ensures
            r matches BootState::Ready { generation: g, .. } && g == generation,
    {
        BootState::Ready { since: instant_now(), generation }
    }

    /// Failed for good, with the kind of failure and a message.
    pub fn fatal(error_kind: ErrorKind, message: String) -> (r: Self)
        ensures
            r matches BootState::Fatal { error_kind: k, message: m, .. } && k == error_kind && m@
                == message@,
    {
        BootState::Fatal { since: instant_now(), error_kind, message }
    }

    /// Whether requests can be served.
    pub fn is_ready(&self) -> (r: bool)
        ensures
            r == (self is Ready),
    {
        match self {
            BootState::Ready { .. } => true,
            _ => false,
        }
    }

    /// Whether startup failed.
    pub fn is_fatal(&self) -> (r: bool)
        ensures
            r == (self is Fatal),
    {
        match self {
            BootState::Fatal { .. } => true,
            _ => false,
        }
    }

    /// The time since this state was entered, measured from the instant
    /// recorded when it was made. The result depends on the clock, so the
    /// contract states nothing of it.
    pub fn elapsed(&self) -> Duration {
        match self {
            BootState::Booting { since, .. } => instant_elapsed(since),
            BootState::Ready { since, .. } => instant_elapsed(since),
            BootState::Fatal { since, .. } => instant_elapsed(since),
        }
    }
}

} // verus!
