//! Waiting for the write-ahead log.

pub mod writer;

use vstd::prelude::*;

verus! {

/// How many log syncs are outstanding.
///
/// This holds back the pipeline as a whole, and is not the signal of any one
/// batch: it bounds the work that writers can queue up for the log.
#[derive(Debug, PartialEq, Eq, Structural)]
pub struct SyncSem {
    pub sync_occupancy: u64,
}

impl Default for SyncSem {
    /// No sync is outstanding.
    fn default() -> (sem: Self)
        ensures
            sem.sync_occupancy == 0,
    {
        SyncSem { sync_occupancy: 0 }
    }
}

/// What is known of one batch's log sync.
#[derive(Debug, Clone, Copy, PartialEq, Eq, Structural)]
pub enum WalSyncResultState {
    /// No sync was asked for.
    Init,
    /// The batch's bytes are durable.
    SyncDone,
    IoError,
    WalError,
    /// A sync was asked for and has not ended.
    Primed,
}

/// The number that stands for a state.
pub open spec fn sync_state_code(state: WalSyncResultState) -> u8 {
    match state {
        WalSyncResultState::Init => 0,
        WalSyncResultState::SyncDone => 1,
        WalSyncResultState::IoError => 2,
        WalSyncResultState::WalError => 3,
        WalSyncResultState::Primed => 4,
    }
}

impl vstd::std_specs::convert::FromSpecImpl<WalSyncResultState> for u8 {
    open spec fn obeys_from_spec() -> bool {
        true
    }

    open spec fn from_spec(state: WalSyncResultState) -> u8 {
        sync_state_code(state)
    }
}

impl From<WalSyncResultState> for u8 {
    fn from(state: WalSyncResultState) -> (code: u8) {
        match state {
            WalSyncResultState::Init => 0,
            WalSyncResultState::SyncDone => 1,
            WalSyncResultState::IoError => 2,
            WalSyncResultState::WalError => 3,
            WalSyncResultState::Primed => 4,
        }
    }
}

impl WalSyncResultState {
    /// The state that `value` stands for.
    pub fn from(value: u8) -> (state: Self)
        requires
            value <= 4,
        ensures
            sync_state_code(state) == value,
            state is Init <==> value == 0,
            state is SyncDone <==> value == 1,
            state is IoError <==> value == 2,
            state is WalError <==> value == 3,
            state is Primed <==> value == 4,
    {
        match value {
            0 => Self::Init,
            1 => Self::SyncDone,
            2 => Self::IoError,
            3 => Self::WalError,
            _ => Self::Primed,
        }
    }
}

/// A state's number stands for no other state.
pub proof fn law_sync_state_codes_distinct(a: WalSyncResultState, b: WalSyncResultState)
    requires
        sync_state_code(a) == sync_state_code(b),
    ensures
        a == b,
{
}

/// Whether the sync has ended, well or badly.
pub open spec fn sync_ended(state: WalSyncResultState) -> bool {
    state != WalSyncResultState::Init && state != WalSyncResultState::Primed
}

/// What an ended sync came to, or `None` while it has not ended.
pub open spec fn sync_result(state: WalSyncResultState) -> Option<
    std::result::Result<(), WalSyncResultState>,
> {
    match state {
        WalSyncResultState::SyncDone => Some(Ok(())),
        WalSyncResultState::IoError | WalSyncResultState::WalError => Some(Err(state)),
        WalSyncResultState::Init | WalSyncResultState::Primed => None,
    }
}

/// The signal by which one batch learns that the log has made its bytes
/// durable.
///
/// The state says only whether this batch succeeded. What went wrong in the log
/// is kept elsewhere, so a later failure does not reach back to batches whose
/// sync is done.
#[derive(Debug, PartialEq, Eq, Structural)]
pub struct SyncLogWaiter {
    pub state: WalSyncResultState,
}

impl Default for SyncLogWaiter {
    /// A waiter for which no sync was asked.
    fn default() -> (waiter: Self)
        ensures
            waiter.state == WalSyncResultState::Init,
    {
        SyncLogWaiter { state: WalSyncResultState::Init }
    }
}

impl SyncLogWaiter {
    /// Whether `state` is one in which the sync has ended.
    pub fn is_terminal(&self, state: WalSyncResultState) -> (ended: bool)
        ensures
            ended == sync_ended(state),
            ended <==> state is SyncDone || state is IoError || state is WalError,
    {
        state != WalSyncResultState::Init && state != WalSyncResultState::Primed
    }

    /// What a sync that ended in `state` came to.
    pub fn to_result(state: WalSyncResultState) -> (result: Option<
        std::result::Result<(), WalSyncResultState>,
    >)
        ensures
            result == sync_result(state),
            result is None <==> state is Init || state is Primed,
            state is SyncDone <==> result == Some(Ok::<(), WalSyncResultState>(())),
            state is IoError || state is WalError ==> result == Some(
                Err::<(), WalSyncResultState>(state),
            ),
    {
        match state {
            WalSyncResultState::SyncDone => Some(Ok(())),
            WalSyncResultState::IoError => Some(Err(WalSyncResultState::IoError)),
            WalSyncResultState::WalError => Some(Err(WalSyncResultState::WalError)),
            WalSyncResultState::Init | WalSyncResultState::Primed => None,
        }
    }

    /// The state now.
    pub fn state(&self) -> (state: WalSyncResultState)
        ensures
            state == self.state,
    {
        self.state
    }

    /// Notes that a sync was asked for.
    pub fn prime(&mut self)
        ensures
            final(self).state == WalSyncResultState::Primed,
    {
        self.state = WalSyncResultState::Primed;
    }

    /// One look of a thread that waits for the sync: what it does next, as
    /// `SyncWait::observe` says.
    pub fn wait(&self, wait: &mut SyncWait) -> (step: SyncWaitStep)
        ensures
            step == (match sync_result(self.state) {
                Some(result) => SyncWaitStep::Done(result),
                None => if old(wait).polls < SYNC_WAIT_SPINS {
                    SyncWaitStep::Spin
                } else {
                    SyncWaitStep::Block
                },
            }),
            final(wait).polls == (if step == SyncWaitStep::Spin {
                old(wait).polls + 1
            } else {
                old(wait).polls as int
            }),
            self.state is SyncDone <==> step == SyncWaitStep::Done(Ok::<(), WalSyncResultState>(())),
            self.state is IoError || self.state is WalError ==> step == SyncWaitStep::Done(
                Err::<(), WalSyncResultState>(self.state),
            ),
            self.state is Init || self.state is Primed ==> {
                &&& old(wait).polls < 200 ==> step == SyncWaitStep::Spin && final(wait).polls
                    == old(wait).polls + 1
                &&& 200 <= old(wait).polls ==> step == SyncWaitStep::Block && final(wait).polls
                    == old(wait).polls
            },
    {
        wait.observe(self.state())
    }

    /// Ends the sync.
    pub fn signal(&mut self, state: WalSyncResultState)
        requires
            sync_ended(state),
        ensures
            final(self).state == state,
    {
        self.state = state;
    }
}

/// How often a waiting thread polls before it goes to sleep.
pub const SYNC_WAIT_SPINS: u32 = 200;

/// What a thread that waits for a sync does next.
#[derive(Debug, Clone, Copy, PartialEq, Eq)]
pub enum SyncWaitStep {
    /// The wait is over, with this result.
    Done(std::result::Result<(), WalSyncResultState>),
    /// Pause for a moment, then look again.
    Spin,
    /// Sleep until signalled, then look again.
    Block,
}

/// One wait for a sync: each look at the waiter's state decides what to do next.
#[derive(Debug, Clone, Copy, PartialEq, Eq, Structural)]
pub struct SyncWait {
    pub polls: u32,
}

impl SyncWait {
    /// A wait that has not looked yet.
    pub fn new() -> (wait: Self)
        ensures
            wait.polls == 0,
    {
        SyncWait { polls: 0 }
    }

    /// Decides what to do on seeing `state`: return what an ended sync came to;
    /// else poll for a while, then sleep.
    pub fn observe(&mut self, state: WalSyncResultState) -> (step: SyncWaitStep)
        ensures
            step == (match sync_result(state) {
                Some(result) => SyncWaitStep::Done(result),
                None => if old(self).polls < SYNC_WAIT_SPINS {
                    SyncWaitStep::Spin
                } else {
                    SyncWaitStep::Block
                },
            }),
            final(self).polls == (if step == SyncWaitStep::Spin {
                old(self).polls + 1
            } else {
                old(self).polls as int
            }),
            state is SyncDone <==> step == SyncWaitStep::Done(Ok::<(), WalSyncResultState>(())),
            state is IoError || state is WalError ==> step == SyncWaitStep::Done(
                Err::<(), WalSyncResultState>(state),
            ),
            state is Init || state is Primed ==> {
                &&& old(self).polls < 200 ==> step == SyncWaitStep::Spin && final(self).polls
                    == old(self).polls + 1
                &&& 200 <= old(self).polls ==> step == SyncWaitStep::Block && final(self).polls
                    == old(self).polls
            },
    {
        match SyncLogWaiter::to_result(state) {
            Some(result) => SyncWaitStep::Done(result),
            None => {
                if self.polls < SYNC_WAIT_SPINS {
                    self.polls = self.polls + 1;
                    SyncWaitStep::Spin
                } else {
                    SyncWaitStep::Block
                }
            },
        }
    }
}

/// The numbers that stand for the states, which a waiter keeps in one byte.
pub proof fn law_sync_state_codes(state: WalSyncResultState)
    ensures
        state is Init <==> sync_state_code(state) == 0,
        state is SyncDone <==> sync_state_code(state) == 1,
        state is IoError <==> sync_state_code(state) == 2,
        state is WalError <==> sync_state_code(state) == 3,
        state is Primed <==> sync_state_code(state) == 4,
        sync_ended(state) <==> state is SyncDone || state is IoError || state is WalError,
        state is IoError || state is WalError ==> sync_result(state) == Some(
            Err::<(), WalSyncResultState>(state),
        ),
{
}

/// A wait is over exactly when the sync has ended, and comes to success exactly
/// when the batch's bytes are durable.
pub proof fn law_sync_result(state: WalSyncResultState)
    ensures
        sync_result(state) is Some <==> sync_ended(state),
        sync_result(state) == Some(Ok::<(), WalSyncResultState>(())) <==> state
            == WalSyncResultState::SyncDone,
{
}

} // verus!
