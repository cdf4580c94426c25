//! A writer: one caller's place in the write queue.

use crate::db::batch::BatchInner;
use vstd::prelude::*;

verus! {

/// The bits of a writer's state. A set of flags, not one of several states.
#[non_exhaustive]
pub struct WriterState {}

impl WriterState {
    pub const INIT: u8 = 1;

    pub const LEADER: u8 = 2;

    pub const LOCKED_WAITING: u8 = 4;

    pub const COMPLETE: u8 = 8;

    /// Names the flags that are set in `state`.
    pub fn debug(state: u8) -> (text: String)
        ensures
            text@ == state_text(state),
            state & 15u8 == 0 ==> text@ == "NO_STATE"@,
            state & 15u8 == 1 ==> text@ == "INIT"@,
            state & 15u8 == 2 ==> text@ == "LEADER"@,
            state & 15u8 == 4 ==> text@ == "LOCKED_WAITING"@,
            state & 15u8 == 8 ==> text@ == "COMPLETE"@,
    {
        let mut text = String::new();
        let mut empty = true;
        let ghost mut names: Seq<Seq<char>> = Seq::empty();
        if state & Self::INIT != 0 {
            Self::append_name(&mut text, "INIT", empty, Ghost(names));
            empty = false;
            proof {
                names = names.push("INIT"@);
            }
        }
        if state & Self::LEADER != 0 {
            Self::append_name(&mut text, "LEADER", empty, Ghost(names));
            empty = false;
            proof {
                names = names.push("LEADER"@);
            }
        }
        if state & Self::LOCKED_WAITING != 0 {
            Self::append_name(&mut text, "LOCKED_WAITING", empty, Ghost(names));
            empty = false;
            proof {
                names = names.push("LOCKED_WAITING"@);
            }
        }
        if state & Self::COMPLETE != 0 {
            Self::append_name(&mut text, "COMPLETE", empty, Ghost(names));
            empty = false;
            proof {
                names = names.push("COMPLETE"@);
            }
        }
        proof {
            assert(names =~= flag_names(state));
            assert(state & 15u8 == 0 ==> state & 1u8 == 0 && state & 2u8 == 0 && state & 4u8 == 0
                && state & 8u8 == 0) by (bit_vector);
            assert(state & 15u8 == 1 ==> state & 1u8 != 0 && state & 2u8 == 0 && state & 4u8 == 0
                && state & 8u8 == 0) by (bit_vector);
            assert(state & 15u8 == 2 ==> state & 1u8 == 0 && state & 2u8 != 0 && state & 4u8 == 0
                && state & 8u8 == 0) by (bit_vector);
            assert(state & 15u8 == 4 ==> state & 1u8 == 0 && state & 2u8 == 0 && state & 4u8 != 0
                && state & 8u8 == 0) by (bit_vector);
            assert(state & 15u8 == 8 ==> state & 1u8 == 0 && state & 2u8 == 0 && state & 4u8 == 0
                && state & 8u8 != 0) by (bit_vector);
        }
        if empty {
            text.append("NO_STATE");
        }
        text
    }

    /// Adds one more name to the joined `names`.
    fn append_name(text: &mut String, name: &str, first: bool, Ghost(names): Ghost<Seq<Seq<char>>>)
        requires
            old(text)@ == join(names, " | "@),
            first == (names.len() == 0),
        ensures
            final(text)@ == join(names.push(name@), " | "@),
    {
        proof {
            assert(names.push(name@).drop_last() =~= names);
        }
        if !first {
            text.append(" | ");
        }
        text.append(name);
    }
}

/// The names of the flags set in `state`, in the order of their bits.
pub open spec fn flag_names(state: u8) -> Seq<Seq<char>> {
    (if state & WriterState::INIT != 0 {
        seq!["INIT"@]
    } else {
        seq![]
    }) + (if state & WriterState::LEADER != 0 {
        seq!["LEADER"@]
    } else {
        seq![]
    }) + (if state & WriterState::LOCKED_WAITING != 0 {
        seq!["LOCKED_WAITING"@]
    } else {
        seq![]
    }) + (if state & WriterState::COMPLETE != 0 {
        seq!["COMPLETE"@]
    } else {
        seq![]
    })
}

/// `parts` with `separator` between each two of them.
pub open spec fn join(parts: Seq<Seq<char>>, separator: Seq<char>) -> Seq<char>
    decreases parts.len(),
{
    if parts.len() == 0 {
        Seq::empty()
    } else if parts.len() == 1 {
        parts[0]
    } else {
        join(parts.drop_last(), separator) + separator + parts.last()
    }
}

/// How a state is shown: its flags, or a word for none.
pub open spec fn state_text(state: u8) -> Seq<char> {
    if flag_names(state).len() == 0 {
        "NO_STATE"@
    } else {
        join(flag_names(state), " | "@)
    }
}

/// One caller's write, waiting in the queue of a `WriteThread`.
///
/// Writers live in the queue's table and refer to each other by their index
/// there. What is known of the batch is fixed when the writer is made: a batch
/// does not change once its writer is in the queue.
#[derive(Debug, Clone, Copy)]
pub struct Writer {
    /// Serialized size of the batch.
    pub batch_size: usize,
    /// Whether the batch holds no operation.
    pub batch_empty: bool,
    /// Flags of `WriterState`.
    pub state: u8,
    /// The writer that entered the queue just before this one.
    pub link_older: Option<usize>,
    /// The writer that comes just after this one in its group.
    pub group_next: Option<usize>,
    /// Whether the write is synced to disk.
    pub sync: bool,
}

impl Writer {
    /// A writer for `batch` that has not entered the queue. It asks for a sync
    /// of the log.
    pub fn new(batch: &BatchInner) -> (writer: Self)
        ensures
            writer == (Writer {
                batch_size: batch.data@.len() as usize,
                batch_empty: batch.count == 0,
                state: 0,
                link_older: None,
                group_next: None,
                sync: true,
            }),
    {
        Writer {
            batch_size: batch.get_batch_size(),
            batch_empty: batch.get_batch_count() == 0,
            state: 0,
            link_older: None,
            group_next: None,
            sync: true,
        }
    }

    /// Starts a follower's wait for its leader.
    pub fn wait(&self) -> (wait: WriterWait)
        requires
            self.state & WriterState::INIT != 0,
        ensures
            wait == (WriterWait { polls: 0, blocked: false }),
    {
        WriterWait { polls: 0, blocked: false }
    }

    /// Starts a wait that goes to sleep without polling.
    pub fn wait_and_block(&self) -> (wait: WriterWait)
        ensures
            forall|state: u8| #[trigger] wait_step(wait, state) == WaitStep::Announce,
            wait.polls == WAIT_PAUSE_ITERATIONS + YIELD_PAUSE_ITERATIONS,
            wait == (WriterWait { polls: 264, blocked: false }),
    {
        WriterWait { polls: WAIT_PAUSE_ITERATIONS + YIELD_PAUSE_ITERATIONS, blocked: false }
    }

    /// Whether the writer leads its group.
    pub fn is_leader(&self) -> (leads: bool)
        ensures
            leads == (self.state & WriterState::LEADER != 0),
    {
        self.state & WriterState::LEADER != 0
    }
}

/// How often a waiting writer polls with a pause between the polls.
pub const WAIT_PAUSE_ITERATIONS: u32 = 200;

/// How often it then polls with a yield between the polls.
pub const YIELD_PAUSE_ITERATIONS: u32 = 64;

/// What a waiting writer does next.
#[derive(Debug, Clone, Copy, PartialEq, Eq, Structural)]
pub enum WaitStep {
    /// The wait is over.
    Return,
    /// Pause for a moment, then look again.
    Spin,
    /// Let other threads run, then look again.
    Yield,
    /// Set `LOCKED_WAITING` in the state, then look again.
    Announce,
    /// Sleep until woken, then look again.
    Park,
}

/// A follower's wait for its leader.
///
/// Each time the writer looks at its state, `observe` says what to do next. It
/// polls with pauses first, then with yields, and at last goes to sleep. While
/// it polls only `COMPLETE` ends the wait; a sleeping writer may also wake up
/// as the next leader.
#[derive(Debug, Clone, Copy, PartialEq, Eq, Structural)]
pub struct WriterWait {
    pub polls: u32,
    pub blocked: bool,
}

/// The step that follows on seeing `state`.
pub open spec fn wait_step(wait: WriterWait, state: u8) -> WaitStep {
    if wait.blocked {
        if state & WriterState::COMPLETE != 0 || state & WriterState::LEADER != 0 {
            WaitStep::Return
        } else {
            WaitStep::Park
        }
    } else if wait.polls >= WAIT_PAUSE_ITERATIONS + YIELD_PAUSE_ITERATIONS {
        WaitStep::Announce
    } else if state & WriterState::COMPLETE != 0 {
        WaitStep::Return
    } else if wait.polls < WAIT_PAUSE_ITERATIONS {
        WaitStep::Spin
    } else {
        WaitStep::Yield
    }
}

/// The wait after `step` has been taken.
pub open spec fn wait_after(wait: WriterWait, step: WaitStep) -> WriterWait {
    match step {
        WaitStep::Spin | WaitStep::Yield => WriterWait { polls: (wait.polls + 1) as u32, ..wait },
        WaitStep::Announce => WriterWait { blocked: true, ..wait },
        WaitStep::Return | WaitStep::Park => wait,
    }
}

impl WriterWait {
    /// Decides what to do on seeing `state`.
    pub fn observe(&mut self, state: u8) -> (step: WaitStep)
        ensures
            step == wait_step(*old(self), state),
            *final(self) == wait_after(*old(self), step),
            old(self).blocked ==> {
                &&& *final(self) == *old(self)
                &&& step == WaitStep::Return <==> state & 2u8 != 0 || state & 8u8 != 0
                &&& step == WaitStep::Park <==> state & 2u8 == 0 && state & 8u8 == 0
            },
            !old(self).blocked && old(self).polls < 264 ==> {
                &&& step == WaitStep::Return <==> state & 8u8 != 0
                &&& step == WaitStep::Spin <==> state & 8u8 == 0 && old(self).polls < 200
                &&& step == WaitStep::Yield <==> state & 8u8 == 0 && 200 <= old(self).polls
                &&& !final(self).blocked
                &&& final(self).polls == old(self).polls + (if state & 8u8 == 0 {
                    1int
                } else {
                    0
                })
            },
            !old(self).blocked && 264 <= old(self).polls ==> {
                &&& step == WaitStep::Announce
                &&& *final(self) == (WriterWait { polls: old(self).polls, blocked: true })
            },
    {
        if self.blocked {
            if state & WriterState::COMPLETE != 0 || state & WriterState::LEADER != 0 {
                WaitStep::Return
            } else {
                WaitStep::Park
            }
        } else if self.polls >= WAIT_PAUSE_ITERATIONS + YIELD_PAUSE_ITERATIONS {
            self.blocked = true;
            WaitStep::Announce
        } else if state & WriterState::COMPLETE != 0 {
            WaitStep::Return
        } else if self.polls < WAIT_PAUSE_ITERATIONS {
            self.polls = self.polls + 1;
            WaitStep::Spin
        } else {
            self.polls = self.polls + 1;
            WaitStep::Yield
        }
    }
}

/// A completed write ends the wait at the next look, or, if that look is the
/// one at which the writer goes to sleep, at the look after it.
pub proof fn law_completed_writer_returns(wait: WriterWait, state: u8, later: u8)
    requires
        state & WriterState::COMPLETE != 0,
        later & WriterState::COMPLETE != 0,
    ensures
        wait_step(wait, state) == WaitStep::Return || {
            &&& wait_step(wait, state) == WaitStep::Announce
            &&& wait_step(wait_after(wait, WaitStep::Announce), later) == WaitStep::Return
        },
{
}

/// A writer never returns while its write is incomplete, unless it slept and
/// woke up as leader.
pub proof fn law_writer_returns_only_when_done(wait: WriterWait, state: u8)
    requires
        wait_step(wait, state) == WaitStep::Return,
    ensures
        state & WriterState::COMPLETE != 0 || (wait.blocked && state & WriterState::LEADER != 0),
{
}

/// A writer that sleeps is woken by either end of its wait: it returns as soon as
/// it sees that its write is complete or that it leads, whatever else its state
/// says, and sleeps on as long as it sees neither.
pub proof fn law_sleeping_writer_wakes(wait: WriterWait, state: u8)
    requires
        wait.blocked,
    ensures
        state & 2u8 != 0 ==> wait_step(wait, state) == WaitStep::Return,
        state & 8u8 != 0 ==> wait_step(wait, state) == WaitStep::Return,
        state & 2u8 == 0 && state & 8u8 == 0 ==> wait_step(wait, state) == WaitStep::Park,
        wait_after(wait, wait_step(wait, state)) == wait,
{
}

/// A follower's wait runs its course. Take the looks of a writer at its state,
/// from the first on, none of which shows a complete write: it pauses two hundred
/// times, yields sixty-four times, announces that it goes to sleep, and sleeps from
/// then on until it leads.
pub proof fn law_wait_runs_its_course(waits: Seq<WriterWait>, states: Seq<u8>, i: int)
    requires
        waits.len() == states.len(),
        0 <= i < states.len(),
        waits[0] == (WriterWait { polls: 0, blocked: false }),
        forall|k: int|
            0 <= k < states.len() - 1 ==> #[trigger] waits[k + 1] == wait_after(
                waits[k],
                wait_step(waits[k], states[k]),
            ),
        forall|k: int| 0 <= k < states.len() ==> (#[trigger] states[k]) & 8u8 == 0,
    ensures
        i < 200 ==> wait_step(waits[i], states[i]) == WaitStep::Spin,
        200 <= i < 264 ==> wait_step(waits[i], states[i]) == WaitStep::Yield,
        i == 264 ==> wait_step(waits[i], states[i]) == WaitStep::Announce,
        264 < i ==> wait_step(waits[i], states[i]) == (if states[i] & 2u8 != 0 {
            WaitStep::Return
        } else {
            WaitStep::Park
        }),
        waits[i] == (WriterWait {
            polls: (if i < 264 {
                i
            } else {
                264
            }) as u32,
            blocked: 264 < i,
        }),
    decreases i,
{
    assert(states[i] & 8u8 == 0);
    if i > 0 {
        law_wait_runs_its_course(waits, states, i - 1);
        assert(waits[(i - 1) + 1] == wait_after(waits[i - 1], wait_step(waits[i - 1], states[i - 1])));
    }
}

/// A state is shown by the names of its flags and nothing else: a name is there
/// exactly where its bit is set, and the names stand in the order of the bits.
pub proof fn law_state_shows_its_flags(state: u8)
    ensures
        flag_names(state).contains("INIT"@) <==> state & 1u8 != 0,
        flag_names(state).contains("LEADER"@) <==> state & 2u8 != 0,
        flag_names(state).contains("LOCKED_WAITING"@) <==> state & 4u8 != 0,
        flag_names(state).contains("COMPLETE"@) <==> state & 8u8 != 0,
        flag_names(state).no_duplicates(),
        forall|i: int|
            0 <= i < flag_names(state).len() ==> {
                let name = #[trigger] flag_names(state)[i];
                name == "INIT"@ || name == "LEADER"@ || name == "LOCKED_WAITING"@ || name
                    == "COMPLETE"@
            },
        state & 1u8 != 0 ==> flag_names(state)[0] == "INIT"@,
        state & 8u8 != 0 ==> flag_names(state).last() == "COMPLETE"@,
        state & 2u8 != 0 && state & 4u8 != 0 ==> flag_names(state).index_of("LEADER"@)
            < flag_names(state).index_of("LOCKED_WAITING"@),
        state & 15u8 == 0 ==> state_text(state) == "NO_STATE"@,
{
    reveal_strlit("INIT");
    reveal_strlit("LEADER");
    reveal_strlit("LOCKED_WAITING");
    reveal_strlit("COMPLETE");
    let names = flag_names(state);
    assert("INIT"@.len() == 4);
    assert("LEADER"@.len() == 6);
    assert("LOCKED_WAITING"@.len() == 14);
    assert("COMPLETE"@.len() == 8);
    assert(state & 15u8 == 0 ==> state & 1u8 == 0 && state & 2u8 == 0 && state & 4u8 == 0 && state
        & 8u8 == 0) by (bit_vector);
    let a: int = if state & 1u8 != 0 { 1 } else { 0 };
    let b: int = if state & 2u8 != 0 { 1 } else { 0 };
    let c: int = if state & 4u8 != 0 { 1 } else { 0 };
    let d: int = if state & 8u8 != 0 { 1 } else { 0 };
    assert(names.len() == a + b + c + d);
    if a == 1 {
        assert(names[0] == "INIT"@);
    }
    if b == 1 {
        assert(names[a] == "LEADER"@);
    }
    if c == 1 {
        assert(names[a + b] == "LOCKED_WAITING"@);
    }
    if d == 1 {
        assert(names[a + b + c] == "COMPLETE"@);
    }
}

/// Joined parts stand one after the other with the separator between each two, and neither
/// before the first nor behind the last.
pub proof fn law_join(parts: Seq<Seq<char>>, part: Seq<char>, separator: Seq<char>)
    ensures
        join(seq![part], separator) == part,
        parts.len() > 0 ==> join(parts.push(part), separator) == join(parts, separator) + separator
            + part,
        join(Seq::<Seq<char>>::empty(), separator).len() == 0,
{
    assert(parts.push(part).drop_last() =~= parts);
}

} // verus!
