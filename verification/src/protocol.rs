//! The turn protocol of one game, as a state machine that is driven by the
//! messages read from the peer, together with the policy for reads that are
//! not ready yet and the tally of a series of games.
//!
//! Nothing here reads or writes: the caller performs each [`Action`] and hands
//! back what it received as the next [`Event`].

use vstd::prelude::*;

verus! {

/// The state of a game as the peer announces it at the start of each turn.
#[derive(Clone, Copy, Debug, PartialEq, Eq, Structural)]
pub enum GameState {
    Ongoing,
    Win,
    Loss,
    Draw,
}

impl GameState {
    /// A game is over once it is won, lost or drawn.
    pub open spec fn terminal(self) -> bool {
        self != GameState::Ongoing
    }

    pub fn is_terminal(&self) -> (b: bool)
        ensures
            b == self.terminal(),
    {
        match self {
            GameState::Ongoing => false,
            _ => true,
        }
    }

    /// The word shown for a finished game; a game that goes on has none.
    pub open spec fn banner_text(self) -> Option<Seq<char>> {
        match self {
            GameState::Ongoing => None,
            GameState::Win => Some("WIN"@),
            GameState::Loss => Some("LOSS"@),
            GameState::Draw => Some("DRAW"@),
        }
    }

    pub fn banner(&self) -> (word: Option<&'static str>)
        ensures
            word is Some <==> self.terminal(),
            match word {
                Some(w) => self.banner_text() == Some(w@),
                None => self.banner_text() is None,
            },
    {
        match self {
            GameState::Ongoing => None,
            GameState::Win => Some("WIN"),
            GameState::Loss => Some("LOSS"),
            GameState::Draw => Some("DRAW"),
        }
    }
}

/// Where the exchange with the peer stands.
#[derive(Clone, Copy, Debug, PartialEq, Eq, Structural)]
pub enum Phase {
    /// Waiting for the fleet configuration.
    AwaitingSetup,
    /// Waiting for the announcement of the game's state.
    AwaitingTurnState,
    /// Waiting for the prompt that asks for shots.
    AwaitingShotPrompt,
    /// Shots are out; waiting for the report on them.
    AwaitingDamageReport,
    /// The peer announced a terminal state.
    Finished(GameState),
    /// The exchange broke down before the game ended.
    Aborted,
}

impl Phase {
    /// No further message is expected.
    pub open spec fn halted(self) -> bool {
        self is Finished || self is Aborted
    }

    pub fn is_halted(&self) -> (b: bool)
        ensures
            b == self.halted(),
    {
        match self {
            Phase::Finished(_) => true,
            Phase::Aborted => true,
            _ => false,
        }
    }
}

/// What a read from the peer produced, by kind.
#[derive(Clone, Copy, Debug, PartialEq, Eq, Structural)]
pub enum Event {
    /// A fleet configuration.
    Setup,
    /// An announcement of the game's state.
    TurnState(GameState),
    /// A prompt to shoot; what it carries is not used.
    ShotPrompt,
    /// A report on the shots of this turn.
    DamageReport,
    /// The line could not be read or understood, or the peer hung up.
    Desync,
}

/// What the caller has to do after an event.
#[derive(Clone, Copy, Debug, PartialEq, Eq, Structural)]
pub enum Action {
    /// Place the fleet and send its description.
    PlaceAndReportFleet,
    /// Nothing to send; read the next message.
    Continue,
    /// Ask the targeting engine for shots and send them.
    SendShots,
    /// Hand the report to the board and the targeting engine.
    ApplyReport,
    /// Leave the loop and show the outcome.
    Exit(GameState),
    /// Leave the loop: the exchange is out of step.
    Abort,
    /// The loop has already been left.
    Halt,
}

/// The transition table of the protocol.
pub open spec fn step(phase: Phase, event: Event) -> (Phase, Action) {
    match (phase, event) {
        (Phase::Finished(_), _) => (phase, Action::Halt),
        (Phase::Aborted, _) => (phase, Action::Halt),
        (Phase::AwaitingSetup, Event::Setup) => (
            Phase::AwaitingTurnState,
            Action::PlaceAndReportFleet,
        ),
        (Phase::AwaitingTurnState, Event::TurnState(state)) => if state.terminal() {
            (Phase::Finished(state), Action::Exit(state))
        } else {
            (Phase::AwaitingShotPrompt, Action::Continue)
        },
        (Phase::AwaitingShotPrompt, Event::ShotPrompt) => (
            Phase::AwaitingDamageReport,
            Action::SendShots,
        ),
        (Phase::AwaitingDamageReport, Event::DamageReport) => (
            Phase::AwaitingTurnState,
            Action::ApplyReport,
        ),
        _ => (Phase::Aborted, Action::Abort),
    }
}

/// Takes one event in `phase` and says where the exchange stands afterwards
/// and what is to be done.
pub fn advance(phase: Phase, event: Event) -> (next: (Phase, Action))
    ensures
        next == step(phase, event),
{
    match phase {
        Phase::Finished(_) => (phase, Action::Halt),
        Phase::Aborted => (phase, Action::Halt),
        Phase::AwaitingSetup => match event {
            Event::Setup => (Phase::AwaitingTurnState, Action::PlaceAndReportFleet),
            _ => (Phase::Aborted, Action::Abort),
        },
        Phase::AwaitingTurnState => match event {
            Event::TurnState(state) => {
                if state.is_terminal() {
                    (Phase::Finished(state), Action::Exit(state))
                } else {
                    (Phase::AwaitingShotPrompt, Action::Continue)
                }
            },
            _ => (Phase::Aborted, Action::Abort),
        },
        Phase::AwaitingShotPrompt => match event {
            Event::ShotPrompt => (Phase::AwaitingDamageReport, Action::SendShots),
            _ => (Phase::Aborted, Action::Abort),
        },
        Phase::AwaitingDamageReport => match event {
            Event::DamageReport => (Phase::AwaitingTurnState, Action::ApplyReport),
            _ => (Phase::Aborted, Action::Abort),
        },
    }
}

/// The phase reached from `phase` after all of `events`, in order.
pub open spec fn phase_after(phase: Phase, events: Seq<Event>) -> Phase
    decreases events.len(),
{
    if events.len() == 0 {
        phase
    } else {
        step(phase_after(phase, events.drop_last()), events.last()).0
    }
}

/// The action that the `i`-th of `events` calls for when the exchange starts
/// in `phase`.
pub open spec fn action_at(phase: Phase, events: Seq<Event>, i: int) -> Action
    recommends
        0 <= i < events.len(),
{
    step(phase_after(phase, events.take(i)), events[i]).1
}

/// A halted exchange stays halted, in the same phase, whatever arrives.
pub proof fn lemma_halted_is_absorbing(phase: Phase, events: Seq<Event>)
    requires
        phase.halted(),
    ensures
        phase_after(phase, events) == phase,
    decreases events.len(),
{
    if events.len() > 0 {
        lemma_halted_is_absorbing(phase, events.drop_last());
    }
}

/// Once the peer has announced a terminal state, no event that follows makes
/// the player shoot, place a fleet or apply a report: every later action is
/// `Halt`.
pub proof fn lemma_nothing_after_halt(phase: Phase, events: Seq<Event>, i: int)
    requires
        phase.halted(),
        0 <= i < events.len(),
    ensures
        action_at(phase, events, i) == Action::Halt,
{
    lemma_halted_is_absorbing(phase, events.take(i));
}

/// A terminal announcement ends the loop at once with that outcome, and an
/// ongoing one asks for the shot prompt.
pub proof fn lemma_turn_state_decides(state: GameState)
    ensures
        state.terminal() ==> step(Phase::AwaitingTurnState, Event::TurnState(state)) == (
            Phase::Finished(state),
            Action::Exit(state),
        ),
        !state.terminal() ==> step(Phase::AwaitingTurnState, Event::TurnState(state)) == (
            Phase::AwaitingShotPrompt,
            Action::Continue,
        ),
{
}

/// A read that fails while a message is awaited aborts the exchange; the
/// phase that results is never a finished game, so an abort cannot be taken
/// for a loss.
pub proof fn lemma_desync_aborts(phase: Phase)
    requires
        !phase.halted(),
    ensures
        step(phase, Event::Desync) == (Phase::Aborted, Action::Abort),
        !(step(phase, Event::Desync).0 is Finished),
{
}

/// What one attempt to read a line ended in.
#[derive(Clone, Copy, Debug, PartialEq, Eq, Structural)]
pub enum ReadOutcome {
    /// A whole line arrived.
    Line,
    /// The stream ended: the peer closed the connection.
    Closed,
    /// Nothing to read yet on a stream that does not block.
    WouldBlock,
    /// Any other failure of the stream.
    Failed,
}

/// Why a read was given up.
#[derive(Clone, Copy, Debug, PartialEq, Eq, Structural)]
pub enum ReadFailure {
    PeerClosed,
    TimedOut,
    Io,
}

/// What to do after an attempt to read.
#[derive(Clone, Copy, Debug, PartialEq, Eq, Structural)]
pub enum ReadDecision {
    /// Decode the line.
    Deliver,
    /// Wait for the given number of milliseconds and read again.
    RetryAfter(u64),
    /// Stop reading.
    GiveUp(ReadFailure),
}

/// How long to wait between two reads of a stream that is not ready, and how
/// often to try.
#[derive(Clone, Copy, Debug, PartialEq, Eq, Structural)]
pub struct RetryPolicy {
    /// Milliseconds between two attempts.
    pub interval_ms: u64,
    /// The number of waits after which a read counts as timed out; `None` for
    /// no limit.
    pub max_retries: Option<u32>,
}

/// The pause between two attempts to read, in milliseconds.
pub const RETRY_INTERVAL_MS: u64 = 100;

impl RetryPolicy {
    /// A fixed pause of `interval_ms` milliseconds, with no limit on the
    /// number of attempts.
    pub fn fixed(interval_ms: u64) -> (policy: RetryPolicy)
        ensures
            policy == (RetryPolicy { interval_ms, max_retries: None }),
    {
        RetryPolicy { interval_ms, max_retries: None }
    }

    /// The policy of the game client: a pause of [`RETRY_INTERVAL_MS`],
    /// without limit.
    pub fn standard() -> (policy: RetryPolicy)
        ensures
            policy == (RetryPolicy { interval_ms: RETRY_INTERVAL_MS, max_retries: None }),
    {
        RetryPolicy { interval_ms: RETRY_INTERVAL_MS, max_retries: None }
    }

    /// Only a stream that is not ready is read again, and only while the
    /// limit, if there is one, has not been reached. A closed stream and any
    /// other failure end the read.
    pub open spec fn decision(self, outcome: ReadOutcome, retries: u32) -> ReadDecision {
        match outcome {
            ReadOutcome::Line => ReadDecision::Deliver,
            ReadOutcome::Closed => ReadDecision::GiveUp(ReadFailure::PeerClosed),
            ReadOutcome::Failed => ReadDecision::GiveUp(ReadFailure::Io),
            ReadOutcome::WouldBlock => match self.max_retries {
                Some(limit) if retries >= limit => ReadDecision::GiveUp(ReadFailure::TimedOut),
                _ => ReadDecision::RetryAfter(self.interval_ms),
            },
        }
    }

    /// Decides what follows an attempt to read that ended in `outcome` after
    /// `retries` earlier waits for the same message.
    pub fn decide(&self, outcome: ReadOutcome, retries: u32) -> (d: ReadDecision)
        ensures
            d == self.decision(outcome, retries),
    {
        match outcome {
            ReadOutcome::Line => ReadDecision::Deliver,
            ReadOutcome::Closed => ReadDecision::GiveUp(ReadFailure::PeerClosed),
            ReadOutcome::Failed => ReadDecision::GiveUp(ReadFailure::Io),
            ReadOutcome::WouldBlock => match self.max_retries {
                Some(limit) => {
                    if retries >= limit {
                        ReadDecision::GiveUp(ReadFailure::TimedOut)
                    } else {
                        ReadDecision::RetryAfter(self.interval_ms)
                    }
                },
                None => ReadDecision::RetryAfter(self.interval_ms),
            },
        }
    }
}

/// The tally of a series of games: how many are still to be played and how
/// many were won and lost.
#[derive(Clone, Copy, Debug)]
pub struct MatchSeries {
    remaining: i32,
    playing: bool,
    wins: i32,
    losses: i32,
}

/// The mathematical content of a [`MatchSeries`].
pub struct SeriesModel {
    pub remaining: int,
    pub playing: bool,
    pub wins: int,
    pub losses: int,
}

impl SeriesModel {
    /// A series of `count` games; a negative count is a series of none.
    pub open spec fn fresh(count: int) -> SeriesModel {
        SeriesModel { remaining: if count > 0 { count } else { 0 }, playing: false, wins: 0, losses: 0 }
    }

    /// Whether another game can be started now.
    pub open spec fn can_begin(self) -> bool {
        !self.playing && self.remaining > 0
    }

    /// Starting a game takes it from those that remain.
    pub open spec fn begin(self) -> SeriesModel {
        if self.can_begin() {
            SeriesModel { remaining: self.remaining - 1, playing: true, ..self }
        } else {
            self
        }
    }

    /// Ending the game that is being played counts a win or a loss; a draw or
    /// an abandoned game counts as neither.
    pub open spec fn finish(self, outcome: GameState) -> SeriesModel {
        if !self.playing {
            self
        } else {
            SeriesModel {
                playing: false,
                wins: if outcome == GameState::Win { self.wins + 1 } else { self.wins },
                losses: if outcome == GameState::Loss { self.losses + 1 } else { self.losses },
                ..self
            }
        }
    }

    /// The games won, lost, being played and still to be played never exceed
    /// what an `i32` holds.
    pub open spec fn wf(self) -> bool {
        &&& self.remaining >= 0
        &&& self.wins >= 0
        &&& self.losses >= 0
        &&& self.wins + self.losses + self.remaining + (if self.playing { 1int } else { 0int })
            <= i32::MAX
    }
}

impl View for MatchSeries {
    type V = SeriesModel;

    closed spec fn view(&self) -> SeriesModel {
        SeriesModel {
            remaining: self.remaining as int,
            playing: self.playing,
            wins: self.wins as int,
            losses: self.losses as int,
        }
    }
}

impl MatchSeries {
    pub open spec fn wf(&self) -> bool {
        self@.wf()
    }

    pub fn new(count: i32) -> (series: MatchSeries)
        ensures
            series@ == SeriesModel::fresh(count as int),
            series.wf(),
    {
        MatchSeries { remaining: if count > 0 { count } else { 0 }, playing: false, wins: 0, losses: 0 }
    }

    /// Starts the next game and says whether there was one to start.
    pub fn begin_game(&mut self) -> (started: bool)
        requires
            old(self).wf(),
        ensures
            started == old(self)@.can_begin(),
            final(self)@ == old(self)@.begin(),
            final(self).wf(),
    {
        if !self.playing && self.remaining > 0 {
            self.remaining = self.remaining - 1;
            self.playing = true;
            true
        } else {
            false
        }
    }

    /// Ends the game that is being played with `outcome`.
    pub fn finish_game(&mut self, outcome: GameState)
        requires
            old(self).wf(),
        ensures
            final(self)@ == old(self)@.finish(outcome),
            final(self).wf(),
    {
        if self.playing {
            self.playing = false;
            match outcome {
                GameState::Win => {
                    self.wins = self.wins + 1;
                },
                GameState::Loss => {
                    self.losses = self.losses + 1;
                },
                _ => {},
            }
        }
    }

    pub fn wins(&self) -> (n: i32)
        ensures
            n == self@.wins,
    {
        self.wins
    }

    pub fn losses(&self) -> (n: i32)
        ensures
            n == self@.losses,
    {
        self.losses
    }

    pub fn remaining(&self) -> (n: i32)
        ensures
            n == self@.remaining,
    {
        self.remaining
    }
}

} // verus!
