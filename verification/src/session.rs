//! One game as the client plays it: the turn protocol together with the
//! player's own board and the targeting engine.
//!
//! The caller reads the peer's messages and hands each to the session, which
//! says what to send back. The session places the fleet when it starts,
//! proposes the shots of each turn, and applies each damage report to the
//! board and to the engine.

use crate::belief::{
    lemma_hits_leave_marks, lemma_misses_leave_none_unknown, lemma_record_hits_keeps_wf,
    lemma_record_misses_keeps_wf, lemma_selection_sound, EngineModel,
};
use crate::board::{lemma_apply_shots_keeps_wf, lemma_legal_fleet_fits, BoardModel, LocalBoard};
use crate::coord::{copy_coords, Coord};
use crate::placement::{
    attempt_picks, first_placement, fleet_model, lemma_first_placement, place_fleet_in_attempts,
    PlacedModel, PlacedShip, PlacementError,
};
use crate::protocol::{advance, step, Action, Event, GameState, Phase};
use crate::setup::{ClassLengths, GameSetup};
use crate::targeting::TargetingEngine;
use vstd::prelude::*;

verus! {

/// How many shots a player takes in a turn.
#[derive(Clone, Copy, Debug, PartialEq, Eq, Structural)]
pub enum ShotRule {
    /// The same number in every turn.
    Fixed(usize),
    /// One for each ship of the player's fleet that is not destroyed.
    PerLiveShip,
}

/// The mathematical content of a [`ClientSession`].
pub struct SessionModel {
    pub phase: Phase,
    pub rule: ShotRule,
    pub board: BoardModel,
    pub engine: EngineModel,
    /// The shots that were sent and not yet reported on.
    pub last_shots: Seq<Coord>,
}

impl SessionModel {
    pub open spec fn wf(self) -> bool {
        self.board.wf() && self.engine.wf()
    }

    /// The session after the setup arrived and `fleet` was placed: the fleet
    /// is on the board, the engine knows nothing, and the state of the first
    /// turn is awaited.
    pub open spec fn begun(
        setup: GameSetup,
        lengths: ClassLengths,
        rule: ShotRule,
        fleet: Seq<PlacedModel>,
    ) -> SessionModel {
        SessionModel {
            phase: step(Phase::AwaitingSetup, Event::Setup).0,
            rule,
            board: BoardModel::empty(setup.height as int, setup.width as int).with_fleet(fleet)->0,
            engine: EngineModel::fresh(setup.height as int, setup.width as int, lengths.least()),
            last_shots: Seq::empty(),
        }
    }

    /// The number of shots of the next turn.
    pub open spec fn shot_count(self) -> nat {
        match self.rule {
            ShotRule::Fixed(n) => n as nat,
            ShotRule::PerLiveShip => self.board.live_ships() as nat,
        }
    }

    /// The announcement of the game's state moves the protocol on and touches
    /// nothing else.
    pub open spec fn after_turn_state(self, state: GameState) -> SessionModel {
        SessionModel { phase: step(self.phase, Event::TurnState(state)).0, ..self }
    }

    /// A prompt that arrives when it is due makes the engine select the
    /// shots of the turn, which the session remembers. At any other time it
    /// only moves the protocol on.
    pub open spec fn after_shot_prompt(self) -> SessionModel {
        let (phase, action) = step(self.phase, Event::ShotPrompt);
        if action == Action::SendShots {
            SessionModel {
                phase,
                last_shots: self.engine.selection(Seq::empty(), self.shot_count()),
                ..self
            }
        } else {
            SessionModel { phase, ..self }
        }
    }

    /// A report that arrives when it is due is applied: the damaged
    /// coordinates are shot at on the board, the hits are recorded by the
    /// engine, and what else was shot at in this turn is recorded as missed.
    /// At any other time it only moves the protocol on.
    pub open spec fn after_report(self, damaged: Seq<Coord>, hits: Seq<Coord>) -> SessionModel {
        let (phase, action) = step(self.phase, Event::DamageReport);
        if action == Action::ApplyReport {
            SessionModel {
                phase,
                rule: self.rule,
                board: self.board.apply_shots(damaged),
                engine: self.engine.record_hits(hits).record_misses(self.last_shots),
                last_shots: Seq::empty(),
            }
        } else {
            SessionModel { phase, ..self }
        }
    }

    /// A failed read moves the protocol on and touches nothing else.
    pub open spec fn after_desync(self) -> SessionModel {
        SessionModel { phase: step(self.phase, Event::Desync).0, ..self }
    }
}

/// Once the exchange has halted, no message changes anything: no shots are
/// selected and no report is applied.
pub proof fn lemma_halted_session_stays(
    m: SessionModel,
    state: GameState,
    damaged: Seq<Coord>,
    hits: Seq<Coord>,
)
    requires
        m.phase.halted(),
    ensures
        m.after_turn_state(state) == m,
        m.after_shot_prompt() == m,
        m.after_report(damaged, hits) == m,
        m.after_desync() == m,
{
}

/// When the peer announces a terminal state, the session is finished with
/// that state, and a prompt that follows selects no shots.
pub proof fn lemma_terminal_state_ends_session(m: SessionModel, state: GameState)
    requires
        m.phase == Phase::AwaitingTurnState,
        state.terminal(),
    ensures
        m.after_turn_state(state).phase == Phase::Finished(state),
        step(m.after_turn_state(state).phase, Event::ShotPrompt).1 == Action::Halt,
        m.after_turn_state(state).after_shot_prompt() == m.after_turn_state(state),
{
}

/// Applying a report keeps a session well formed.
pub proof fn lemma_report_keeps_wf(m: SessionModel, damaged: Seq<Coord>, hits: Seq<Coord>)
    requires
        m.wf(),
    ensures
        m.after_report(damaged, hits).wf(),
{
    lemma_apply_shots_keeps_wf(m.board, damaged);
    lemma_record_hits_keeps_wf(m.engine, hits);
    lemma_record_misses_keeps_wf(m.engine.record_hits(hits), m.last_shots);
}

/// No cell is shot at in two turns. Once the report on a turn is applied,
/// each shot of the turn is marked as a hit or as a miss, and no cell that
/// was marked before has become unknown; so the shots of the next turn, which
/// are all unknown cells, are none of them.
pub proof fn lemma_no_cell_is_shot_twice(
    m: SessionModel,
    damaged: Seq<Coord>,
    hits: Seq<Coord>,
    c: Coord,
)
    requires
        m.wf(),
        m.phase == Phase::AwaitingDamageReport,
        m.last_shots.contains(c) || !m.engine.unknown(c),
    ensures
        !m.after_report(damaged, hits).engine.unknown(c),
        forall|count: nat|
            !(#[trigger] m.after_report(damaged, hits).engine.selection(
                Seq::empty(),
                count,
            )).contains(c),
{
    broadcast use vstd::seq_lib::group_seq_properties;

    let after = m.after_report(damaged, hits).engine;
    let hit = m.engine.record_hits(hits);
    lemma_record_hits_keeps_wf(m.engine, hits);
    lemma_record_misses_keeps_wf(hit, m.last_shots);
    lemma_hits_leave_marks(m.engine, hits, c);
    lemma_misses_leave_none_unknown(hit, m.last_shots, c);
    assert(!after.unknown(c));
    assert forall|count: nat|
        !(#[trigger] after.selection(Seq::empty(), count)).contains(c) by {
        lemma_selection_sound(after, Seq::empty(), count);
        let sel = after.selection(Seq::empty(), count);
        if sel.contains(c) {
            let k = choose|k: int| 0 <= k < sel.len() && sel[k] == c;
            assert(after.open_to(Seq::empty(), sel[k]));
        }
    }
}

/// One game of the client.
#[derive(Clone, Debug)]
pub struct ClientSession {
    phase: Phase,
    rule: ShotRule,
    board: LocalBoard,
    engine: TargetingEngine,
    last_shots: Vec<Coord>,
}

impl View for ClientSession {
    type V = SessionModel;

    closed spec fn view(&self) -> SessionModel {
        SessionModel {
            phase: self.phase,
            rule: self.rule,
            board: self.board@,
            engine: self.engine@,
            last_shots: self.last_shots@,
        }
    }
}

impl ClientSession {
    /// The board and the engine are well formed.
    pub closed spec fn wf(&self) -> bool {
        self.board.wf() && self.engine.wf()
    }

    /// What well-formedness says of the content.
    pub proof fn lemma_wf_content(&self)
        requires
            self.wf(),
        ensures
            self@.wf(),
    {
        self.board.lemma_wf_content();
        self.engine.lemma_wf_content();
    }

    /// Takes the setup that the peer announced, places the fleet and opens
    /// the session. The fleet that comes back is to be reported to the peer.
    /// `attempts` holds the picks of each attempt to place the fleet, as for
    /// [`place_fleet_in_attempts`].
    ///
    /// `PlacementInfeasible` comes back exactly when no attempt places a
    /// fleet for this setup.
    pub fn start(
        setup: &GameSetup,
        lengths: &ClassLengths,
        rule: ShotRule,
        attempts: &Vec<Vec<u64>>,
    ) -> (r: Result<(ClientSession, Vec<PlacedShip>), PlacementError>)
        ensures
            match r {
                Ok((session, fleet)) => {
                    &&& first_placement(*setup, *lengths, attempt_picks(attempts@), 0) == Some(
                        fleet_model(fleet@),
                    )
                    &&& session.wf()
                    &&& session@ == SessionModel::begun(*setup, *lengths, rule, fleet_model(fleet@))
                    &&& session@.phase == Phase::AwaitingTurnState
                },
                Err(e) => first_placement(*setup, *lengths, attempt_picks(attempts@), 0) is None,
            },
    {
        proof {
            lemma_first_placement(*setup, *lengths, attempt_picks(attempts@), 0);
        }
        let fleet = match place_fleet_in_attempts(setup, lengths, attempts) {
            Ok(fleet) => fleet,
            Err(e) => {
                return Err(e);
            },
        };
        let ships = fleet.len();
        proof {
            assert(fleet_model(fleet@).len() == ships);
            lemma_legal_fleet_fits(setup.height as int, setup.width as int, fleet_model(fleet@));
        }
        let board = match LocalBoard::from_fleet(setup.height, setup.width, &fleet) {
            Some(board) => board,
            None => {
                proof {
                    assert(false);
                }
                return Err(PlacementError::PlacementInfeasible);
            },
        };
        let engine = TargetingEngine::new(setup.height, setup.width, lengths.shortest());
        let session = ClientSession {
            phase: Phase::AwaitingTurnState,
            rule,
            board,
            engine,
            last_shots: Vec::new(),
        };
        Ok((session, fleet))
    }

    /// Where the exchange stands.
    pub fn phase(&self) -> (p: Phase)
        ensures
            p == self@.phase,
    {
        self.phase
    }

    /// The player's own board.
    pub fn board(&self) -> (b: &LocalBoard)
        ensures
            b@ == self@.board,
            self.wf() ==> b.wf(),
    {
        &self.board
    }

    /// The targeting engine.
    pub fn engine(&self) -> (e: &TargetingEngine)
        ensures
            e@ == self@.engine,
            self.wf() ==> e.wf(),
    {
        &self.engine
    }

    /// The number of shots of the next turn.
    pub fn shot_count(&self) -> (n: usize)
        ensures
            n == self@.shot_count(),
    {
        match self.rule {
            ShotRule::Fixed(n) => n,
            ShotRule::PerLiveShip => self.board.live_ships(),
        }
    }

    /// Takes the announcement of the game's state. `Exit` comes back for a
    /// terminal state, `Continue` for a game that goes on.
    pub fn turn_state(&mut self, state: GameState) -> (action: Action)
        requires
            old(self).wf(),
        ensures
            final(self).wf(),
            final(self)@ == old(self)@.after_turn_state(state),
            action == step(old(self)@.phase, Event::TurnState(state)).1,
    {
        let (phase, action) = advance(self.phase, Event::TurnState(state));
        self.phase = phase;
        action
    }

    /// Takes the prompt to shoot. Where the prompt is due, the shots of the
    /// turn come back, to be sent to the peer; at any other time `None`.
    pub fn shot_prompt(&mut self) -> (r: (Action, Option<Vec<Coord>>))
        requires
            old(self).wf(),
        ensures
            final(self).wf(),
            final(self)@ == old(self)@.after_shot_prompt(),
            r.0 == step(old(self)@.phase, Event::ShotPrompt).1,
            match r.1 {
                Some(shots) => r.0 == Action::SendShots && shots@ == final(self)@.last_shots,
                None => r.0 != Action::SendShots,
            },
    {
        let (phase, action) = advance(self.phase, Event::ShotPrompt);
        self.phase = phase;
        match action {
            Action::SendShots => {
                let shots = self.engine.select_shots(self.shot_count());
                self.last_shots = copy_coords(&shots);
                (action, Some(shots))
            },
            _ => (action, None),
        }
    }

    /// Takes the report on the shots of the turn. Where it is due, the
    /// damaged coordinates are applied to the board, the hits are recorded by
    /// the engine, and the other shots of the turn are recorded as missed.
    pub fn damage_report(&mut self, coords_damaged: &Vec<Coord>, shots_hit: &Vec<Coord>) -> (action:
        Action)
        requires
            old(self).wf(),
        ensures
            final(self).wf(),
            final(self)@ == old(self)@.after_report(coords_damaged@, shots_hit@),
            action == step(old(self)@.phase, Event::DamageReport).1,
    {
        let (phase, action) = advance(self.phase, Event::DamageReport);
        self.phase = phase;
        match action {
            Action::ApplyReport => {
                self.board.apply_shots(coords_damaged);
                self.engine.record_hits(shots_hit);
                self.engine.record_misses(&self.last_shots);
                self.last_shots = Vec::new();
            },
            _ => {},
        }
        action
    }

    /// Takes note of a read that failed: the exchange is aborted unless it
    /// had halted before.
    pub fn desync(&mut self) -> (action: Action)
        requires
            old(self).wf(),
        ensures
            final(self).wf(),
            final(self)@ == old(self)@.after_desync(),
            action == step(old(self)@.phase, Event::Desync).1,
    {
        let (phase, action) = advance(self.phase, Event::Desync);
        self.phase = phase;
        action
    }

    /// Passes the report of a sunk ship at `c` on to the engine.
    pub fn report_sunk(&mut self, c: Coord)
        requires
            old(self).wf(),
        ensures
            final(self).wf(),
            final(self)@ == (SessionModel {
                engine: old(self)@.engine.record_sunk(c),
                ..old(self)@
            }),
    {
        self.engine.record_sunk(c);
    }
}

} // verus!
