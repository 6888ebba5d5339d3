use battleship::protocol::{
    advance, Action, Event, GameState, MatchSeries, Phase, ReadDecision, ReadFailure, ReadOutcome,
    RetryPolicy, RETRY_INTERVAL_MS,
};

#[test]
fn terminal_transition() {
    let (phase, action) = advance(Phase::AwaitingTurnState, Event::TurnState(GameState::Win));
    assert_eq!(phase, Phase::Finished(GameState::Win));
    assert_eq!(action, Action::Exit(GameState::Win));
    assert_eq!(GameState::Win.banner(), Some("WIN"));
    // whatever arrives afterwards, no shots are asked for
    for event in [
        Event::ShotPrompt,
        Event::DamageReport,
        Event::Setup,
        Event::TurnState(GameState::Ongoing),
        Event::Desync,
    ] {
        assert_eq!(advance(phase, event), (Phase::Finished(GameState::Win), Action::Halt));
    }
}

#[test]
fn loss_and_draw_end_the_game_too() {
    assert_eq!(
        advance(Phase::AwaitingTurnState, Event::TurnState(GameState::Loss)),
        (Phase::Finished(GameState::Loss), Action::Exit(GameState::Loss))
    );
    assert_eq!(
        advance(Phase::AwaitingTurnState, Event::TurnState(GameState::Draw)),
        (Phase::Finished(GameState::Draw), Action::Exit(GameState::Draw))
    );
}

#[test]
fn game_state_banners() {
    assert_eq!(GameState::Win.banner(), Some("WIN"));
    assert_eq!(GameState::Loss.banner(), Some("LOSS"));
    assert_eq!(GameState::Draw.banner(), Some("DRAW"));
    assert_eq!(GameState::Ongoing.banner(), None);
    assert!(GameState::Win.is_terminal());
    assert!(GameState::Loss.is_terminal());
    assert!(GameState::Draw.is_terminal());
    assert!(!GameState::Ongoing.is_terminal());
}

#[test]
fn one_turn_goes_round() {
    let (p, a) = advance(Phase::AwaitingSetup, Event::Setup);
    assert_eq!((p, a), (Phase::AwaitingTurnState, Action::PlaceAndReportFleet));
    let (p, a) = advance(p, Event::TurnState(GameState::Ongoing));
    assert_eq!((p, a), (Phase::AwaitingShotPrompt, Action::Continue));
    let (p, a) = advance(p, Event::ShotPrompt);
    assert_eq!((p, a), (Phase::AwaitingDamageReport, Action::SendShots));
    let (p, a) = advance(p, Event::DamageReport);
    assert_eq!((p, a), (Phase::AwaitingTurnState, Action::ApplyReport));
    assert!(!p.is_halted());
}

#[test]
fn failed_read_aborts_and_is_no_loss() {
    for phase in [
        Phase::AwaitingSetup,
        Phase::AwaitingTurnState,
        Phase::AwaitingShotPrompt,
        Phase::AwaitingDamageReport,
    ] {
        let (next, action) = advance(phase, Event::Desync);
        assert_eq!(next, Phase::Aborted);
        assert_eq!(action, Action::Abort);
        assert_ne!(next, Phase::Finished(GameState::Loss));
        assert!(next.is_halted());
    }
    assert_eq!(advance(Phase::Aborted, Event::ShotPrompt), (Phase::Aborted, Action::Halt));
    assert_eq!(advance(Phase::Aborted, Event::Desync), (Phase::Aborted, Action::Halt));
}

#[test]
fn message_out_of_turn_aborts() {
    assert_eq!(
        advance(Phase::AwaitingSetup, Event::ShotPrompt),
        (Phase::Aborted, Action::Abort)
    );
    assert_eq!(
        advance(Phase::AwaitingTurnState, Event::DamageReport),
        (Phase::Aborted, Action::Abort)
    );
    assert_eq!(
        advance(Phase::AwaitingShotPrompt, Event::TurnState(GameState::Win)),
        (Phase::Aborted, Action::Abort)
    );
    assert_eq!(
        advance(Phase::AwaitingDamageReport, Event::Setup),
        (Phase::Aborted, Action::Abort)
    );
}

#[test]
fn only_a_stream_that_is_not_ready_is_read_again() {
    let policy = RetryPolicy::standard();
    assert_eq!(policy.interval_ms, 100);
    assert_eq!(RETRY_INTERVAL_MS, 100);
    assert_eq!(policy.max_retries, None);
    assert_eq!(policy.decide(ReadOutcome::Line, 0), ReadDecision::Deliver);
    assert_eq!(policy.decide(ReadOutcome::Closed, 0), ReadDecision::GiveUp(ReadFailure::PeerClosed));
    assert_eq!(policy.decide(ReadOutcome::Failed, 0), ReadDecision::GiveUp(ReadFailure::Io));
    assert_eq!(policy.decide(ReadOutcome::WouldBlock, 0), ReadDecision::RetryAfter(100));
    assert_eq!(policy.decide(ReadOutcome::WouldBlock, u32::MAX), ReadDecision::RetryAfter(100));
}

#[test]
fn bounded_policy_times_out() {
    let policy = RetryPolicy { interval_ms: 25, max_retries: Some(3) };
    assert_eq!(policy.decide(ReadOutcome::WouldBlock, 0), ReadDecision::RetryAfter(25));
    assert_eq!(policy.decide(ReadOutcome::WouldBlock, 2), ReadDecision::RetryAfter(25));
    assert_eq!(policy.decide(ReadOutcome::WouldBlock, 3), ReadDecision::GiveUp(ReadFailure::TimedOut));
    assert_eq!(policy.decide(ReadOutcome::WouldBlock, 4), ReadDecision::GiveUp(ReadFailure::TimedOut));
    assert_eq!(policy.decide(ReadOutcome::Line, 9), ReadDecision::Deliver);
    assert_eq!(policy.decide(ReadOutcome::Closed, 9), ReadDecision::GiveUp(ReadFailure::PeerClosed));
    assert_eq!(RetryPolicy::fixed(7), RetryPolicy { interval_ms: 7, max_retries: None });
}

#[test]
fn series_counts_wins_and_losses() {
    let mut series = MatchSeries::new(4);
    assert_eq!(series.remaining(), 4);
    for outcome in [GameState::Win, GameState::Loss, GameState::Draw, GameState::Win] {
        assert!(series.begin_game());
        series.finish_game(outcome);
    }
    assert!(!series.begin_game());
    assert_eq!(series.wins(), 2);
    assert_eq!(series.losses(), 1);
    assert_eq!(series.remaining(), 0);
}

#[test]
fn series_counts_each_game_once() {
    let mut series = MatchSeries::new(2);
    // no game is being played: nothing to count
    series.finish_game(GameState::Win);
    assert_eq!(series.wins(), 0);
    assert!(series.begin_game());
    // a game is being played: no other can begin
    assert!(!series.begin_game());
    assert_eq!(series.remaining(), 1);
    // an abandoned game counts as neither
    series.finish_game(GameState::Ongoing);
    assert_eq!((series.wins(), series.losses()), (0, 0));
    assert!(series.begin_game());
    series.finish_game(GameState::Loss);
    series.finish_game(GameState::Loss);
    assert_eq!((series.wins(), series.losses()), (0, 1));
}

#[test]
fn series_of_no_games() {
    let mut none = MatchSeries::new(0);
    assert!(!none.begin_game());
    let mut negative = MatchSeries::new(-5);
    assert_eq!(negative.remaining(), 0);
    assert!(!negative.begin_game());
    let mut most = MatchSeries::new(i32::MAX);
    assert!(most.begin_game());
    assert_eq!(most.remaining(), i32::MAX - 1);
}
