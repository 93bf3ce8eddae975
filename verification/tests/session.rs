use word_guesser::protocol::{ClientMessage, ClientRequestError, ServerMessage};
use word_guesser::server_connection::react_to_client_msg;
use word_guesser::server_state::{Match, MatchState, ServerState};

const A: u128 = 0xA;
const B: u128 = 0xB;
const C: u128 = 0xC;

fn authenticate(state: &mut ServerState, player: u128) {
    let out = react_to_client_msg(
        player,
        ClientMessage::AnswerPassword("password".to_string()),
        state,
    );
    assert_eq!(out, vec![(player, ServerMessage::AssignId(player))]);
}

fn start_match(state: &mut ServerState, challenger: u128, guesser: u128, word: &str) -> u128 {
    let out = react_to_client_msg(
        challenger,
        ClientMessage::RequestMatch(guesser, word.to_string()),
        state,
    );
    assert_eq!(out.len(), 2);
    let match_id = match out[0] {
        (target, ServerMessage::MatchStarted(id)) => {
            assert_eq!(target, guesser);
            id
        },
        ref other => panic!("expected MatchStarted, got {:?}", other),
    };
    assert_eq!(out[1], (challenger, ServerMessage::MatchAccepted(match_id)));
    match_id
}

#[test]
fn wrong_password_is_silently_ignored() {
    let mut state = ServerState::default();
    let out = react_to_client_msg(A, ClientMessage::AnswerPassword("sesame".to_string()), &mut state);
    assert!(out.is_empty());
    assert!(state.available_players.is_empty());
}

#[test]
fn authentication_is_idempotent() {
    let mut state = ServerState::default();
    authenticate(&mut state, A);
    authenticate(&mut state, A);
    assert_eq!(state.available_players, vec![A]);
}

#[test]
fn whole_match_scenario() {
    let mut state = ServerState::default();
    authenticate(&mut state, A);
    authenticate(&mut state, B);

    let out = react_to_client_msg(A, ClientMessage::GetOpponents, &mut state);
    assert_eq!(out, vec![(A, ServerMessage::ListOpponents(vec![B]))]);

    let m = start_match(&mut state, A, B, "apple");
    assert!(!state.available_players.contains(&A));
    assert!(!state.available_players.contains(&B));

    let out = react_to_client_msg(B, ClientMessage::GuessAttempt(m, "apply".to_string()), &mut state);
    assert_eq!(
        out,
        vec![
            (A, ServerMessage::MatchAttempt(m, 1, 0, "apply".to_string())),
            (B, ServerMessage::IncorrectGuess(m, 1)),
        ]
    );

    let out = react_to_client_msg(B, ClientMessage::GuessAttempt(m, "apple".to_string()), &mut state);
    assert_eq!(
        out,
        vec![
            (A, ServerMessage::MatchEnded(m, 2, 0, true)),
            (B, ServerMessage::MatchEnded(m, 2, 0, true)),
        ]
    );

    // both participants are back in the available set; the match is finished
    assert!(state.available_players.contains(&A));
    assert!(state.available_players.contains(&B));
    assert!(state.active_matches.is_empty());
    assert_eq!(state.finished_matches.len(), 1);
    assert_eq!(state.finished_matches[0].id, m);
    assert!(matches!(state.finished_matches[0].state, MatchState::Solved));
}

#[test]
fn request_match_against_absent_opponent_fails() {
    let mut state = ServerState::default();
    authenticate(&mut state, A);
    let out = react_to_client_msg(A, ClientMessage::RequestMatch(C, "x".to_string()), &mut state);
    assert_eq!(
        out,
        vec![(A, ServerMessage::BadRequest(ClientRequestError::CannotCreateMatch))]
    );
    assert!(state.active_matches.is_empty());
    assert_eq!(state.available_players, vec![A]);
}

#[test]
fn challenger_disconnect_cancels_the_match() {
    let mut state = ServerState::default();
    authenticate(&mut state, A);
    authenticate(&mut state, B);
    let m = start_match(&mut state, A, B, "apple");

    // the challenger leaves mid-match
    let out = react_to_client_msg(A, ClientMessage::LeaveGame, &mut state);
    assert_eq!(
        out,
        vec![
            (B, ServerMessage::MatchEnded(m, 0, 0, false)),
            (A, ServerMessage::Disconnect),
        ]
    );
    assert!(state.active_matches.is_empty());
    assert_eq!(state.finished_matches.len(), 1);
    assert!(matches!(state.finished_matches[0].state, MatchState::Cancelled));
    // the guesser is available again, the leaver is not
    assert!(state.available_players.contains(&B));
    assert!(!state.available_players.contains(&A));
}

#[test]
fn guesser_gives_up() {
    let mut state = ServerState::default();
    authenticate(&mut state, A);
    authenticate(&mut state, B);
    let m = start_match(&mut state, A, B, "apple");

    let out = react_to_client_msg(B, ClientMessage::GiveUp(m), &mut state);
    assert_eq!(out, vec![(B, ServerMessage::MatchEnded(m, 0, 0, false))]);
    assert!(state.active_matches.is_empty());
    assert!(matches!(state.finished_matches[0].state, MatchState::GivenUp));
    assert!(state.available_players.contains(&A));
    assert!(state.available_players.contains(&B));
}

#[test]
fn only_the_guesser_may_give_up() {
    let mut state = ServerState::default();
    authenticate(&mut state, A);
    authenticate(&mut state, B);
    let m = start_match(&mut state, A, B, "apple");

    let out = react_to_client_msg(A, ClientMessage::GiveUp(m), &mut state);
    assert_eq!(
        out,
        vec![(A, ServerMessage::BadRequest(ClientRequestError::PermissionDenied))]
    );
    assert_eq!(state.active_matches.len(), 1);
}

#[test]
fn operations_on_unknown_matches_are_rejected() {
    let mut state = ServerState::default();
    authenticate(&mut state, A);
    let out = react_to_client_msg(A, ClientMessage::GuessAttempt(77, "x".to_string()), &mut state);
    assert_eq!(out, vec![(A, ServerMessage::BadRequest(ClientRequestError::Match404))]);
    let out = react_to_client_msg(A, ClientMessage::SendHint(77, "x".to_string()), &mut state);
    assert_eq!(out, vec![(A, ServerMessage::BadRequest(ClientRequestError::Match404))]);
    let out = react_to_client_msg(A, ClientMessage::GiveUp(77), &mut state);
    assert_eq!(out, vec![(A, ServerMessage::BadRequest(ClientRequestError::Match404))]);
}

#[test]
fn hints_are_forwarded_and_counted() {
    let mut state = ServerState::default();
    authenticate(&mut state, A);
    authenticate(&mut state, B);
    let m = start_match(&mut state, A, B, "apple");

    let out = react_to_client_msg(A, ClientMessage::SendHint(m, "a fruit".to_string()), &mut state);
    assert_eq!(out, vec![(B, ServerMessage::MatchHint(m, "a fruit".to_string()))]);

    let stored = state.get_active(m).expect("still active");
    assert_eq!(stored.hints, vec!["a fruit".to_string()]);
    assert!(state.get_active(999).is_none());

    let out = react_to_client_msg(B, ClientMessage::GuessAttempt(m, "pear".to_string()), &mut state);
    assert_eq!(
        out,
        vec![
            (A, ServerMessage::MatchAttempt(m, 1, 1, "pear".to_string())),
            (B, ServerMessage::IncorrectGuess(m, 1)),
        ]
    );
}

#[test]
fn leave_game_without_a_match_only_removes_availability() {
    let mut state = ServerState::default();
    authenticate(&mut state, A);
    let out = react_to_client_msg(A, ClientMessage::LeaveGame, &mut state);
    assert_eq!(out, vec![(A, ServerMessage::Disconnect)]);
    assert!(state.available_players.is_empty());
}

#[test]
fn create_new_match_requires_both_available() {
    let mut state = ServerState::default();
    state.add_available_player(A);
    // the opponent is not available
    assert!(state.create_new_match((A, B), "apple").is_none());
    assert_eq!(state.available_players, vec![A]);
    assert!(state.active_matches.is_empty());
    // nor is the challenger
    state.add_available_player(B);
    state.remove_available_player(A);
    assert!(state.create_new_match((A, B), "apple").is_none());
    assert!(state.active_matches.is_empty());
}

#[test]
fn finish_match_returns_participants_and_is_idempotent() {
    let mut state = ServerState::default();
    state.add_available_player(A);
    state.add_available_player(B);
    let m = state.create_new_match((A, B), "apple").expect("both available");
    assert!(!state.available_players.contains(&A));
    state.finish_match(m);
    assert!(state.available_players.contains(&A));
    assert!(state.available_players.contains(&B));
    assert_eq!(state.finished_matches.len(), 1);
    // finishing again is a no-op
    state.finish_match(m);
    assert_eq!(state.finished_matches.len(), 1);
    assert_eq!(state.available_players.len(), 2);
}

#[test]
fn no_player_enters_two_active_matches() {
    let mut state = ServerState::default();
    state.add_available_player(A);
    state.add_available_player(B);
    state.add_available_player(C);
    let _m = state.create_new_match((A, B), "apple").expect("both available");
    // A is mid-match, so no second match may involve it
    assert!(state.create_new_match((A, C), "pear").is_none());
    assert!(state.create_new_match((C, B), "pear").is_none());
    assert_eq!(state.active_matches.len(), 1);
}

#[test]
fn attempt_solves_exactly_on_the_secret_word() {
    let mut m = Match::new((A, B), "apple");
    assert_eq!(m.attempts, 0);
    m.attempt("apply");
    assert_eq!(m.attempts, 1);
    assert!(matches!(m.state, MatchState::Active));
    m.attempt("apple");
    assert_eq!(m.attempts, 2);
    assert!(matches!(m.state, MatchState::Solved));
}

#[test]
fn give_up_and_cancel_do_not_overwrite_terminal_states() {
    let mut m = Match::new((A, B), "apple");
    m.attempt("apple");
    assert!(matches!(m.state, MatchState::Solved));
    m.give_up();
    assert!(matches!(m.state, MatchState::Solved));
    m.cancel();
    assert!(matches!(m.state, MatchState::Solved));
}

#[test]
fn hints_accumulate_in_order() {
    let mut m = Match::new((A, B), "apple");
    m.add_hint("red or green");
    m.add_hint("a fruit");
    assert_eq!(m.hints, vec!["red or green".to_string(), "a fruit".to_string()]);
}
