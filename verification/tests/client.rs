use word_guesser::client_state::{parse_decimal, ClientState, State};
use word_guesser::protocol::{ClientMessage, ClientRequestError, ServerMessage};
use word_guesser::validation::{is_valid_sock_path, is_valid_word};

#[test]
fn password_flow() {
    let mut c = ClientState::default();
    assert!(matches!(c.status, State::Initial));

    c.update_from_server(ServerMessage::AskPassword);
    assert!(matches!(c.status, State::WaitingForPassword));

    assert_eq!(c.update_from_user("hunter2"), None);
    assert_eq!(c.status, State::SendPassword("hunter2".to_string()));

    let sent = c.process();
    assert_eq!(sent, Some(ClientMessage::AnswerPassword("hunter2".to_string())));
    assert!(matches!(c.status, State::WaitingForPasswordValidation));

    c.update_from_server(ServerMessage::AssignId(9));
    assert_eq!(c.player_id, Some(9));
    assert!(matches!(c.status, State::MainMenu));
}

#[test]
fn main_menu_choices() {
    let mut c = ClientState::default();
    c.update_from_server(ServerMessage::AssignId(9));

    assert_eq!(c.update_from_user("1"), Some(ClientMessage::GetOpponents));
    assert!(matches!(c.status, State::MainMenu));

    assert_eq!(c.update_from_user("7"), None);
    assert!(matches!(c.status, State::MainMenu));

    assert_eq!(c.update_from_user("0"), Some(ClientMessage::LeaveGame));
    assert!(matches!(c.status, State::Disconnect(_)));
    assert_eq!(c.process(), Some(ClientMessage::LeaveGame));
}

#[test]
fn choosing_an_opponent() {
    let mut c = ClientState::default();
    c.update_from_server(ServerMessage::AssignId(9));
    c.update_from_server(ServerMessage::ListOpponents(vec![11, 22, 33]));
    assert_eq!(c.status, State::ChoosingOpponent(vec![11, 22, 33]));

    // out-of-range and non-numeric choices are rejected
    assert_eq!(c.update_from_user("4"), None);
    assert_eq!(c.status, State::ChoosingOpponent(vec![11, 22, 33]));
    assert_eq!(c.update_from_user("x"), None);
    assert_eq!(c.update_from_user("00"), None);

    assert_eq!(c.update_from_user("2"), None);
    assert_eq!(c.status, State::ChallengePlayer(22));

    // only a valid word starts the challenge
    assert_eq!(c.update_from_user("Apple"), None);
    assert_eq!(c.status, State::ChallengePlayer(22));
    assert_eq!(
        c.update_from_user("apple"),
        Some(ClientMessage::RequestMatch(22, "apple".to_string()))
    );
}

#[test]
fn empty_opponent_list_keeps_the_menu() {
    let mut c = ClientState::default();
    c.update_from_server(ServerMessage::AssignId(9));
    c.update_from_server(ServerMessage::ListOpponents(vec![]));
    assert!(matches!(c.status, State::MainMenu));
}

#[test]
fn going_back_from_the_opponent_list() {
    let mut c = ClientState::default();
    c.update_from_server(ServerMessage::AssignId(9));
    c.update_from_server(ServerMessage::ListOpponents(vec![11]));
    assert_eq!(c.update_from_user("0"), None);
    assert!(matches!(c.status, State::MainMenu));
}

#[test]
fn guesser_inputs() {
    let mut c = ClientState::default();
    c.update_from_server(ServerMessage::AssignId(9));
    c.update_from_server(ServerMessage::MatchStarted(5));
    assert!(matches!(c.status, State::InGameGuesser(5)));

    assert_eq!(
        c.update_from_user("pear"),
        Some(ClientMessage::GuessAttempt(5, "pear".to_string()))
    );
    assert_eq!(c.update_from_user("give up"), Some(ClientMessage::GiveUp(5)));

    c.update_from_server(ServerMessage::MatchEnded(5, 3, 1, false));
    assert!(matches!(c.status, State::MainMenu));
}

#[test]
fn challenger_inputs() {
    let mut c = ClientState::default();
    c.update_from_server(ServerMessage::AssignId(9));
    c.update_from_server(ServerMessage::MatchAccepted(5));
    assert!(matches!(c.status, State::InGameChallenger(5)));
    assert_eq!(
        c.update_from_user("a fruit"),
        Some(ClientMessage::SendHint(5, "a fruit".to_string()))
    );
}

#[test]
fn bad_request_reactions() {
    let mut c = ClientState::default();
    c.update_from_server(ServerMessage::AssignId(9));
    c.update_from_server(ServerMessage::MatchAccepted(5));
    // a permission error leaves the state alone
    c.update_from_server(ServerMessage::BadRequest(ClientRequestError::PermissionDenied));
    assert!(matches!(c.status, State::InGameChallenger(5)));
    // the other errors return to the menu
    c.update_from_server(ServerMessage::BadRequest(ClientRequestError::Match404));
    assert!(matches!(c.status, State::MainMenu));
}

#[test]
fn disconnect_quits() {
    let mut c = ClientState::default();
    c.update_from_server(ServerMessage::Disconnect);
    assert!(matches!(c.status, State::Quit));
}

#[test]
fn wrong_password_disconnects() {
    let mut c = ClientState::default();
    c.update_from_server(ServerMessage::WrongPassword);
    assert!(matches!(c.status, State::Disconnect(_)));
}

#[test]
fn parse_decimal_accepts_digit_strings_only() {
    assert_eq!(parse_decimal("0"), Some(0));
    assert_eq!(parse_decimal("42"), Some(42));
    assert_eq!(parse_decimal("007"), Some(7));
    assert_eq!(parse_decimal(""), None);
    assert_eq!(parse_decimal("4x"), None);
    assert_eq!(parse_decimal("-3"), None);
    assert_eq!(parse_decimal(" 3"), None);
    // far beyond the machine bound
    assert_eq!(parse_decimal("999999999999999999999999999999999999999"), None);
}

#[test]
fn is_valid_word_accepts_lowercase_alphabetic_words() {
    assert!(is_valid_word("apple"));
    assert!(is_valid_word("ärger"));
    assert!(!is_valid_word(""));
    assert!(!is_valid_word("Apple"));
    assert!(!is_valid_word("app1e"));
    assert!(!is_valid_word("two words"));
}

#[test]
fn is_valid_sock_path_checks_the_shape() {
    assert!(is_valid_sock_path("/tmp/game.sock"));
    assert!(is_valid_sock_path("relative/dir/s.sock"));
    assert!(!is_valid_sock_path(".sock"));
    assert!(!is_valid_sock_path("/tmp/.sock"));
    assert!(!is_valid_sock_path("/tmp/game.txt"));
    assert!(!is_valid_sock_path("127.0.0.1:3301"));
}
