//! The client's state machine: how server messages and lines of user input
//! drive it, and which message (if any) each step sends back to the server.
//! Prompt rendering belongs to the surrounding program; the machine itself
//! is pure.
use vstd::prelude::*;
use vstd::std_specs::iter::IteratorSpec;

use crate::protocol::{ClientMessage, ClientMessageV, ClientRequestError, ServerMessage, ServerMessageV};
use crate::validation::{is_valid_word, valid_word};

verus! {

broadcast use vstd::string::group_string_axioms;

/// Where the client stands in its session.
#[derive(Debug, PartialEq, Eq)]
pub enum State {
    Initial,
    WaitingForPassword,
    SendPassword(String),
    WaitingForPasswordValidation,
    MainMenu,
    ChoosingOpponent(Vec<u128>),
    ChallengePlayer(u128),
    InGameChallenger(u128),
    InGameGuesser(u128),
    /// Quit the application, with a goodbye message.
    Disconnect(String),
    Quit,
}

/// Model of a `State`.
#[verifier::ext_equal]
pub enum StateV {
    Initial,
    WaitingForPassword,
    SendPassword(Seq<char>),
    WaitingForPasswordValidation,
    MainMenu,
    ChoosingOpponent(Seq<u128>),
    ChallengePlayer(u128),
    InGameChallenger(u128),
    InGameGuesser(u128),
    Disconnect(Seq<char>),
    Quit,
}

impl View for State {
    type V = StateV;

    open spec fn view(&self) -> StateV {
        match self {
            State::Initial => StateV::Initial,
            State::WaitingForPassword => StateV::WaitingForPassword,
            State::SendPassword(p) => StateV::SendPassword(p@),
            State::WaitingForPasswordValidation => StateV::WaitingForPasswordValidation,
            State::MainMenu => StateV::MainMenu,
            State::ChoosingOpponent(v) => StateV::ChoosingOpponent(v@),
            State::ChallengePlayer(id) => StateV::ChallengePlayer(*id),
            State::InGameChallenger(id) => StateV::InGameChallenger(*id),
            State::InGameGuesser(id) => StateV::InGameGuesser(*id),
            State::Disconnect(r) => StateV::Disconnect(r@),
            State::Quit => StateV::Quit,
        }
    }
}

/// The client's whole state: its assigned id, once it has one, and where it
/// stands.
#[derive(Debug)]
pub struct ClientState {
    pub player_id: Option<u128>,
    pub status: State,
}

/// Model of a `ClientState`.
#[verifier::ext_equal]
pub struct ClientStateV {
    pub player_id: Option<u128>,
    pub status: StateV,
}

impl View for ClientState {
    type V = ClientStateV;

    open spec fn view(&self) -> ClientStateV {
        ClientStateV {
            player_id: match self.player_id {
                Some(id) => Some(id),
                None => None,
            },
            status: self.status@,
        }
    }
}

impl Default for ClientState {
    /// A fresh client: no id, initial state.
    fn default() -> (r: ClientState)
        ensures
            r@.player_id is None,
            r@.status == StateV::Initial,
    {
        ClientState { player_id: None, status: State::Initial }
    }
}

/// The model of the message a step hands back to be sent.
pub open spec fn opt_msg_view(r: Option<ClientMessage>) -> Option<ClientMessageV> {
    match r {
        Some(m) => Some(m@),
        None => None,
    }
}

/// A decimal digit.
pub open spec fn digit(c: char) -> bool {
    48 <= c as u32 <= 57
}

/// The value of a decimal digit.
pub open spec fn digit_val(c: char) -> int {
    c as u32 - 48
}

/// A nonempty, all-digit string.
pub open spec fn all_digits(s: Seq<char>) -> bool {
    s.len() > 0 && (forall|i: int| 0 <= i < s.len() ==> digit(#[trigger] s[i]))
}

/// The value of a digit string.
pub open spec fn dec_val(s: Seq<char>) -> int
    decreases s.len(),
{
    if s.len() == 0 {
        0
    } else {
        dec_val(s.drop_last()) * 10 + digit_val(s.last())
    }
}

proof fn lemma_dec_val_nonneg(s: Seq<char>)
    requires
        forall|i: int| 0 <= i < s.len() ==> digit(#[trigger] s[i]),
    ensures
        dec_val(s) >= 0,
    decreases s.len(),
{
    if s.len() > 0 {
        assert(forall|i: int|
            0 <= i < s.drop_last().len() ==> digit(#[trigger] s.drop_last()[i]));
        lemma_dec_val_nonneg(s.drop_last());
    }
}

proof fn lemma_dec_val_prefix(s: Seq<char>, i: int)
    requires
        forall|j: int| 0 <= j < s.len() ==> digit(#[trigger] s[j]),
        0 <= i <= s.len(),
    ensures
        dec_val(s) >= dec_val(s.subrange(0, i)),
    decreases s.len() - i,
{
    if i == s.len() {
        assert(s.subrange(0, i) =~= s);
    } else {
        let a = s.subrange(0, i);
        let b = s.subrange(0, i + 1);
        assert(b.drop_last() =~= a);
        assert(b.last() == s[i]);
        assert(forall|j: int| 0 <= j < a.len() ==> digit(#[trigger] a[j]));
        lemma_dec_val_nonneg(a);
        assert(dec_val(b) == dec_val(a) * 10 + digit_val(s[i]));
        lemma_dec_val_prefix(s, i + 1);
    }
}

/// Parse a nonempty all-digit decimal string; rejects anything else, and
/// values over the machine bound.
pub fn parse_decimal(s: &str) -> (r: Option<usize>)
    ensures
        r is Some <==> (all_digits(s@) && dec_val(s@) <= usize::MAX),
        r matches Some(v) ==> v == dec_val(s@),
{
    let mut it = s.chars();
    let ghost all: Seq<char> = s@;
    let ghost mut seen: int = 0;
    let mut acc: usize = 0;
    let mut any: bool = false;
    loop
        invariant
            all == s@,
            it.remaining() =~= all.subrange(seen, all.len() as int),
            0 <= seen <= all.len(),
            any == (seen > 0),
            forall|i: int| 0 <= i < seen ==> digit(#[trigger] all[i]),
            acc == dec_val(all.subrange(0, seen)),
        decreases all.len() - seen,
    {
        match it.next() {
            None => {
                assert(seen == all.len());
                proof {
                    assert(all.subrange(0, seen) =~= all);
                }
                if any {
                    return Some(acc);
                } else {
                    return None;
                }
            },
            Some(c) => {
                assert(c == all[seen]);
                let u = c as u32;
                if u < 48 || u > 57 {
                    return None;
                }
                let d = (u - 48) as usize;
                let limit = (usize::MAX - d) / 10;
                if acc > limit {
                    proof {
                        assert(acc * 10 + d > usize::MAX) by (nonlinear_arith)
                            requires
                                acc > (usize::MAX - d) / 10,
                                0 <= d <= 9,
                        ;
                        let b = all.subrange(0, seen + 1);
                        assert(b.drop_last() =~= all.subrange(0, seen));
                        assert(b.last() == all[seen]);
                        assert(dec_val(b) == acc * 10 + d);
                        if all_digits(all) {
                            lemma_dec_val_prefix(all, seen + 1);
                        }
                    }
                    return None;
                }
                proof {
                    assert(acc * 10 + d <= usize::MAX) by (nonlinear_arith)
                        requires
                            acc <= (usize::MAX - d) / 10,
                            0 <= d <= 9,
                            acc >= 0,
                    ;
                }
                acc = acc * 10 + d;
                proof {
                    let b = all.subrange(0, seen + 1);
                    assert(b.drop_last() =~= all.subrange(0, seen));
                    assert(b.last() == all[seen]);
                    seen = seen + 1;
                }
                any = true;
            },
        }
    }
}

/// What one server message does to the client's state.
pub open spec fn server_step(s: ClientStateV, m: ServerMessageV) -> ClientStateV {
    match m {
        ServerMessageV::AskPassword => ClientStateV { status: StateV::WaitingForPassword, ..s },
        ServerMessageV::WrongPassword => ClientStateV {
            status: StateV::Disconnect("Wrong password. Please try again!"@),
            ..s
        },
        ServerMessageV::AssignId(id) => ClientStateV {
            player_id: Some(id),
            status: StateV::MainMenu,
        },
        ServerMessageV::BadRequest(e) => match e {
            ClientRequestError::CannotCreateMatch => ClientStateV { status: StateV::MainMenu, ..s },
            ClientRequestError::Match404 => ClientStateV { status: StateV::MainMenu, ..s },
            ClientRequestError::PermissionDenied => s,
        },
        ServerMessageV::ListOpponents(opponents) => if opponents.len() == 0 {
            s
        } else {
            ClientStateV { status: StateV::ChoosingOpponent(opponents), ..s }
        },
        ServerMessageV::MatchAccepted(id) => ClientStateV {
            status: StateV::InGameChallenger(id),
            ..s
        },
        ServerMessageV::MatchStarted(id) => ClientStateV { status: StateV::InGameGuesser(id), ..s },
        ServerMessageV::MatchAttempt(_, _, _, _) => s,
        ServerMessageV::IncorrectGuess(_, _) => s,
        ServerMessageV::MatchHint(_, _) => s,
        ServerMessageV::MatchEnded(_, _, _, _) => ClientStateV { status: StateV::MainMenu, ..s },
        ServerMessageV::Disconnect => ClientStateV { status: StateV::Quit, ..s },
    }
}

/// What one line of user input does: the next state and the message to send.
pub open spec fn user_step(s: ClientStateV, input: Seq<char>) -> (ClientStateV, Option<
    ClientMessageV,
>) {
    match s.status {
        StateV::WaitingForPassword => (
            ClientStateV { status: StateV::SendPassword(input), ..s },
            None,
        ),
        StateV::MainMenu => if input == "0"@ {
            (
                ClientStateV {
                    status: StateV::Disconnect("Thank you for trying out this game.\n"@),
                    ..s
                },
                Some(ClientMessageV::LeaveGame),
            )
        } else if input == "1"@ {
            (s, Some(ClientMessageV::GetOpponents))
        } else {
            (s, None)
        },
        StateV::ChoosingOpponent(opponents) => if input == "0"@ {
            (ClientStateV { status: StateV::MainMenu, ..s }, None)
        } else if all_digits(input) && dec_val(input) <= usize::MAX && 1 <= dec_val(input)
            <= opponents.len() {
            (
                ClientStateV {
                    status: StateV::ChallengePlayer(opponents[dec_val(input) - 1]),
                    ..s
                },
                None,
            )
        } else {
            (s, None)
        },
        StateV::ChallengePlayer(opponent) => if valid_word(input) {
            (s, Some(ClientMessageV::RequestMatch(opponent, input)))
        } else {
            (s, None)
        },
        StateV::InGameChallenger(match_id) => (
            s,
            Some(ClientMessageV::SendHint(match_id, input)),
        ),
        StateV::InGameGuesser(match_id) => if input == "give up"@ {
            (s, Some(ClientMessageV::GiveUp(match_id)))
        } else {
            (s, Some(ClientMessageV::GuessAttempt(match_id, input)))
        },
        _ => (s, None),
    }
}

/// What one spontaneous processing step does: the next state and the message
/// to send.
pub open spec fn process_step(s: ClientStateV) -> (ClientStateV, Option<ClientMessageV>) {
    match s.status {
        StateV::SendPassword(password) => (
            ClientStateV { status: StateV::WaitingForPasswordValidation, ..s },
            Some(ClientMessageV::AnswerPassword(password)),
        ),
        StateV::Disconnect(_) => (s, Some(ClientMessageV::LeaveGame)),
        _ => (s, None),
    }
}

fn str_is(a: &str, b: &str) -> (r: bool)
    ensures
        r == (a@ == b@),
{
    let ao: String = a.to_owned();
    let bo: String = b.to_owned();
    ao == bo
}

impl ClientState {
    /// Apply one message from the server.
    pub fn update_from_server(&mut self, msg: ServerMessage)
        ensures
            final(self)@ == server_step(old(self)@, msg@),
    {
        match msg {
            ServerMessage::AskPassword => {
                self.status = State::WaitingForPassword;
            },
            ServerMessage::WrongPassword => {
                self.status = State::Disconnect("Wrong password. Please try again!".to_owned());
            },
            ServerMessage::AssignId(id) => {
                self.player_id = Some(id);
                self.status = State::MainMenu;
            },
            ServerMessage::BadRequest(client_err) => match client_err {
                ClientRequestError::CannotCreateMatch => {
                    self.status = State::MainMenu;
                },
                ClientRequestError::Match404 => {
                    self.status = State::MainMenu;
                },
                ClientRequestError::PermissionDenied => {},
            },
            ServerMessage::ListOpponents(opponents) => {
                if opponents.len() > 0 {
                    self.status = State::ChoosingOpponent(opponents);
                }
            },
            ServerMessage::MatchAccepted(id) => {
                self.status = State::InGameChallenger(id);
            },
            ServerMessage::MatchStarted(id) => {
                self.status = State::InGameGuesser(id);
            },
            ServerMessage::MatchAttempt(_, _, _, _) => {},
            ServerMessage::IncorrectGuess(_, _) => {},
            ServerMessage::MatchHint(_, _) => {},
            ServerMessage::MatchEnded(_, _, _, _) => {
                self.status = State::MainMenu;
            },
            ServerMessage::Disconnect => {
                self.status = State::Quit;
            },
        }
        proof {
            assert(self@ =~= server_step(old(self)@, msg@));
        }
    }

    /// Apply one line of user input; the returned message, if any, is to be
    /// sent to the server.
    pub fn update_from_user(&mut self, input: &str) -> (r: Option<ClientMessage>)
        ensures
            (final(self)@, opt_msg_view(r)) == user_step(old(self)@, input@),
    {
        let r: Option<ClientMessage> = match &self.status {
            State::WaitingForPassword => {
                self.status = State::SendPassword(input.to_owned());
                None
            },
            State::MainMenu => {
                if str_is(input, "0") {
                    self.status = State::Disconnect(
                        "Thank you for trying out this game.\n".to_owned(),
                    );
                    Some(ClientMessage::LeaveGame)
                } else if str_is(input, "1") {
                    Some(ClientMessage::GetOpponents)
                } else {
                    None
                }
            },
            State::ChoosingOpponent(opponents) => {
                if str_is(input, "0") {
                    self.status = State::MainMenu;
                    None
                } else {
                    match parse_decimal(input) {
                        Some(idx) => {
                            if 1 <= idx && idx <= opponents.len() {
                                let chosen = opponents[idx - 1];
                                self.status = State::ChallengePlayer(chosen);
                                None
                            } else {
                                None
                            }
                        },
                        None => None,
                    }
                }
            },
            State::ChallengePlayer(opponent) => {
                if is_valid_word(input) {
                    Some(ClientMessage::RequestMatch(*opponent, input.to_owned()))
                } else {
                    None
                }
            },
            State::InGameChallenger(match_id) => {
                Some(ClientMessage::SendHint(*match_id, input.to_owned()))
            },
            State::InGameGuesser(match_id) => {
                if str_is(input, "give up") {
                    Some(ClientMessage::GiveUp(*match_id))
                } else {
                    Some(ClientMessage::GuessAttempt(*match_id, input.to_owned()))
                }
            },
            _ => None,
        };
        proof {
            assert((self@, opt_msg_view(r)) =~= user_step(old(self)@, input@));
        }
        r
    }

    /// React to the state itself: send the stored password, or take leave.
    pub fn process(&mut self) -> (r: Option<ClientMessage>)
        ensures
            (final(self)@, opt_msg_view(r)) == process_step(old(self)@),
    {
        let r: Option<ClientMessage> = match &self.status {
            State::SendPassword(_) => {
                let mut taken = State::WaitingForPasswordValidation;
                core::mem::swap(&mut self.status, &mut taken);
                match taken {
                    State::SendPassword(password) => Some(ClientMessage::AnswerPassword(password)),
                    _ => None,
                }
            },
            State::Disconnect(_) => Some(ClientMessage::LeaveGame),
            _ => None,
        };
        proof {
            assert((self@, opt_msg_view(r)) =~= process_step(old(self)@));
        }
        r
    }
}

} // verus!
