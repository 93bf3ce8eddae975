//! The wire protocol's closed set of message variants.
//!
//! Player and match identifiers travel as 128-bit values. Each message type
//! has a mathematical model (`ClientMessageV`, `ServerMessageV`) over `Seq`
//! views, which the codec's contracts and the session contracts speak of.
use vstd::prelude::*;

verus! {

/// The reasons a request can be rejected with `ServerMessage::BadRequest`.
#[derive(Debug, Clone, Copy, PartialEq, Eq, Structural)]
pub enum ClientRequestError {
    CannotCreateMatch,
    Match404,
    PermissionDenied,
}

/// Messages sent from the server to a client.
#[derive(Debug, Clone, PartialEq, Eq)]
pub enum ServerMessage {
    AskPassword,
    WrongPassword,
    /// An id has been assigned to a newly authenticated client.
    AssignId(u128),
    BadRequest(ClientRequestError),
    /// Response to `GetOpponents`.
    ListOpponents(Vec<u128>),
    /// Tells the challenger that the match has been created.
    MatchAccepted(u128),
    /// Tells the guesser that the match has been created.
    MatchStarted(u128),
    /// Progress report for the challenger: (match id, attempts, hints, latest guess).
    MatchAttempt(u128, u32, u32, String),
    IncorrectGuess(u128, u32),
    /// A hint forwarded from the challenger to the guesser: (match id, hint).
    MatchHint(u128, String),
    /// The match is over, by a correct guess or by giving up:
    /// (match id, attempts, hints, solved).
    MatchEnded(u128, u32, u32, bool),
    Disconnect,
}

/// Messages sent from a client to the server.
#[derive(Debug, Clone, PartialEq, Eq)]
pub enum ClientMessage {
    AnswerPassword(String),
    GetOpponents,
    RequestMatch(u128, String),
    GuessAttempt(u128, String),
    SendHint(u128, String),
    GiveUp(u128),
    LeaveGame,
}

/// Model of a `ServerMessage`: strings as `Seq<char>`, id lists as `Seq<u128>`.
#[verifier::ext_equal]
pub enum ServerMessageV {
    AskPassword,
    WrongPassword,
    AssignId(u128),
    BadRequest(ClientRequestError),
    ListOpponents(Seq<u128>),
    MatchAccepted(u128),
    MatchStarted(u128),
    MatchAttempt(u128, u32, u32, Seq<char>),
    IncorrectGuess(u128, u32),
    MatchHint(u128, Seq<char>),
    MatchEnded(u128, u32, u32, bool),
    Disconnect,
}

/// Model of a `ClientMessage`.
#[verifier::ext_equal]
pub enum ClientMessageV {
    AnswerPassword(Seq<char>),
    GetOpponents,
    RequestMatch(u128, Seq<char>),
    GuessAttempt(u128, Seq<char>),
    SendHint(u128, Seq<char>),
    GiveUp(u128),
    LeaveGame,
}

impl View for ServerMessage {
    type V = ServerMessageV;

    open spec fn view(&self) -> ServerMessageV {
        match self {
            ServerMessage::AskPassword => ServerMessageV::AskPassword,
            ServerMessage::WrongPassword => ServerMessageV::WrongPassword,
            ServerMessage::AssignId(id) => ServerMessageV::AssignId(*id),
            ServerMessage::BadRequest(e) => ServerMessageV::BadRequest(*e),
            ServerMessage::ListOpponents(ids) => ServerMessageV::ListOpponents(ids@),
            ServerMessage::MatchAccepted(id) => ServerMessageV::MatchAccepted(*id),
            ServerMessage::MatchStarted(id) => ServerMessageV::MatchStarted(*id),
            ServerMessage::MatchAttempt(id, a, h, g) => ServerMessageV::MatchAttempt(
                *id,
                *a,
                *h,
                g@,
            ),
            ServerMessage::IncorrectGuess(id, a) => ServerMessageV::IncorrectGuess(*id, *a),
            ServerMessage::MatchHint(id, h) => ServerMessageV::MatchHint(*id, h@),
            ServerMessage::MatchEnded(id, a, h, s) => ServerMessageV::MatchEnded(*id, *a, *h, *s),
            ServerMessage::Disconnect => ServerMessageV::Disconnect,
        }
    }
}

impl View for ClientMessage {
    type V = ClientMessageV;

    open spec fn view(&self) -> ClientMessageV {
        match self {
            ClientMessage::AnswerPassword(p) => ClientMessageV::AnswerPassword(p@),
            ClientMessage::GetOpponents => ClientMessageV::GetOpponents,
            ClientMessage::RequestMatch(id, w) => ClientMessageV::RequestMatch(*id, w@),
            ClientMessage::GuessAttempt(id, g) => ClientMessageV::GuessAttempt(*id, g@),
            ClientMessage::SendHint(id, h) => ClientMessageV::SendHint(*id, h@),
            ClientMessage::GiveUp(id) => ClientMessageV::GiveUp(*id),
            ClientMessage::LeaveGame => ClientMessageV::LeaveGame,
        }
    }
}

} // verus!
