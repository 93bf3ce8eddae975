//! The server's dispatch step: the single authority that owns the session
//! state. One call processes one decoded client message to completion and
//! returns the outbound messages it produced, each addressed to a player id;
//! the surrounding process performs the sends.
use vstd::prelude::*;

use crate::protocol::{
    ClientMessage, ClientMessageV, ClientRequestError, ServerMessage, ServerMessageV,
};
use crate::server_state::{
    add_avail, attempt_t, cancel_t, count32, create_t, give_up_t, hint_t, inc32, others,
    MatchState, ServerState, ServerStateV,
};

verus! {

/// The model of an outbound batch: each entry pairs the target player id with
/// the message's model.
pub open spec fn out_view(r: Seq<(u128, ServerMessage)>) -> Seq<(u128, ServerMessageV)> {
    r.map_values(|t: (u128, ServerMessage)| (t.0, t.1@))
}

/// The successful matchmaking outcome: a fresh match with id `mid` was
/// created and announced to both participants.
pub open spec fn match_created(
    s0: ServerStateV,
    s1: ServerStateV,
    ov: Seq<(u128, ServerMessageV)>,
    player_id: u128,
    opponent: u128,
    word: Seq<char>,
    mid: u128,
) -> bool {
    &&& !s0.active_has_id(mid)
    &&& !s0.finished_has_id(mid)
    &&& s1 == create_t(s0, player_id, opponent, word, mid)
    &&& ov == seq![
        (opponent, ServerMessageV::MatchStarted(mid)),
        (player_id, ServerMessageV::MatchAccepted(mid)),
    ]
}

/// Everything matchmaking promises: failure answered with
/// `CannotCreateMatch` and no state change, success announced to both
/// players with a fresh id; when both players are available only an id
/// collision can still fail.
pub open spec fn request_match_post(
    s0: ServerStateV,
    s1: ServerStateV,
    ov: Seq<(u128, ServerMessageV)>,
    player_id: u128,
    opponent: u128,
    word: Seq<char>,
) -> bool {
    &&& ((!s0.available_players.contains(player_id) || !s0.available_players.contains(opponent))
        ==> s1 == s0 && ov == seq![
        (player_id, ServerMessageV::BadRequest(ClientRequestError::CannotCreateMatch)),
    ])
    &&& ((s0.available_players.contains(player_id) && s0.available_players.contains(opponent))
        ==> ((s1 == s0 && ov == seq![
        (player_id, ServerMessageV::BadRequest(ClientRequestError::CannotCreateMatch)),
    ]) || (exists|mid: u128| #[trigger] match_created(s0, s1, ov, player_id, opponent, word, mid))))
}

/// The shared secret a client must present to become available.
pub open spec fn shared_secret() -> Seq<char> {
    "password"@
}

/// A count squeezed into a 32-bit protocol field, saturating at the bound.
fn len_to_u32(l: usize) -> (r: u32)
    ensures
        r == count32(l as int),
{
    if l >= u32::MAX as usize {
        u32::MAX
    } else {
        l as u32
    }
}

/// A correct password makes the sender available (unless it is mid-match) and
/// is answered with its assigned id; a wrong one is silently ignored.
fn handle_answer_password(player_id: u128, password: String, server_state: &mut ServerState) -> (out: Vec<
    (u128, ServerMessage),
>)
    requires
        old(server_state)@.wf(),
        old(server_state)@.all_active(),
    ensures
        final(server_state)@.wf(),
        final(server_state)@.all_active(),
        ({
            let s0 = old(server_state)@;
            let s1 = final(server_state)@;
            &&& (password@ != shared_secret() ==> s1 == s0 && out@.len() == 0)
            &&& (password@ == shared_secret() ==> ({
                &&& out_view(out@) == seq![(player_id, ServerMessageV::AssignId(player_id))]
                &&& s1.active_matches == s0.active_matches
                &&& s1.finished_matches == s0.finished_matches
                &&& (!s0.playing(player_id) ==> s1.available_players == add_avail(
                    s0.available_players,
                    player_id,
                ))
                &&& (s0.playing(player_id) ==> s1 == s0)
            }))
        }),
{
    let ghost s0 = server_state@;
    let mut out: Vec<(u128, ServerMessage)> = Vec::new();
    let expected: String = "password".to_owned();
    if password == expected {
        if !server_state.is_playing(player_id) {
            server_state.add_available_player(player_id);
        }
        out.push((player_id, ServerMessage::AssignId(player_id)));
        proof {
            assert(out_view(out@) =~= seq![(player_id, ServerMessageV::AssignId(player_id))]);
            assert(server_state@.active_matches =~= s0.active_matches);
        }
    }
    out
}

/// The available set, without the sender, is reported back to the sender.
fn handle_get_opponents(player_id: u128, server_state: &mut ServerState) -> (out: Vec<
    (u128, ServerMessage),
>)
    requires
        old(server_state)@.wf(),
        old(server_state)@.all_active(),
    ensures
        final(server_state)@.wf(),
        final(server_state)@.all_active(),
        final(server_state)@ == old(server_state)@,
        out_view(out@) == seq![
            (
                player_id,
                ServerMessageV::ListOpponents(
                    others(old(server_state)@.available_players, player_id),
                ),
            ),
        ],
{
    let ghost s0 = server_state@;
    let mut out: Vec<(u128, ServerMessage)> = Vec::new();
    let opponents = server_state.opponents_of(player_id);
    out.push((player_id, ServerMessage::ListOpponents(opponents)));
    proof {
        assert(out_view(out@) =~= seq![
            (player_id, ServerMessageV::ListOpponents(others(s0.available_players, player_id))),
        ]);
    }
    out
}

/// Matchmaking: when the sender and the named opponent are both available, a
/// fresh match is created and announced to both; otherwise the sender is told
/// the match cannot be created. A collision of the freshly minted id is also
/// answered that way, and no caller can rule it out.
fn handle_request_match(
    player_id: u128,
    opponent: u128,
    guess_word: String,
    server_state: &mut ServerState,
) -> (out: Vec<(u128, ServerMessage)>)
    requires
        old(server_state)@.wf(),
        old(server_state)@.all_active(),
    ensures
        final(server_state)@.wf(),
        final(server_state)@.all_active(),
        request_match_post(
            old(server_state)@,
            final(server_state)@,
            out_view(out@),
            player_id,
            opponent,
            guess_word@,
        ),
{
    let ghost s0 = server_state@;
    let mut out: Vec<(u128, ServerMessage)> = Vec::new();
    match server_state.create_new_match((player_id, opponent), guess_word.as_str()) {
        Some(match_id) => {
            out.push((opponent, ServerMessage::MatchStarted(match_id)));
            out.push((player_id, ServerMessage::MatchAccepted(match_id)));
            proof {
                assert(out_view(out@) =~= seq![
                    (opponent, ServerMessageV::MatchStarted(match_id)),
                    (player_id, ServerMessageV::MatchAccepted(match_id)),
                ]);
                assert(server_state@ == create_t(s0, player_id, opponent, guess_word@, match_id));
                assert(match_created(
                    s0,
                    server_state@,
                    out_view(out@),
                    player_id,
                    opponent,
                    guess_word@,
                    match_id,
                ));
                assert forall|k: int| 0 <= k < server_state@.active_matches.len() implies (
                #[trigger] server_state@.active_matches[k]).state == MatchState::Active by {
                    if k < s0.active_matches.len() {
                        assert(server_state@.active_matches[k] == s0.active_matches[k]);
                    }
                }
            }
        },
        None => {
            out.push((player_id, ServerMessage::BadRequest(ClientRequestError::CannotCreateMatch)));
            proof {
                assert(out_view(out@) =~= seq![
                    (player_id, ServerMessageV::BadRequest(ClientRequestError::CannotCreateMatch)),
                ]);
            }
        },
    }
    out
}

/// A guess against an active match: an incorrect one is reported to both
/// participants; a correct one solves and finishes the match. An unknown
/// match id earns a `Match404`.
fn handle_guess_attempt(
    player_id: u128,
    match_id: u128,
    guess: String,
    server_state: &mut ServerState,
) -> (out: Vec<(u128, ServerMessage)>)
    requires
        old(server_state)@.wf(),
        old(server_state)@.all_active(),
    ensures
        final(server_state)@.wf(),
        final(server_state)@.all_active(),
        ({
            let s0 = old(server_state)@;
            let s1 = final(server_state)@;
            &&& (!s0.active_has_id(match_id) ==> s1 == s0 && out_view(out@) == seq![
                (player_id, ServerMessageV::BadRequest(ClientRequestError::Match404)),
            ])
            &&& (s0.active_has_id(match_id) ==> ({
                let i = s0.active_index(match_id);
                let m = s0.active_matches[i];
                let na = inc32(m.attempts);
                let h = count32(m.hints.len() as int);
                &&& (guess@ != m.guess_word ==> ({
                    &&& s1.active_matches == s0.active_matches.update(i, attempt_t(m, guess@))
                    &&& s1.available_players == s0.available_players
                    &&& s1.finished_matches == s0.finished_matches
                    &&& out_view(out@) == seq![
                        (m.challenger, ServerMessageV::MatchAttempt(match_id, na, h, guess@)),
                        (m.guesser, ServerMessageV::IncorrectGuess(match_id, na)),
                    ]
                }))
                &&& (guess@ == m.guess_word ==> ({
                    &&& s1.active_matches == s0.active_matches.update(
                        i,
                        attempt_t(m, guess@),
                    ).remove(i)
                    &&& s1.available_players == add_avail(
                        add_avail(s0.available_players, m.guesser),
                        m.challenger,
                    )
                    &&& s1.finished_matches == s0.finished_matches.push(attempt_t(m, guess@))
                    &&& out_view(out@) == seq![
                        (m.challenger, ServerMessageV::MatchEnded(match_id, na, h, true)),
                        (m.guesser, ServerMessageV::MatchEnded(match_id, na, h, true)),
                    ]
                }))
            }))
        }),
{
    let ghost s0 = server_state@;
    let ghost gv = guess@;
    let mut out: Vec<(u128, ServerMessage)> = Vec::new();
    match server_state.record_guess(match_id, guess.as_str()) {
        Some((challenger, guesser, attempts, hints, solved)) => {
            let ghost s1 = server_state@;
            let ghost i = s0.active_index(match_id);
            let ghost m = s0.active_matches[i];
            if solved {
                out.push((challenger, ServerMessage::MatchEnded(match_id, attempts, hints, true)));
                out.push((guesser, ServerMessage::MatchEnded(match_id, attempts, hints, true)));
                proof {
                    assert(s1.active_matches[i].id == match_id);
                    assert(s1.active_has_id(match_id));
                    let w = s1.active_index(match_id);
                    assert(0 <= w < s1.active_matches.len() && s1.active_matches[w].id == match_id);
                    assert(w == i) by {
                        if w < i {
                            assert(s1.active_matches[w].id != s1.active_matches[i].id);
                        }
                        if i < w {
                            assert(s1.active_matches[i].id != s1.active_matches[w].id);
                        }
                    }
                }
                server_state.finish_match(match_id);
                proof {
                    assert(server_state@.active_matches == s1.active_matches.remove(i));
                    assert(s1.active_matches[i] == attempt_t(m, gv));
                    assert(out_view(out@) =~= seq![
                        (
                            m.challenger,
                            ServerMessageV::MatchEnded(
                                match_id,
                                inc32(m.attempts),
                                count32(m.hints.len() as int),
                                true,
                            ),
                        ),
                        (
                            m.guesser,
                            ServerMessageV::MatchEnded(
                                match_id,
                                inc32(m.attempts),
                                count32(m.hints.len() as int),
                                true,
                            ),
                        ),
                    ]);
                    assert forall|k: int| 0 <= k < server_state@.active_matches.len() implies (
                    #[trigger] server_state@.active_matches[k]).state == MatchState::Active by {
                        if k < i {
                            assert(server_state@.active_matches[k] == s0.active_matches[k]);
                        } else {
                            assert(server_state@.active_matches[k] == s0.active_matches[k + 1]);
                        }
                    }
                }
            } else {
                out.push((challenger, ServerMessage::MatchAttempt(match_id, attempts, hints, guess)));
                out.push((guesser, ServerMessage::IncorrectGuess(match_id, attempts)));
                proof {
                    assert(out_view(out@) =~= seq![
                        (
                            m.challenger,
                            ServerMessageV::MatchAttempt(
                                match_id,
                                inc32(m.attempts),
                                count32(m.hints.len() as int),
                                gv,
                            ),
                        ),
                        (m.guesser, ServerMessageV::IncorrectGuess(match_id, inc32(m.attempts))),
                    ]);
                    assert forall|k: int| 0 <= k < server_state@.active_matches.len() implies (
                    #[trigger] server_state@.active_matches[k]).state == MatchState::Active by {
                        if k != i {
                            assert(server_state@.active_matches[k] == s0.active_matches[k]);
                        } else {
                            assert(server_state@.active_matches[k] == attempt_t(m, gv));
                            assert(m.state == MatchState::Active);
                        }
                    }
                }
            }
        },
        None => {
            out.push((player_id, ServerMessage::BadRequest(ClientRequestError::Match404)));
            proof {
                assert(out_view(out@) =~= seq![
                    (player_id, ServerMessageV::BadRequest(ClientRequestError::Match404)),
                ]);
            }
        },
    }
    out
}

/// A hint for an active match is appended and forwarded to the guesser; an
/// unknown match id earns a `Match404`.
fn handle_send_hint(
    player_id: u128,
    match_id: u128,
    hint: String,
    server_state: &mut ServerState,
) -> (out: Vec<(u128, ServerMessage)>)
    requires
        old(server_state)@.wf(),
        old(server_state)@.all_active(),
    ensures
        final(server_state)@.wf(),
        final(server_state)@.all_active(),
        ({
            let s0 = old(server_state)@;
            let s1 = final(server_state)@;
            &&& (!s0.active_has_id(match_id) ==> s1 == s0 && out_view(out@) == seq![
                (player_id, ServerMessageV::BadRequest(ClientRequestError::Match404)),
            ])
            &&& (s0.active_has_id(match_id) ==> ({
                let i = s0.active_index(match_id);
                let m = s0.active_matches[i];
                &&& s1.active_matches == s0.active_matches.update(i, hint_t(m, hint@))
                &&& s1.available_players == s0.available_players
                &&& s1.finished_matches == s0.finished_matches
                &&& out_view(out@) == seq![(m.guesser, ServerMessageV::MatchHint(match_id, hint@))]
            }))
        }),
{
    let ghost s0 = server_state@;
    let ghost hv = hint@;
    let mut out: Vec<(u128, ServerMessage)> = Vec::new();
    match server_state.add_hint(match_id, hint.as_str()) {
        Some(guesser) => {
            out.push((guesser, ServerMessage::MatchHint(match_id, hint)));
            proof {
                let i = s0.active_index(match_id);
                let m = s0.active_matches[i];
                assert(out_view(out@) =~= seq![
                    (m.guesser, ServerMessageV::MatchHint(match_id, hv)),
                ]);
                assert forall|k: int| 0 <= k < server_state@.active_matches.len() implies (
                #[trigger] server_state@.active_matches[k]).state == MatchState::Active by {
                    if k != i {
                        assert(server_state@.active_matches[k] == s0.active_matches[k]);
                    } else {
                        assert(server_state@.active_matches[k] == hint_t(m, hv));
                    }
                }
            }
        },
        None => {
            out.push((player_id, ServerMessage::BadRequest(ClientRequestError::Match404)));
            proof {
                assert(out_view(out@) =~= seq![
                    (player_id, ServerMessageV::BadRequest(ClientRequestError::Match404)),
                ]);
            }
        },
    }
    out
}

/// The guesser of an active match may abandon it: the match turns `GivenUp`,
/// the guesser is told the match ended unsolved, and the match is finished.
/// Anyone else is refused; an unknown match id earns a `Match404`.
fn handle_give_up(player_id: u128, match_id: u128, server_state: &mut ServerState) -> (out: Vec<
    (u128, ServerMessage),
>)
    requires
        old(server_state)@.wf(),
        old(server_state)@.all_active(),
    ensures
        final(server_state)@.wf(),
        final(server_state)@.all_active(),
        ({
            let s0 = old(server_state)@;
            let s1 = final(server_state)@;
            &&& (!s0.active_has_id(match_id) ==> s1 == s0 && out_view(out@) == seq![
                (player_id, ServerMessageV::BadRequest(ClientRequestError::Match404)),
            ])
            &&& (s0.active_has_id(match_id) ==> ({
                let i = s0.active_index(match_id);
                let m = s0.active_matches[i];
                let h = count32(m.hints.len() as int);
                &&& (m.guesser != player_id ==> s1 == s0 && out_view(out@) == seq![
                    (player_id, ServerMessageV::BadRequest(ClientRequestError::PermissionDenied)),
                ])
                &&& (m.guesser == player_id ==> ({
                    &&& s1.active_matches == s0.active_matches.update(i, give_up_t(m)).remove(i)
                    &&& s1.finished_matches == s0.finished_matches.push(give_up_t(m))
                    &&& s1.available_players == add_avail(
                        add_avail(s0.available_players, m.guesser),
                        m.challenger,
                    )
                    &&& out_view(out@) == seq![
                        (m.guesser, ServerMessageV::MatchEnded(match_id, m.attempts, h, false)),
                    ]
                }))
            }))
        }),
{
    let ghost s0 = server_state@;
    let mut out: Vec<(u128, ServerMessage)> = Vec::new();
    match server_state.find_active_index(match_id) {
        Some(idx) => {
            let ghost i = idx as int;
            let ghost m = s0.active_matches[i];
            let guesser = server_state.active_matches[idx].guesser;
            let attempts = server_state.active_matches[idx].attempts;
            let h = len_to_u32(server_state.active_matches[idx].hints.len());
            if guesser != player_id {
                out.push(
                    (player_id, ServerMessage::BadRequest(ClientRequestError::PermissionDenied)),
                );
                proof {
                    assert(out_view(out@) =~= seq![
                        (
                            player_id,
                            ServerMessageV::BadRequest(ClientRequestError::PermissionDenied),
                        ),
                    ]);
                }
            } else {
                server_state.give_up(match_id);
                let ghost s1 = server_state@;
                out.push((guesser, ServerMessage::MatchEnded(match_id, attempts, h, false)));
                proof {
                    assert(s1.active_matches == s0.active_matches.update(i, give_up_t(m)));
                    assert(s1.active_matches[i].id == match_id);
                    assert(s1.active_has_id(match_id));
                    let w = s1.active_index(match_id);
                    assert(0 <= w < s1.active_matches.len() && s1.active_matches[w].id == match_id);
                    assert(w == i) by {
                        if w < i {
                            assert(s1.active_matches[w].id != s1.active_matches[i].id);
                        }
                        if i < w {
                            assert(s1.active_matches[i].id != s1.active_matches[w].id);
                        }
                    }
                }
                server_state.finish_match(match_id);
                proof {
                    assert(server_state@.active_matches == s0.active_matches.update(
                        i,
                        give_up_t(m),
                    ).remove(i));
                    assert(out_view(out@) =~= seq![
                        (
                            m.guesser,
                            ServerMessageV::MatchEnded(
                                match_id,
                                m.attempts,
                                count32(m.hints.len() as int),
                                false,
                            ),
                        ),
                    ]);
                    assert forall|k: int| 0 <= k < server_state@.active_matches.len() implies (
                    #[trigger] server_state@.active_matches[k]).state == MatchState::Active by {
                        if k < i {
                            assert(server_state@.active_matches[k] == s0.active_matches[k]);
                        } else {
                            assert(server_state@.active_matches[k] == s0.active_matches[k + 1]);
                        }
                    }
                }
            }
        },
        None => {
            out.push((player_id, ServerMessage::BadRequest(ClientRequestError::Match404)));
            proof {
                assert(out_view(out@) =~= seq![
                    (player_id, ServerMessageV::BadRequest(ClientRequestError::Match404)),
                ]);
            }
        },
    }
    out
}

/// The sender leaves: its one active match (if any) is abandoned — `GivenUp`
/// when the sender is its guesser, `Cancelled` when its challenger — the
/// other participant is told the match ended unsolved, the match is finished,
/// the sender leaves the available set and is told to disconnect.
fn handle_leave_game(player_id: u128, server_state: &mut ServerState) -> (out: Vec<
    (u128, ServerMessage),
>)
    requires
        old(server_state)@.wf(),
        old(server_state)@.all_active(),
    ensures
        final(server_state)@.wf(),
        final(server_state)@.all_active(),
        ({
            let s0 = old(server_state)@;
            let s1 = final(server_state)@;
            &&& (!s0.playing(player_id) ==> ({
                &&& s1.available_players == s0.available_players.remove_value(player_id)
                &&& s1.active_matches == s0.active_matches
                &&& s1.finished_matches == s0.finished_matches
                &&& out_view(out@) == seq![(player_id, ServerMessageV::Disconnect)]
            }))
            &&& (s0.playing(player_id) ==> ({
                let i = s0.playing_index(player_id);
                let m = s0.active_matches[i];
                let ended = if m.guesser == player_id {
                    give_up_t(m)
                } else {
                    cancel_t(m)
                };
                let target = if m.guesser == player_id {
                    m.challenger
                } else {
                    m.guesser
                };
                &&& s1.active_matches == s0.active_matches.update(i, ended).remove(i)
                &&& s1.finished_matches == s0.finished_matches.push(ended)
                &&& s1.available_players == add_avail(
                    add_avail(s0.available_players, m.guesser),
                    m.challenger,
                ).remove_value(player_id)
                &&& out_view(out@) == seq![
                    (
                        target,
                        ServerMessageV::MatchEnded(
                            m.id,
                            m.attempts,
                            count32(m.hints.len() as int),
                            false,
                        ),
                    ),
                    (player_id, ServerMessageV::Disconnect),
                ]
            }))
        }),
{
    let ghost s0 = server_state@;
    let mut out: Vec<(u128, ServerMessage)> = Vec::new();
    match server_state.find_playing_index(player_id) {
        Some(idx) => {
            let ghost i = idx as int;
            let ghost m = s0.active_matches[i];
            let match_id = server_state.active_matches[idx].id;
            let challenger = server_state.active_matches[idx].challenger;
            let guesser = server_state.active_matches[idx].guesser;
            let attempts = server_state.active_matches[idx].attempts;
            let h = len_to_u32(server_state.active_matches[idx].hints.len());
            proof {
                assert(s0.active_index(match_id) == i) by {
                    assert(s0.active_matches[i].id == match_id);
                    assert(s0.active_has_id(match_id));
                    let w = s0.active_index(match_id);
                    assert(0 <= w < s0.active_matches.len() && s0.active_matches[w].id == match_id);
                    if w < i {
                        assert(s0.active_matches[w].id != s0.active_matches[i].id);
                    }
                    if i < w {
                        assert(s0.active_matches[i].id != s0.active_matches[w].id);
                    }
                }
            }
            if guesser == player_id {
                server_state.give_up(match_id);
                out.push((challenger, ServerMessage::MatchEnded(match_id, attempts, h, false)));
            } else {
                server_state.cancel(match_id);
                out.push((guesser, ServerMessage::MatchEnded(match_id, attempts, h, false)));
            }
            let ghost s1 = server_state@;
            let ghost ended = if m.guesser == player_id {
                give_up_t(m)
            } else {
                cancel_t(m)
            };
            proof {
                assert(s1.active_matches == s0.active_matches.update(i, ended));
                assert(s1.active_matches[i].id == match_id);
                assert(s1.active_has_id(match_id));
                let w = s1.active_index(match_id);
                assert(0 <= w < s1.active_matches.len() && s1.active_matches[w].id == match_id);
                assert(w == i) by {
                    if w < i {
                        assert(s1.active_matches[w].id != s1.active_matches[i].id);
                    }
                    if i < w {
                        assert(s1.active_matches[i].id != s1.active_matches[w].id);
                    }
                }
            }
            server_state.finish_match(match_id);
            proof {
                assert(server_state@.active_matches == s0.active_matches.update(i, ended).remove(
                    i,
                ));
                assert forall|k: int| 0 <= k < server_state@.active_matches.len() implies (
                #[trigger] server_state@.active_matches[k]).state == MatchState::Active by {
                    if k < i {
                        assert(server_state@.active_matches[k] == s0.active_matches[k]);
                    } else {
                        assert(server_state@.active_matches[k] == s0.active_matches[k + 1]);
                    }
                }
            }
        },
        None => {},
    }
    server_state.remove_available_player(player_id);
    out.push((player_id, ServerMessage::Disconnect));
    proof {
        if s0.playing(player_id) {
            let i = s0.playing_index(player_id);
            let m = s0.active_matches[i];
            let target = if m.guesser == player_id {
                m.challenger
            } else {
                m.guesser
            };
            assert(out_view(out@) =~= seq![
                (
                    target,
                    ServerMessageV::MatchEnded(
                        m.id,
                        m.attempts,
                        count32(m.hints.len() as int),
                        false,
                    ),
                ),
                (player_id, ServerMessageV::Disconnect),
            ]);
        } else {
            assert(out_view(out@) =~= seq![(player_id, ServerMessageV::Disconnect)]);
        }
    }
    out
}

/// Process one client message against the session state, driving all state
/// transitions to completion and producing every outbound reply, addressed by
/// player id. Decisions follow the dispatch table: authentication adds the
/// sender to the available set, matchmaking pairs two available players, and
/// guesses, hints and abandonment drive the addressed match's state machine,
/// finishing it the moment it turns terminal.
pub fn react_to_client_msg(player_id: u128, msg: ClientMessage, server_state: &mut ServerState) -> (out: Vec<
    (u128, ServerMessage),
>)
    requires
        old(server_state)@.wf(),
        old(server_state)@.all_active(),
    ensures
        final(server_state)@.wf(),
        final(server_state)@.all_active(),
        (msg@ matches ClientMessageV::AnswerPassword(p) ==> ({
            let s0 = old(server_state)@;
            let s1 = final(server_state)@;
            &&& (p != shared_secret() ==> s1 == s0 && out@.len() == 0)
            &&& (p == shared_secret() ==> ({
                &&& out_view(out@) == seq![(player_id, ServerMessageV::AssignId(player_id))]
                &&& s1.active_matches == s0.active_matches
                &&& s1.finished_matches == s0.finished_matches
                &&& (!s0.playing(player_id) ==> s1.available_players == add_avail(
                    s0.available_players,
                    player_id,
                ))
                &&& (s0.playing(player_id) ==> s1 == s0)
            }))
        })),
        (msg@ matches ClientMessageV::GetOpponents ==> ({
            let s0 = old(server_state)@;
            let s1 = final(server_state)@;
            &&& s1 == s0
            &&& out_view(out@) == seq![
                (
                    player_id,
                    ServerMessageV::ListOpponents(others(s0.available_players, player_id)),
                ),
            ]
        })),
        (msg@ matches ClientMessageV::RequestMatch(opponent, word) ==> request_match_post(
            old(server_state)@,
            final(server_state)@,
            out_view(out@),
            player_id,
            opponent,
            word,
        )),
        (msg@ matches ClientMessageV::GuessAttempt(mid, guess) ==> ({
            let s0 = old(server_state)@;
            let s1 = final(server_state)@;
            &&& (!s0.active_has_id(mid) ==> s1 == s0 && out_view(out@) == seq![
                (player_id, ServerMessageV::BadRequest(ClientRequestError::Match404)),
            ])
            &&& (s0.active_has_id(mid) ==> ({
                let i = s0.active_index(mid);
                let m = s0.active_matches[i];
                let na = inc32(m.attempts);
                let h = count32(m.hints.len() as int);
                &&& (guess != m.guess_word ==> ({
                    &&& s1.active_matches == s0.active_matches.update(i, attempt_t(m, guess))
                    &&& s1.available_players == s0.available_players
                    &&& s1.finished_matches == s0.finished_matches
                    &&& out_view(out@) == seq![
                        (m.challenger, ServerMessageV::MatchAttempt(mid, na, h, guess)),
                        (m.guesser, ServerMessageV::IncorrectGuess(mid, na)),
                    ]
                }))
                &&& (guess == m.guess_word ==> ({
                    &&& s1.active_matches == s0.active_matches.update(
                        i,
                        attempt_t(m, guess),
                    ).remove(i)
                    &&& s1.available_players == add_avail(
                        add_avail(s0.available_players, m.guesser),
                        m.challenger,
                    )
                    &&& s1.finished_matches == s0.finished_matches.push(attempt_t(m, guess))
                    &&& out_view(out@) == seq![
                        (m.challenger, ServerMessageV::MatchEnded(mid, na, h, true)),
                        (m.guesser, ServerMessageV::MatchEnded(mid, na, h, true)),
                    ]
                }))
            }))
        })),
        (msg@ matches ClientMessageV::SendHint(mid, hint) ==> ({
            let s0 = old(server_state)@;
            let s1 = final(server_state)@;
            &&& (!s0.active_has_id(mid) ==> s1 == s0 && out_view(out@) == seq![
                (player_id, ServerMessageV::BadRequest(ClientRequestError::Match404)),
            ])
            &&& (s0.active_has_id(mid) ==> ({
                let i = s0.active_index(mid);
                let m = s0.active_matches[i];
                &&& s1.active_matches == s0.active_matches.update(i, hint_t(m, hint))
                &&& s1.available_players == s0.available_players
                &&& s1.finished_matches == s0.finished_matches
                &&& out_view(out@) == seq![(m.guesser, ServerMessageV::MatchHint(mid, hint))]
            }))
        })),
        (msg@ matches ClientMessageV::GiveUp(mid) ==> ({
            let s0 = old(server_state)@;
            let s1 = final(server_state)@;
            &&& (!s0.active_has_id(mid) ==> s1 == s0 && out_view(out@) == seq![
                (player_id, ServerMessageV::BadRequest(ClientRequestError::Match404)),
            ])
            &&& (s0.active_has_id(mid) ==> ({
                let i = s0.active_index(mid);
                let m = s0.active_matches[i];
                let h = count32(m.hints.len() as int);
                &&& (m.guesser != player_id ==> s1 == s0 && out_view(out@) == seq![
                    (player_id, ServerMessageV::BadRequest(ClientRequestError::PermissionDenied)),
                ])
                &&& (m.guesser == player_id ==> ({
                    &&& s1.active_matches == s0.active_matches.update(i, give_up_t(m)).remove(i)
                    &&& s1.finished_matches == s0.finished_matches.push(give_up_t(m))
                    &&& s1.available_players == add_avail(
                        add_avail(s0.available_players, m.guesser),
                        m.challenger,
                    )
                    &&& out_view(out@) == seq![
                        (m.guesser, ServerMessageV::MatchEnded(mid, m.attempts, h, false)),
                    ]
                }))
            }))
        })),
        (msg@ matches ClientMessageV::LeaveGame ==> ({
            let s0 = old(server_state)@;
            let s1 = final(server_state)@;
            &&& (!s0.playing(player_id) ==> ({
                &&& s1.available_players == s0.available_players.remove_value(player_id)
                &&& s1.active_matches == s0.active_matches
                &&& s1.finished_matches == s0.finished_matches
                &&& out_view(out@) == seq![(player_id, ServerMessageV::Disconnect)]
            }))
            &&& (s0.playing(player_id) ==> ({
                let i = s0.playing_index(player_id);
                let m = s0.active_matches[i];
                let ended = if m.guesser == player_id {
                    give_up_t(m)
                } else {
                    cancel_t(m)
                };
                let target = if m.guesser == player_id {
                    m.challenger
                } else {
                    m.guesser
                };
                &&& s1.active_matches == s0.active_matches.update(i, ended).remove(i)
                &&& s1.finished_matches == s0.finished_matches.push(ended)
                &&& s1.available_players == add_avail(
                    add_avail(s0.available_players, m.guesser),
                    m.challenger,
                ).remove_value(player_id)
                &&& out_view(out@) == seq![
                    (
                        target,
                        ServerMessageV::MatchEnded(
                            m.id,
                            m.attempts,
                            count32(m.hints.len() as int),
                            false,
                        ),
                    ),
                    (player_id, ServerMessageV::Disconnect),
                ]
            }))
        })),
{
    match msg {
        ClientMessage::AnswerPassword(password) => handle_answer_password(
            player_id,
            password,
            server_state,
        ),
        ClientMessage::GetOpponents => handle_get_opponents(player_id, server_state),
        ClientMessage::RequestMatch(opponent, guess_word) => handle_request_match(
            player_id,
            opponent,
            guess_word,
            server_state,
        ),
        ClientMessage::GuessAttempt(match_id, guess) => handle_guess_attempt(
            player_id,
            match_id,
            guess,
            server_state,
        ),
        ClientMessage::SendHint(match_id, hint) => handle_send_hint(
            player_id,
            match_id,
            hint,
            server_state,
        ),
        ClientMessage::GiveUp(match_id) => handle_give_up(player_id, match_id, server_state),
        ClientMessage::LeaveGame => handle_leave_game(player_id, server_state),
    }
}

} // verus!
