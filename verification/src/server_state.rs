//! Authoritative session state: the available set, the active and finished
//! match stores, and the matchmaking state machine.
//!
//! `ServerStateV::wf` is the data-model invariant: distinct match ids,
//! pairwise-disjoint participants of active matches, and an available set
//! disjoint from all active participants. Every operation preserves it.
use vstd::prelude::*;

verus! {

/// The state machine of one match. `Active` is initial; the other three
/// states are terminal.
#[derive(Debug, Clone, Copy, PartialEq, Eq, Structural)]
pub enum MatchState {
    Active,
    GivenUp,
    Solved,
    Cancelled,
}

/// Model of a `Match`: strings as `Seq<char>`.
#[verifier::ext_equal]
pub struct MatchV {
    pub id: u128,
    pub challenger: u128,
    pub guesser: u128,
    pub attempts: u32,
    pub hints: Seq<Seq<char>>,
    pub guess_word: Seq<char>,
    pub state: MatchState,
}

/// One challenger/guesser pairing with its secret word, progress counters and
/// state.
#[derive(Debug)]
pub struct Match {
    pub id: u128,
    pub challenger: u128,
    pub guesser: u128,
    pub attempts: u32,
    pub hints: Vec<String>,
    pub guess_word: String,
    pub state: MatchState,
}

impl View for Match {
    type V = MatchV;

    open spec fn view(&self) -> MatchV {
        MatchV {
            id: self.id,
            challenger: self.challenger,
            guesser: self.guesser,
            attempts: self.attempts,
            hints: Seq::new(self.hints@.len(), |i: int| self.hints@[i]@),
            guess_word: self.guess_word@,
            state: self.state,
        }
    }
}

/// The attempt counter increments by one and saturates at the machine bound.
pub open spec fn inc32(a: u32) -> u32 {
    if a < u32::MAX {
        (a + 1) as u32
    } else {
        u32::MAX
    }
}

/// A count reported in a 32-bit protocol field, saturated at the machine bound.
pub open spec fn count32(n: int) -> u32 {
    if n >= u32::MAX {
        u32::MAX
    } else if n < 0 {
        0
    } else {
        n as u32
    }
}

/// What one recorded guess does to a match: one more attempt, and the state
/// becomes `Solved` exactly when the guess equals the secret word.
pub open spec fn attempt_t(m: MatchV, guess: Seq<char>) -> MatchV {
    MatchV {
        attempts: inc32(m.attempts),
        state: if guess == m.guess_word {
            MatchState::Solved
        } else {
            m.state
        },
        ..m
    }
}

/// What appending one hint does to a match.
pub open spec fn hint_t(m: MatchV, hint: Seq<char>) -> MatchV {
    MatchV { hints: m.hints.push(hint), ..m }
}

/// Force-terminating an active match to `GivenUp`; a no-op once terminal.
pub open spec fn give_up_t(m: MatchV) -> MatchV {
    MatchV {
        state: if m.state == MatchState::Active {
            MatchState::GivenUp
        } else {
            m.state
        },
        ..m
    }
}

/// Force-terminating an active match to `Cancelled`; a no-op once terminal.
pub open spec fn cancel_t(m: MatchV) -> MatchV {
    MatchV {
        state: if m.state == MatchState::Active {
            MatchState::Cancelled
        } else {
            m.state
        },
        ..m
    }
}

/// Relies on `uuid::Uuid::new_v4` to mint a fresh random identifier, returned
/// as its 128-bit value. The result is random: nothing is promised of it.
#[verifier::external_body]
fn fresh_match_id() -> u128 {
    uuid::Uuid::new_v4().as_u128()
}

impl Match {
    /// A new active match between `player_duo.0` (the challenger) and
    /// `player_duo.1` (the guesser), with a freshly minted id.
    pub fn new(player_duo: (u128, u128), guess_word: &str) -> (m: Match)
        ensures
            m@.challenger == player_duo.0,
            m@.guesser == player_duo.1,
            m@.attempts == 0,
            m@.hints == Seq::<Seq<char>>::empty(),
            m@.guess_word == guess_word@,
            m@.state == MatchState::Active,
    {
        let m = Match {
            id: fresh_match_id(),
            challenger: player_duo.0,
            guesser: player_duo.1,
            attempts: 0,
            hints: Vec::<String>::new(),
            guess_word: guess_word.to_owned(),
            state: MatchState::Active,
        };
        proof {
            assert(m@.hints =~= Seq::<Seq<char>>::empty());
        }
        m
    }

    /// Record one guess: the attempt counter advances (saturating at the
    /// machine bound) and the match is solved exactly when the guess equals
    /// the secret word.
    pub fn attempt(&mut self, guess: &str)
        ensures
            final(self)@ == attempt_t(old(self)@, guess@),
    {
        if self.attempts < u32::MAX {
            self.attempts = self.attempts + 1;
        }
        let g: String = guess.to_owned();
        if self.guess_word == g {
            self.state = MatchState::Solved;
        }
        proof {
            assert(self@ =~= attempt_t(old(self)@, guess@));
        }
    }

    /// Append one hint to the match's ordered hint sequence.
    pub fn add_hint(&mut self, hint: &str)
        ensures
            final(self)@ == hint_t(old(self)@, hint@),
    {
        self.hints.push(hint.to_owned());
        proof {
            assert(self@.hints =~= old(self)@.hints.push(hint@));
            assert(self@ =~= hint_t(old(self)@, hint@));
        }
    }

    /// The guesser abandons the match.
    pub fn give_up(&mut self)
        ensures
            final(self)@ == give_up_t(old(self)@),
    {
        if matches!(self.state, MatchState::Active) {
            self.state = MatchState::GivenUp;
        }
        proof {
            assert(self@ =~= give_up_t(old(self)@));
        }
    }

    /// The challenger abandons the match.
    pub fn cancel(&mut self)
        ensures
            final(self)@ == cancel_t(old(self)@),
    {
        if matches!(self.state, MatchState::Active) {
            self.state = MatchState::Cancelled;
        }
        proof {
            assert(self@ =~= cancel_t(old(self)@));
        }
    }
}

/// Whether `p` is the challenger or the guesser of `m`.
pub open spec fn participates(m: MatchV, p: u128) -> bool {
    m.challenger == p || m.guesser == p
}

/// No player is a participant of both `a` and `b`.
pub open spec fn disjoint_participants(a: MatchV, b: MatchV) -> bool {
    &&& !participates(a, b.challenger)
    &&& !participates(a, b.guesser)
}

/// Adding a player to the available set is idempotent.
pub open spec fn add_avail(s: Seq<u128>, p: u128) -> Seq<u128> {
    if s.contains(p) {
        s
    } else {
        s.push(p)
    }
}

/// The available players other than `p`, in store order.
pub open spec fn others(avail: Seq<u128>, p: u128) -> Seq<u128>
    decreases avail.len(),
{
    if avail.len() == 0 {
        Seq::empty()
    } else {
        others(avail.drop_last(), p) + if avail.last() != p {
            seq![avail.last()]
        } else {
            Seq::empty()
        }
    }
}

/// Model of the whole session state.
#[verifier::ext_equal]
pub struct ServerStateV {
    pub available_players: Seq<u128>,
    pub active_matches: Seq<MatchV>,
    pub finished_matches: Seq<MatchV>,
}

impl ServerStateV {
    /// Some stored active match has id `mid`.
    pub open spec fn active_has_id(self, mid: u128) -> bool {
        exists|i: int|
            0 <= i < self.active_matches.len() && (#[trigger] self.active_matches[i]).id == mid
    }

    /// Some stored finished match has id `mid`.
    pub open spec fn finished_has_id(self, mid: u128) -> bool {
        exists|i: int|
            0 <= i < self.finished_matches.len() && (#[trigger] self.finished_matches[i]).id == mid
    }

    /// The index of the active match with id `mid` (unique under `wf`).
    pub open spec fn active_index(self, mid: u128) -> int {
        choose|i: int|
            0 <= i < self.active_matches.len() && (#[trigger] self.active_matches[i]).id == mid
    }

    /// The active match with id `mid` (meaningful only when `active_has_id`).
    pub open spec fn active_match(self, mid: u128) -> MatchV {
        self.active_matches[self.active_index(mid)]
    }

    /// `p` participates in some stored active match.
    pub open spec fn playing(self, p: u128) -> bool {
        exists|i: int|
            0 <= i < self.active_matches.len() && participates(
                #[trigger] self.active_matches[i],
                p,
            )
    }

    /// The index of the active match `p` participates in (unique under `wf`).
    pub open spec fn playing_index(self, p: u128) -> int {
        choose|i: int|
            0 <= i < self.active_matches.len() && participates(
                #[trigger] self.active_matches[i],
                p,
            )
    }

    /// The data-model invariant.
    pub open spec fn wf(self) -> bool {
        &&& (forall|i: int, j: int|
            0 <= i < j < self.available_players.len() ==> self.available_players[i]
                != self.available_players[j])
        &&& (forall|i: int, j: int|
            0 <= i < j < self.active_matches.len() ==> (#[trigger] self.active_matches[i]).id != (
            #[trigger] self.active_matches[j]).id)
        &&& (forall|i: int, j: int|
            0 <= i < j < self.finished_matches.len() ==> (#[trigger] self.finished_matches[i]).id
                != (#[trigger] self.finished_matches[j]).id)
        &&& (forall|i: int, j: int|
            0 <= i < self.active_matches.len() && 0 <= j < self.finished_matches.len() ==> (
            #[trigger] self.active_matches[i]).id != (#[trigger] self.finished_matches[j]).id)
        &&& (forall|i: int, j: int|
            0 <= i < j < self.active_matches.len() ==> disjoint_participants(
                #[trigger] self.active_matches[i],
                #[trigger] self.active_matches[j],
            ))
        &&& (forall|i: int|
            0 <= i < self.active_matches.len() ==> !self.available_players.contains(
                (#[trigger] self.active_matches[i]).challenger,
            ) && !self.available_players.contains(self.active_matches[i].guesser))
    }

    /// Every stored active match is in the `Active` state; this holds between
    /// dispatch steps, which finish terminal matches before returning.
    pub open spec fn all_active(self) -> bool {
        forall|i: int|
            0 <= i < self.active_matches.len() ==> (#[trigger] self.active_matches[i]).state
                == MatchState::Active
    }
}

/// Successful matchmaking: both players leave the available set and a fresh
/// active match is appended.
pub open spec fn create_t(s: ServerStateV, c: u128, g: u128, word: Seq<char>, mid: u128) -> ServerStateV {
    ServerStateV {
        available_players: s.available_players.remove_value(c).remove_value(g),
        active_matches: s.active_matches.push(
            MatchV {
                id: mid,
                challenger: c,
                guesser: g,
                attempts: 0,
                hints: Seq::empty(),
                guess_word: word,
                state: MatchState::Active,
            },
        ),
        finished_matches: s.finished_matches,
    }
}

/// Finishing the active match at index `i`: it moves to the finished store and
/// both participants return to the available set.
pub open spec fn finish_t(s: ServerStateV, i: int) -> ServerStateV {
    ServerStateV {
        available_players: add_avail(
            add_avail(s.available_players, s.active_matches[i].guesser),
            s.active_matches[i].challenger,
        ),
        active_matches: s.active_matches.remove(i),
        finished_matches: s.finished_matches.push(s.active_matches[i]),
    }
}

/// The authoritative store: which players are available, which matches are
/// active, and which have finished.
#[derive(Debug)]
pub struct ServerState {
    pub available_players: Vec<u128>,
    pub active_matches: Vec<Match>,
    pub finished_matches: Vec<Match>,
}

impl View for ServerState {
    type V = ServerStateV;

    open spec fn view(&self) -> ServerStateV {
        ServerStateV {
            available_players: self.available_players@,
            active_matches: Seq::new(self.active_matches@.len(), |i: int| self.active_matches@[i]@),
            finished_matches: Seq::new(
                self.finished_matches@.len(),
                |i: int| self.finished_matches@[i]@,
            ),
        }
    }
}

impl Default for ServerState {
    /// The empty session state.
    fn default() -> (r: ServerState)
        ensures
            r@.wf(),
            r@.all_active(),
            r@.available_players == Seq::<u128>::empty(),
            r@.active_matches == Seq::<MatchV>::empty(),
            r@.finished_matches == Seq::<MatchV>::empty(),
    {
        let r = ServerState {
            available_players: Vec::new(),
            active_matches: Vec::new(),
            finished_matches: Vec::new(),
        };
        proof {
            assert(r@.available_players =~= Seq::<u128>::empty());
            assert(r@.active_matches =~= Seq::<MatchV>::empty());
            assert(r@.finished_matches =~= Seq::<MatchV>::empty());
        }
        r
    }
}

impl ServerState {
    /// Whether `player_id` is in the available set.
    pub fn is_available(&self, player_id: u128) -> (r: bool)
        ensures
            r == self@.available_players.contains(player_id),
    {
        let n = self.available_players.len();
        let mut i: usize = 0;
        while i < n
            invariant
                n == self.available_players.len(),
                0 <= i <= n,
                forall|j: int| 0 <= j < i ==> self.available_players@[j] != player_id,
            decreases n - i,
        {
            if self.available_players[i] == player_id {
                return true;
            }
            i = i + 1;
        }
        false
    }

    /// Whether `p` participates in some stored active match.
    pub fn is_playing(&self, p: u128) -> (r: bool)
        ensures
            r == self@.playing(p),
    {
        let n = self.active_matches.len();
        let mut i: usize = 0;
        while i < n
            invariant
                n == self.active_matches.len(),
                0 <= i <= n,
                forall|j: int| 0 <= j < i ==> !participates(#[trigger] self@.active_matches[j], p),
            decreases n - i,
        {
            if self.active_matches[i].challenger == p || self.active_matches[i].guesser == p {
                assert(participates(self@.active_matches[i as int], p));
                return true;
            }
            i = i + 1;
        }
        false
    }

    /// Add `player_id` to the available set; idempotent.
    pub fn add_available_player(&mut self, player_id: u128)
        requires
            old(self)@.wf(),
            !old(self)@.playing(player_id),
        ensures
            final(self)@.wf(),
            final(self)@.available_players == add_avail(old(self)@.available_players, player_id),
            final(self)@.active_matches == old(self)@.active_matches,
            final(self)@.finished_matches == old(self)@.finished_matches,
    {
        if !self.is_available(player_id) {
            self.available_players.push(player_id);
            proof {
                assert forall|i: int| 0 <= i < self@.active_matches.len() implies
                    !self@.available_players.contains((#[trigger] self@.active_matches[i]).challenger)
                    && !self@.available_players.contains(self@.active_matches[i].guesser) by {
                    assert(!participates(old(self)@.active_matches[i], player_id));
                    assert(forall|k: int|
                        0 <= k < self@.available_players.len() ==> self@.available_players[k]
                            != self@.active_matches[i].challenger);
                    assert(forall|k: int|
                        0 <= k < self@.available_players.len() ==> self@.available_players[k]
                            != self@.active_matches[i].guesser);
                }
                assert(self@.active_matches =~= old(self)@.active_matches);
                assert(self@.finished_matches =~= old(self)@.finished_matches);
            }
        }
    }

    /// Remove `player_id` from the available set; idempotent.
    pub fn remove_available_player(&mut self, player_id: u128)
        requires
            old(self)@.wf(),
        ensures
            final(self)@.wf(),
            final(self)@.available_players == old(self)@.available_players.remove_value(player_id),
            !final(self)@.available_players.contains(player_id),
            final(self)@.active_matches == old(self)@.active_matches,
            final(self)@.finished_matches == old(self)@.finished_matches,
    {
        let ghost s0 = self@.available_players;
        let n = self.available_players.len();
        let mut i: usize = 0;
        while i < n
            invariant
                self@ == old(self)@,
                old(self)@.wf(),
                s0 == old(self)@.available_players,
                n == self.available_players.len(),
                0 <= i <= n,
                forall|j: int| 0 <= j < i ==> s0[j] != player_id,
            decreases n - i,
        {
            if self.available_players[i] == player_id {
                self.available_players.remove(i);
                proof {
                    assert(s0.contains(player_id));
                    assert(s0.index_of_first(player_id) == Some(i as int)) by {
                        s0.index_of_first_ensures(player_id);
                        let k = s0.index_of_first(player_id).unwrap();
                        assert(0 <= k < s0.len() && s0[k] == player_id);
                        assert(!(k < i) && !(i < k));
                    }
                    assert(self@.available_players =~= s0.remove_value(player_id)) by {
                        s0.index_of_first_ensures(player_id);
                    }
                    assert(!self@.available_players.contains(player_id)) by {
                        if self@.available_players.contains(player_id) {
                            let k = choose|k: int|
                                0 <= k < self@.available_players.len()
                                    && self@.available_players[k] == player_id;
                            if k < i {
                                assert(s0[k] == player_id);
                            } else {
                                assert(s0[k + 1] == player_id);
                            }
                        }
                    }
                    assert(self@.active_matches =~= old(self)@.active_matches);
                    assert(self@.finished_matches =~= old(self)@.finished_matches);
                }
                return ;
            }
            i = i + 1;
        }
        proof {
            assert(!s0.contains(player_id));
            assert(self@.available_players =~= s0.remove_value(player_id)) by {
                s0.index_of_first_ensures(player_id);
            }
        }
    }

    /// The available players other than `p`, in store order.
    pub fn opponents_of(&self, p: u128) -> (r: Vec<u128>)
        ensures
            r@ == others(self@.available_players, p),
    {
        let ghost avail = self@.available_players;
        let n = self.available_players.len();
        let mut r: Vec<u128> = Vec::new();
        let mut i: usize = 0;
        while i < n
            invariant
                avail == self@.available_players,
                n == self.available_players.len(),
                0 <= i <= n,
                r@ == others(avail.subrange(0, i as int), p),
            decreases n - i,
        {
            let q = self.available_players[i];
            proof {
                assert(avail.subrange(0, i + 1).drop_last() =~= avail.subrange(0, i as int));
                assert(avail.subrange(0, i + 1).last() == avail[i as int]);
            }
            if q != p {
                r.push(q);
                proof {
                    assert(r@ =~= others(avail.subrange(0, i + 1), p));
                }
            } else {
                proof {
                    assert(r@ =~= others(avail.subrange(0, i + 1), p));
                }
            }
            i = i + 1;
        }
        proof {
            assert(avail.subrange(0, n as int) =~= avail);
        }
        r
    }

    /// Whether some stored active match has id `match_id`.
    pub fn has_active_match(&self, match_id: u128) -> (r: bool)
        ensures
            r == self@.active_has_id(match_id),
    {
        let n = self.active_matches.len();
        let mut i: usize = 0;
        while i < n
            invariant
                n == self.active_matches.len(),
                0 <= i <= n,
                forall|j: int| 0 <= j < i ==> (#[trigger] self@.active_matches[j]).id != match_id,
            decreases n - i,
        {
            if self.active_matches[i].id == match_id {
                assert(self@.active_matches[i as int].id == match_id);
                return true;
            }
            i = i + 1;
        }
        false
    }

    /// Whether some stored finished match has id `match_id`.
    pub fn has_finished_match(&self, match_id: u128) -> (r: bool)
        ensures
            r == self@.finished_has_id(match_id),
    {
        let n = self.finished_matches.len();
        let mut i: usize = 0;
        while i < n
            invariant
                n == self.finished_matches.len(),
                0 <= i <= n,
                forall|j: int| 0 <= j < i ==> (#[trigger] self@.finished_matches[j]).id != match_id,
            decreases n - i,
        {
            if self.finished_matches[i].id == match_id {
                assert(self@.finished_matches[i as int].id == match_id);
                return true;
            }
            i = i + 1;
        }
        false
    }

    /// The position of the active match with id `match_id`, if any.
    pub fn find_active_index(&self, match_id: u128) -> (r: Option<usize>)
        requires
            self@.wf(),
        ensures
            r is None <==> !self@.active_has_id(match_id),
            r matches Some(i) ==> 0 <= i < self@.active_matches.len()
                && self@.active_matches[i as int].id == match_id && self@.active_index(match_id)
                == i,
    {
        let n = self.active_matches.len();
        let mut i: usize = 0;
        while i < n
            invariant
                self@.wf(),
                n == self.active_matches.len(),
                0 <= i <= n,
                forall|j: int| 0 <= j < i ==> (#[trigger] self@.active_matches[j]).id != match_id,
            decreases n - i,
        {
            if self.active_matches[i].id == match_id {
                proof {
                    assert(self@.active_matches[i as int].id == match_id);
                    assert(self@.active_has_id(match_id));
                    let w = self@.active_index(match_id);
                    assert(0 <= w < self@.active_matches.len() && self@.active_matches[w].id
                        == match_id);
                    assert(w == i);
                }
                return Some(i);
            }
            i = i + 1;
        }
        None
    }

    /// The position of the active match `p` participates in, if any.
    pub fn find_playing_index(&self, p: u128) -> (r: Option<usize>)
        requires
            self@.wf(),
        ensures
            r is None <==> !self@.playing(p),
            r matches Some(i) ==> 0 <= i < self@.active_matches.len() && participates(
                self@.active_matches[i as int],
                p,
            ) && self@.playing_index(p) == i,
    {
        let n = self.active_matches.len();
        let mut i: usize = 0;
        while i < n
            invariant
                self@.wf(),
                n == self.active_matches.len(),
                0 <= i <= n,
                forall|j: int| 0 <= j < i ==> !participates(#[trigger] self@.active_matches[j], p),
            decreases n - i,
        {
            if self.active_matches[i].challenger == p || self.active_matches[i].guesser == p {
                proof {
                    assert(participates(self@.active_matches[i as int], p));
                    assert(self@.playing(p));
                    let w = self@.playing_index(p);
                    assert(0 <= w < self@.active_matches.len() && participates(
                        self@.active_matches[w],
                        p,
                    ));
                    if w != i {
                        lemma_no_double_participation(self@, p, w, i as int);
                    }
                }
                return Some(i);
            }
            i = i + 1;
        }
        None
    }

    /// The active match with id `match_id`, if any.
    pub fn get_active(&self, match_id: u128) -> (r: Option<&Match>)
        requires
            self@.wf(),
        ensures
            r is None <==> !self@.active_has_id(match_id),
            r matches Some(m) ==> m@ == self@.active_match(match_id) && self@.active_has_id(
                match_id,
            ),
    {
        match self.find_active_index(match_id) {
            None => None,
            Some(i) => Some(&self.active_matches[i]),
        }
    }

    /// Admit a prepared match into the active store: succeeds exactly when
    /// both participants are available and its id is unused, removing both
    /// from the available set.
    pub fn install_match(&mut self, m: Match) -> (r: Option<u128>)
        requires
            old(self)@.wf(),
        ensures
            final(self)@.wf(),
            r is Some <==> (old(self)@.available_players.contains(m@.challenger) && old(
                self,
            )@.available_players.contains(m@.guesser) && !old(self)@.active_has_id(m@.id) && !old(
                self,
            )@.finished_has_id(m@.id)),
            r is None ==> final(self)@ == old(self)@,
            r matches Some(mid) ==> ({
                &&& mid == m@.id
                &&& final(self)@.available_players == old(self)@.available_players.remove_value(
                    m@.challenger,
                ).remove_value(m@.guesser)
                &&& final(self)@.active_matches == old(self)@.active_matches.push(m@)
                &&& final(self)@.finished_matches == old(self)@.finished_matches
            }),
    {
        let ok = self.is_available(m.challenger) && self.is_available(m.guesser)
            && !self.has_active_match(m.id) && !self.has_finished_match(m.id);
        if !ok {
            return None;
        }
        let id = m.id;
        let c = m.challenger;
        let g = m.guesser;
        let ghost s0 = self@;
        self.remove_available_player(c);
        self.remove_available_player(g);
        let ghost s1 = self@;
        let ghost mv = m@;
        self.active_matches.push(m);
        proof {
            let s2 = self@;
            assert(s2.active_matches =~= s1.active_matches.push(mv));
            assert(s1.active_matches =~= s0.active_matches);
            assert(s1.finished_matches =~= s0.finished_matches);
            assert(s2.finished_matches =~= s1.finished_matches);
            assert(s2.available_players == s1.available_players);
            let n = s0.active_matches.len();
            // the new match's id is unused among the remaining stores
            assert forall|i: int| 0 <= i < n implies (#[trigger] s2.active_matches[i]).id
                != mv.id by {
                assert(s2.active_matches[i] == s0.active_matches[i]);
            }
            // both participants were available, so they play in no stored match
            assert forall|i: int| 0 <= i < n implies !participates(
                #[trigger] s2.active_matches[i],
                c,
            ) && !participates(s2.active_matches[i], g) by {
                assert(s2.active_matches[i] == s0.active_matches[i]);
                assert(!s0.available_players.contains(s0.active_matches[i].challenger));
                assert(!s0.available_players.contains(s0.active_matches[i].guesser));
            }
            // the shrunken available set is a subset of the old one
            assert forall|x: u128| s2.available_players.contains(x) implies
                s0.available_players.contains(x) && x != c && x != g by {
                lemma_remove_value_contains(s0.available_players.remove_value(c), g, x);
                lemma_remove_value_contains(s0.available_players, c, x);
            }
            assert(s2.wf()) by {
                assert forall|i: int, j: int| 0 <= i < j < s2.active_matches.len() implies (
                #[trigger] s2.active_matches[i]).id != (#[trigger] s2.active_matches[j]).id by {
                    if j < n {
                        assert(s2.active_matches[i] == s0.active_matches[i]);
                        assert(s2.active_matches[j] == s0.active_matches[j]);
                    }
                }
                assert forall|i: int, j: int|
                    0 <= i < s2.active_matches.len() && 0 <= j
                        < s2.finished_matches.len() implies (#[trigger] s2.active_matches[i]).id
                    != (#[trigger] s2.finished_matches[j]).id by {
                    assert(s2.finished_matches[j] == s0.finished_matches[j]);
                    if i < n {
                        assert(s2.active_matches[i] == s0.active_matches[i]);
                    }
                }
                assert forall|i: int, j: int|
                    0 <= i < j < s2.active_matches.len() implies disjoint_participants(
                    #[trigger] s2.active_matches[i],
                    #[trigger] s2.active_matches[j],
                ) by {
                    if j < n {
                        assert(s2.active_matches[i] == s0.active_matches[i]);
                        assert(s2.active_matches[j] == s0.active_matches[j]);
                    } else {
                        assert(s2.active_matches[j] == mv);
                    }
                }
                assert forall|i: int| 0 <= i < s2.active_matches.len() implies
                    !s2.available_players.contains((#[trigger] s2.active_matches[i]).challenger)
                    && !s2.available_players.contains(s2.active_matches[i].guesser) by {
                    if i < n {
                        assert(s2.active_matches[i] == s0.active_matches[i]);
                    } else {
                        assert(s2.active_matches[i] == mv);
                    }
                }
            }
        }
        Some(id)
    }

    /// Create a new match between `player_duo.0` (the challenger, choosing the
    /// word) and `player_duo.1` (the guesser). Succeeds only when both are
    /// available; it can also fail when the freshly minted id collides with a
    /// stored one, which no caller can rule out.
    pub fn create_new_match(&mut self, player_duo: (u128, u128), guess_word: &str) -> (r: Option<
        u128,
    >)
        requires
            old(self)@.wf(),
        ensures
            final(self)@.wf(),
            r is None ==> final(self)@ == old(self)@,
            (!old(self)@.available_players.contains(player_duo.0) || !old(
                self,
            )@.available_players.contains(player_duo.1)) ==> r is None,
            r matches Some(mid) ==> ({
                &&& old(self)@.available_players.contains(player_duo.0)
                &&& old(self)@.available_players.contains(player_duo.1)
                &&& !old(self)@.active_has_id(mid)
                &&& !old(self)@.finished_has_id(mid)
                &&& final(self)@ == create_t(
                    old(self)@,
                    player_duo.0,
                    player_duo.1,
                    guess_word@,
                    mid,
                )
            }),
    {
        let m = Match::new(player_duo, guess_word);
        let ghost mv = m@;
        let r = self.install_match(m);
        proof {
            if let Some(mid) = r {
                assert(mv =~= MatchV {
                    id: mid,
                    challenger: player_duo.0,
                    guesser: player_duo.1,
                    attempts: 0,
                    hints: Seq::empty(),
                    guess_word: guess_word@,
                    state: MatchState::Active,
                });
                assert(self@ =~= create_t(
                    old(self)@,
                    player_duo.0,
                    player_duo.1,
                    guess_word@,
                    mid,
                ));
            }
        }
        r
    }

    /// Move the active match with id `match_id` to the finished store and
    /// return both participants to the available set; a no-op when no active
    /// match has that id.
    pub fn finish_match(&mut self, match_id: u128)
        requires
            old(self)@.wf(),
        ensures
            final(self)@.wf(),
            !old(self)@.active_has_id(match_id) ==> final(self)@ == old(self)@,
            old(self)@.active_has_id(match_id) ==> ({
                let i = old(self)@.active_index(match_id);
                let m = old(self)@.active_matches[i];
                &&& final(self)@ == finish_t(old(self)@, i)
                &&& final(self)@.available_players.contains(m.challenger)
                &&& final(self)@.available_players.contains(m.guesser)
            }),
    {
        let idx = match self.find_active_index(match_id) {
            None => {
                return ;
            },
            Some(i) => i,
        };
        let ghost s0 = self@;
        let ghost iv = idx as int;
        let m = self.active_matches.remove(idx);
        let ghost mv = m@;
        proof {
            assert(mv == s0.active_matches[iv]);
            let s1 = self@;
            assert(s1.active_matches =~= s0.active_matches.remove(iv));
            assert(s1.available_players == s0.available_players);
            assert(s1.finished_matches =~= s0.finished_matches);
            // every remaining active match is one of the old ones, other than iv
            assert forall|k: int| 0 <= k < s1.active_matches.len() implies #[trigger] s1
                .active_matches[k] == if k < iv {
                s0.active_matches[k]
            } else {
                s0.active_matches[k + 1]
            } by {}
            assert(s1.wf()) by {
                assert forall|i: int, j: int| 0 <= i < j < s1.active_matches.len() implies (
                #[trigger] s1.active_matches[i]).id != (#[trigger] s1.active_matches[j]).id by {}
                assert forall|i: int, j: int|
                    0 <= i < s1.active_matches.len() && 0 <= j
                        < s1.finished_matches.len() implies (#[trigger] s1.active_matches[i]).id
                    != (#[trigger] s1.finished_matches[j]).id by {}
                assert forall|i: int, j: int|
                    0 <= i < j < s1.active_matches.len() implies disjoint_participants(
                    #[trigger] s1.active_matches[i],
                    #[trigger] s1.active_matches[j],
                ) by {}
                assert forall|i: int| 0 <= i < s1.active_matches.len() implies
                    !s1.available_players.contains((#[trigger] s1.active_matches[i]).challenger)
                    && !s1.available_players.contains(s1.active_matches[i].guesser) by {}
            }
            // the removed match's participants no longer play anywhere
            assert forall|k: int| 0 <= k < s1.active_matches.len() implies !participates(
                #[trigger] s1.active_matches[k],
                mv.guesser,
            ) && !participates(s1.active_matches[k], mv.challenger) by {
                if k < iv {
                    assert(disjoint_participants(s0.active_matches[k], s0.active_matches[iv]));
                } else {
                    assert(disjoint_participants(s0.active_matches[iv], s0.active_matches[k + 1]));
                }
                assert(participates(mv, mv.guesser) && participates(mv, mv.challenger));
            }
            assert(!s1.playing(mv.guesser));
            assert(!s1.playing(mv.challenger));
        }
        self.add_available_player(m.guesser);
        proof {
            // adding the guesser cannot make the challenger a player
            assert(!self@.playing(m@.challenger)) by {
                assert(self@.active_matches == old(self)@.active_matches.remove(iv));
            }
        }
        self.add_available_player(m.challenger);
        let ghost s2 = self@;
        self.finished_matches.push(m);
        proof {
            let s3 = self@;
            assert(s3.finished_matches =~= s2.finished_matches.push(mv));
            assert(s3.active_matches =~= s2.active_matches);
            assert(s3.available_players == s2.available_players);
            let fn0 = s0.finished_matches.len();
            assert forall|x: u128| s3.available_players.contains(x) implies
                s0.available_players.contains(x) || x == mv.guesser || x == mv.challenger by {}
            assert(s3.wf()) by {
                assert forall|i: int, j: int| 0 <= i < j < s3.finished_matches.len() implies (
                #[trigger] s3.finished_matches[i]).id != (#[trigger] s3.finished_matches[j]).id by {
                    if j < fn0 {
                        assert(s3.finished_matches[i] == s0.finished_matches[i]);
                        assert(s3.finished_matches[j] == s0.finished_matches[j]);
                    } else {
                        assert(s3.finished_matches[i] == s0.finished_matches[i]);
                        assert(s3.finished_matches[j] == mv);
                        assert(s0.active_matches[iv].id != s0.finished_matches[i].id);
                    }
                }
                assert forall|i: int, j: int|
                    0 <= i < s3.active_matches.len() && 0 <= j
                        < s3.finished_matches.len() implies (#[trigger] s3.active_matches[i]).id
                    != (#[trigger] s3.finished_matches[j]).id by {
                    assert(s3.active_matches[i] == s2.active_matches[i]);
                    if j < fn0 {
                        assert(s3.finished_matches[j] == s0.finished_matches[j]);
                    } else {
                        assert(s3.finished_matches[j] == mv);
                    }
                }
                assert forall|i: int| 0 <= i < s3.active_matches.len() implies
                    !s3.available_players.contains((#[trigger] s3.active_matches[i]).challenger)
                    && !s3.available_players.contains(s3.active_matches[i].guesser) by {
                    assert(s3.active_matches[i] == s2.active_matches[i]);
                }
            }
            assert(s3 =~= finish_t(s0, iv));
            assert(s3.available_players.contains(mv.guesser)) by {
                let a1 = add_avail(s0.available_players, mv.guesser);
                assert(a1.contains(mv.guesser)) by {
                    if !s0.available_players.contains(mv.guesser) {
                        assert(a1[a1.len() - 1] == mv.guesser);
                    }
                }
                assert(s3.available_players == add_avail(a1, mv.challenger));
                if !a1.contains(mv.challenger) {
                    assert(s3.available_players[s3.available_players.len() - 1] == mv.challenger);
                    assert forall|k: int| 0 <= k < a1.len() implies s3.available_players[k]
                        == a1[k] by {}
                }
            }
            assert(s3.available_players.contains(mv.challenger)) by {
                let a1 = add_avail(s0.available_players, mv.guesser);
                if !a1.contains(mv.challenger) {
                    assert(s3.available_players[s3.available_players.len() - 1] == mv.challenger);
                }
            }
        }
    }
}

/// A well-formed state stays well-formed when one active match is replaced by
/// one with the same id and participants.
proof fn lemma_wf_update_active(s: ServerStateV, i: int, m: MatchV)
    requires
        s.wf(),
        0 <= i < s.active_matches.len(),
        m.id == s.active_matches[i].id,
        m.challenger == s.active_matches[i].challenger,
        m.guesser == s.active_matches[i].guesser,
    ensures
        (ServerStateV { active_matches: s.active_matches.update(i, m), ..s }).wf(),
{
    let t = ServerStateV { active_matches: s.active_matches.update(i, m), ..s };
    assert forall|a: int, b: int| 0 <= a < b < t.active_matches.len() implies (
    #[trigger] t.active_matches[a]).id != (#[trigger] t.active_matches[b]).id by {
        assert(s.active_matches[a].id != s.active_matches[b].id);
    }
    assert forall|a: int, b: int|
        0 <= a < t.active_matches.len() && 0 <= b < t.finished_matches.len() implies (
    #[trigger] t.active_matches[a]).id != (#[trigger] t.finished_matches[b]).id by {
        assert(s.active_matches[a].id != s.finished_matches[b].id);
    }
    assert forall|a: int, b: int| 0 <= a < b < t.active_matches.len() implies disjoint_participants(
        #[trigger] t.active_matches[a],
        #[trigger] t.active_matches[b],
    ) by {
        assert(disjoint_participants(s.active_matches[a], s.active_matches[b]));
    }
    assert forall|a: int| 0 <= a < t.active_matches.len() implies !t.available_players.contains(
        (#[trigger] t.active_matches[a]).challenger,
    ) && !t.available_players.contains(t.active_matches[a].guesser) by {
        assert(!s.available_players.contains(s.active_matches[a].challenger));
        assert(!s.available_players.contains(s.active_matches[a].guesser));
    }
}

impl ServerState {
    /// Record one guess against the active match with id `match_id`. Returns
    /// the addressing data the dispatcher replies with: the challenger, the
    /// guesser, the new attempt count, the hint count, and whether the guess
    /// equals the secret word.
    pub fn record_guess(&mut self, match_id: u128, guess: &str) -> (r: Option<
        (u128, u128, u32, u32, bool),
    >)
        requires
            old(self)@.wf(),
        ensures
            final(self)@.wf(),
            r is None <==> !old(self)@.active_has_id(match_id),
            r is None ==> final(self)@ == old(self)@,
            r matches Some(t) ==> ({
                let i = old(self)@.active_index(match_id);
                let m = old(self)@.active_matches[i];
                &&& t.0 == m.challenger
                &&& t.1 == m.guesser
                &&& t.2 == inc32(m.attempts)
                &&& t.3 == count32(m.hints.len() as int)
                &&& t.4 == (guess@ == m.guess_word)
                &&& final(self)@.active_matches == old(self)@.active_matches.update(
                    i,
                    attempt_t(m, guess@),
                )
                &&& final(self)@.available_players == old(self)@.available_players
                &&& final(self)@.finished_matches == old(self)@.finished_matches
            }),
    {
        let idx = match self.find_active_index(match_id) {
            None => {
                return None;
            },
            Some(i) => i,
        };
        let ghost s0 = self@;
        let ghost iv = idx as int;
        let mut m = self.active_matches.remove(idx);
        let challenger = m.challenger;
        let guesser = m.guesser;
        let hints32: u32 = if m.hints.len() >= (u32::MAX as usize) {
            u32::MAX
        } else {
            m.hints.len() as u32
        };
        let gs: String = guess.to_owned();
        let solved = m.guess_word == gs;
        m.attempt(guess);
        let attempts = m.attempts;
        self.active_matches.insert(idx, m);
        proof {
            let m0 = s0.active_matches[iv];
            let m1 = attempt_t(m0, guess@);
            assert(self@.active_matches =~= s0.active_matches.update(iv, m1));
            assert(self@.finished_matches =~= s0.finished_matches);
            lemma_wf_update_active(s0, iv, m1);
            assert(self@ =~= ServerStateV {
                active_matches: s0.active_matches.update(iv, m1),
                ..s0
            });
            assert(hints32 == count32(m0.hints.len() as int));
        }
        Some((challenger, guesser, attempts, hints32, solved))
    }

    /// Append one hint to the active match with id `match_id`, returning the
    /// guesser it should be forwarded to.
    pub fn add_hint(&mut self, match_id: u128, hint: &str) -> (r: Option<u128>)
        requires
            old(self)@.wf(),
        ensures
            final(self)@.wf(),
            r is None <==> !old(self)@.active_has_id(match_id),
            r is None ==> final(self)@ == old(self)@,
            r matches Some(g) ==> ({
                let i = old(self)@.active_index(match_id);
                let m = old(self)@.active_matches[i];
                &&& g == m.guesser
                &&& final(self)@.active_matches == old(self)@.active_matches.update(
                    i,
                    hint_t(m, hint@),
                )
                &&& final(self)@.available_players == old(self)@.available_players
                &&& final(self)@.finished_matches == old(self)@.finished_matches
            }),
    {
        let idx = match self.find_active_index(match_id) {
            None => {
                return None;
            },
            Some(i) => i,
        };
        let ghost s0 = self@;
        let ghost iv = idx as int;
        let mut m = self.active_matches.remove(idx);
        let guesser = m.guesser;
        m.add_hint(hint);
        self.active_matches.insert(idx, m);
        proof {
            let m0 = s0.active_matches[iv];
            let m1 = hint_t(m0, hint@);
            assert(self@.active_matches =~= s0.active_matches.update(iv, m1));
            assert(self@.finished_matches =~= s0.finished_matches);
            lemma_wf_update_active(s0, iv, m1);
            assert(self@ =~= ServerStateV {
                active_matches: s0.active_matches.update(iv, m1),
                ..s0
            });
        }
        Some(guesser)
    }

    /// Force-terminate the active match with id `match_id` to `GivenUp`; a
    /// no-op when no active match has that id or it is already terminal.
    pub fn give_up(&mut self, match_id: u128)
        requires
            old(self)@.wf(),
        ensures
            final(self)@.wf(),
            !old(self)@.active_has_id(match_id) ==> final(self)@ == old(self)@,
            old(self)@.active_has_id(match_id) ==> ({
                let i = old(self)@.active_index(match_id);
                let m = old(self)@.active_matches[i];
                &&& final(self)@.active_matches == old(self)@.active_matches.update(
                    i,
                    give_up_t(m),
                )
                &&& final(self)@.available_players == old(self)@.available_players
                &&& final(self)@.finished_matches == old(self)@.finished_matches
            }),
    {
        let idx = match self.find_active_index(match_id) {
            None => {
                return ;
            },
            Some(i) => i,
        };
        let ghost s0 = self@;
        let ghost iv = idx as int;
        let mut m = self.active_matches.remove(idx);
        m.give_up();
        self.active_matches.insert(idx, m);
        proof {
            let m0 = s0.active_matches[iv];
            let m1 = give_up_t(m0);
            assert(self@.active_matches =~= s0.active_matches.update(iv, m1));
            assert(self@.finished_matches =~= s0.finished_matches);
            lemma_wf_update_active(s0, iv, m1);
            assert(self@ =~= ServerStateV {
                active_matches: s0.active_matches.update(iv, m1),
                ..s0
            });
        }
    }

    /// Force-terminate the active match with id `match_id` to `Cancelled`; a
    /// no-op when no active match has that id or it is already terminal.
    pub fn cancel(&mut self, match_id: u128)
        requires
            old(self)@.wf(),
        ensures
            final(self)@.wf(),
            !old(self)@.active_has_id(match_id) ==> final(self)@ == old(self)@,
            old(self)@.active_has_id(match_id) ==> ({
                let i = old(self)@.active_index(match_id);
                let m = old(self)@.active_matches[i];
                &&& final(self)@.active_matches == old(self)@.active_matches.update(i, cancel_t(m))
                &&& final(self)@.available_players == old(self)@.available_players
                &&& final(self)@.finished_matches == old(self)@.finished_matches
            }),
    {
        let idx = match self.find_active_index(match_id) {
            None => {
                return ;
            },
            Some(i) => i,
        };
        let ghost s0 = self@;
        let ghost iv = idx as int;
        let mut m = self.active_matches.remove(idx);
        m.cancel();
        self.active_matches.insert(idx, m);
        proof {
            let m0 = s0.active_matches[iv];
            let m1 = cancel_t(m0);
            assert(self@.active_matches =~= s0.active_matches.update(iv, m1));
            assert(self@.finished_matches =~= s0.finished_matches);
            lemma_wf_update_active(s0, iv, m1);
            assert(self@ =~= ServerStateV {
                active_matches: s0.active_matches.update(iv, m1),
                ..s0
            });
        }
    }
}

/// The match after a sequence of recorded guesses, in order.
pub open spec fn run_guesses(m: MatchV, gs: Seq<Seq<char>>) -> MatchV
    decreases gs.len(),
{
    if gs.len() == 0 {
        m
    } else {
        attempt_t(run_guesses(m, gs.drop_last()), gs.last())
    }
}

proof fn lemma_run_guesses_counts(m: MatchV, gs: Seq<Seq<char>>)
    requires
        m.attempts + gs.len() <= u32::MAX,
    ensures
        run_guesses(m, gs).attempts == m.attempts + gs.len(),
        run_guesses(m, gs).guess_word == m.guess_word,
    decreases gs.len(),
{
    if gs.len() > 0 {
        lemma_run_guesses_counts(m, gs.drop_last());
    }
}

/// Recording a guess equal to the stored secret always solves the match, and
/// the attempt counter counts every recorded guess: a fresh match, after any
/// guesses ending with the secret word, is `Solved` with exactly that many
/// attempts. (The counter is 32 bits wide, whence the bound on the count.)
pub proof fn lemma_solving_guess(m: MatchV, gs: Seq<Seq<char>>)
    requires
        m.attempts == 0,
        1 <= gs.len() <= u32::MAX,
        gs.last() == m.guess_word,
    ensures
        run_guesses(m, gs).state == MatchState::Solved,
        run_guesses(m, gs).attempts == gs.len(),
{
    lemma_run_guesses_counts(m, gs.drop_last());
    assert(run_guesses(m, gs) == attempt_t(run_guesses(m, gs.drop_last()), gs.last()));
    lemma_run_guesses_counts(m, gs);
}

/// Containment facts for removing one value from a sequence.
proof fn lemma_remove_value_contains(s: Seq<u128>, v: u128, x: u128)
    ensures
        s.remove_value(v).contains(x) ==> s.contains(x),
{
    s.index_of_first_ensures(v);
    if s.remove_value(v).contains(x) && s.index_of_first(v) is Some {
        let i = s.index_of_first(v).unwrap();
        let r = s.remove(i);
        let k = choose|k: int| 0 <= k < r.len() && r[k] == x;
        if k < i {
            assert(s[k] == x);
        } else {
            assert(s[k + 1] == x);
        }
    }
}

/// No player id is a participant of two simultaneously active matches: in a
/// well-formed state, two active matches that share a participant are the
/// same match.
pub proof fn lemma_no_double_participation(s: ServerStateV, p: u128, i: int, j: int)
    requires
        s.wf(),
        0 <= i < s.active_matches.len(),
        0 <= j < s.active_matches.len(),
        participates(s.active_matches[i], p),
        participates(s.active_matches[j], p),
    ensures
        i == j,
{
    if i < j {
        assert(disjoint_participants(s.active_matches[i], s.active_matches[j]));
    }
    if j < i {
        assert(disjoint_participants(s.active_matches[j], s.active_matches[i]));
    }
}

} // verus!
