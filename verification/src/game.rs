use vstd::prelude::*;
use crate::account::AccountId;
use crate::events::Closing;
use crate::events::Error;
use crate::events::GameCreated;
use crate::events::GameEnded;
use crate::events::ScoreSubmitted;
use crate::ranking::first_three;
use crate::ranking::rank_positions;
use crate::registry::all_distinct;
use crate::registry::position_of;
use crate::state::deadline;
use crate::state::ledger_of;
use crate::state::parts_fit;
use crate::state::player_at;
use crate::state::session_fits;
use crate::state::token_request_for;
use crate::state::GameState;
use crate::state::MILLIS_PER_DAY;
use crate::token::TokenHandle;
use crate::token::TokenRequest;

verus! {

/// What a game session offers to those who call it.
///
/// The session reads no clock and asks nobody who is calling: the caller's identity and the
/// current time are handed in. It sends no notices either: where an operation gives rise to
/// one, the notice is returned and the caller sends it.
pub trait BaseGame: View<V = GameState> {
    /// The value is one that the operations of a session can have produced.
    spec fn wf(&self) -> bool;

    /// A well-formed value stands for a well-formed session.
    proof fn lemma_wf_state(&self)
        requires
            self.wf(),
        ensures
            self@.wf(),
    ;

    /// Writes down `score`, `distance` and `time` as the latest result of `caller`, who joins
    /// the registry with a first submission. A closed session turns the submission down and
    /// stays as it is.
    fn submit_score(&mut self, caller: AccountId, score: u64, distance: u64, time: u64) -> (result:
        Result<ScoreSubmitted, Error>)
        requires
            old(self).wf(),
        ensures
            final(self).wf(),
            final(self)@ == old(self)@.submit(caller, (score, distance, time)),
            result is Ok <==> old(self)@.active,
            result matches Ok(notice) ==> notice == (ScoreSubmitted {
                winner: caller,
                score_time_distance: (score, distance, time),
            }),
            result matches Err(reason) ==> reason == Error::GameNotActive,
    ;

    /// Whether scores are still accepted.
    fn game_active(&self) -> (active: bool)
        ensures
            active == self@.active,
    ;

    /// Everyone who has submitted a score, in the order of their first submission.
    fn players(&self) -> (players: Vec<AccountId>)
        ensures
            players@ == self@.players,
    ;

    /// The winners as last recorded.
    fn winners(&self) -> (winners: Vec<AccountId>)
        ensures
            winners@ == self@.winners,
    ;

    /// The administrator.
    fn current_admin(&self) -> (admin: AccountId)
        ensures
            admin == self@.admin,
    ;

    /// Makes `new_admin` the administrator. Only the administrator may ask for this: any other
    /// `caller` is turned down and nothing changes.
    fn change_admin(&mut self, caller: AccountId, new_admin: AccountId) -> (result: Result<
        (),
        Error,
    >)
        requires
            old(self).wf(),
        ensures
            final(self).wf(),
            final(self)@ == old(self)@.hand_over(caller, new_admin),
            result is Ok <==> caller == old(self)@.admin,
            result matches Err(reason) ==> reason == Error::NotAdmin,
    ;

    /// The deadline, in milliseconds.
    fn game_end_time(&self) -> (end_time: u64)
        ensures
            end_time == self@.end_time,
    ;

    /// The latest score, distance and time of `player`: three zeros for somebody who never
    /// submitted.
    fn score_distance_time(&self, player: AccountId) -> (entry: (u64, u64, u64))
        requires
            self.wf(),
        ensures
            entry == self@.score_of(player),
    ;

    /// Tries to close the session at the time `now`.
    ///
    /// Before the deadline nothing happens. From the deadline on the session stops accepting
    /// scores, and a notice and the ranking of that moment are returned. This happens on every
    /// such call, whether or not the session was closed before. The winners that the session
    /// has recorded go into the notice as they are and are not renewed.
    fn end_game(&mut self, now: u64) -> (closing: Option<Closing>)
        requires
            old(self).wf(),
        ensures
            final(self).wf(),
            final(self)@ == old(self)@.close(now),
            closing is Some <==> old(self)@.closes_at(now),
            closing matches Some(c) ==> c.notice.winners@ == old(self)@.winners,
            closing matches Some(c) ==> c.notice.game_end_time == old(self)@.end_time,
            closing matches Some(c) ==> c.ranking@ == old(self)@.ranking(),
    ;
}

/// A game session.
///
/// The ledger is kept beside the registry: `entries` holds the latest score, distance and time
/// of each registered player at the player's place in `players`.
pub struct Game {
    players: Vec<AccountId>,
    entries: Vec<(u64, u64, u64)>,
    winners: Vec<AccountId>,
    game_active: bool,
    game_end_time: u64,
    admin: AccountId,
    token: TokenHandle,
}

impl View for Game {
    type V = GameState;

    closed spec fn view(&self) -> GameState {
        GameState {
            players: self.players@,
            ledger: ledger_of(self.players@, self.entries@),
            winners: self.winners@,
            active: self.game_active,
            end_time: self.game_end_time,
            admin: self.admin,
            token: self.token,
        }
    }
}

proof fn lemma_entry_at(players: Seq<AccountId>, entries: Seq<(u64, u64, u64)>, at: int)
    requires
        players.no_duplicates(),
        0 <= at < players.len(),
    ensures
        ledger_of(players, entries).contains_key(players[at]),
        ledger_of(players, entries)[players[at]] == entries[at],
{
    assert(players.contains(players[at]));
}

impl Game {
    /// What has to be created before a session of `days` days can open: the reward token. There
    /// is no such request, and nothing is to be created, where a session of that length cannot
    /// exist because its length in milliseconds does not fit in 64 bits.
    pub fn token_request(days: u64) -> (request: Option<TokenRequest>)
        ensures
            request == token_request_for(days),
            request is Some <==> session_fits(days),
    {
        match MILLIS_PER_DAY.checked_mul(days) {
            Some(_) => Some(TokenRequest::fixed()),
            None => None,
        }
    }

    /// Opens a session of `days` days at the time `now`, with `admin` as its administrator and
    /// `token` as its reward token. Returns the session and the notice of its opening.
    ///
    /// The session is active and nobody is registered. Its deadline is `now` plus the length of
    /// the session, or the latest moment there is where that sum does not fit in 64 bits: the
    /// deadline is never before `now`.
    ///
    /// The length of the session must fit in 64 bits. [`Game::try_new`] asks for nothing.
    pub fn new(days: u64, admin: AccountId, token: TokenHandle, now: u64) -> (opened: (
        Game,
        GameCreated,
    ))
        requires
            session_fits(days),
        ensures
            opened.0.wf(),
            opened.0@ == GameState::opened(deadline(now, days), admin, token),
            opened.1 == (GameCreated {
                admin,
                game_end_time: deadline(now, days),
                game_start_time: now,
            }),
            GameState::opening(days, admin, token, now) == Some((opened.0@, opened.1)),
            opened.0@.end_time >= now,
    {
        let length: u64 = MILLIS_PER_DAY * days;
        let game_end_time: u64 = now.saturating_add(length);
        let game = Game {
            players: Vec::new(),
            entries: Vec::new(),
            winners: Vec::new(),
            game_active: true,
            game_end_time,
            admin,
            token,
        };
        assert(game@.ledger =~= Map::empty());
        (game, GameCreated { admin, game_end_time, game_start_time: now })
    }

    /// Opens a session as [`Game::new`] does, where there can be a session of `days` days. Where
    /// there cannot, because its length in milliseconds does not fit in 64 bits, nothing is
    /// opened: there is no session and no notice.
    pub fn try_new(days: u64, admin: AccountId, token: TokenHandle, now: u64) -> (opened: Option<
        (Game, GameCreated),
    >)
        ensures
            opened is Some <==> session_fits(days),
            opened matches Some(pair) ==> pair.0.wf(),
            opened matches Some(pair) ==> GameState::opening(days, admin, token, now) == Some(
                (pair.0@, pair.1),
            ),
            opened is None ==> GameState::opening(days, admin, token, now) is None,
    {
        match MILLIS_PER_DAY.checked_mul(days) {
            Some(_) => Some(Game::new(days, admin, token, now)),
            None => None,
        }
    }

    /// Puts a session together from what was stored of it: the registry, the entry of each
    /// registered player in the order of the registry, the recorded winners, whether the session
    /// is active, the deadline, the administrator and the token.
    ///
    /// There is such a session exactly where the parts fit together, as [`parts_fit`] says.
    pub fn from_parts(
        players: Vec<AccountId>,
        entries: Vec<(u64, u64, u64)>,
        winners: Vec<AccountId>,
        game_active: bool,
        game_end_time: u64,
        admin: AccountId,
        token: TokenHandle,
    ) -> (game: Option<Game>)
        ensures
            game is Some <==> parts_fit(players@, entries@, winners@),
            game matches Some(g) ==> g.wf() && g@ == (GameState {
                players: players@,
                ledger: ledger_of(players@, entries@),
                winners: winners@,
                active: game_active,
                end_time: game_end_time,
                admin,
                token,
            }),
    {
        if entries.len() != players.len() || winners.len() > 3 {
            return None;
        }
        if !all_distinct(&players) || !all_distinct(&winners) {
            return None;
        }
        let mut i: usize = 0;
        while i < winners.len()
            invariant
                i <= winners.len(),
                forall|k: int| 0 <= k < i ==> players@.contains(#[trigger] winners@[k]),
            decreases winners.len() - i,
        {
            if position_of(&players, winners[i]).is_none() {
                return None;
            }
            i += 1;
        }
        Some(Game { players, entries, winners, game_active, game_end_time, admin, token })
    }

    /// The reward token of the session.
    pub fn token(&self) -> (token: TokenHandle)
        ensures
            token == self@.token,
    {
        self.token
    }

    /// The players in ranking order: sorted stably by score, and the outcome sorted stably by
    /// time.
    pub fn ranking(&self) -> (ranked: Vec<AccountId>)
        requires
            self.wf(),
        ensures
            ranked@ == self@.ranking(),
    {
        let order = rank_positions(&self.entries);
        let ghost name = player_at(self.players@);
        let mut ranked: Vec<AccountId> = Vec::new();
        let mut i: usize = 0;
        while i < order.len()
            invariant
                i <= order.len(),
                self.players.len() == self.entries.len(),
                forall|k: int| 0 <= k < order.len() ==> order[k] < self.entries.len(),
                name == player_at(self.players@),
                ranked@ == order@.take(i as int).map_values(name),
            decreases order.len() - i,
        {
            ranked.push(self.players[order[i]]);
            assert(order@.take(i + 1) =~= order@.take(i as int).push(order[i as int]));
            i += 1;
        }
        proof {
            assert(order@.take(i as int) =~= order@);
            self@.lemma_ranking_by_positions(self.entries@);
        }
        ranked
    }

    /// The first three of `players`, or all of them where there are fewer.
    pub fn top_three(players: Vec<AccountId>) -> (winners: Vec<AccountId>)
        ensures
            winners@ == first_three(players@),
    {
        if players.len() < 3 {
            return players;
        }
        let mut winners = players;
        winners.truncate(3);
        winners
    }

    /// Records the winners anew: the first three of the ranking as it is now.
    pub fn update_scores(&mut self)
        requires
            old(self).wf(),
        ensures
            final(self).wf(),
            final(self)@ == old(self)@.refresh_winners(),
    {
        let ranked = self.ranking();
        proof {
            self@.lemma_refresh_keeps_wf();
        }
        self.winners = Game::top_three(ranked);
    }
}

impl BaseGame for Game {
    closed spec fn wf(&self) -> bool {
        parts_fit(self.players@, self.entries@, self.winners@)
    }

    proof fn lemma_wf_state(&self) {
    }

    fn submit_score(&mut self, caller: AccountId, score: u64, distance: u64, time: u64) -> (result:
        Result<ScoreSubmitted, Error>) {
        if self.game_active {
            let ghost before = self@;
            match position_of(&self.players, caller) {
                Some(at) => {
                    self.entries[at] = (score, distance, time);
                },
                None => {
                    self.players.push(caller);
                    self.entries.push((score, distance, time));
                },
            }
            proof {
                before.lemma_record_keeps_wf(caller, (score, distance, time));
                assert(self@.ledger =~= before.ledger.insert(caller, (score, distance, time)));
            }
            return Ok(
                ScoreSubmitted { winner: caller, score_time_distance: (score, distance, time) },
            );
        }
        Err(Error::GameNotActive)
    }

    fn game_active(&self) -> (active: bool) {
        self.game_active
    }

    fn players(&self) -> (players: Vec<AccountId>) {
        self.players.clone()
    }

    fn winners(&self) -> (winners: Vec<AccountId>) {
        self.winners.clone()
    }

    fn current_admin(&self) -> (admin: AccountId) {
        self.admin
    }

    fn change_admin(&mut self, caller: AccountId, new_admin: AccountId) -> (result: Result<
        (),
        Error,
    >) {
        if caller == self.admin {
            self.admin = new_admin;
            return Ok(());
        }
        Err(Error::NotAdmin)
    }

    fn game_end_time(&self) -> (end_time: u64) {
        self.game_end_time
    }

    fn score_distance_time(&self, player: AccountId) -> (entry: (u64, u64, u64)) {
        match position_of(&self.players, player) {
            Some(at) => {
                proof {
                    lemma_entry_at(self.players@, self.entries@, at as int);
                }
                self.entries[at]
            },
            None => (0, 0, 0),
        }
    }

    fn end_game(&mut self, now: u64) -> (closing: Option<Closing>) {
        if now >= self.game_end_time {
            self.game_active = false;
            let notice = GameEnded {
                winners: self.winners.clone(),
                game_end_time: self.game_end_time,
            };
            let ranking = self.ranking();
            return Some(Closing { notice, ranking });
        }
        None
    }
}

} // verus!
