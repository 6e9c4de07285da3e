use vstd::prelude::*;
use crate::account::AccountId;
use crate::events::GameCreated;
use crate::ranking::first_three;
use crate::ranking::stable_sort_by;
use crate::token::TokenHandle;
use crate::token::TokenRequest;

verus! {

/// Number of milliseconds in one day.
pub const MILLIS_PER_DAY: u64 = 86_400_000;

/// Whether there can be a session of `days` days: its length in milliseconds fits in 64 bits.
pub open spec fn session_fits(days: u64) -> bool {
    days * MILLIS_PER_DAY <= u64::MAX
}

/// The moment at which a session ends that is opened at `now` and lasts `days` days: `now`
/// plus the length of the session in milliseconds. Where that sum does not fit in 64 bits the
/// deadline is the latest moment there is.
pub open spec fn deadline(now: u64, days: u64) -> u64 {
    if now + days * MILLIS_PER_DAY <= u64::MAX {
        (now + days * MILLIS_PER_DAY) as u64
    } else {
        u64::MAX
    }
}

/// What has to be created before a session of `days` days opens: the reward token, on the terms
/// that every session asks for. Nothing is to be created for a session that cannot exist.
pub open spec fn token_request_for(days: u64) -> Option<TokenRequest> {
    if session_fits(days) {
        Some(TokenRequest::standard())
    } else {
        None
    }
}

/// The ledger that a registry and the entries kept beside it stand for: the entry of a
/// registered player is the one at the player's place in the registry.
pub open spec fn ledger_of(players: Seq<AccountId>, entries: Seq<(u64, u64, u64)>) -> Map<
    AccountId,
    (u64, u64, u64),
> {
    Map::new(|p: AccountId| players.contains(p), |p: AccountId| entries[players.index_of(p)])
}

/// The latest result that `ledger` holds for `player`: three zeros for somebody it holds
/// nothing for.
pub open spec fn entry_of(ledger: Map<AccountId, (u64, u64, u64)>, player: AccountId) -> (
    u64,
    u64,
    u64,
) {
    if ledger.contains_key(player) {
        ledger[player]
    } else {
        (0, 0, 0)
    }
}

/// The key of the first sorting pass: the score.
pub open spec fn score_key(ledger: Map<AccountId, (u64, u64, u64)>) -> spec_fn(AccountId) -> int {
    |p: AccountId| entry_of(ledger, p).0 as int
}

/// The key of the second sorting pass: the time.
pub open spec fn time_key(ledger: Map<AccountId, (u64, u64, u64)>) -> spec_fn(AccountId) -> int {
    |p: AccountId| entry_of(ledger, p).2 as int
}

/// The ranking of `players` by what `ledger` holds for them: the players sorted stably by
/// score, and the outcome sorted stably by time.
pub open spec fn rank(players: Seq<AccountId>, ledger: Map<AccountId, (u64, u64, u64)>) -> Seq<
    AccountId,
> {
    stable_sort_by(stable_sort_by(players, score_key(ledger)), time_key(ledger))
}

/// The player at position `p` of a registry.
pub open spec fn player_at(players: Seq<AccountId>) -> spec_fn(usize) -> AccountId {
    |p: usize| players[p as int]
}

/// Whether a registry, the entries beside it and a list of winners can be those of a session:
/// nobody is registered twice, every registered player has one entry, and the winners are at
/// most three different registered players.
pub open spec fn parts_fit(
    players: Seq<AccountId>,
    entries: Seq<(u64, u64, u64)>,
    winners: Seq<AccountId>,
) -> bool {
    &&& players.no_duplicates()
    &&& entries.len() == players.len()
    &&& winners.len() <= 3
    &&& winners.no_duplicates()
    &&& forall|i: int| 0 <= i < winners.len() ==> players.contains(#[trigger] winners[i])
}

/// What a session is, as mathematics: the registry of players, the ledger of their latest
/// results, the recorded winners, whether scores are still accepted, the deadline, the
/// administrator and the token.
pub struct GameState {
    /// Everyone who has ever submitted a score, in the order of their first submission.
    pub players: Seq<AccountId>,
    /// The latest score, distance and time of each player.
    pub ledger: Map<AccountId, (u64, u64, u64)>,
    /// The winners as last recorded: at most three players.
    pub winners: Seq<AccountId>,
    /// Whether scores are still accepted.
    pub active: bool,
    /// The deadline, in milliseconds.
    pub end_time: u64,
    /// Who may hand the administration over.
    pub admin: AccountId,
    /// The reward token of this session.
    pub token: TokenHandle,
}

impl GameState {
    /// What holds of every session: nobody is registered twice, the ledger holds an entry for
    /// exactly the registered players, and the winners are at most three different registered
    /// players.
    pub open spec fn wf(self) -> bool {
        &&& self.players.no_duplicates()
        &&& forall|p: AccountId| self.ledger.contains_key(p) <==> self.players.contains(p)
        &&& self.winners.len() <= 3
        &&& self.winners.no_duplicates()
        &&& forall|i: int|
            0 <= i < self.winners.len() ==> self.players.contains(#[trigger] self.winners[i])
    }

    /// A session that has just been opened: active, with nobody registered.
    pub open spec fn opened(end_time: u64, admin: AccountId, token: TokenHandle) -> GameState {
        GameState {
            players: Seq::empty(),
            ledger: Map::empty(),
            winners: Seq::empty(),
            active: true,
            end_time,
            admin,
            token,
        }
    }

    /// What opening a session of `days` days at the time `now` comes to: the new session and the
    /// notice of its opening, or nothing at all where such a session cannot exist.
    pub open spec fn opening(days: u64, admin: AccountId, token: TokenHandle, now: u64) -> Option<
        (GameState, GameCreated),
    > {
        if session_fits(days) {
            Some(
                (
                    GameState::opened(deadline(now, days), admin, token),
                    GameCreated {
                        admin,
                        game_end_time: deadline(now, days),
                        game_start_time: now,
                    },
                ),
            )
        } else {
            None
        }
    }

    /// The latest result of `player`, or three zeros for somebody who never submitted one.
    pub open spec fn score_of(self, player: AccountId) -> (u64, u64, u64) {
        entry_of(self.ledger, player)
    }

    /// The session once `entry` is written down for `player`: the entry replaces whatever the
    /// ledger held for that player, and a player who is new to the registry joins it at the end.
    pub open spec fn record(self, player: AccountId, entry: (u64, u64, u64)) -> GameState {
        GameState {
            players: if self.players.contains(player) {
                self.players
            } else {
                self.players.push(player)
            },
            ledger: self.ledger.insert(player, entry),
            ..self
        }
    }

    /// The session after `caller` has submitted `entry`: recorded while the session is active,
    /// ignored afterwards.
    pub open spec fn submit(self, caller: AccountId, entry: (u64, u64, u64)) -> GameState {
        if self.active {
            self.record(caller, entry)
        } else {
            self
        }
    }

    /// The session after `caller` has asked to make `new_admin` the administrator: done where
    /// the caller is the administrator, ignored otherwise.
    pub open spec fn hand_over(self, caller: AccountId, new_admin: AccountId) -> GameState {
        if caller == self.admin {
            GameState { admin: new_admin, ..self }
        } else {
            self
        }
    }

    /// Whether an attempt to close the session at `now` goes through: the deadline has been
    /// reached. Whether the session is still active plays no part.
    pub open spec fn closes_at(self, now: u64) -> bool {
        now >= self.end_time
    }

    /// The session after an attempt to close it at `now`: no longer active once the deadline
    /// has been reached, untouched before. The recorded winners stay as they are.
    pub open spec fn close(self, now: u64) -> GameState {
        if self.closes_at(now) {
            GameState { active: false, ..self }
        } else {
            self
        }
    }

    /// The players in ranking order: the registry sorted stably by score, and the outcome sorted
    /// stably by time.
    pub open spec fn ranking(self) -> Seq<AccountId> {
        rank(self.players, self.ledger)
    }

    /// The session after the winners have been recorded anew: the first three of the ranking.
    pub open spec fn refresh_winners(self) -> GameState {
        GameState { winners: first_three(self.ranking()), ..self }
    }

    /// `a` ranks before `b`: by the smaller time; at equal times by the smaller score; at equal
    /// times and scores by the earlier registration. The distance plays no part.
    pub open spec fn outranks(self, a: AccountId, b: AccountId) -> bool {
        let (score_a, _, time_a) = self.score_of(a);
        let (score_b, _, time_b) = self.score_of(b);
        ||| time_a < time_b
        ||| time_a == time_b && score_a < score_b
        ||| time_a == time_b && score_a == score_b && self.players.index_of(a)
            < self.players.index_of(b)
    }
}

} // verus!
