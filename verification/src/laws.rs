use vstd::prelude::*;
use crate::account::AccountId;
use crate::ranking::lemma_order_determines_sequence;
use crate::ranking::lemma_stable_sort_keeps;
use crate::ranking::lemma_stable_sort_map;
use crate::ranking::lemma_stable_sort_order;
use crate::ranking::lemma_stable_sort_permutes;
use crate::ranking::lemma_stable_sort_same_keys;
use crate::ranking::positions;
use crate::ranking::ranked_positions;
use crate::ranking::score_at;
use crate::ranking::sorts_before;
use crate::ranking::stable_sort_by;
use crate::ranking::time_at;
use crate::state::deadline;
use crate::state::entry_of;
use crate::state::ledger_of;
use crate::state::player_at;
use crate::state::rank;
use crate::state::score_key;
use crate::state::session_fits;
use crate::state::time_key;
use crate::state::token_request_for;
use crate::state::GameState;
use crate::state::MILLIS_PER_DAY;
use crate::token::TokenHandle;
use crate::token::TokenRequest;

verus! {

impl GameState {
    /// Writing an entry down leaves a well-formed session well-formed.
    pub proof fn lemma_record_keeps_wf(self, player: AccountId, entry: (u64, u64, u64))
        requires
            self.wf(),
        ensures
            self.record(player, entry).wf(),
    {
        let recorded = self.record(player, entry);
        assert forall|p: AccountId|
            recorded.ledger.contains_key(p) <==> recorded.players.contains(p) by {
            if !self.players.contains(player) {
                assert(recorded.players.last() == player);
                if self.players.contains(p) {
                    let at: int = self.players.index_of(p);
                    assert(recorded.players[at] == p);
                }
            }
        }
        assert forall|i: int| 0 <= i < recorded.winners.len() implies recorded.players.contains(
            #[trigger] recorded.winners[i],
        ) by {
            let at: int = self.players.index_of(self.winners[i]);
            assert(recorded.players[at] == self.winners[i]);
        }
    }

    /// Recording the winners anew leaves a well-formed session well-formed: the first three of
    /// the ranking are different registered players.
    pub proof fn lemma_refresh_keeps_wf(self)
        requires
            self.wf(),
        ensures
            self.refresh_winners().wf(),
    {
        self.lemma_ranking_order();
        let ranked = self.ranking();
        let renewed = self.refresh_winners();
        assert forall|i: int| 0 <= i < renewed.winners.len() implies self.players.contains(
            #[trigger] renewed.winners[i],
        ) by {
            assert(renewed.winners[i] == ranked[i]);
            assert(ranked.contains(ranked[i]));
        }
        assert forall|i: int, j: int|
            0 <= i < renewed.winners.len() && 0 <= j < renewed.winners.len() && i
                != j implies renewed.winners[i] != renewed.winners[j] by {
            assert(renewed.winners[i] == ranked[i]);
            assert(renewed.winners[j] == ranked[j]);
        }
    }

    /// A session whose length in milliseconds does not fit in 64 bits never comes to be: no
    /// token is asked for, and opening yields neither a session nor a notice.
    pub proof fn lemma_overlong_session_never_opens(
        days: u64,
        admin: AccountId,
        token: TokenHandle,
        now: u64,
    )
        requires
            days * MILLIS_PER_DAY > u64::MAX,
        ensures
            !session_fits(days),
            token_request_for(days) is None,
            GameState::opening(days, admin, token, now) is None,
    {
    }

    /// A session that can exist is opened, and its token asked for, whatever the time: apart from
    /// the length of the session nothing stands in the way.
    pub proof fn lemma_fitting_session_opens(
        days: u64,
        admin: AccountId,
        token: TokenHandle,
        now: u64,
    )
        requires
            days * MILLIS_PER_DAY <= u64::MAX,
        ensures
            token_request_for(days) == Some(TokenRequest::standard()),
            GameState::opening(days, admin, token, now) matches Some(pair) && pair.0.wf()
                && pair.0.active && pair.0.end_time == deadline(now, days) && pair.1.game_start_time
                == now && pair.1.game_end_time == deadline(now, days),
    {
    }

    /// No session is past its deadline when it opens: the deadline is the start plus the length
    /// of the session where that fits in 64 bits, and the latest moment there is where it does
    /// not.
    pub proof fn lemma_deadline_not_before_start(now: u64, days: u64)
        ensures
            deadline(now, days) >= now,
            now + days * MILLIS_PER_DAY <= u64::MAX ==> deadline(now, days) == now + days
                * MILLIS_PER_DAY,
            now + days * MILLIS_PER_DAY > u64::MAX ==> deadline(now, days) == u64::MAX,
            days > 0 && now < u64::MAX ==> deadline(now, days) > now,
    {
    }

    /// A session that has just been opened is well-formed.
    pub proof fn lemma_opened_is_wf(end_time: u64, admin: AccountId, token: TokenHandle)
        ensures
            GameState::opened(end_time, admin, token).wf(),
    {
    }

    /// Every operation leaves a well-formed session well-formed.
    pub proof fn lemma_operations_keep_wf(
        self,
        caller: AccountId,
        entry: (u64, u64, u64),
        new_admin: AccountId,
        now: u64,
    )
        requires
            self.wf(),
        ensures
            self.submit(caller, entry).wf(),
            self.hand_over(caller, new_admin).wf(),
            self.close(now).wf(),
            self.refresh_winners().wf(),
    {
        self.lemma_record_keeps_wf(caller, entry);
        self.lemma_refresh_keeps_wf();
    }

    /// The end is final and the deadline is fixed: no operation makes a closed session active
    /// again, and none moves the deadline.
    pub proof fn lemma_end_is_final(
        self,
        caller: AccountId,
        entry: (u64, u64, u64),
        new_admin: AccountId,
        now: u64,
    )
        ensures
            !self.active ==> !self.submit(caller, entry).active,
            !self.active ==> !self.hand_over(caller, new_admin).active,
            !self.active ==> !self.close(now).active,
            !self.active ==> !self.refresh_winners().active,
            self.submit(caller, entry).end_time == self.end_time,
            self.hand_over(caller, new_admin).end_time == self.end_time,
            self.close(now).end_time == self.end_time,
            self.refresh_winners().end_time == self.end_time,
    {
    }

    /// Once the session has been closed at or after the deadline, a score that is submitted
    /// changes nothing.
    pub proof fn lemma_closed_session_ignores_scores(
        self,
        now: u64,
        caller: AccountId,
        entry: (u64, u64, u64),
    )
        requires
            now >= self.end_time,
        ensures
            !self.close(now).active,
            self.close(now).submit(caller, entry) == self.close(now),
    {
    }

    /// Before the deadline an attempt to close the session does not go through, and the session
    /// stays exactly as it is: an active session stays active.
    pub proof fn lemma_early_closing_changes_nothing(self, now: u64)
        requires
            now < self.end_time,
        ensures
            !self.closes_at(now),
            self.close(now) == self,
    {
    }

    /// Closing is not a one-time event: after a session has been closed, an attempt to close it
    /// at or after the deadline goes through again, and leaves the session as it is.
    pub proof fn lemma_closing_repeats(self, first: u64, again: u64)
        requires
            first >= self.end_time,
            again >= self.end_time,
        ensures
            self.close(first).closes_at(again),
            self.close(first).close(again) == self.close(first),
    {
    }

    /// The latest submission wins: a player who submits again stays where the registry holds
    /// them, and the ledger holds the second entry only. Nobody else's entry changes.
    pub proof fn lemma_resubmission_overwrites(
        self,
        player: AccountId,
        first: (u64, u64, u64),
        second: (u64, u64, u64),
    )
        requires
            self.wf(),
            self.active,
        ensures
            self.submit(player, first).submit(player, second).players == self.submit(
                player,
                first,
            ).players,
            self.submit(player, first).submit(player, second).score_of(player) == second,
            self.submit(player, first).submit(player, second) == self.submit(player, second),
            forall|other: AccountId|
                other != player ==> self.submit(player, first).submit(player, second).score_of(other)
                    == self.score_of(other),
    {
        let once = self.submit(player, first);
        let twice = once.submit(player, second);
        if self.players.contains(player) {
        } else {
            assert(once.players.last() == player);
        }
        assert(once.players.contains(player));
        assert(twice.ledger =~= self.submit(player, second).ledger);
    }

    /// The registry only grows, and only at its end: whatever is done to a session, the players
    /// registered before are still registered, in the places they had.
    pub proof fn lemma_registry_only_grows(
        self,
        caller: AccountId,
        entry: (u64, u64, u64),
        new_admin: AccountId,
        now: u64,
    )
        ensures
            self.players.is_prefix_of(self.submit(caller, entry).players),
            self.submit(caller, entry).players.len() <= self.players.len() + 1,
            self.hand_over(caller, new_admin).players == self.players,
            self.close(now).players == self.players,
            self.refresh_winners().players == self.players,
    {
    }

    /// The recorded winners change only when they are recorded anew: no submission, no change of
    /// administrator and no closing touches them.
    pub proof fn lemma_winners_wait_for_refresh(
        self,
        caller: AccountId,
        entry: (u64, u64, u64),
        new_admin: AccountId,
        now: u64,
    )
        ensures
            self.submit(caller, entry).winners == self.winners,
            self.hand_over(caller, new_admin).winners == self.winners,
            self.close(now).winners == self.winners,
    {
    }

    /// The distance plays no part in the ranking: two ledgers that hold the same score and the
    /// same time for every registered player give the same ranking.
    pub proof fn lemma_ranking_ignores_distance(self, other: Map<AccountId, (u64, u64, u64)>)
        requires
            forall|i: int|
                0 <= i < self.players.len() ==> entry_of(self.ledger, #[trigger] self.players[i]).0
                    == entry_of(other, self.players[i]).0 && entry_of(
                    self.ledger,
                    self.players[i],
                ).2 == entry_of(other, self.players[i]).2,
        ensures
            rank(self.players, other) == self.ranking(),
    {
        let by_score = stable_sort_by(self.players, score_key(self.ledger));
        lemma_stable_sort_same_keys(self.players, score_key(self.ledger), score_key(other));
        lemma_stable_sort_permutes(self.players, score_key(self.ledger));
        lemma_stable_sort_keeps(
            self.players,
            score_key(self.ledger),
            |p: AccountId| time_key(self.ledger)(p) == time_key(other)(p),
        );
        lemma_stable_sort_same_keys(by_score, time_key(self.ledger), time_key(other));
    }

    /// The ranking can be had from the entries alone: where `entries` holds the entry of each
    /// registered player at the player's place in the registry, the ranking names the players at
    /// the ranked positions of `entries`.
    pub proof fn lemma_ranking_by_positions(self, entries: Seq<(u64, u64, u64)>)
        requires
            self.players.no_duplicates(),
            entries.len() == self.players.len(),
            entries.len() <= usize::MAX,
            self.ledger == ledger_of(self.players, entries),
        ensures
            self.ranking() == ranked_positions(entries).map_values(player_at(self.players)),
            forall|k: int|
                0 <= k < entries.len() ==> 0 <= #[trigger] ranked_positions(entries)[k]
                    < entries.len(),
    {
        let name = player_at(self.players);
        let order = positions(entries.len());
        let by_score = stable_sort_by(order, score_at(entries));
        assert(order.map_values(name) =~= self.players);
        assert forall|k: int| 0 <= k < order.len() implies score_at(entries)(#[trigger] order[k])
            == score_key(self.ledger)(name(order[k])) by {
            assert(self.players.contains(self.players[k]));
        }
        lemma_stable_sort_map(order, name, score_at(entries), score_key(self.ledger));
        lemma_stable_sort_permutes(order, score_at(entries));
        lemma_stable_sort_keeps(order, score_at(entries), |p: usize| p < entries.len());
        assert forall|k: int| 0 <= k < by_score.len() implies time_at(entries)(
            #[trigger] by_score[k],
        ) == time_key(self.ledger)(name(by_score[k])) by {
            let at: int = by_score[k] as int;
            assert(self.players.contains(self.players[at]));
        }
        lemma_stable_sort_map(by_score, name, time_at(entries), time_key(self.ledger));
        lemma_stable_sort_permutes(by_score, time_at(entries));
        lemma_stable_sort_keeps(by_score, time_at(entries), |p: usize| p < entries.len());
    }

    /// The order leaves no choice: a sequence that holds every registered player once and is in
    /// the order that [`GameState::outranks`] describes is the ranking.
    pub proof fn lemma_ranking_is_determined(self, ranked: Seq<AccountId>)
        requires
            self.players.no_duplicates(),
            ranked.len() == self.players.len(),
            ranked.no_duplicates(),
            forall|p: AccountId| ranked.contains(p) <==> self.players.contains(p),
            forall|i: int, j: int|
                #![trigger ranked[i], ranked[j]]
                0 <= i < j < ranked.len() ==> self.outranks(ranked[i], ranked[j]),
        ensures
            ranked == self.ranking(),
    {
        self.lemma_ranking_order();
        let before = |a: AccountId, b: AccountId| self.outranks(a, b);
        assert forall|a: AccountId, b: AccountId| !(#[trigger] before(a, b) && before(b, a)) by {
        }
        lemma_order_determines_sequence(ranked, self.ranking(), before);
    }

    /// The ranking holds every registered player once, and it is in the order that
    /// [`GameState::outranks`] describes: by time first, by score where the times are equal, and
    /// by registration where both are.
    pub proof fn lemma_ranking_order(self)
        requires
            self.players.no_duplicates(),
        ensures
            self.ranking().len() == self.players.len(),
            self.ranking().to_multiset() == self.players.to_multiset(),
            self.ranking().no_duplicates(),
            forall|p: AccountId| self.ranking().contains(p) <==> self.players.contains(p),
            forall|i: int, j: int|
                #![trigger self.ranking()[i], self.ranking()[j]]
                0 <= i < j < self.ranking().len() ==> self.outranks(
                    self.ranking()[i],
                    self.ranking()[j],
                ),
    {
        let by_score = stable_sort_by(self.players, score_key(self.ledger));
        let ranked = stable_sort_by(by_score, time_key(self.ledger));
        lemma_stable_sort_permutes(self.players, score_key(self.ledger));
        lemma_stable_sort_permutes(by_score, time_key(self.ledger));
        lemma_stable_sort_order(self.players, score_key(self.ledger));
        lemma_stable_sort_order(by_score, time_key(self.ledger));
        assert forall|i: int, j: int| 0 <= i < j < ranked.len() implies self.outranks(
            ranked[i],
            ranked[j],
        ) by {
            let a = ranked[i];
            let b = ranked[j];
            assert(sorts_before(by_score, time_key(self.ledger), a, b));
            if self.score_of(a).2 == self.score_of(b).2 {
                assert(ranked.contains(a) && ranked.contains(b));
                assert(by_score.contains(a) && by_score.contains(b));
                let at_a: int = by_score.index_of(a);
                let at_b: int = by_score.index_of(b);
                assert(by_score[at_a] == a && by_score[at_b] == b);
                assert(sorts_before(
                    self.players,
                    score_key(self.ledger),
                    by_score[at_a],
                    by_score[at_b],
                ));
            }
        }
    }
}

} // verus!
