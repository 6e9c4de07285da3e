use vstd::prelude::*;
use crate::account::AccountId;

verus! {

/// The first place at which `players` holds `player`, if it holds them at all.
pub fn position_of(players: &Vec<AccountId>, player: AccountId) -> (found: Option<usize>)
    ensures
        found is None <==> !players@.contains(player),
        found matches Some(at) ==> at < players.len() && players[at as int] == player,
        found matches Some(at) ==> !players@.take(at as int).contains(player),
{
    let mut at: usize = 0;
    while at < players.len()
        invariant
            at <= players.len(),
            !players@.take(at as int).contains(player),
        decreases players.len() - at,
    {
        if players[at] == player {
            return Some(at);
        }
        assert(players@.take(at + 1) =~= players@.take(at as int).push(players[at as int]));
        at += 1;
    }
    assert(players@.take(at as int) =~= players@);
    None
}

/// Whether no identity occurs twice in `players`.
pub fn all_distinct(players: &Vec<AccountId>) -> (distinct: bool)
    ensures
        distinct == players@.no_duplicates(),
{
    let mut upto: usize = 0;
    while upto < players.len()
        invariant
            upto <= players.len(),
            players@.take(upto as int).no_duplicates(),
        decreases players.len() - upto,
    {
        let ghost seen = players@.take(upto as int);
        let mut at: usize = 0;
        while at < upto
            invariant
                at <= upto,
                upto < players.len(),
                forall|k: int| 0 <= k < at ==> players[k] != players[upto as int],
            decreases upto - at,
        {
            if players[at] == players[upto] {
                return false;
            }
            at += 1;
        }
        assert(players@.take(upto + 1) =~= seen.push(players[upto as int]));
        upto += 1;
    }
    assert(players@.take(upto as int) =~= players@);
    true
}

} // verus!
