use game::AccountId;
use game::BaseGame;
use game::Error;
use game::Game;
use game::GameCreated;
use game::ScoreSubmitted;
use game::TokenHandle;
use game::TokenRequest;

const DAY: u64 = 86_400_000;

fn id(byte: u8) -> AccountId {
    AccountId::from([byte; 32])
}

fn token() -> TokenHandle {
    TokenHandle(id(0xEE))
}

fn session(days: u64, now: u64) -> Game {
    assert!(Game::token_request(days).is_some());
    Game::new(days, id(0x01), token(), now).0
}

#[test]
fn e2e_multi_contract_caller() {
    let game = Game::new(100, AccountId::from([0x1; 32]), token(), 0).0;
    assert_eq!(game.game_active(), true);
    assert_eq!(game.game_end_time(), 86_400_000 * 100);
}

#[test]
fn new_session_is_active_and_empty() {
    let (game, created) = Game::new(3, id(0x01), token(), 1_000);
    assert!(game.game_active());
    assert!(game.players().is_empty());
    assert!(game.winners().is_empty());
    assert_eq!(game.current_admin(), id(0x01));
    assert_eq!(game.token(), token());
    assert_eq!(game.game_end_time(), 1_000 + 3 * DAY);
    assert_eq!(
        created,
        GameCreated { admin: id(0x01), game_end_time: 259_201_000, game_start_time: 1_000 }
    );
}

#[test]
fn session_of_zero_days_ends_when_it_starts() {
    let (game, created) = Game::new(0, id(0x01), token(), 77);
    assert_eq!(game.game_end_time(), 77);
    assert_eq!(created.game_start_time, 77);
    assert_eq!(created.game_end_time, 77);
}

#[test]
fn deadline_that_does_not_fit_is_the_latest_moment() {
    let days = u64::MAX / DAY;
    let length = days * DAY;
    let fits = Game::new(days, id(0x01), token(), u64::MAX - length).0;
    assert_eq!(fits.game_end_time(), u64::MAX);
    let (late, created) = Game::new(days, id(0x01), token(), u64::MAX - length + 1);
    assert_eq!(late.game_end_time(), u64::MAX);
    assert_eq!(created.game_end_time, u64::MAX);
    assert_eq!(created.game_start_time, u64::MAX - length + 1);
}

#[test]
fn session_opened_at_the_last_moment_is_not_past_its_deadline() {
    let (mut game, created) = Game::new(1, id(0x01), token(), u64::MAX);
    assert_eq!(game.game_end_time(), u64::MAX);
    assert_eq!(created.game_end_time, u64::MAX);
    assert_eq!(created.game_start_time, u64::MAX);
    assert!(game.game_end_time() >= created.game_start_time);
    assert_eq!(game.end_game(0), None);
    assert_eq!(game.end_game(u64::MAX - 1), None);
    assert!(game.game_active());
    assert!(game.submit_score(id(0x0A), 1, 2, 3).is_ok());
    assert!(game.end_game(u64::MAX).is_some());
    assert!(!game.game_active());
}

#[test]
fn deadline_is_start_plus_length_up_to_the_last_millisecond() {
    let (game, _) = Game::new(1, id(0x01), token(), u64::MAX - DAY);
    assert_eq!(game.game_end_time(), u64::MAX);
    let (game, _) = Game::new(1, id(0x01), token(), u64::MAX - DAY - 1);
    assert_eq!(game.game_end_time(), u64::MAX - 1);
    let (game, _) = Game::new(1, id(0x01), token(), u64::MAX - DAY + 1);
    assert_eq!(game.game_end_time(), u64::MAX);
    let (game, _) = Game::new(2, id(0x01), token(), 1_700_000_000_000);
    assert_eq!(game.game_end_time(), 1_700_172_800_000);
}

#[test]
fn overlong_session_is_not_opened() {
    let longest = u64::MAX / DAY;
    assert!(Game::try_new(longest + 1, id(0x01), token(), 0).is_none());
    assert!(Game::try_new(u64::MAX, id(0x01), token(), 12).is_none());
    assert_eq!(Game::token_request(longest + 1), None);
    assert_eq!(Game::token_request(u64::MAX), None);
}

#[test]
fn fitting_session_is_opened_either_way() {
    let longest = u64::MAX / DAY;
    let (game, created) = Game::try_new(longest, id(0x01), token(), 5).expect("the length fits");
    let (same, same_notice) = Game::new(longest, id(0x01), token(), 5);
    assert_eq!(created, same_notice);
    assert_eq!(created.game_end_time, 5 + longest * DAY);
    assert_eq!(game.game_end_time(), same.game_end_time());
    assert_eq!(game.game_active(), same.game_active());
    assert_eq!(game.current_admin(), same.current_admin());
    assert_eq!(game.token(), same.token());
    assert_eq!(game.players(), same.players());
    assert_eq!(game.winners(), same.winners());
    let (game, created) = Game::try_new(100, id(0x01), token(), 0).expect("the length fits");
    assert!(game.game_active());
    assert_eq!(game.game_end_time(), 8_640_000_000);
    assert_eq!(created.game_start_time, 0);
}

#[test]
fn token_request_holds_the_fixed_terms() {
    let request = Game::token_request(100);
    assert_eq!(
        request,
        Some(TokenRequest {
            initial_supply: 100_000_000_000,
            endowment: 0,
            salt: [0xDE, 0xAD, 0xBE, 0xEF],
            ref_time_limit: 500_000_000,
            proof_size_limit: 200_000,
            storage_deposit_limit: 100_000_000_000,
        })
    );
}

#[test]
fn every_session_makes_the_same_token_request() {
    assert_eq!(Game::token_request(0), Some(TokenRequest::fixed()));
    assert_eq!(Game::token_request(1), Game::token_request(213_503_982_334));
    assert_eq!(TokenRequest::fixed().initial_supply, 100_000_000_000);
    assert_eq!(TokenRequest::fixed().salt, [0xDE, 0xAD, 0xBE, 0xEF]);
}

#[test]
fn no_token_request_where_the_length_overflows() {
    let longest = u64::MAX / DAY;
    assert_eq!(longest, 213_503_982_334);
    assert!(Game::token_request(longest).is_some());
    assert_eq!(Game::token_request(longest + 1), None);
    assert_eq!(Game::token_request(u64::MAX), None);
    assert!(Game::token_request(0).is_some());
}

#[test]
fn score_is_accepted_while_active() {
    let mut game = session(1, 0);
    let result = game.submit_score(id(0x0A), 10, 20, 30);
    assert_eq!(
        result,
        Ok(ScoreSubmitted { winner: id(0x0A), score_time_distance: (10, 20, 30) })
    );
    assert_eq!(game.players(), vec![id(0x0A)]);
    assert_eq!(game.score_distance_time(id(0x0A)), (10, 20, 30));
}

#[test]
fn score_is_refused_after_close() {
    let mut game = session(1, 0);
    assert!(game.submit_score(id(0x0A), 10, 20, 30).is_ok());
    assert!(game.end_game(DAY).is_some());
    assert!(!game.game_active());
    assert_eq!(game.submit_score(id(0x0A), 1, 2, 3), Err(Error::GameNotActive));
    assert_eq!(game.submit_score(id(0x0B), 4, 5, 6), Err(Error::GameNotActive));
    assert_eq!(game.players(), vec![id(0x0A)]);
    assert_eq!(game.score_distance_time(id(0x0A)), (10, 20, 30));
    assert_eq!(game.score_distance_time(id(0x0B)), (0, 0, 0));
}

#[test]
fn unknown_player_has_zero_entry() {
    let mut game = session(1, 0);
    assert_eq!(game.score_distance_time(id(0x0A)), (0, 0, 0));
    assert!(game.submit_score(id(0x0B), 9, 8, 7).is_ok());
    assert_eq!(game.score_distance_time(id(0x0A)), (0, 0, 0));
    assert_eq!(game.score_distance_time(id(0x0B)), (9, 8, 7));
}

#[test]
fn second_submission_overwrites_and_registers_once() {
    let mut game = session(1, 0);
    assert!(game.submit_score(id(0x0A), 10, 20, 30).is_ok());
    assert!(game.submit_score(id(0x0B), 1, 1, 1).is_ok());
    assert!(game.submit_score(id(0x0A), 5, 6, 7).is_ok());
    assert_eq!(game.players(), vec![id(0x0A), id(0x0B)]);
    assert_eq!(game.players().len(), 2);
    assert_eq!(game.score_distance_time(id(0x0A)), (5, 6, 7));
    assert_eq!(game.score_distance_time(id(0x0B)), (1, 1, 1));
}

#[test]
fn registry_keeps_order_of_first_submission() {
    let mut game = session(1, 0);
    for byte in [0x05u8, 0x03, 0x09, 0x03, 0x05, 0x01] {
        assert!(game.submit_score(id(byte), byte as u64, 0, 0).is_ok());
    }
    assert_eq!(game.players(), vec![id(0x05), id(0x03), id(0x09), id(0x01)]);
}

#[test]
fn identities_differing_in_one_byte_are_different_players() {
    let mut first = [0u8; 32];
    let mut second = [0u8; 32];
    first[31] = 1;
    second[31] = 2;
    assert_ne!(AccountId::from(first), AccountId::from(second));
    assert_eq!(AccountId::from(first), AccountId(first));
    let mut game = session(1, 0);
    assert!(game.submit_score(AccountId::from(first), 1, 1, 1).is_ok());
    assert!(game.submit_score(AccountId::from(second), 2, 2, 2).is_ok());
    assert_eq!(game.players().len(), 2);
    assert_eq!(game.score_distance_time(AccountId::from(first)), (1, 1, 1));
    assert_eq!(game.score_distance_time(AccountId::from(second)), (2, 2, 2));
}

#[test]
fn admin_hands_over() {
    let mut game = session(1, 0);
    assert_eq!(game.change_admin(id(0x01), id(0x02)), Ok(()));
    assert_eq!(game.current_admin(), id(0x02));
    assert_eq!(game.change_admin(id(0x01), id(0x03)), Err(Error::NotAdmin));
    assert_eq!(game.current_admin(), id(0x02));
    assert_eq!(game.change_admin(id(0x02), id(0x02)), Ok(()));
    assert_eq!(game.current_admin(), id(0x02));
}

#[test]
fn stranger_cannot_take_over() {
    let mut game = session(1, 0);
    assert!(game.submit_score(id(0x0A), 1, 2, 3).is_ok());
    assert_eq!(game.change_admin(id(0x0A), id(0x0A)), Err(Error::NotAdmin));
    assert_eq!(game.current_admin(), id(0x01));
    assert!(game.game_active());
    assert_eq!(game.players(), vec![id(0x0A)]);
    assert_eq!(game.score_distance_time(id(0x0A)), (1, 2, 3));
}

#[test]
fn admin_may_change_after_close() {
    let mut game = session(0, 5);
    assert!(game.end_game(5).is_some());
    assert_eq!(game.change_admin(id(0x01), id(0x02)), Ok(()));
    assert_eq!(game.current_admin(), id(0x02));
    assert!(!game.game_active());
}

#[test]
fn closing_before_the_deadline_does_nothing() {
    let mut game = session(2, 100);
    assert!(game.submit_score(id(0x0A), 1, 2, 3).is_ok());
    assert_eq!(game.end_game(0), None);
    assert_eq!(game.end_game(100 + 2 * DAY - 1), None);
    assert!(game.game_active());
    assert_eq!(game.game_end_time(), 100 + 2 * DAY);
    assert_eq!(game.players(), vec![id(0x0A)]);
    assert!(game.submit_score(id(0x0B), 1, 2, 3).is_ok());
}

#[test]
fn closing_at_the_deadline_ends_the_session() {
    let mut game = session(2, 100);
    let closing = game.end_game(100 + 2 * DAY).expect("the deadline is reached");
    assert_eq!(closing.notice.game_end_time, 100 + 2 * DAY);
    assert!(closing.notice.winners.is_empty());
    assert!(closing.ranking.is_empty());
    assert!(!game.game_active());
    assert_eq!(game.game_end_time(), 100 + 2 * DAY);
}

#[test]
fn closing_again_gives_notice_again() {
    let mut game = session(1, 0);
    assert!(game.submit_score(id(0x0A), 3, 0, 9).is_ok());
    assert!(game.submit_score(id(0x0B), 3, 0, 4).is_ok());
    let first = game.end_game(DAY + 1).expect("past the deadline");
    let second = game.end_game(DAY + 2).expect("still past the deadline");
    let third = game.end_game(u64::MAX).expect("still past the deadline");
    assert_eq!(first, second);
    assert_eq!(second, third);
    assert_eq!(first.notice.game_end_time, DAY);
    assert_eq!(first.ranking, vec![id(0x0B), id(0x0A)]);
    assert!(!game.game_active());
    assert_eq!(game.end_game(DAY - 1), None);
    assert!(!game.game_active());
}

#[test]
fn closing_leaves_the_recorded_winners_alone() {
    let mut game = session(1, 0);
    assert!(game.submit_score(id(0x0A), 3, 0, 9).is_ok());
    assert!(game.submit_score(id(0x0B), 3, 0, 4).is_ok());
    let closing = game.end_game(DAY).expect("the deadline is reached");
    assert!(closing.notice.winners.is_empty());
    assert!(game.winners().is_empty());
    game.update_scores();
    assert_eq!(game.winners(), vec![id(0x0B), id(0x0A)]);
    let closing = game.end_game(DAY).expect("the deadline is reached");
    assert_eq!(closing.notice.winners, vec![id(0x0B), id(0x0A)]);
}

#[test]
fn stored_parts_make_the_same_session() {
    let mut game = session(1, 10);
    assert!(game.submit_score(id(0x0A), 3, 0, 9).is_ok());
    assert!(game.submit_score(id(0x0B), 3, 0, 4).is_ok());
    game.update_scores();
    let entries = game.players().iter().map(|p| game.score_distance_time(*p)).collect();
    let mut again = Game::from_parts(
        game.players(),
        entries,
        game.winners(),
        game.game_active(),
        game.game_end_time(),
        game.current_admin(),
        game.token(),
    )
    .expect("the parts of a session fit together");
    assert_eq!(again.players(), vec![id(0x0A), id(0x0B)]);
    assert_eq!(again.winners(), vec![id(0x0B), id(0x0A)]);
    assert_eq!(again.score_distance_time(id(0x0A)), (3, 0, 9));
    assert_eq!(again.score_distance_time(id(0x0B)), (3, 0, 4));
    assert_eq!(again.game_end_time(), 10 + DAY);
    assert_eq!(again.current_admin(), id(0x01));
    assert_eq!(again.token(), token());
    assert!(again.game_active());
    assert!(again.submit_score(id(0x0C), 1, 1, 1).is_ok());
    assert_eq!(again.ranking(), vec![id(0x0C), id(0x0B), id(0x0A)]);
}

#[test]
fn stored_parts_of_a_closed_session() {
    let mut game = Game::from_parts(vec![id(1)], vec![(1, 2, 3)], vec![], false, 50, id(9), token())
        .expect("the parts fit");
    assert!(!game.game_active());
    assert_eq!(game.submit_score(id(1), 0, 0, 0), Err(Error::GameNotActive));
    assert_eq!(game.end_game(49), None);
    assert!(!game.game_active());
}

#[test]
fn parts_that_do_not_fit_make_no_session() {
    let a = id(0x0A);
    let b = id(0x0B);
    let c = id(0x0C);
    let d = id(0x0D);
    let e = (0u64, 0u64, 0u64);
    let admin = id(0x01);
    assert!(Game::from_parts(vec![a, b], vec![e, e], vec![b], true, 0, admin, token()).is_some());
    assert!(Game::from_parts(vec![], vec![], vec![], true, 0, admin, token()).is_some());
    // somebody registered twice
    assert!(Game::from_parts(vec![a, b, a], vec![e, e, e], vec![], true, 0, admin, token()).is_none());
    // an entry too few, an entry too many
    assert!(Game::from_parts(vec![a, b], vec![e], vec![], true, 0, admin, token()).is_none());
    assert!(Game::from_parts(vec![a], vec![e, e], vec![], true, 0, admin, token()).is_none());
    // four winners
    assert!(Game::from_parts(vec![a, b, c, d], vec![e, e, e, e], vec![a, b, c, d], true, 0, admin, token())
        .is_none());
    assert!(Game::from_parts(vec![a, b, c, d], vec![e, e, e, e], vec![a, b, c], true, 0, admin, token())
        .is_some());
    // a winner twice
    assert!(Game::from_parts(vec![a, b], vec![e, e], vec![a, a], true, 0, admin, token()).is_none());
    // a winner who is not registered
    assert!(Game::from_parts(vec![a, b], vec![e, e], vec![c], true, 0, admin, token()).is_none());
}
