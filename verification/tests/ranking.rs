use game::ranking::sort_positions;
use game::registry::all_distinct;
use game::registry::position_of;
use game::AccountId;
use game::BaseGame;
use game::Game;
use game::TokenHandle;

fn id(byte: u8) -> AccountId {
    AccountId::from([byte; 32])
}

fn session_with(results: &[(u8, u64, u64, u64)]) -> Game {
    let mut game = Game::new(1, id(0xFF), TokenHandle(id(0xEE)), 0).0;
    for (byte, score, distance, time) in results {
        assert!(game.submit_score(id(*byte), *score, *distance, *time).is_ok());
    }
    game
}

#[test]
fn ranking_goes_by_time_then_score() {
    // A(score=10,time=50), B(score=5,time=50), C(score=20,time=10)
    let mut game = session_with(&[(0xA, 10, 0, 50), (0xB, 5, 0, 50), (0xC, 20, 0, 10)]);
    assert_eq!(game.ranking(), vec![id(0xC), id(0xB), id(0xA)]);
    game.update_scores();
    assert_eq!(game.winners(), vec![id(0xC), id(0xB), id(0xA)]);
    assert_eq!(Game::top_three(game.ranking()), vec![id(0xC), id(0xB), id(0xA)]);
}

#[test]
fn equal_time_and_score_keep_registry_order() {
    let game = session_with(&[(0x3, 7, 1, 9), (0x1, 7, 2, 9), (0x2, 7, 3, 9)]);
    assert_eq!(game.ranking(), vec![id(0x3), id(0x1), id(0x2)]);
    let game = session_with(&[(0x2, 7, 3, 9), (0x1, 7, 2, 9), (0x3, 7, 1, 9)]);
    assert_eq!(game.ranking(), vec![id(0x2), id(0x1), id(0x3)]);
}

#[test]
fn score_breaks_ties_of_time_against_registry_order() {
    let game = session_with(&[(0x1, 30, 0, 5), (0x2, 20, 0, 5), (0x3, 10, 0, 5), (0x4, 99, 0, 4)]);
    assert_eq!(game.ranking(), vec![id(0x4), id(0x3), id(0x2), id(0x1)]);
}

#[test]
fn distance_plays_no_part() {
    let near = session_with(&[(0x1, 4, 0, 8), (0x2, 4, u64::MAX, 8), (0x3, 3, 500, 8)]);
    let far = session_with(&[(0x1, 4, u64::MAX, 8), (0x2, 4, 0, 8), (0x3, 3, 1, 8)]);
    assert_eq!(near.ranking(), vec![id(0x3), id(0x1), id(0x2)]);
    assert_eq!(far.ranking(), near.ranking());
}

#[test]
fn ranking_follows_the_latest_submission() {
    let mut game = session_with(&[(0x1, 1, 0, 1), (0x2, 2, 0, 2), (0x3, 3, 0, 3)]);
    assert_eq!(game.ranking(), vec![id(0x1), id(0x2), id(0x3)]);
    assert!(game.submit_score(id(0x1), 1, 0, 10).is_ok());
    assert_eq!(game.players(), vec![id(0x1), id(0x2), id(0x3)]);
    assert_eq!(game.ranking(), vec![id(0x2), id(0x3), id(0x1)]);
}

#[test]
fn extreme_keys_are_ordered() {
    let game = session_with(&[(0x1, 0, 0, u64::MAX), (0x2, u64::MAX, 0, 0), (0x3, 0, 0, 0)]);
    assert_eq!(game.ranking(), vec![id(0x3), id(0x2), id(0x1)]);
}

#[test]
fn winners_are_the_first_three_of_many() {
    let mut game = session_with(&[
        (0x1, 0, 0, 50),
        (0x2, 0, 0, 40),
        (0x3, 0, 0, 30),
        (0x4, 0, 0, 20),
        (0x5, 0, 0, 10),
    ]);
    assert!(game.winners().is_empty());
    game.update_scores();
    assert_eq!(game.winners(), vec![id(0x5), id(0x4), id(0x3)]);
    assert_eq!(game.ranking(), vec![id(0x5), id(0x4), id(0x3), id(0x2), id(0x1)]);
    assert_eq!(game.players(), vec![id(0x1), id(0x2), id(0x3), id(0x4), id(0x5)]);
}

#[test]
fn winners_are_not_renewed_by_a_submission() {
    let mut game = session_with(&[(0x1, 0, 0, 50), (0x2, 0, 0, 40)]);
    game.update_scores();
    assert_eq!(game.winners(), vec![id(0x2), id(0x1)]);
    assert!(game.submit_score(id(0x3), 0, 0, 1).is_ok());
    assert_eq!(game.winners(), vec![id(0x2), id(0x1)]);
    game.update_scores();
    assert_eq!(game.winners(), vec![id(0x3), id(0x2), id(0x1)]);
}

#[test]
fn winners_of_an_empty_session() {
    let mut game = session_with(&[]);
    game.update_scores();
    assert!(game.winners().is_empty());
    assert!(game.ranking().is_empty());
}

#[test]
fn top_three_of_fewer_than_three() {
    assert_eq!(Game::top_three(vec![]), vec![]);
    assert_eq!(Game::top_three(vec![id(9)]), vec![id(9)]);
    assert_eq!(Game::top_three(vec![id(9), id(4)]), vec![id(9), id(4)]);
}

#[test]
fn top_three_of_three_and_more() {
    assert_eq!(Game::top_three(vec![id(9), id(4), id(6)]), vec![id(9), id(4), id(6)]);
    assert_eq!(Game::top_three(vec![id(9), id(4), id(6), id(1)]), vec![id(9), id(4), id(6)]);
    assert_eq!(
        Game::top_three(vec![id(9), id(4), id(6), id(1), id(9), id(9)]),
        vec![id(9), id(4), id(6)]
    );
}

#[test]
fn positions_are_sorted_stably() {
    let keys = vec![5, 3, 5, 1, 3];
    assert_eq!(sort_positions(&vec![0, 1, 2, 3, 4], &keys), vec![3, 1, 4, 0, 2]);
    assert_eq!(sort_positions(&vec![4, 3, 2, 1, 0], &keys), vec![3, 4, 1, 2, 0]);
    assert_eq!(sort_positions(&vec![2, 2, 0], &keys), vec![2, 2, 0]);
    assert_eq!(sort_positions(&vec![], &keys), Vec::<usize>::new());
    assert_eq!(sort_positions(&vec![1], &keys), vec![1]);
}

#[test]
fn two_passes_order_by_the_second_key_first() {
    let scores = vec![10, 5, 20, 5];
    let times = vec![50, 50, 10, 50];
    let by_score = sort_positions(&vec![0, 1, 2, 3], &scores);
    assert_eq!(by_score, vec![1, 3, 0, 2]);
    assert_eq!(sort_positions(&by_score, &times), vec![2, 1, 3, 0]);
}

#[test]
fn position_is_that_of_the_first_occurrence() {
    let players = vec![id(1), id(2), id(3), id(2)];
    assert_eq!(position_of(&players, id(1)), Some(0));
    assert_eq!(position_of(&players, id(2)), Some(1));
    assert_eq!(position_of(&players, id(3)), Some(2));
    assert_eq!(position_of(&players, id(4)), None);
    assert_eq!(position_of(&vec![], id(1)), None);
}

#[test]
fn distinctness_is_told() {
    assert!(all_distinct(&vec![]));
    assert!(all_distinct(&vec![id(1)]));
    assert!(all_distinct(&vec![id(1), id(2), id(3)]));
    assert!(!all_distinct(&vec![id(1), id(2), id(1)]));
    assert!(!all_distinct(&vec![id(1), id(2), id(2)]));
    assert!(!all_distinct(&vec![id(7), id(7)]));
}
