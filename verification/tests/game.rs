use rs_2048_tui::game::Game;
use rs_2048_tui::game_state::GameState;

fn corner() -> GameState<4> {
    GameState::from_tiles([[0, 0, 0, 2], [0; 4], [0; 4], [0; 4]], 0)
}

#[test]
fn new_game_has_one_state_with_two_tiles() {
    for _ in 0..100 {
        let game = Game::<4>::new(3);
        assert_eq!(game.history_len(), 1);
        assert_eq!(game.undos_left(), 3);
        let tiles = game.current().tiles();
        let tiles_on_grid = tiles.iter().flatten().filter(|&&v| v != 0).count();
        assert_eq!(tiles_on_grid, 2);
        assert!(tiles.iter().flatten().all(|&v| v == 0 || v == 2 || v == 4));
        assert_eq!(game.current().score(), 0);
    }
}

#[test]
fn from_state_keeps_the_state() {
    let game = Game::from_state(corner(), 5);
    assert_eq!(game.history_len(), 1);
    assert_eq!(game.undos_left(), 5);
    assert_eq!(game.current().tiles(), corner().tiles());
}

#[test]
fn left_moves_and_merges() {
    let start = GameState::<4>::from_tiles(
        [[2, 2, 2, 2], [0, 2, 0, 2], [2, 0, 2, 2], [0, 0, 0, 0]],
        0,
    );
    let mut game = Game::from_state(start, 3);
    game.left();
    assert_eq!(game.history_len(), 2);
    assert_eq!(
        game.current().tiles(),
        [[4, 4, 0, 0], [4, 0, 0, 0], [4, 2, 0, 0], [0, 0, 0, 0]]
    );
    assert_eq!(game.current().score(), 16);
}

#[test]
fn right_moves_and_merges() {
    let start = GameState::<4>::from_tiles(
        [[2, 2, 2, 0], [0, 2, 0, 2], [2, 4, 0, 0], [0, 0, 0, 0]],
        0,
    );
    let mut game = Game::from_state(start, 3);
    game.right();
    assert_eq!(
        game.current().tiles(),
        [[0, 0, 2, 4], [0, 0, 0, 4], [0, 0, 2, 4], [0, 0, 0, 0]]
    );
    assert_eq!(game.current().score(), 8);
}

#[test]
fn up_moves_and_merges() {
    let start = GameState::<4>::from_tiles(
        [[2, 0, 0, 4], [2, 0, 8, 0], [2, 0, 0, 4], [0, 16, 8, 2]],
        0,
    );
    let mut game = Game::from_state(start, 3);
    game.up();
    assert_eq!(
        game.current().tiles(),
        [[4, 16, 16, 8], [2, 0, 0, 2], [0, 0, 0, 0], [0, 0, 0, 0]]
    );
    assert_eq!(game.current().score(), 4 + 16 + 8);
}

#[test]
fn down_moves_and_merges() {
    let start = GameState::<4>::from_tiles(
        [[2, 0, 0, 4], [2, 0, 8, 0], [2, 0, 0, 4], [0, 16, 8, 2]],
        0,
    );
    let mut game = Game::from_state(start, 3);
    game.down();
    assert_eq!(
        game.current().tiles(),
        [[0, 0, 0, 0], [0, 0, 0, 0], [2, 0, 0, 8], [4, 16, 16, 2]]
    );
    assert_eq!(game.current().score(), 4 + 16 + 8);
}

#[test]
fn move_without_effect_changes_nothing() {
    let start = GameState::<4>::from_tiles([[2, 4, 0, 0], [8, 0, 0, 0], [0; 4], [0; 4]], 9);
    let mut game = Game::from_state(start, 3);
    game.left();
    assert_eq!(game.history_len(), 1);
    assert_eq!(game.undos_left(), 3);
    game.up();
    assert_eq!(game.history_len(), 1);
    assert_eq!(game.undos_left(), 3);
    assert_eq!(game.current().score(), 9);
}

#[test]
fn accepted_move_places_no_new_tile() {
    let mut game = Game::from_state(corner(), 3);
    game.left();
    assert_eq!(game.current().tiles(), [[2, 0, 0, 0], [0; 4], [0; 4], [0; 4]]);
}

#[test]
fn history_is_bounded_by_the_undos() {
    let mut game = Game::from_state(corner(), 2);
    for n in 0..5 {
        if n % 2 == 0 {
            game.left();
        } else {
            game.right();
        }
        assert_eq!(game.history_len(), std::cmp::min(n + 2, 3));
    }
    assert_eq!(game.history_len(), 3);
    assert_eq!(game.undos_left(), 2);
}

#[test]
fn history_with_no_undos_keeps_one_state() {
    let mut game = Game::from_state(corner(), 0);
    game.left();
    assert_eq!(game.history_len(), 1);
    assert_eq!(game.current().tiles()[0], [2, 0, 0, 0]);
    game.undo();
    assert_eq!(game.history_len(), 1);
    assert_eq!(game.current().tiles()[0], [2, 0, 0, 0]);
}

#[test]
fn undos_restore_the_first_state() {
    let mut game = Game::from_state(corner(), 3);
    game.left();
    game.down();
    game.right();
    assert_eq!(game.history_len(), 4);
    assert_eq!(game.current().tiles(), [[0; 4], [0; 4], [0; 4], [0, 0, 0, 2]]);
    game.undo();
    assert_eq!(game.current().tiles(), [[0; 4], [0; 4], [0; 4], [2, 0, 0, 0]]);
    game.undo();
    assert_eq!(game.current().tiles(), [[2, 0, 0, 0], [0; 4], [0; 4], [0; 4]]);
    game.undo();
    assert!(*game.current() == corner());
    assert_eq!(game.history_len(), 1);
    assert_eq!(game.undos_left(), 0);
    game.undo();
    assert!(*game.current() == corner());
    assert_eq!(game.history_len(), 1);
    assert_eq!(game.undos_left(), 0);
}

#[test]
fn undo_restores_the_score() {
    let start = GameState::<4>::from_tiles([[2, 2, 0, 0], [0; 4], [0; 4], [0; 4]], 10);
    let mut game = Game::from_state(start, 1);
    game.left();
    assert_eq!(game.current().score(), 14);
    game.undo();
    assert_eq!(game.current().score(), 10);
    assert_eq!(game.current().tiles()[0], [2, 2, 0, 0]);
}

#[test]
fn undos_are_not_given_back() {
    let mut game = Game::from_state(corner(), 1);
    game.left();
    game.undo();
    assert_eq!(game.undos_left(), 0);
    game.left();
    assert_eq!(game.history_len(), 1);
    assert_eq!(game.current().tiles()[0], [2, 0, 0, 0]);
    game.undo();
    assert_eq!(game.current().tiles()[0], [2, 0, 0, 0]);
}

#[test]
fn undo_with_one_state_keeps_it() {
    let mut game = Game::from_state(corner(), 2);
    game.undo();
    assert_eq!(game.history_len(), 1);
    assert_eq!(game.undos_left(), 2);
    assert!(*game.current() == corner());
}

#[test]
fn oldest_state_leaves_first() {
    let mut game = Game::from_state(corner(), 1);
    game.left();
    game.right();
    assert_eq!(game.history_len(), 2);
    game.undo();
    assert_eq!(game.current().tiles()[0], [2, 0, 0, 0]);
    assert_eq!(game.history_len(), 1);
}

#[test]
fn play_keeps_tiles_powers_of_two_and_their_sum() {
    for round in 0..50 {
        let mut game = Game::<4>::new(3);
        let sum: u32 = game.current().tiles().iter().flatten().sum();
        let mut score = 0;
        for step in 0..40 {
            match (round + step * 7) % 5 {
                0 => game.left(),
                1 => game.up(),
                2 => game.right(),
                3 => game.down(),
                _ => game.undo(),
            }
            let tiles = game.current().tiles();
            assert!(tiles.iter().flatten().all(|&v| v == 0 || (v >= 2 && v.is_power_of_two())));
            assert_eq!(tiles.iter().flatten().sum::<u32>(), sum);
            assert!(game.history_len() >= 1);
            assert!(game.history_len() <= game.undos_left() + 1);
            if (round + step * 7) % 5 != 4 {
                assert!(game.current().score() >= score);
            }
            score = game.current().score();
        }
    }
}
