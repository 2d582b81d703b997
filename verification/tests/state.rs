use rs_2048_tui::game_state::GameState;

fn state(tiles: [[u32; 4]; 4]) -> GameState<4> {
    GameState::from_tiles(tiles, 0)
}

fn count_tiles<const DIM: usize>(tiles: &[[u32; DIM]; DIM]) -> usize {
    tiles.iter().flatten().filter(|&&v| v != 0).count()
}

const SAMPLE: [[u32; 4]; 4] = [[1, 2, 3, 4], [5, 6, 7, 8], [9, 10, 11, 12], [13, 14, 15, 16]];

#[test]
fn from_tiles_keeps_tiles_and_score() {
    let s = GameState::<4>::from_tiles(SAMPLE, 7);
    assert_eq!(s.tiles(), SAMPLE);
    assert_eq!(s.score(), 7);
}

#[test]
fn rotate90_turns_clockwise() {
    let mut s = state(SAMPLE);
    s.rotate90();
    assert_eq!(s.tiles(), [[13, 9, 5, 1], [14, 10, 6, 2], [15, 11, 7, 3], [16, 12, 8, 4]]);
    assert_eq!(s.score(), 0);
}

#[test]
fn rotate180_turns_by_a_half() {
    let mut s = state(SAMPLE);
    s.rotate180();
    assert_eq!(s.tiles(), [[16, 15, 14, 13], [12, 11, 10, 9], [8, 7, 6, 5], [4, 3, 2, 1]]);
}

#[test]
fn rotate270_turns_counter_clockwise() {
    let mut s = state(SAMPLE);
    s.rotate270();
    assert_eq!(s.tiles(), [[4, 8, 12, 16], [3, 7, 11, 15], [2, 6, 10, 14], [1, 5, 9, 13]]);
}

#[test]
fn four_quarter_turns_are_identity() {
    let mut s = state(SAMPLE);
    for _ in 0..4 {
        s.rotate90();
    }
    assert_eq!(s.tiles(), SAMPLE);
}

#[test]
fn two_half_turns_are_identity() {
    let mut s = state(SAMPLE);
    s.rotate180();
    s.rotate180();
    assert_eq!(s.tiles(), SAMPLE);
}

#[test]
fn quarter_turn_and_back_is_identity() {
    let mut s = state(SAMPLE);
    s.rotate90();
    s.rotate270();
    assert_eq!(s.tiles(), SAMPLE);
    s.rotate270();
    s.rotate90();
    assert_eq!(s.tiles(), SAMPLE);
}

#[test]
fn two_quarter_turns_are_a_half_turn() {
    let mut a = state(SAMPLE);
    a.rotate90();
    a.rotate90();
    let mut b = state(SAMPLE);
    b.rotate180();
    assert_eq!(a.tiles(), b.tiles());
}

#[test]
fn rotations_on_odd_dimension() {
    let tiles = [[1, 2, 3], [4, 5, 6], [7, 8, 9]];
    let mut s = GameState::<3>::from_tiles(tiles, 0);
    s.rotate90();
    assert_eq!(s.tiles(), [[7, 4, 1], [8, 5, 2], [9, 6, 3]]);
    s.rotate180();
    assert_eq!(s.tiles(), [[3, 6, 9], [2, 5, 8], [1, 4, 7]]);
    s.rotate270();
    assert_eq!(s.tiles(), [[9, 8, 7], [6, 5, 4], [3, 2, 1]]);
}

#[test]
fn rotations_on_dimension_one() {
    let mut s = GameState::<1>::from_tiles([[8]], 3);
    s.rotate90();
    s.rotate180();
    s.rotate270();
    s.slide_and_merge_left();
    assert_eq!(s.tiles(), [[8]]);
    assert_eq!(s.score(), 3);
}

#[test]
fn merge_four_equal_tiles() {
    let mut s = state([[2, 2, 2, 2], [0; 4], [0; 4], [0; 4]]);
    s.slide_and_merge_left();
    assert_eq!(s.tiles()[0], [4, 4, 0, 0]);
    assert_eq!(s.score(), 8);
}

#[test]
fn merge_across_gaps() {
    let mut s = state([[0, 2, 0, 2], [0; 4], [0; 4], [0; 4]]);
    s.slide_and_merge_left();
    assert_eq!(s.tiles()[0], [4, 0, 0, 0]);
    assert_eq!(s.score(), 4);
}

#[test]
fn merge_first_pair_only() {
    let mut s = state([[2, 0, 2, 2], [0; 4], [0; 4], [0; 4]]);
    s.slide_and_merge_left();
    assert_eq!(s.tiles()[0], [4, 2, 0, 0]);
    assert_eq!(s.score(), 4);
}

#[test]
fn merged_tile_does_not_merge_again() {
    let mut s = state([[2, 2, 4, 0], [4, 4, 8, 16], [0; 4], [0; 4]]);
    s.slide_and_merge_left();
    assert_eq!(s.tiles()[0], [4, 4, 0, 0]);
    assert_eq!(s.tiles()[1], [8, 8, 16, 0]);
    assert_eq!(s.score(), 12);
}

#[test]
fn score_adds_up_over_rows_and_moves() {
    let mut s = GameState::<4>::from_tiles(
        [[2, 2, 0, 0], [4, 0, 4, 0], [8, 8, 8, 8], [2, 4, 8, 16]],
        100,
    );
    s.slide_and_merge_left();
    assert_eq!(s.tiles(), [[4, 0, 0, 0], [8, 0, 0, 0], [16, 16, 0, 0], [2, 4, 8, 16]]);
    assert_eq!(s.score(), 100 + 4 + 8 + 32);
    s.slide_and_merge_left();
    assert_eq!(s.tiles(), [[4, 0, 0, 0], [8, 0, 0, 0], [32, 0, 0, 0], [2, 4, 8, 16]]);
    assert_eq!(s.score(), 144 + 32);
}

#[test]
fn slide_without_merge_is_idempotent() {
    let mut s = state([[0, 2, 0, 4], [0, 0, 0, 8], [2, 4, 2, 4], [0; 4]]);
    s.slide_and_merge_left();
    let once = s.tiles();
    assert_eq!(once, [[2, 4, 0, 0], [8, 0, 0, 0], [2, 4, 2, 4], [0; 4]]);
    s.slide_and_merge_left();
    assert_eq!(s.tiles(), once);
    assert_eq!(s.score(), 0);
}

#[test]
fn empty_grid_stays_empty() {
    let mut s = state([[0; 4]; 4]);
    s.slide_and_merge_left();
    assert_eq!(s.tiles(), [[0; 4]; 4]);
    assert_eq!(s.score(), 0);
}

#[test]
fn tile_value_stops_at_the_largest() {
    let big: u32 = 1 << 31;
    let mut s = GameState::<2>::from_tiles([[big, big], [0, 0]], 0);
    s.slide_and_merge_left();
    assert_eq!(s.tiles(), [[u32::MAX, 0], [0, 0]]);
    assert_eq!(s.score(), u32::MAX);
}

#[test]
fn score_stops_at_the_largest() {
    let mut s = GameState::<2>::from_tiles([[2, 2], [4, 4]], u32::MAX - 5);
    s.slide_and_merge_left();
    assert_eq!(s.tiles(), [[4, 0], [8, 0]]);
    assert_eq!(s.score(), u32::MAX);
}

#[test]
fn equality_ignores_score() {
    let a = GameState::<4>::from_tiles(SAMPLE, 0);
    let b = GameState::<4>::from_tiles(SAMPLE, 99);
    assert!(a == b);
    let mut other = SAMPLE;
    other[3][3] = 0;
    let c = GameState::<4>::from_tiles(other, 0);
    assert!(a != c);
}

#[test]
fn clone_keeps_tiles_and_score() {
    let a = GameState::<4>::from_tiles(SAMPLE, 12);
    let b = a.clone();
    assert_eq!(b.tiles(), SAMPLE);
    assert_eq!(b.score(), 12);
}

#[test]
fn new_state_has_two_tiles() {
    for _ in 0..200 {
        let s = GameState::<4>::new();
        let tiles = s.tiles();
        assert_eq!(count_tiles(&tiles), 2);
        assert!(tiles.iter().flatten().all(|&v| v == 0 || v == 2 || v == 4));
        assert_eq!(s.score(), 0);
    }
}

#[test]
fn new_state_on_one_cell_has_one_tile() {
    let s = GameState::<1>::new();
    let v = s.tiles()[0][0];
    assert!(v == 2 || v == 4);
}

#[test]
fn new_state_on_two_by_two() {
    for _ in 0..50 {
        let s = GameState::<2>::new();
        assert_eq!(count_tiles(&s.tiles()), 2);
    }
}

#[test]
fn add_random_fills_the_only_empty_cell() {
    for _ in 0..50 {
        let mut s = GameState::<2>::from_tiles([[8, 16], [0, 32]], 5);
        assert!(s.add_random());
        let tiles = s.tiles();
        assert!(tiles[1][0] == 2 || tiles[1][0] == 4);
        assert_eq!(tiles[0], [8, 16]);
        assert_eq!(tiles[1][1], 32);
        assert_eq!(s.score(), 5);
    }
}

#[test]
fn add_random_places_one_tile_on_an_empty_cell() {
    for _ in 0..100 {
        let before = [[2, 0, 0, 4], [0; 4], [0, 8, 0, 0], [0; 4]];
        let mut s = state(before);
        assert!(s.add_random());
        let after = s.tiles();
        let mut changed = 0;
        for i in 0..4 {
            for j in 0..4 {
                if after[i][j] != before[i][j] {
                    changed += 1;
                    assert_eq!(before[i][j], 0);
                    assert!(after[i][j] == 2 || after[i][j] == 4);
                }
            }
        }
        assert_eq!(changed, 1);
    }
}

#[test]
fn add_random_on_full_grid_does_nothing() {
    let full = [[2, 4], [8, 16]];
    let mut s = GameState::<2>::from_tiles(full, 1);
    assert!(!s.add_random());
    assert_eq!(s.tiles(), full);
    assert_eq!(s.score(), 1);
}

#[test]
fn add_random_draws_both_values() {
    let mut twos = 0;
    let mut fours = 0;
    for _ in 0..2000 {
        let mut s = GameState::<1>::from_tiles([[0]], 0);
        assert!(s.add_random());
        match s.tiles()[0][0] {
            2 => twos += 1,
            4 => fours += 1,
            other => panic!("unexpected tile {}", other),
        }
    }
    assert!(twos > fours);
    assert!(fours > 0);
}

#[test]
fn spawn_places_two_or_four() {
    let mut s = state([[0; 4]; 4]);
    assert!(s.spawn(Some((1, 2)), true));
    assert_eq!(s.tiles()[1], [0, 0, 2, 0]);
    assert!(s.spawn(Some((3, 0)), false));
    assert_eq!(s.tiles()[3], [4, 0, 0, 0]);
    assert_eq!(count_tiles(&s.tiles()), 2);
}

#[test]
fn spawn_refuses_taken_or_missing_cells() {
    let tiles = [[2, 0], [0, 0]];
    let mut s = GameState::<2>::from_tiles(tiles, 0);
    assert!(!s.spawn(Some((0, 0)), true));
    assert!(!s.spawn(None, true));
    assert!(!s.spawn(Some((2, 0)), false));
    assert!(!s.spawn(Some((0, 2)), false));
    assert_eq!(s.tiles(), tiles);
}
