use cheatess::detect::{
    empty_board, find_all_pieces, find_piece_location, register_piece, ScoreMap, SCORE_ONE,
};

fn blank() -> Vec<Vec<char>> {
    empty_board()
}

#[test]
fn register_piece_correct_insert() {
    // ((y, x), (width, height), expected (row, col))
    let cases: Vec<((i32, i32), (i32, i32), (usize, usize))> = vec![
        ((0, 0), (800, 800), (0, 0)),
        ((0, 315), (360, 360), (0, 7)),
        ((315, 0), (360, 360), (7, 0)),
        ((700, 700), (800, 800), (7, 7)),
        ((180, 135), (360, 360), (4, 3)),
    ];
    for (point, size, expected) in cases {
        let mut board = blank();
        assert!(register_piece(point, size, 'X', &mut board).is_ok());
        assert_eq!(board[expected.0][expected.1], 'X');
        let written: usize = board
            .iter()
            .map(|r| r.iter().filter(|c| **c != ' ').count())
            .sum();
        assert_eq!(written, 1);
    }
}

#[test]
fn register_piece_clamps_out_of_range_points() {
    let mut board = blank();
    register_piece((-50, 9999), (80, 80), 'Q', &mut board).unwrap();
    assert_eq!(board[0][7], 'Q');
}

fn single_match_map(width: usize, height: usize, hit: usize) -> ScoreMap {
    let mut data = vec![SCORE_ONE; width * height];
    data[hit] = 0;
    ScoreMap {
        width,
        height,
        data,
    }
}

#[test]
fn find_piece_location_registers_the_match() {
    // one perfect match at the top-left anchor of a 64x64 board
    let map = single_match_map(8, 8, 0);
    let board = find_piece_location(&map, 64, 64, 100, 'P');
    assert_eq!(board[0][0], 'P');
    let written: usize = board
        .iter()
        .map(|r| r.iter().filter(|c| **c != ' ').count())
        .sum();
    assert_eq!(written, 1);
}

#[test]
fn find_piece_location_far_matches_both_land() {
    // 64x64 map on a 64x64 board: anchors (0,0) and (63,63) are farther
    // apart than the poison rectangle reaches
    let mut data = vec![SCORE_ONE; 64 * 64];
    data[0] = 0;
    data[64 * 64 - 1] = 5;
    let map = ScoreMap {
        width: 64,
        height: 64,
        data,
    };
    let board = find_piece_location(&map, 64, 64, 100, 'n');
    assert_eq!(board[0][0], 'n');
    assert_eq!(board[7][7], 'n');
}

#[test]
fn find_piece_location_threshold_rejects_weak_scores() {
    let map = single_match_map(8, 8, 0);
    let board = find_piece_location(&map, 64, 64, 0, 'P');
    let written: usize = board
        .iter()
        .map(|r| r.iter().filter(|c| **c != ' ').count())
        .sum();
    assert_eq!(written, 0);
}

#[test]
fn find_all_pieces_merges_first_writer_wins() {
    let maps = vec![
        ('P', single_match_map(8, 8, 0)),
        ('q', single_match_map(8, 8, 0)),
    ];
    let board = find_all_pieces(&maps, 64, 64, 100);
    // both templates match the same square; the first in the list wins
    assert_eq!(board[0][0], 'P');
}

#[test]
fn find_all_pieces_is_deterministic() {
    let maps = vec![
        ('P', single_match_map(16, 8, 3)),
        ('k', single_match_map(16, 8, 100)),
    ];
    let first = find_all_pieces(&maps, 128, 64, 100);
    let second = find_all_pieces(&maps, 128, 64, 100);
    assert_eq!(first, second);
}
