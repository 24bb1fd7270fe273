use cheatess::board::{AnyBoard, Board, Color, DefaultPrinter, WhiteView};
use cheatess::error::CheatessError;
use cheatess::moves::{coords_to_position, detect_move, position_to_coords, MoveType};

fn rows(data: [[char; 8]; 8]) -> Vec<Vec<char>> {
    data.iter().map(|r| r.to_vec()).collect()
}

#[test]
fn correct_change_coords_to_position() {
    let cases: Vec<(usize, usize, &str, Color)> = vec![
        (0, 0, "a8", Color::White),
        (0, 7, "h8", Color::White),
        (7, 0, "a1", Color::White),
        (7, 7, "h1", Color::White),
        (4, 4, "e4", Color::White),
        (3, 6, "g5", Color::White),
        (0, 0, "h1", Color::Black),
        (0, 7, "a1", Color::Black),
        (7, 0, "h8", Color::Black),
        (7, 7, "a8", Color::Black),
        (4, 4, "d5", Color::Black),
        (3, 6, "b4", Color::Black),
    ];
    for (row, col, pos, color) in cases {
        assert_eq!(coords_to_position(row, col, &color), pos.to_string());
    }
}

#[test]
fn position_round_trip_for_both_colors() {
    for color in [Color::White, Color::Black] {
        for row in 0..8usize {
            for col in 0..8usize {
                let pos = coords_to_position(row, col, &color);
                assert_eq!(position_to_coords(pos.as_str(), &color), Some((row, col)));
            }
        }
    }
    assert_eq!(position_to_coords("z9", &Color::White), None);
    assert_eq!(position_to_coords("e2e4", &Color::White), None);
}

#[test]
fn detect_simple_move_white_pawn() {
    let init = Board::<DefaultPrinter, WhiteView>::default_white();
    let after = rows([
        ['r', 'n', 'b', 'q', 'k', 'b', 'n', 'r'],
        ['p', 'p', 'p', 'p', 'p', 'p', 'p', 'p'],
        [' ', ' ', ' ', ' ', ' ', ' ', ' ', ' '],
        [' ', ' ', ' ', ' ', ' ', ' ', ' ', ' '],
        [' ', ' ', ' ', ' ', 'P', ' ', ' ', ' '],
        [' ', ' ', ' ', ' ', ' ', ' ', ' ', ' '],
        ['P', 'P', 'P', 'P', ' ', 'P', 'P', 'P'],
        ['R', 'N', 'B', 'Q', 'K', 'B', 'N', 'R'],
    ]);
    let result = detect_move(init.raw(), &after, &Color::White).unwrap();
    assert_eq!(result.0, "e2e4".to_string());
    assert_eq!(result.1, MoveType::Normal);
}

#[test]
fn detect_simple_move_white_knight() {
    let init = Board::<DefaultPrinter, WhiteView>::default_white();
    let after = rows([
        ['r', ' ', 'b', 'q', 'k', 'b', 'n', 'r'],
        ['p', 'p', 'p', 'p', 'p', 'p', 'p', 'p'],
        [' ', ' ', 'n', ' ', ' ', ' ', ' ', ' '],
        [' ', ' ', ' ', ' ', ' ', ' ', ' ', ' '],
        [' ', ' ', ' ', ' ', ' ', ' ', ' ', ' '],
        [' ', ' ', ' ', ' ', ' ', ' ', ' ', ' '],
        ['P', 'P', 'P', 'P', 'P', 'P', 'P', 'P'],
        ['R', 'N', 'B', 'Q', 'K', 'B', 'N', 'R'],
    ]);
    let result = detect_move(init.raw(), &after, &Color::White).unwrap();
    assert_eq!(result.0, "b8c6".to_string());
    assert_eq!(result.1, MoveType::Normal);
}

#[test]
fn detect_simple_move_black_knight() {
    let init = Board::<DefaultPrinter, WhiteView>::default_black();
    let moved = rows([
        ['R', 'N', 'B', 'K', 'Q', 'B', 'N', 'R'],
        ['P', 'P', 'P', 'P', 'P', 'P', 'P', 'P'],
        [' ', ' ', ' ', ' ', ' ', ' ', ' ', ' '],
        [' ', ' ', ' ', ' ', ' ', ' ', ' ', ' '],
        [' ', ' ', ' ', ' ', ' ', ' ', ' ', ' '],
        [' ', ' ', 'n', ' ', ' ', ' ', ' ', ' '],
        ['p', 'p', 'p', 'p', 'p', 'p', 'p', 'p'],
        ['r', ' ', 'b', 'k', 'q', 'b', 'n', 'r'],
    ]);
    let result = detect_move(init.raw(), &moved, &Color::Black).unwrap();
    assert_eq!(result.0, "g8f6".to_string());
    assert_eq!(result.1, MoveType::Normal);
}

#[test]
fn detect_complex_move_pawn_push_among_clutter() {
    let before = rows([
        ['r', 'n', 'b', 'q', 'k', 'b', 'n', 'r'],
        ['p', 'p', ' ', ' ', 'p', 'p', 'p', 'p'],
        [' ', ' ', ' ', ' ', ' ', ' ', ' ', ' '],
        [' ', 'P', ' ', ' ', ' ', ' ', 'N', ' '],
        [' ', ' ', 'p', 'q', 'P', ' ', ' ', ' '],
        [' ', ' ', ' ', ' ', ' ', ' ', ' ', ' '],
        ['P', ' ', 'P', ' ', ' ', 'P', ' ', 'P'],
        ['R', 'N', ' ', 'Q', 'K', 'B', 'N', 'R'],
    ]);
    let after = rows([
        ['r', 'n', 'b', 'q', 'k', 'b', 'n', 'r'],
        ['p', 'p', ' ', ' ', 'p', 'p', 'p', ' '],
        [' ', ' ', ' ', ' ', ' ', ' ', ' ', ' '],
        [' ', 'P', ' ', ' ', ' ', ' ', 'N', 'p'],
        [' ', ' ', 'p', 'q', 'P', ' ', ' ', ' '],
        [' ', ' ', ' ', ' ', ' ', ' ', ' ', ' '],
        ['P', ' ', 'P', ' ', ' ', 'P', ' ', 'P'],
        ['R', 'N', ' ', 'Q', 'K', 'B', 'N', 'R'],
    ]);
    let result = detect_move(&before, &after, &Color::White).unwrap();
    assert_eq!(result.0, "h7h5".to_string());
    assert_eq!(result.1, MoveType::Normal);
}

#[test]
fn detect_complex_move_black_perspective() {
    let before = rows([
        ['R', 'N', 'B', 'K', 'Q', 'B', 'N', 'R'],
        ['P', 'P', 'P', 'P', 'P', ' ', 'P', 'P'],
        [' ', ' ', ' ', ' ', ' ', ' ', ' ', ' '],
        [' ', 'q', ' ', 'P', ' ', 'p', ' ', ' '],
        [' ', ' ', ' ', ' ', ' ', ' ', ' ', ' '],
        [' ', ' ', ' ', ' ', 'P', ' ', ' ', ' '],
        ['p', ' ', 'p', 'p', 'p', 'p', 'p', 'p'],
        ['r', 'n', 'b', ' ', 'q', 'k', ' ', ' '],
    ]);
    let after = rows([
        ['R', 'N', 'B', 'K', 'Q', 'B', 'N', 'R'],
        ['P', 'P', 'P', 'P', 'P', ' ', 'P', 'P'],
        [' ', ' ', ' ', ' ', ' ', 'p', ' ', ' '],
        [' ', 'q', ' ', 'P', ' ', ' ', ' ', ' '],
        [' ', ' ', ' ', ' ', ' ', ' ', ' ', ' '],
        [' ', ' ', ' ', ' ', 'P', ' ', ' ', ' '],
        ['p', ' ', 'p', 'p', 'p', 'p', 'p', 'p'],
        ['r', 'n', 'b', ' ', 'q', 'k', ' ', ' '],
    ]);
    let result = detect_move(&before, &after, &Color::Black).unwrap();
    assert_eq!(result.0, "c4c3".to_string());
    assert_eq!(result.1, MoveType::Normal);
}

#[test]
fn detect_capture_keeps_destination() {
    let before = rows([
        [' ', ' ', ' ', ' ', ' ', ' ', ' ', ' '],
        [' ', ' ', ' ', ' ', ' ', ' ', ' ', 'P'],
        [' ', ' ', ' ', ' ', ' ', ' ', ' ', ' '],
        [' ', ' ', ' ', ' ', ' ', ' ', ' ', 'p'],
        [' ', ' ', ' ', ' ', ' ', ' ', ' ', ' '],
        [' ', ' ', ' ', ' ', ' ', ' ', ' ', ' '],
        [' ', ' ', ' ', ' ', ' ', ' ', ' ', ' '],
        [' ', ' ', ' ', ' ', ' ', ' ', ' ', ' '],
    ]);
    let after = rows([
        [' ', ' ', ' ', ' ', ' ', ' ', ' ', ' '],
        [' ', ' ', ' ', ' ', ' ', ' ', ' ', ' '],
        [' ', ' ', ' ', ' ', ' ', ' ', ' ', ' '],
        [' ', ' ', ' ', ' ', ' ', ' ', ' ', 'P'],
        [' ', ' ', ' ', ' ', ' ', ' ', ' ', ' '],
        [' ', ' ', ' ', ' ', ' ', ' ', ' ', ' '],
        [' ', ' ', ' ', ' ', ' ', ' ', ' ', ' '],
        [' ', ' ', ' ', ' ', ' ', ' ', ' ', ' '],
    ]);
    let result = detect_move(&before, &after, &Color::White).unwrap();
    assert_eq!(result.0, "h7h5".to_string());
    assert_eq!(result.1, MoveType::Capture);
}

#[test]
fn detect_no_move_on_identical_boards() {
    let init = Board::<DefaultPrinter, WhiteView>::default_white();
    let again = Board::<DefaultPrinter, WhiteView>::default_white();
    let result = detect_move(init.raw(), again.raw(), &Color::White);
    assert_eq!(result, Err(CheatessError::NoMoveDetected));
    let empty = rows([[' '; 8]; 8]);
    let empty2 = rows([[' '; 8]; 8]);
    assert_eq!(
        detect_move(&empty, &empty2, &Color::Black),
        Err(CheatessError::NoMoveDetected)
    );
}

#[test]
fn detect_castling_kingside() {
    let before = rows([
        [' ', ' ', ' ', ' ', ' ', ' ', ' ', ' '],
        [' ', ' ', ' ', ' ', ' ', ' ', ' ', ' '],
        [' ', ' ', ' ', ' ', ' ', ' ', ' ', ' '],
        [' ', ' ', ' ', ' ', ' ', ' ', ' ', ' '],
        [' ', ' ', ' ', ' ', ' ', ' ', ' ', ' '],
        [' ', ' ', ' ', ' ', ' ', ' ', ' ', ' '],
        [' ', ' ', ' ', ' ', ' ', ' ', ' ', ' '],
        ['R', ' ', ' ', ' ', 'K', ' ', ' ', 'R'],
    ]);
    let after = rows([
        [' ', ' ', ' ', ' ', ' ', ' ', ' ', ' '],
        [' ', ' ', ' ', ' ', ' ', ' ', ' ', ' '],
        [' ', ' ', ' ', ' ', ' ', ' ', ' ', ' '],
        [' ', ' ', ' ', ' ', ' ', ' ', ' ', ' '],
        [' ', ' ', ' ', ' ', ' ', ' ', ' ', ' '],
        [' ', ' ', ' ', ' ', ' ', ' ', ' ', ' '],
        [' ', ' ', ' ', ' ', ' ', ' ', ' ', ' '],
        ['R', ' ', ' ', ' ', ' ', 'R', 'K', ' '],
    ]);
    let result = detect_move(&before, &after, &Color::White).unwrap();
    assert_eq!(result.0, "e1g1".to_string());
    assert_eq!(result.1, MoveType::Castling);
}

#[test]
fn detect_en_passant() {
    let before = rows([
        [' ', ' ', ' ', ' ', ' ', ' ', ' ', ' '],
        [' ', ' ', ' ', ' ', ' ', ' ', ' ', ' '],
        [' ', ' ', ' ', ' ', ' ', ' ', ' ', ' '],
        [' ', ' ', ' ', 'p', 'P', ' ', ' ', ' '],
        [' ', ' ', ' ', ' ', ' ', ' ', ' ', ' '],
        [' ', ' ', ' ', ' ', ' ', ' ', ' ', ' '],
        [' ', ' ', ' ', ' ', ' ', ' ', ' ', ' '],
        [' ', ' ', ' ', ' ', ' ', ' ', ' ', ' '],
    ]);
    let after = rows([
        [' ', ' ', ' ', ' ', ' ', ' ', ' ', ' '],
        [' ', ' ', ' ', ' ', ' ', ' ', ' ', ' '],
        [' ', ' ', ' ', 'P', ' ', ' ', ' ', ' '],
        [' ', ' ', ' ', ' ', ' ', ' ', ' ', ' '],
        [' ', ' ', ' ', ' ', ' ', ' ', ' ', ' '],
        [' ', ' ', ' ', ' ', ' ', ' ', ' ', ' '],
        [' ', ' ', ' ', ' ', ' ', ' ', ' ', ' '],
        [' ', ' ', ' ', ' ', ' ', ' ', ' ', ' '],
    ]);
    let result = detect_move(&before, &after, &Color::White).unwrap();
    assert_eq!(result.0, "e5d6".to_string());
    assert_eq!(result.1, MoveType::EnPassant);
}

#[test]
fn detect_promotion_appends_piece_letter() {
    let before = rows([
        [' ', ' ', ' ', ' ', ' ', ' ', ' ', ' '],
        ['P', ' ', ' ', ' ', ' ', ' ', ' ', ' '],
        [' ', ' ', ' ', ' ', ' ', ' ', ' ', ' '],
        [' ', ' ', ' ', ' ', ' ', ' ', ' ', ' '],
        [' ', ' ', ' ', ' ', ' ', ' ', ' ', ' '],
        [' ', ' ', ' ', ' ', ' ', ' ', ' ', ' '],
        [' ', ' ', ' ', ' ', ' ', ' ', ' ', ' '],
        [' ', ' ', ' ', ' ', ' ', ' ', ' ', ' '],
    ]);
    let after = rows([
        ['Q', ' ', ' ', ' ', ' ', ' ', ' ', ' '],
        [' ', ' ', ' ', ' ', ' ', ' ', ' ', ' '],
        [' ', ' ', ' ', ' ', ' ', ' ', ' ', ' '],
        [' ', ' ', ' ', ' ', ' ', ' ', ' ', ' '],
        [' ', ' ', ' ', ' ', ' ', ' ', ' ', ' '],
        [' ', ' ', ' ', ' ', ' ', ' ', ' ', ' '],
        [' ', ' ', ' ', ' ', ' ', ' ', ' ', ' '],
        [' ', ' ', ' ', ' ', ' ', ' ', ' ', ' '],
    ]);
    let result = detect_move(&before, &after, &Color::White).unwrap();
    assert_eq!(result.0, "a7a8q".to_string());
    assert_eq!(result.1, MoveType::Promotion);
}

#[test]
fn detect_rejects_unrelated_changes() {
    let before = rows([[' '; 8]; 8]);
    let mut after = rows([[' '; 8]; 8]);
    after[0][0] = 'Q';
    after[4][4] = 'n';
    after[7][7] = 'P';
    let result = detect_move(&before, &after, &Color::White);
    assert_eq!(result, Err(CheatessError::InvalidAmountOfMoves(3)));
}
