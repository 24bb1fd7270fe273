use cheatess::board::{
    get_piece, raw_board_to_string, AnyBoard, BlackView, Board, DefaultPrinter, PrettyPrinter,
    WhiteView,
};

fn rows(data: [[char; 8]; 8]) -> Vec<Vec<char>> {
    data.iter().map(|r| r.to_vec()).collect()
}

#[test]
fn check_create_board_white() {
    let board = Board::<DefaultPrinter, WhiteView>::default_white();
    let expected = rows([
        ['r', 'n', 'b', 'q', 'k', 'b', 'n', 'r'],
        ['p', 'p', 'p', 'p', 'p', 'p', 'p', 'p'],
        [' ', ' ', ' ', ' ', ' ', ' ', ' ', ' '],
        [' ', ' ', ' ', ' ', ' ', ' ', ' ', ' '],
        [' ', ' ', ' ', ' ', ' ', ' ', ' ', ' '],
        [' ', ' ', ' ', ' ', ' ', ' ', ' ', ' '],
        ['P', 'P', 'P', 'P', 'P', 'P', 'P', 'P'],
        ['R', 'N', 'B', 'Q', 'K', 'B', 'N', 'R'],
    ]);
    assert_eq!(*board.raw(), expected);
}

#[test]
fn check_create_board_black() {
    let board = Board::<DefaultPrinter, BlackView>::default_black();
    let expected = rows([
        ['R', 'N', 'B', 'K', 'Q', 'B', 'N', 'R'],
        ['P', 'P', 'P', 'P', 'P', 'P', 'P', 'P'],
        [' ', ' ', ' ', ' ', ' ', ' ', ' ', ' '],
        [' ', ' ', ' ', ' ', ' ', ' ', ' ', ' '],
        [' ', ' ', ' ', ' ', ' ', ' ', ' ', ' '],
        [' ', ' ', ' ', ' ', ' ', ' ', ' ', ' '],
        ['p', 'p', 'p', 'p', 'p', 'p', 'p', 'p'],
        ['r', 'n', 'b', 'k', 'q', 'b', 'n', 'r'],
    ]);
    assert_eq!(*board.raw(), expected);
}

#[test]
fn show_board_with_pieces() {
    let board = Board::<PrettyPrinter, BlackView>::default_black();
    let output = board.print();

    let predicted = "     h   g   f   e   d   c   b   a  \n  +---+---+---+---+---+---+---+---+\n1 | \u{2656} | \u{2658} | \u{2657} | \u{2654} | \u{2655} | \u{2657} | \u{2658} | \u{2656} | 1\n  +---+---+---+---+---+---+---+---+\n2 | \u{2659} | \u{2659} | \u{2659} | \u{2659} | \u{2659} | \u{2659} | \u{2659} | \u{2659} | 2\n  +---+---+---+---+---+---+---+---+\n3 |   |   |   |   |   |   |   |   | 3\n  +---+---+---+---+---+---+---+---+\n4 |   |   |   |   |   |   |   |   | 4\n  +---+---+---+---+---+---+---+---+\n5 |   |   |   |   |   |   |   |   | 5\n  +---+---+---+---+---+---+---+---+\n6 |   |   |   |   |   |   |   |   | 6\n  +---+---+---+---+---+---+---+---+\n7 | \u{265f} | \u{265f} | \u{265f} | \u{265f} | \u{265f} | \u{265f} | \u{265f} | \u{265f} | 7\n  +---+---+---+---+---+---+---+---+\n8 | \u{265c} | \u{265e} | \u{265d} | \u{265a} | \u{265b} | \u{265d} | \u{265e} | \u{265c} | 8\n  +---+---+---+---+---+---+---+---+\n     h   g   f   e   d   c   b   a  \n".to_string();
    assert_eq!(output, predicted);
}

#[test]
fn show_board_with_letters() {
    let board = Board::<DefaultPrinter, WhiteView>::default_white();
    let output = board.print();

    let predicted = "     a   b   c   d   e   f   g   h  \n  +---+---+---+---+---+---+---+---+\n8 | r | n | b | q | k | b | n | r | 8\n  +---+---+---+---+---+---+---+---+\n7 | p | p | p | p | p | p | p | p | 7\n  +---+---+---+---+---+---+---+---+\n6 |   |   |   |   |   |   |   |   | 6\n  +---+---+---+---+---+---+---+---+\n5 |   |   |   |   |   |   |   |   | 5\n  +---+---+---+---+---+---+---+---+\n4 |   |   |   |   |   |   |   |   | 4\n  +---+---+---+---+---+---+---+---+\n3 |   |   |   |   |   |   |   |   | 3\n  +---+---+---+---+---+---+---+---+\n2 | P | P | P | P | P | P | P | P | 2\n  +---+---+---+---+---+---+---+---+\n1 | R | N | B | Q | K | B | N | R | 1\n  +---+---+---+---+---+---+---+---+\n     a   b   c   d   e   f   g   h  \n";

    assert_eq!(output, predicted);
}

#[test]
fn printing_leaves_the_board_unchanged() {
    let board = Board::<PrettyPrinter, WhiteView>::default_white();
    let before = board.raw().clone();
    let first = board.print();
    let second = board.print();
    assert_eq!(first, second);
    assert_eq!(*board.raw(), before);
}

#[test]
fn printed_grid_has_nine_borders_and_eight_cell_rows() {
    let board = Board::<DefaultPrinter, WhiteView>::default_white();
    let output = board.print();
    let border = "  +---+---+---+---+---+---+---+---+";
    let borders = output.lines().filter(|l| *l == border).count();
    assert_eq!(borders, 9);
    let cell_rows = output.lines().filter(|l| l.contains('|')).count();
    assert_eq!(cell_rows, 8);
    for rank in ["1", "2", "3", "4", "5", "6", "7", "8"] {
        let labelled: Vec<&str> = output
            .lines()
            .filter(|l| l.starts_with(rank) && l.ends_with(rank))
            .collect();
        assert_eq!(labelled.len(), 1);
    }
}

#[test]
fn glyph_table_maps_each_piece() {
    assert_eq!(get_piece('r'), Some("\u{265c}"));
    assert_eq!(get_piece('K'), Some("\u{2654}"));
    assert_eq!(get_piece('P'), Some("\u{2659}"));
    assert_eq!(get_piece(' '), Some(""));
    assert_eq!(get_piece('x'), Some(""));
    assert_eq!(get_piece('\u{265c}'), None);
}

#[test]
fn raw_board_to_string_lists_rows() {
    let board = Board::<DefaultPrinter, WhiteView>::default_white();
    let text = raw_board_to_string(board.raw());
    let expected = "\nr n b q k b n r \np p p p p p p p \n                \n                \n                \n                \nP P P P P P P P \nR N B Q K B N R \n";
    assert_eq!(text, expected);
}
