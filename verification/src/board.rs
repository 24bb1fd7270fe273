//! The symbolic 8x8 board: piece letters, the two player colours, the two
//! rendering styles (letters or chess glyphs) and the two index perspectives
//! (White's or Black's), and the labelled grid printer.
use crate::text::{digit_char, digit_char_of, push_char};
use vstd::prelude::*;

verus! {

/// The colour the local player plays as, decided once at calibration time.
#[derive(Debug, Clone, Copy, PartialEq, Eq, Structural)]
pub enum Color {
    White,
    Black,
}

/// An alternative naming of the two sides kept for configuration callers.
#[derive(Debug, Clone, Copy, PartialEq, Eq, Structural)]
pub enum PlayAs {
    White,
    Black,
}

/// The chess glyph for a piece letter; empty for any other character below
/// code point 128.
pub open spec fn spec_piece_glyph(c: char) -> Seq<char> {
    if c == 'r' {
        "\u{265c}"@
    } else if c == 'n' {
        "\u{265e}"@
    } else if c == 'b' {
        "\u{265d}"@
    } else if c == 'q' {
        "\u{265b}"@
    } else if c == 'k' {
        "\u{265a}"@
    } else if c == 'p' {
        "\u{265f}"@
    } else if c == 'R' {
        "\u{2656}"@
    } else if c == 'N' {
        "\u{2658}"@
    } else if c == 'B' {
        "\u{2657}"@
    } else if c == 'Q' {
        "\u{2655}"@
    } else if c == 'K' {
        "\u{2654}"@
    } else if c == 'P' {
        "\u{2659}"@
    } else {
        Seq::empty()
    }
}

/// The glyph table: the chess symbol for each of the twelve piece letters,
/// the empty string for any other character below code point 128, nothing
/// beyond that.
pub fn get_piece(c: char) -> (r: Option<&'static str>)
    ensures
        match r {
            Some(g) => (c as int) < 128 && g@ == spec_piece_glyph(c),
            None => c as int >= 128,
        },
{
    if (c as u32) < 128 {
        if c == 'r' {
            Some("\u{265c}")
        } else if c == 'n' {
            Some("\u{265e}")
        } else if c == 'b' {
            Some("\u{265d}")
        } else if c == 'q' {
            Some("\u{265b}")
        } else if c == 'k' {
            Some("\u{265a}")
        } else if c == 'p' {
            Some("\u{265f}")
        } else if c == 'R' {
            Some("\u{2656}")
        } else if c == 'N' {
            Some("\u{2658}")
        } else if c == 'B' {
            Some("\u{2657}")
        } else if c == 'Q' {
            Some("\u{2655}")
        } else if c == 'K' {
            Some("\u{2654}")
        } else if c == 'P' {
            Some("\u{2659}")
        } else {
            proof {
                reveal_strlit("");
            }
            Some("")
        }
    } else {
        None
    }
}

/// How one cell's piece letter is rendered.
pub trait Printer {
    /// The characters that stand for the piece letter `c`.
    spec fn spec_piece(c: char) -> Seq<char>;

    /// Renders one piece letter.
    fn print_piece(c: char) -> (r: String)
        ensures
            r@ == Self::spec_piece(c),
    ;
}

/// Renders each cell as its piece letter itself.
pub struct DefaultPrinter;

impl Printer for DefaultPrinter {
    open spec fn spec_piece(c: char) -> Seq<char> {
        seq![c]
    }

    fn print_piece(c: char) -> (r: String) {
        let mut s = String::new();
        push_char(&mut s, c);
        s
    }
}

/// Renders each cell as a Unicode chess glyph; empty cells keep a space.
pub struct PrettyPrinter;

impl Printer for PrettyPrinter {
    open spec fn spec_piece(c: char) -> Seq<char> {
        if (c as int) < 128 {
            spec_piece_glyph(c)
        } else {
            seq![' ']
        }
    }

    fn print_piece(c: char) -> (r: String) {
        match get_piece(c) {
            Some(g) => g.to_owned(),
            None => {
                let mut s = String::new();
                push_char(&mut s, ' ');
                s
            },
        }
    }
}

/// How board indices map to the ranks and files that are shown: identity for
/// a game seen from White's side, mirrored for Black's.
pub trait Perspective {
    spec fn spec_row(i: int) -> int;

    spec fn spec_col(i: int) -> int;

    fn row(i: usize) -> (r: usize)
        requires
            i < 8,
        ensures
            r == Self::spec_row(i as int),
            r < 8,
    ;

    fn col(i: usize) -> (r: usize)
        requires
            i < 8,
        ensures
            r == Self::spec_col(i as int),
            r < 8,
    ;
}

/// The identity index mapping.
pub struct WhiteView;

impl Perspective for WhiteView {
    open spec fn spec_row(i: int) -> int {
        i
    }

    open spec fn spec_col(i: int) -> int {
        i
    }

    fn row(i: usize) -> (r: usize) {
        i
    }

    fn col(i: usize) -> (r: usize) {
        i
    }
}

/// The mirrored index mapping `i -> 7 - i` on both axes.
pub struct BlackView;

impl Perspective for BlackView {
    open spec fn spec_row(i: int) -> int {
        7 - i
    }

    open spec fn spec_col(i: int) -> int {
        7 - i
    }

    fn row(i: usize) -> (r: usize) {
        7 - i
    }

    fn col(i: usize) -> (r: usize) {
        7 - i
    }
}

/// An 8x8 matrix of piece letters and spaces.
pub open spec fn raw_wf(raw: Seq<Seq<char>>) -> bool {
    raw.len() == 8 && forall|i: int| 0 <= i < 8 ==> (#[trigger] raw[i]).len() == 8
}

/// The algebraic file letter for a column index; files run `a` to `h`.
pub open spec fn spec_file_char(col: int) -> char {
    if col == 0 {
        'a'
    } else if col == 1 {
        'b'
    } else if col == 2 {
        'c'
    } else if col == 3 {
        'd'
    } else if col == 4 {
        'e'
    } else if col == 5 {
        'f'
    } else if col == 6 {
        'g'
    } else {
        'h'
    }
}

/// The algebraic file letter for a column index.
pub fn file_char_of(col: usize) -> (r: char)
    requires
        col < 8,
    ensures
        r == spec_file_char(col as int),
{
    if col == 0 {
        'a'
    } else if col == 1 {
        'b'
    } else if col == 2 {
        'c'
    } else if col == 3 {
        'd'
    } else if col == 4 {
        'e'
    } else if col == 5 {
        'f'
    } else if col == 6 {
        'g'
    } else {
        'h'
    }
}

/// The file-label line of the printed grid, from column slot `j` on, with
/// its final newline.
pub open spec fn spec_file_labels<V: Perspective>(j: int) -> Seq<char>
    decreases 8 - j,
{
    if j >= 8 {
        seq!['\n']
    } else {
        seq![' ', spec_file_char(V::spec_col(j)), ' ', ' '] + spec_file_labels::<V>(j + 1)
    }
}

/// The `+---+` border line of the printed grid, with its newline.
pub open spec fn spec_border_line() -> Seq<char> {
    "  +---+---+---+---+---+---+---+---+"@ + seq!['\n']
}

/// The rendered cells of one board row from column `j` on: each cell is a
/// space, the piece rendering, one space (two where the rendering is empty),
/// and the closing bar.
pub open spec fn spec_row_cells<P: Printer>(row: Seq<char>, j: int) -> Seq<char>
    decreases 8 - j,
{
    if j >= 8 {
        Seq::empty()
    } else {
        let p = P::spec_piece(row[j]);
        let pad: Seq<char> = if p.len() == 0 {
            seq![' ', ' ']
        } else {
            seq![' ']
        };
        seq![' '] + p + pad + seq!['|'] + spec_row_cells::<P>(row, j + 1)
    }
}

/// One printed board row: rank label, bar, the cells, the rank label again,
/// then the border line.
pub open spec fn spec_row_line<P: Printer, V: Perspective>(row: Seq<char>, i: int) -> Seq<char> {
    let label = digit_char((8 - V::spec_row(i)) as nat);
    seq![label, ' ', '|'] + spec_row_cells::<P>(row, 0) + seq![' ', label, '\n']
        + spec_border_line()
}

/// The printed board rows from row `i` on.
pub open spec fn spec_rows<P: Printer, V: Perspective>(raw: Seq<Seq<char>>, i: int) -> Seq<char>
    decreases 8 - i,
{
    if i >= 8 {
        Seq::empty()
    } else {
        spec_row_line::<P, V>(raw[i], i) + spec_rows::<P, V>(raw, i + 1)
    }
}

/// The whole printed grid: file labels, border, the eight rows, and the file
/// labels again.
pub open spec fn spec_render<P: Printer, V: Perspective>(raw: Seq<Seq<char>>) -> Seq<char> {
    seq![' ', ' ', ' ', ' '] + spec_file_labels::<V>(0) + spec_border_line() + spec_rows::<P, V>(
        raw,
        0,
    ) + seq![' ', ' ', ' ', ' '] + spec_file_labels::<V>(0)
}

fn file_labels<V: Perspective>(j: usize) -> (r: String)
    requires
        j <= 8,
    ensures
        r@ == spec_file_labels::<V>(j as int),
    decreases 8 - j,
{
    let mut s = String::new();
    if j >= 8 {
        push_char(&mut s, '\n');
        assert(s@ =~= spec_file_labels::<V>(j as int));
        s
    } else {
        push_char(&mut s, ' ');
        push_char(&mut s, file_char_of(V::col(j)));
        push_char(&mut s, ' ');
        push_char(&mut s, ' ');
        let rest = file_labels::<V>(j + 1);
        s.append(rest.as_str());
        assert(s@ =~= spec_file_labels::<V>(j as int));
        s
    }
}

fn border_line() -> (r: String)
    ensures
        r@ == spec_border_line(),
{
    let mut s = "  +---+---+---+---+---+---+---+---+".to_owned();
    push_char(&mut s, '\n');
    assert(s@ =~= spec_border_line());
    s
}

fn row_cells<P: Printer>(row: &Vec<char>, j: usize) -> (r: String)
    requires
        j <= 8,
        row@.len() == 8,
    ensures
        r@ == spec_row_cells::<P>(row@, j as int),
    decreases 8 - j,
{
    let mut s = String::new();
    if j >= 8 {
        assert(s@ =~= spec_row_cells::<P>(row@, j as int));
        s
    } else {
        push_char(&mut s, ' ');
        let p = P::print_piece(row[j]);
        s.append(p.as_str());
        if p.as_str().unicode_len() == 0 {
            push_char(&mut s, ' ');
            push_char(&mut s, ' ');
        } else {
            push_char(&mut s, ' ');
        }
        push_char(&mut s, '|');
        let rest = row_cells::<P>(row, j + 1);
        s.append(rest.as_str());
        assert(s@ =~= spec_row_cells::<P>(row@, j as int));
        s
    }
}

fn rows_from<P: Printer, V: Perspective>(raw: &Vec<Vec<char>>, i: usize) -> (r: String)
    requires
        i <= 8,
        raw_wf(raw.deep_view()),
    ensures
        r@ == spec_rows::<P, V>(raw.deep_view(), i as int),
    decreases 8 - i,
{
    let mut s = String::new();
    if i >= 8 {
        assert(s@ =~= spec_rows::<P, V>(raw.deep_view(), i as int));
        s
    } else {
        let label = digit_char_of(8 - (V::row(i) as u64));
        push_char(&mut s, label);
        push_char(&mut s, ' ');
        push_char(&mut s, '|');
        proof {
            assert(raw.deep_view()[i as int] =~= raw@[i as int]@);
        }
        let cells = row_cells::<P>(&raw[i], 0);
        s.append(cells.as_str());
        push_char(&mut s, ' ');
        push_char(&mut s, label);
        push_char(&mut s, '\n');
        let border = border_line();
        s.append(border.as_str());
        let rest = rows_from::<P, V>(raw, i + 1);
        s.append(rest.as_str());
        assert(s@ =~= spec_rows::<P, V>(raw.deep_view(), i as int));
        s
    }
}

/// A board with a fixed rendering style and perspective. The cell matrix is
/// stored as rendered: row 0 is the top rank on screen.
pub struct Board<P: Printer, V: Perspective> {
    pub raw: Vec<Vec<char>>,
    pub printer: core::marker::PhantomData<(P, V)>,
}

impl<P: Printer, V: Perspective> Board<P, V> {
    /// The well-formedness of the cell matrix: eight rows of eight cells.
    pub open spec fn wf(&self) -> bool {
        raw_wf(self.raw.deep_view())
    }

    /// Wraps an 8x8 cell matrix.
    pub fn new(data: Vec<Vec<char>>) -> (r: Self)
        requires
            raw_wf(data.deep_view()),
        ensures
            r.wf(),
            r.raw.deep_view() == data.deep_view(),
    {
        Board { raw: data, printer: core::marker::PhantomData }
    }

    /// The canonical starting position as White sees it.
    pub fn default_white() -> (r: Self)
        ensures
            r.wf(),
            r.raw.deep_view() == spec_default_white(),
    {
        let data: Vec<Vec<char>> = vec![
            vec!['r', 'n', 'b', 'q', 'k', 'b', 'n', 'r'],
            vec!['p', 'p', 'p', 'p', 'p', 'p', 'p', 'p'],
            vec![' ', ' ', ' ', ' ', ' ', ' ', ' ', ' '],
            vec![' ', ' ', ' ', ' ', ' ', ' ', ' ', ' '],
            vec![' ', ' ', ' ', ' ', ' ', ' ', ' ', ' '],
            vec![' ', ' ', ' ', ' ', ' ', ' ', ' ', ' '],
            vec!['P', 'P', 'P', 'P', 'P', 'P', 'P', 'P'],
            vec!['R', 'N', 'B', 'Q', 'K', 'B', 'N', 'R'],
        ];
        proof {
            assert(data.deep_view() =~~= spec_default_white());
        }
        Board { raw: data, printer: core::marker::PhantomData }
    }

    /// The canonical starting position as Black sees it; the mirroring about
    /// both axes swaps the king and queen files.
    pub fn default_black() -> (r: Self)
        ensures
            r.wf(),
            r.raw.deep_view() == spec_default_black(),
    {
        let data: Vec<Vec<char>> = vec![
            vec!['R', 'N', 'B', 'K', 'Q', 'B', 'N', 'R'],
            vec!['P', 'P', 'P', 'P', 'P', 'P', 'P', 'P'],
            vec![' ', ' ', ' ', ' ', ' ', ' ', ' ', ' '],
            vec![' ', ' ', ' ', ' ', ' ', ' ', ' ', ' '],
            vec![' ', ' ', ' ', ' ', ' ', ' ', ' ', ' '],
            vec![' ', ' ', ' ', ' ', ' ', ' ', ' ', ' '],
            vec!['p', 'p', 'p', 'p', 'p', 'p', 'p', 'p'],
            vec!['r', 'n', 'b', 'k', 'q', 'b', 'n', 'r'],
        ];
        proof {
            assert(data.deep_view() =~~= spec_default_black());
        }
        Board { raw: data, printer: core::marker::PhantomData }
    }

    /// Renders the labelled grid; the board itself is left untouched.
    pub fn print(&self) -> (r: String)
        requires
            self.wf(),
        ensures
            r@ == spec_render::<P, V>(self.raw.deep_view()),
    {
        let mut s = String::new();
        push_char(&mut s, ' ');
        push_char(&mut s, ' ');
        push_char(&mut s, ' ');
        push_char(&mut s, ' ');
        let labels = file_labels::<V>(0);
        s.append(labels.as_str());
        let border = border_line();
        s.append(border.as_str());
        let rows = rows_from::<P, V>(&self.raw, 0);
        s.append(rows.as_str());
        push_char(&mut s, ' ');
        push_char(&mut s, ' ');
        push_char(&mut s, ' ');
        push_char(&mut s, ' ');
        s.append(labels.as_str());
        assert(s@ =~= spec_render::<P, V>(self.raw.deep_view()));
        s
    }
}

/// The starting position in White's view.
pub open spec fn spec_default_white() -> Seq<Seq<char>> {
    seq![
        seq!['r', 'n', 'b', 'q', 'k', 'b', 'n', 'r'],
        seq!['p', 'p', 'p', 'p', 'p', 'p', 'p', 'p'],
        seq![' ', ' ', ' ', ' ', ' ', ' ', ' ', ' '],
        seq![' ', ' ', ' ', ' ', ' ', ' ', ' ', ' '],
        seq![' ', ' ', ' ', ' ', ' ', ' ', ' ', ' '],
        seq![' ', ' ', ' ', ' ', ' ', ' ', ' ', ' '],
        seq!['P', 'P', 'P', 'P', 'P', 'P', 'P', 'P'],
        seq!['R', 'N', 'B', 'Q', 'K', 'B', 'N', 'R'],
    ]
}

/// The starting position in Black's view.
pub open spec fn spec_default_black() -> Seq<Seq<char>> {
    seq![
        seq!['R', 'N', 'B', 'K', 'Q', 'B', 'N', 'R'],
        seq!['P', 'P', 'P', 'P', 'P', 'P', 'P', 'P'],
        seq![' ', ' ', ' ', ' ', ' ', ' ', ' ', ' '],
        seq![' ', ' ', ' ', ' ', ' ', ' ', ' ', ' '],
        seq![' ', ' ', ' ', ' ', ' ', ' ', ' ', ' '],
        seq![' ', ' ', ' ', ' ', ' ', ' ', ' ', ' '],
        seq!['p', 'p', 'p', 'p', 'p', 'p', 'p', 'p'],
        seq!['r', 'n', 'b', 'k', 'q', 'b', 'n', 'r'],
    ]
}

/// A board of any rendering style and perspective, for callers that pick the
/// combination at run time.
pub trait AnyBoard {
    /// The rendering this board's printer and perspective produce.
    spec fn spec_print(&self) -> Seq<char>;

    /// The cell matrix.
    spec fn spec_raw(&self) -> Seq<Seq<char>>;

    /// Whether the cell matrix is 8x8.
    spec fn board_wf(&self) -> bool;

    /// Renders the labelled grid.
    fn print(&self) -> (r: String)
        requires
            self.board_wf(),
        ensures
            r@ == self.spec_print(),
    ;

    /// The underlying cell matrix, stable across printing calls.
    fn raw(&self) -> (r: &Vec<Vec<char>>)
        ensures
            r.deep_view() == self.spec_raw(),
    ;
}

impl<P: Printer, V: Perspective> AnyBoard for Board<P, V> {
    open spec fn spec_print(&self) -> Seq<char> {
        spec_render::<P, V>(self.raw.deep_view())
    }

    open spec fn spec_raw(&self) -> Seq<Seq<char>> {
        self.raw.deep_view()
    }

    open spec fn board_wf(&self) -> bool {
        self.wf()
    }

    fn print(&self) -> (r: String) {
        Board::print(self)
    }

    fn raw(&self) -> (r: &Vec<Vec<char>>) {
        &self.raw
    }
}

/// The bare matrix rendering used by diagnostic output: each row's letters
/// separated by spaces, one row per line, with a leading newline.
pub open spec fn spec_raw_rows(raw: Seq<Seq<char>>, i: int) -> Seq<char>
    decreases raw.len() - i,
{
    if i < 0 || i >= raw.len() {
        Seq::empty()
    } else {
        spec_raw_row_cells(raw[i], 0) + seq!['\n'] + spec_raw_rows(raw, i + 1)
    }
}

/// One diagnostic row from column `j` on: each letter followed by a space.
pub open spec fn spec_raw_row_cells(row: Seq<char>, j: int) -> Seq<char>
    decreases row.len() - j,
{
    if j < 0 || j >= row.len() {
        Seq::empty()
    } else {
        seq![row[j], ' '] + spec_raw_row_cells(row, j + 1)
    }
}

fn raw_row_cells(row: &Vec<char>, j: usize) -> (r: String)
    requires
        j <= row@.len(),
    ensures
        r@ == spec_raw_row_cells(row@, j as int),
    decreases row@.len() - j,
{
    let mut s = String::new();
    if j == row.len() {
        assert(s@ =~= spec_raw_row_cells(row@, j as int));
        s
    } else {
        push_char(&mut s, row[j]);
        push_char(&mut s, ' ');
        let rest = raw_row_cells(row, j + 1);
        s.append(rest.as_str());
        assert(s@ =~= spec_raw_row_cells(row@, j as int));
        s
    }
}

fn raw_rows(raw: &Vec<Vec<char>>, i: usize) -> (r: String)
    requires
        i <= raw@.len(),
    ensures
        r@ == spec_raw_rows(raw.deep_view(), i as int),
    decreases raw@.len() - i,
{
    let mut s = String::new();
    if i == raw.len() {
        assert(s@ =~= spec_raw_rows(raw.deep_view(), i as int));
        s
    } else {
        proof {
            assert(raw.deep_view()[i as int] =~= raw@[i as int]@);
        }
        let cells = raw_row_cells(&raw[i], 0);
        s.append(cells.as_str());
        push_char(&mut s, '\n');
        let rest = raw_rows(raw, i + 1);
        s.append(rest.as_str());
        assert(s@ =~= spec_raw_rows(raw.deep_view(), i as int));
        s
    }
}

/// Renders a bare cell matrix for diagnostic output: a leading newline, then
/// each row's letters separated by spaces on a line of its own.
pub fn raw_board_to_string(board: &Vec<Vec<char>>) -> (r: String)
    ensures
        r@ == seq!['\n'] + spec_raw_rows(board.deep_view(), 0),
{
    let mut s = String::new();
    push_char(&mut s, '\n');
    let rest = raw_rows(board, 0);
    s.append(rest.as_str());
    assert(s@ =~= seq!['\n'] + spec_raw_rows(board.deep_view(), 0));
    s
}

} // verus!
