//! Move inference: algebraic coordinates under either perspective, the diff
//! of two symbolic boards, and its classification into the five recognised
//! move shapes.
use crate::board::{file_char_of, raw_wf, spec_file_char, Color};
use crate::error::CheatessError;
use crate::text::{char_digit, digit_char, digit_char_of, push_char};
use vstd::prelude::*;

verus! {

/// The shape of an inferred move.
#[derive(Debug, Clone, Copy, PartialEq, Eq, Structural)]
pub enum MoveType {
    Normal,
    Capture,
    Castling,
    EnPassant,
    Promotion,
}

/// The algebraic name of the square at `(row, col)`: seen from White's side
/// the file is `a` plus the column and the rank is eight minus the row; seen
/// from Black's side both axes are mirrored.
pub open spec fn spec_position(row: int, col: int, color: Color) -> Seq<char> {
    if color == Color::White {
        seq![spec_file_char(col), digit_char((8 - row) as nat)]
    } else {
        seq![spec_file_char(7 - col), digit_char((row + 1) as nat)]
    }
}

/// Renders board indices as an algebraic square name.
pub fn coords_to_position(row: usize, col: usize, player_color: &Color) -> (r: String)
    requires
        row < 8,
        col < 8,
    ensures
        r@ == spec_position(row as int, col as int, *player_color),
{
    let mut s = String::new();
    match player_color {
        Color::White => {
            push_char(&mut s, file_char_of(col));
            push_char(&mut s, digit_char_of((8 - row) as u64));
        },
        Color::Black => {
            push_char(&mut s, file_char_of(7 - col));
            push_char(&mut s, digit_char_of((row + 1) as u64));
        },
    }
    assert(s@ =~= spec_position(row as int, col as int, *player_color));
    s
}

/// The column index of an algebraic file letter, or a negative value for any
/// other character.
pub open spec fn spec_file_index(c: char) -> int {
    if c == 'a' {
        0
    } else if c == 'b' {
        1
    } else if c == 'c' {
        2
    } else if c == 'd' {
        3
    } else if c == 'e' {
        4
    } else if c == 'f' {
        5
    } else if c == 'g' {
        6
    } else if c == 'h' {
        7
    } else {
        -1
    }
}

/// The board indices named by a two-character algebraic square under the
/// given perspective, or nothing where the text is no square name.
pub open spec fn spec_coords_of(s: Seq<char>, color: Color) -> Option<(int, int)> {
    if s.len() != 2 {
        None
    } else {
        let f = spec_file_index(s[0]);
        let d = char_digit(s[1]) as int;
        if f < 0 || d < 1 || d > 8 {
            None
        } else if color == Color::White {
            Some((8 - d, f))
        } else {
            Some((d - 1, 7 - f))
        }
    }
}

fn file_index_of(c: char) -> (r: i32)
    ensures
        r == spec_file_index(c),
{
    if c == 'a' {
        0
    } else if c == 'b' {
        1
    } else if c == 'c' {
        2
    } else if c == 'd' {
        3
    } else if c == 'e' {
        4
    } else if c == 'f' {
        5
    } else if c == 'g' {
        6
    } else if c == 'h' {
        7
    } else {
        -1
    }
}

fn digit_value_of(c: char) -> (r: u32)
    ensures
        r == char_digit(c),
{
    if c == '0' {
        0
    } else if c == '1' {
        1
    } else if c == '2' {
        2
    } else if c == '3' {
        3
    } else if c == '4' {
        4
    } else if c == '5' {
        5
    } else if c == '6' {
        6
    } else if c == '7' {
        7
    } else if c == '8' {
        8
    } else if c == '9' {
        9
    } else {
        10
    }
}

/// Reads an algebraic square name back into board indices under the given
/// perspective.
pub fn position_to_coords(pos: &str, player_color: &Color) -> (r: Option<(usize, usize)>)
    ensures
        match r {
            Some(p) => spec_coords_of(pos@, *player_color) == Some((p.0 as int, p.1 as int)),
            None => spec_coords_of(pos@, *player_color) is None,
        },
{
    let len = pos.unicode_len();
    if len != 2 {
        return None;
    }
    let f = file_index_of(pos.get_char(0));
    let d = digit_value_of(pos.get_char(1));
    if f < 0 || d < 1 || d > 8 {
        return None;
    }
    let fu = f as usize;
    let du = d as usize;
    match player_color {
        Color::White => Some((8 - du, fu)),
        Color::Black => Some((du - 1, 7 - fu)),
    }
}

/// Round trip: the algebraic name of any square, read back under the same
/// perspective, is that square again.
pub proof fn lemma_position_round_trip(row: int, col: int, color: Color)
    requires
        0 <= row < 8,
        0 <= col < 8,
    ensures
        spec_coords_of(spec_position(row, col, color), color) == Some((row, col)),
{
}

/// The letter in flattened cell `k` (row-major, row `k / 8`, column `k % 8`).
pub open spec fn cell(b: Seq<Seq<char>>, k: int) -> char {
    b[k / 8][k % 8]
}

/// A piece stood here and the square is now empty.
pub open spec fn is_vacated(b: Seq<Seq<char>>, a: Seq<Seq<char>>, k: int) -> bool {
    cell(b, k) != ' ' && cell(a, k) == ' '
}

/// The square was empty and now holds a piece.
pub open spec fn is_arrived(b: Seq<Seq<char>>, a: Seq<Seq<char>>, k: int) -> bool {
    cell(b, k) == ' ' && cell(a, k) != ' '
}

/// The square held one piece and now holds another.
pub open spec fn is_replaced(b: Seq<Seq<char>>, a: Seq<Seq<char>>, k: int) -> bool {
    cell(b, k) != ' ' && cell(a, k) != ' ' && cell(b, k) != cell(a, k)
}

/// The flattened indices at or after `k` whose square was vacated, in order.
pub open spec fn vacated_from(b: Seq<Seq<char>>, a: Seq<Seq<char>>, k: int) -> Seq<int>
    decreases 64 - k when 0 <= k <= 64
{
    if k >= 64 {
        Seq::empty()
    } else if is_vacated(b, a, k) {
        seq![k] + vacated_from(b, a, k + 1)
    } else {
        vacated_from(b, a, k + 1)
    }
}

/// The flattened indices at or after `k` where a piece arrived, in order.
pub open spec fn arrived_from(b: Seq<Seq<char>>, a: Seq<Seq<char>>, k: int) -> Seq<int>
    decreases 64 - k when 0 <= k <= 64
{
    if k >= 64 {
        Seq::empty()
    } else if is_arrived(b, a, k) {
        seq![k] + arrived_from(b, a, k + 1)
    } else {
        arrived_from(b, a, k + 1)
    }
}

/// The flattened indices at or after `k` whose piece was replaced, in order.
pub open spec fn replaced_from(b: Seq<Seq<char>>, a: Seq<Seq<char>>, k: int) -> Seq<int>
    decreases 64 - k when 0 <= k <= 64
{
    if k >= 64 {
        Seq::empty()
    } else if is_replaced(b, a, k) {
        seq![k] + replaced_from(b, a, k + 1)
    } else {
        replaced_from(b, a, k + 1)
    }
}

pub open spec fn is_king(c: char) -> bool {
    c == 'k' || c == 'K'
}

pub open spec fn is_pawn(c: char) -> bool {
    c == 'p' || c == 'P'
}

/// The lower-case letter of a piece.
pub open spec fn lower_piece(c: char) -> char {
    if c == 'P' {
        'p'
    } else if c == 'R' {
        'r'
    } else if c == 'N' {
        'n'
    } else if c == 'B' {
        'b'
    } else if c == 'Q' {
        'q'
    } else if c == 'K' {
        'k'
    } else {
        c
    }
}

fn lower_piece_of(c: char) -> (r: char)
    ensures
        r == lower_piece(c),
{
    if c == 'P' {
        'p'
    } else if c == 'R' {
        'r'
    } else if c == 'N' {
        'n'
    } else if c == 'B' {
        'b'
    } else if c == 'Q' {
        'q'
    } else if c == 'K' {
        'k'
    } else {
        c
    }
}

/// The four-character move text from one flattened square to another.
pub open spec fn spec_move_str(from: int, to: int, color: Color) -> Seq<char> {
    spec_position(from / 8, from % 8, color) + spec_position(to / 8, to % 8, color)
}

/// A move whose destination letter differs from its origin's, made by a pawn
/// onto a back rank: the promotion shape.
pub open spec fn is_promotion(b: Seq<Seq<char>>, a: Seq<Seq<char>>, from: int, to: int) -> bool {
    cell(a, to) != cell(b, from) && is_pawn(cell(b, from)) && (to / 8 == 0 || to / 8 == 7)
}

/// Classifies a two-vacated, two-arrived diff as castling: all four squares
/// on one rank, exactly one vacated king and one arrived king, the king two
/// files away, and the rook landing between the king's origin and target.
pub open spec fn spec_castle(
    b: Seq<Seq<char>>,
    a: Seq<Seq<char>>,
    vac: Seq<int>,
    arr: Seq<int>,
    color: Color,
) -> Result<(Seq<char>, MoveType), CheatessError> {
    let v0 = vac[0];
    let v1 = vac[1];
    let a0 = arr[0];
    let a1 = arr[1];
    let same_row = v0 / 8 == v1 / 8 && v0 / 8 == a0 / 8 && v0 / 8 == a1 / 8;
    let one_king_left = is_king(cell(b, v0)) != is_king(cell(b, v1));
    let one_king_came = is_king(cell(a, a0)) != is_king(cell(a, a1));
    if same_row && one_king_left && one_king_came {
        let kf = if is_king(cell(b, v0)) {
            v0
        } else {
            v1
        };
        let kt = if is_king(cell(a, a0)) {
            a0
        } else {
            a1
        };
        let rt = if is_king(cell(a, a0)) {
            a1
        } else {
            a0
        };
        let kfc = kf % 8;
        let ktc = kt % 8;
        let rtc = rt % 8;
        let two_files = kfc - ktc == 2 || ktc - kfc == 2;
        let rook_between = (kfc < rtc && rtc < ktc) || (ktc < rtc && rtc < kfc);
        if two_files && rook_between {
            Ok((spec_move_str(kf, kt, color), MoveType::Castling))
        } else {
            Err(CheatessError::InvalidAmountOfMoves(4))
        }
    } else {
        Err(CheatessError::InvalidAmountOfMoves(4))
    }
}

/// Classifies a two-vacated, one-arrived diff as en passant: the arrival is
/// a pawn and exactly one vacated square held that pawn; the other vacated
/// square is the captured pawn.
pub open spec fn spec_en_passant(
    b: Seq<Seq<char>>,
    a: Seq<Seq<char>>,
    vac: Seq<int>,
    arr: Seq<int>,
    color: Color,
) -> Result<(Seq<char>, MoveType), CheatessError> {
    let a0 = arr[0];
    let m0 = cell(b, vac[0]) == cell(a, a0);
    let m1 = cell(b, vac[1]) == cell(a, a0);
    if is_pawn(cell(a, a0)) && m0 != m1 {
        let from = if m0 {
            vac[0]
        } else {
            vac[1]
        };
        Ok((spec_move_str(from, a0, color), MoveType::EnPassant))
    } else {
        Err(CheatessError::InvalidAmountOfMoves(3))
    }
}

/// What `detect_move` returns: the diff of the two boards classified into
/// the five recognised move shapes, an empty diff reported as no move, and
/// every other shape as an invalid amount of changes.
pub open spec fn spec_detect_move(b: Seq<Seq<char>>, a: Seq<Seq<char>>, color: Color) -> Result<
    (Seq<char>, MoveType),
    CheatessError,
> {
    let vac = vacated_from(b, a, 0);
    let arr = arrived_from(b, a, 0);
    let rep = replaced_from(b, a, 0);
    let n = vac.len() + arr.len() + rep.len();
    if n == 0 {
        Err(CheatessError::NoMoveDetected)
    } else if vac.len() == 1 && arr.len() == 1 && rep.len() == 0 {
        let from = vac[0];
        let to = arr[0];
        if is_promotion(b, a, from, to) {
            Ok(
                (
                    spec_move_str(from, to, color).push(lower_piece(cell(a, to))),
                    MoveType::Promotion,
                ),
            )
        } else {
            Ok((spec_move_str(from, to, color), MoveType::Normal))
        }
    } else if vac.len() == 1 && rep.len() == 1 && arr.len() == 0 {
        let from = vac[0];
        let to = rep[0];
        if is_promotion(b, a, from, to) {
            Ok(
                (
                    spec_move_str(from, to, color).push(lower_piece(cell(a, to))),
                    MoveType::Promotion,
                ),
            )
        } else {
            Ok((spec_move_str(from, to, color), MoveType::Capture))
        }
    } else if vac.len() == 2 && arr.len() == 2 && rep.len() == 0 {
        spec_castle(b, a, vac, arr, color)
    } else if vac.len() == 2 && arr.len() == 1 && rep.len() == 0 {
        spec_en_passant(b, a, vac, arr, color)
    } else {
        Err(CheatessError::InvalidAmountOfMoves(n as usize))
    }
}

fn cell_at(b: &Vec<Vec<char>>, k: usize) -> (r: char)
    requires
        raw_wf(b.deep_view()),
        k < 64,
    ensures
        r == cell(b.deep_view(), k as int),
{
    let row = k / 8;
    let col = k % 8;
    proof {
        assert(b.deep_view()[row as int] =~= b@[row as int]@);
    }
    b[row][col]
}

#[derive(Clone, Copy, PartialEq, Eq, Structural)]
enum DiffKind {
    Vacated,
    Arrived,
    Replaced,
}

spec fn diff_from(b: Seq<Seq<char>>, a: Seq<Seq<char>>, kind: DiffKind, k: int) -> Seq<int> {
    match kind {
        DiffKind::Vacated => vacated_from(b, a, k),
        DiffKind::Arrived => arrived_from(b, a, k),
        DiffKind::Replaced => replaced_from(b, a, k),
    }
}

fn collect_diff(b: &Vec<Vec<char>>, a: &Vec<Vec<char>>, kind: DiffKind, k: usize) -> (r: Vec<
    usize,
>)
    requires
        raw_wf(b.deep_view()),
        raw_wf(a.deep_view()),
        k <= 64,
    ensures
        r@.len() == diff_from(b.deep_view(), a.deep_view(), kind, k as int).len(),
        r@.len() <= 64 - k,
        forall|j: int|
            0 <= j < r@.len() ==> #[trigger] r@[j] as int == diff_from(
                b.deep_view(),
                a.deep_view(),
                kind,
                k as int,
            )[j] && r@[j] < 64,
    decreases 64 - k,
{
    let ghost bb = b.deep_view();
    let ghost aa = a.deep_view();
    if k == 64 {
        let r: Vec<usize> = Vec::new();
        r
    } else {
        let cb = cell_at(b, k);
        let ca = cell_at(a, k);
        let hit: bool = match kind {
            DiffKind::Vacated => cb != ' ' && ca == ' ',
            DiffKind::Arrived => cb == ' ' && ca != ' ',
            DiffKind::Replaced => cb != ' ' && ca != ' ' && cb != ca,
        };
        let mut rest = collect_diff(b, a, kind, k + 1);
        if hit {
            let ghost old_r = rest@;
            rest.insert(0, k);
            proof {
                let want = diff_from(bb, aa, kind, k as int);
                assert(want == seq![k as int] + diff_from(bb, aa, kind, k + 1));
                assert forall|j: int| 0 <= j < rest@.len() implies #[trigger] rest@[j] as int
                    == want[j] && rest@[j] < 64 by {
                    if j > 0 {
                        assert(rest@[j] == old_r[j - 1]);
                    }
                }
            }
        }
        rest
    }
}

/// Infers the move between two symbolic boards, honouring the perspective
/// the squares are named under. The result is exactly the classification of
/// the boards' diff: one vacated and one arrived square is a normal move or
/// a promotion; one vacated and one replaced square is a capture or a
/// promotion; two and two is castling; two vacated and one arrived is en
/// passant; no change at all reports that no move was detected; and any
/// other shape reports the number of changed squares as invalid.
pub fn detect_move(before: &Vec<Vec<char>>, after: &Vec<Vec<char>>, player_color: &Color) -> (r:
    Result<(String, MoveType), CheatessError>)
    requires
        raw_wf(before.deep_view()),
        raw_wf(after.deep_view()),
    ensures
        match r {
            Ok(p) => spec_detect_move(before.deep_view(), after.deep_view(), *player_color)
                == Ok::<(Seq<char>, MoveType), CheatessError>((p.0@, p.1)),
            Err(e) => spec_detect_move(before.deep_view(), after.deep_view(), *player_color)
                == Err::<(Seq<char>, MoveType), CheatessError>(e),
        },
{
    let ghost bb = before.deep_view();
    let ghost aa = after.deep_view();
    let vac = collect_diff(before, after, DiffKind::Vacated, 0);
    let arr = collect_diff(before, after, DiffKind::Arrived, 0);
    let rep = collect_diff(before, after, DiffKind::Replaced, 0);
    let n = vac.len() + arr.len() + rep.len();
    if n == 0 {
        Err(CheatessError::NoMoveDetected)
    } else if vac.len() == 1 && arr.len() == 1 && rep.len() == 0 {
        let from = vac[0];
        let to = arr[0];
        Ok(single_move(before, after, from, to, false, player_color))
    } else if vac.len() == 1 && rep.len() == 1 && arr.len() == 0 {
        let from = vac[0];
        let to = rep[0];
        Ok(single_move(before, after, from, to, true, player_color))
    } else if vac.len() == 2 && arr.len() == 2 && rep.len() == 0 {
        castle_move(before, after, &vac, &arr, player_color)
    } else if vac.len() == 2 && arr.len() == 1 && rep.len() == 0 {
        en_passant_move(before, after, &vac, &arr, player_color)
    } else {
        Err(CheatessError::InvalidAmountOfMoves(n))
    }
}

fn move_str(from: usize, to: usize, player_color: &Color) -> (r: String)
    requires
        from < 64,
        to < 64,
    ensures
        r@ == spec_move_str(from as int, to as int, *player_color),
{
    let mut s = coords_to_position(from / 8, from % 8, player_color);
    let t = coords_to_position(to / 8, to % 8, player_color);
    s.append(t.as_str());
    s
}

fn single_move(
    b: &Vec<Vec<char>>,
    a: &Vec<Vec<char>>,
    from: usize,
    to: usize,
    capture: bool,
    player_color: &Color,
) -> (r: (String, MoveType))
    requires
        raw_wf(b.deep_view()),
        raw_wf(a.deep_view()),
        from < 64,
        to < 64,
    ensures
        ({
            let bb = b.deep_view();
            let aa = a.deep_view();
            if is_promotion(bb, aa, from as int, to as int) {
                r.0@ == spec_move_str(from as int, to as int, *player_color).push(
                    lower_piece(cell(aa, to as int)),
                ) && r.1 == MoveType::Promotion
            } else {
                r.0@ == spec_move_str(from as int, to as int, *player_color) && r.1 == (
                if capture {
                    MoveType::Capture
                } else {
                    MoveType::Normal
                })
            }
        }),
{
    let cb = cell_at(b, from);
    let ca = cell_at(a, to);
    let mut s = move_str(from, to, player_color);
    let promo = ca != cb && (cb == 'p' || cb == 'P') && (to / 8 == 0 || to / 8 == 7);
    if promo {
        push_char(&mut s, lower_piece_of(ca));
        (s, MoveType::Promotion)
    } else if capture {
        (s, MoveType::Capture)
    } else {
        (s, MoveType::Normal)
    }
}

fn castle_move(
    b: &Vec<Vec<char>>,
    a: &Vec<Vec<char>>,
    vac: &Vec<usize>,
    arr: &Vec<usize>,
    player_color: &Color,
) -> (r: Result<(String, MoveType), CheatessError>)
    requires
        raw_wf(b.deep_view()),
        raw_wf(a.deep_view()),
        vac@.len() == 2,
        arr@.len() == 2,
        forall|j: int| 0 <= j < 2 ==> #[trigger] vac@[j] < 64,
        forall|j: int| 0 <= j < 2 ==> #[trigger] arr@[j] < 64,
    ensures
        ({
            let s = spec_castle(
                b.deep_view(),
                a.deep_view(),
                vac@.map_values(|v: usize| v as int),
                arr@.map_values(|v: usize| v as int),
                *player_color,
            );
            match r {
                Ok(p) => s == Ok::<(Seq<char>, MoveType), CheatessError>((p.0@, p.1)),
                Err(e) => s == Err::<(Seq<char>, MoveType), CheatessError>(e),
            }
        }),
{
    let v0 = vac[0];
    let v1 = vac[1];
    let a0 = arr[0];
    let a1 = arr[1];
    let king_v0 = {
        let c = cell_at(b, v0);
        c == 'k' || c == 'K'
    };
    let king_v1 = {
        let c = cell_at(b, v1);
        c == 'k' || c == 'K'
    };
    let king_a0 = {
        let c = cell_at(a, a0);
        c == 'k' || c == 'K'
    };
    let king_a1 = {
        let c = cell_at(a, a1);
        c == 'k' || c == 'K'
    };
    let same_row = v0 / 8 == v1 / 8 && v0 / 8 == a0 / 8 && v0 / 8 == a1 / 8;
    if same_row && (king_v0 != king_v1) && (king_a0 != king_a1) {
        let kf = if king_v0 {
            v0
        } else {
            v1
        };
        let kt = if king_a0 {
            a0
        } else {
            a1
        };
        let rt = if king_a0 {
            a1
        } else {
            a0
        };
        let kfc = kf % 8;
        let ktc = kt % 8;
        let rtc = rt % 8;
        let two_files = (kfc >= ktc && kfc - ktc == 2) || (ktc >= kfc && ktc - kfc == 2);
        let rook_between = (kfc < rtc && rtc < ktc) || (ktc < rtc && rtc < kfc);
        if two_files && rook_between {
            Ok((move_str(kf, kt, player_color), MoveType::Castling))
        } else {
            Err(CheatessError::InvalidAmountOfMoves(4))
        }
    } else {
        Err(CheatessError::InvalidAmountOfMoves(4))
    }
}

fn en_passant_move(
    b: &Vec<Vec<char>>,
    a: &Vec<Vec<char>>,
    vac: &Vec<usize>,
    arr: &Vec<usize>,
    player_color: &Color,
) -> (r: Result<(String, MoveType), CheatessError>)
    requires
        raw_wf(b.deep_view()),
        raw_wf(a.deep_view()),
        vac@.len() == 2,
        arr@.len() == 1,
        forall|j: int| 0 <= j < 2 ==> #[trigger] vac@[j] < 64,
        arr@[0] < 64,
    ensures
        ({
            let s = spec_en_passant(
                b.deep_view(),
                a.deep_view(),
                vac@.map_values(|v: usize| v as int),
                arr@.map_values(|v: usize| v as int),
                *player_color,
            );
            match r {
                Ok(p) => s == Ok::<(Seq<char>, MoveType), CheatessError>((p.0@, p.1)),
                Err(e) => s == Err::<(Seq<char>, MoveType), CheatessError>(e),
            }
        }),
{
    let a0 = arr[0];
    let ca = cell_at(a, a0);
    let m0 = cell_at(b, vac[0]) == ca;
    let m1 = cell_at(b, vac[1]) == ca;
    if (ca == 'p' || ca == 'P') && (m0 != m1) {
        let from = if m0 {
            vac[0]
        } else {
            vac[1]
        };
        Ok((move_str(from, a0, player_color), MoveType::EnPassant))
    } else {
        Err(CheatessError::InvalidAmountOfMoves(3))
    }
}

proof fn lemma_same_board_diff_empty(b: Seq<Seq<char>>, k: int)
    requires
        0 <= k <= 64,
    ensures
        vacated_from(b, b, k) == Seq::<int>::empty(),
        arrived_from(b, b, k) == Seq::<int>::empty(),
        replaced_from(b, b, k) == Seq::<int>::empty(),
    decreases 64 - k,
{
    if k < 64 {
        lemma_same_board_diff_empty(b, k + 1);
    }
}

/// Handing move inference the same board twice always reports that no move
/// was detected.
pub proof fn lemma_detect_move_same_board(b: Seq<Seq<char>>, color: Color)
    requires
        raw_wf(b),
    ensures
        spec_detect_move(b, b, color) == Err::<(Seq<char>, MoveType), CheatessError>(
            CheatessError::NoMoveDetected,
        ),
{
    lemma_same_board_diff_empty(b, 0);
}

} // verus!
