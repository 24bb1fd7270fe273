//! The piece detector: template-match score maps held as scaled integers,
//! repeated minimum search with poisoning, registration of each accepted
//! match into the 8x8 symbolic board, and the first-writer-wins merge over
//! all twelve piece templates.
use crate::board::raw_wf;
use crate::error::CheatessError;
use vstd::arithmetic::div_mod::{
    lemma_div_by_multiple, lemma_div_denominator, lemma_fundamental_div_mod,
};
use vstd::pervasive::VecAdditionalExecFns;
use vstd::prelude::*;

verus! {

/// The fixed-point scale of match scores: this value stands for a
/// normalised squared-difference score of exactly one, the worst possible,
/// and is what poisoned cells are set to.
pub const SCORE_ONE: u32 = 1000000000;

/// A template-match score map: one scaled score per anchor position, held
/// row-major. Scores at or above the caller's threshold are non-matches.
pub struct ScoreMap {
    pub width: usize,
    pub height: usize,
    pub data: Vec<u32>,
}

impl ScoreMap {
    /// One score per anchor, at least one anchor, and dimensions a screen
    /// image can have.
    pub open spec fn wf(&self) -> bool {
        &&& self.data@.len() == self.width * self.height
        &&& 1 <= self.width <= 0x7fff_ffff
        &&& 1 <= self.height <= 0x7fff_ffff
    }
}

/// The board index a pixel offset falls in: the offset divided by one
/// eighth of the board size, clamped to the eight valid indices.
pub open spec fn spec_clamped(p: int, size: int) -> int {
    let t = size / 8;
    if p < 0 {
        0
    } else if p / t > 7 {
        7
    } else {
        p / t
    }
}

fn clamped_index(p: i32, size: i32) -> (r: usize)
    requires
        size >= 8,
    ensures
        r as int == spec_clamped(p as int, size as int),
        r < 8,
{
    let t = size / 8;
    if p < 0 {
        0
    } else {
        let q = p / t;
        if q > 7 {
            7
        } else {
            q as usize
        }
    }
}

/// A board with one cell overwritten: the square the point `(y, x)` falls
/// in, rows clamped against the board's pixel height and columns against
/// its width.
pub open spec fn spec_place(
    board: Seq<Seq<char>>,
    y: int,
    x: int,
    w: int,
    h: int,
    piece: char,
) -> Seq<Seq<char>> {
    let row = spec_clamped(y, h);
    let col = spec_clamped(x, w);
    board.update(row, board[row].update(col, piece))
}

/// Writes a detected piece into the 8x8 board: the anchor `(y, x)` on a
/// board of pixel size `(w, h)` lands in row `y / (h / 8)` and column
/// `x / (w / 8)`, both clamped to the board, and no other cell changes.
pub fn register_piece(
    point: (i32, i32),
    board_size: (i32, i32),
    piece: char,
    board: &mut Vec<Vec<char>>,
) -> (r: Result<(), CheatessError>)
    requires
        raw_wf(old(board).deep_view()),
        board_size.0 >= 8,
        board_size.1 >= 8,
    ensures
        r is Ok,
        raw_wf(final(board).deep_view()),
        final(board).deep_view() == spec_place(
            old(board).deep_view(),
            point.0 as int,
            point.1 as int,
            board_size.0 as int,
            board_size.1 as int,
            piece,
        ),
{
    let row = clamped_index(point.0, board_size.1);
    let col = clamped_index(point.1, board_size.0);
    let ghost before = board.deep_view();
    let mut rowv = board.remove(row);
    proof {
        assert(rowv.deep_view() == before[row as int]);
        assert(rowv.deep_view() =~= rowv@);
    }
    rowv.set(col, piece);
    board.insert(row, rowv);
    proof {
        assert(board.deep_view() =~~= spec_place(
            before,
            point.0 as int,
            point.1 as int,
            board_size.0 as int,
            board_size.1 as int,
            piece,
        ));
    }
    Ok(())
}

/// On a board whose pixel size is a multiple of eight, the clamped tile
/// index of an offset `p` equals `p * 8 / size` clamped to the board: the
/// tile-based and the scaled division give the same cell. (On other sizes
/// the two roundings can part.)
pub proof fn lemma_register_piece_cell(p: int, size: int)
    requires
        size >= 8,
        size % 8 == 0,
    ensures
        spec_clamped(p, size) == ({
            let v = p * 8 / size;
            if v < 0 {
                0int
            } else if v > 7 {
                7int
            } else {
                v
            }
        }),
{
    let t = size / 8;
    if p < 0 {
        lemma_fundamental_div_mod(p * 8, size);
        assert(p * 8 <= -8) by (nonlinear_arith)
            requires
                p <= -1,
        ;
        assert(size * (p * 8 / size) <= p * 8 - (p * 8) % size);
        assert(p * 8 / size < 0) by (nonlinear_arith)
            requires
                size * (p * 8 / size) <= p * 8 - (p * 8) % size,
                p * 8 <= -8,
                0 <= (p * 8) % size < size,
                size >= 8,
        ;
    } else {
        assert(8 * t == size);
        lemma_div_denominator(p * 8, 8, t);
        assert(p * 8 / 8 == p) by {
            lemma_div_by_multiple(p, 8);
            assert(p * 8 == 8 * p) by (nonlinear_arith);
        }
        assert(p * 8 / (8 * t) == p / t);
    }
}

/// On a board whose pixel size is a multiple of eight in both directions,
/// registering a piece for the point `(y, x)` writes it into cell
/// `[clamp(y * 8 / h, 0, 7)][clamp(x * 8 / w, 0, 7)]` and changes no other
/// cell. (On a size with a remainder the tile rounding can land one cell
/// away from the scaled division, a height of twelve already shows it.)
pub proof fn lemma_register_piece_law(
    board: Seq<Seq<char>>,
    y: int,
    x: int,
    w: int,
    h: int,
    piece: char,
)
    requires
        raw_wf(board),
        w >= 8,
        h >= 8,
        w % 8 == 0,
        h % 8 == 0,
    ensures
        ({
            let yv = y * 8 / h;
            let xv = x * 8 / w;
            let row = if yv < 0 {
                0int
            } else if yv > 7 {
                7int
            } else {
                yv
            };
            let col = if xv < 0 {
                0int
            } else if xv > 7 {
                7int
            } else {
                xv
            };
            spec_place(board, y, x, w, h, piece) == board.update(
                row,
                board[row].update(col, piece),
            )
        }),
{
    lemma_register_piece_cell(y, h);
    lemma_register_piece_cell(x, w);
}

/// How many scores of the map lie strictly below the threshold: the measure
/// the poison loop drives down.
pub open spec fn count_below(data: Seq<u32>, t: u32) -> nat
    decreases data.len(),
{
    if data.len() == 0 {
        0
    } else {
        count_below(data.drop_last(), t) + (if data.last() < t {
            1nat
        } else {
            0nat
        })
    }
}

/// The first position of the map's smallest score.
pub open spec fn arg_min(data: Seq<u32>) -> int
    decreases data.len(),
{
    if data.len() <= 1 {
        0
    } else {
        let m = arg_min(data.drop_last());
        if data.last() < data[m] {
            data.len() - 1
        } else {
            m
        }
    }
}

proof fn lemma_arg_min_props(data: Seq<u32>)
    requires
        data.len() > 0,
    ensures
        0 <= arg_min(data) < data.len(),
        forall|j: int| 0 <= j < data.len() ==> data[arg_min(data)] <= #[trigger] data[j],
        forall|j: int| 0 <= j < arg_min(data) ==> #[trigger] data[j] > data[arg_min(data)],
    decreases data.len(),
{
    if data.len() > 1 {
        lemma_arg_min_props(data.drop_last());
        let n = data.len() as int;
        let m = arg_min(data.drop_last());
        assert(forall|j: int| 0 <= j < n - 1 ==> data.drop_last()[j] == #[trigger] data[j]);
        let am = arg_min(data);
        if data.last() < data[m] {
            assert(am == n - 1);
            assert(data[am] == data.last());
            assert forall|j: int| 0 <= j < n implies data[am] <= #[trigger] data[j] by {
                if j < n - 1 {
                    assert(data[j] >= data.drop_last()[m]);
                }
            }
            assert forall|j: int| 0 <= j < am implies #[trigger] data[j] > data[am] by {
                assert(data[j] >= data.drop_last()[m]);
            }
        } else {
            assert(am == m);
            assert forall|j: int| 0 <= j < n implies data[am] <= #[trigger] data[j] by {
                if j < n - 1 {
                    assert(data.drop_last()[j] == data[j]);
                }
            }
        }
    }
}

/// Finds the smallest score and its first position.
fn find_min(map: &ScoreMap) -> (r: (u32, usize))
    requires
        map.wf(),
    ensures
        r.1 as int == arg_min(map.data@),
        r.0 == map.data@[arg_min(map.data@)],
{
    let ghost d = map.data@;
    proof {
        assert(map.width * map.height >= 1) by (nonlinear_arith)
            requires
                map.width >= 1,
                map.height >= 1,
        ;
    }
    let n = map.data.len();
    let mut best: usize = 0;
    let mut i: usize = 1;
    while i < n
        invariant
            n == d.len(),
            d == map.data@,
            1 <= n,
            1 <= i <= n,
            best < i,
            forall|j: int| 0 <= j < i ==> d[best as int] <= #[trigger] d[j],
            forall|j: int| 0 <= j < best ==> #[trigger] d[j] > d[best as int],
        decreases n - i,
    {
        if map.data[i] < map.data[best] {
            best = i;
        }
        i = i + 1;
    }
    proof {
        lemma_arg_min_props(d);
        let am = arg_min(d);
        if (best as int) < am {
            assert(d[best as int] > d[am]);
        }
        if am < (best as int) {
            assert(d[am] > d[best as int]);
        }
    }
    (map.data[best], best)
}

/// The left edge of the poison rectangle anchored near a match position.
pub open spec fn rect_x0(mi: int, width: int) -> int {
    let tx = mi % width;
    if tx >= 22 {
        tx - 22
    } else {
        0
    }
}

/// The poison rectangle's width: 45 columns, clipped at the map's edge.
pub open spec fn rect_w(mi: int, width: int) -> int {
    let rx = rect_x0(mi, width);
    if width - rx <= 45 {
        width - rx
    } else {
        45
    }
}

/// The top edge of the poison rectangle.
pub open spec fn rect_y0(mi: int, width: int) -> int {
    let ty = mi / width;
    if ty >= 22 {
        ty - 22
    } else {
        0
    }
}

/// The poison rectangle's height: 45 rows, clipped at the map's edge.
pub open spec fn rect_h(mi: int, width: int, height: int) -> int {
    let ry = rect_y0(mi, width);
    if height - ry <= 45 {
        height - ry
    } else {
        45
    }
}

/// Whether flattened position `i` lies in the poison rectangle of a match
/// at flattened position `mi`.
pub open spec fn in_poison_rect(i: int, mi: int, width: int, height: int) -> bool {
    &&& rect_x0(mi, width) <= i % width < rect_x0(mi, width) + rect_w(mi, width)
    &&& rect_y0(mi, width) <= i / width < rect_y0(mi, width) + rect_h(mi, width, height)
}

/// The score map after poisoning a match at `mi`: every score in the poison
/// rectangle driven to the worst score, the rest untouched.
pub open spec fn poisoned(data: Seq<u32>, mi: int, width: int, height: int) -> Seq<u32> {
    Seq::new(
        data.len(),
        |i: int|
            if in_poison_rect(i, mi, width, height) {
                SCORE_ONE
            } else {
                data[i]
            },
    )
}

proof fn lemma_match_in_own_rect(mi: int, width: int, height: int)
    requires
        1 <= width,
        1 <= height,
        0 <= mi < width * height,
    ensures
        in_poison_rect(mi, mi, width, height),
{
    assert(0 <= mi % width < width);
    assert(0 <= mi / width < height) by (nonlinear_arith)
        requires
            0 <= mi < width * height,
            width >= 1,
    ;
}

proof fn lemma_count_below_le(d1: Seq<u32>, d2: Seq<u32>, t: u32)
    requires
        d1.len() == d2.len(),
        forall|i: int| 0 <= i < d2.len() && #[trigger] d2[i] < t ==> d1[i] < t,
    ensures
        count_below(d2, t) <= count_below(d1, t),
    decreases d1.len(),
{
    if d1.len() > 0 {
        assert forall|i: int|
            0 <= i < d2.drop_last().len() && #[trigger] d2.drop_last()[i]
                < t implies d1.drop_last()[i] < t by {
            assert(d2.drop_last()[i] == d2[i]);
            assert(d1.drop_last()[i] == d1[i]);
        }
        lemma_count_below_le(d1.drop_last(), d2.drop_last(), t);
    }
}

proof fn lemma_count_below_lt(d1: Seq<u32>, d2: Seq<u32>, t: u32, k: int)
    requires
        d1.len() == d2.len(),
        forall|i: int| 0 <= i < d2.len() && #[trigger] d2[i] < t ==> d1[i] < t,
        0 <= k < d1.len(),
        d1[k] < t,
        d2[k] >= t,
    ensures
        count_below(d2, t) < count_below(d1, t),
    decreases d1.len(),
{
    assert forall|i: int|
        0 <= i < d2.drop_last().len() && #[trigger] d2.drop_last()[i] < t implies d1.drop_last()[i]
        < t by {
        assert(d2.drop_last()[i] == d2[i]);
        assert(d1.drop_last()[i] == d1[i]);
    }
    if k == d1.len() - 1 {
        lemma_count_below_le(d1.drop_last(), d2.drop_last(), t);
    } else {
        lemma_count_below_lt(d1.drop_last(), d2.drop_last(), t, k);
    }
}

proof fn lemma_poison_decreases(data: Seq<u32>, mi: int, width: int, height: int, thr: u32)
    requires
        1 <= width,
        1 <= height,
        data.len() == width * height,
        0 <= mi < data.len(),
        data[mi] < thr,
        thr <= SCORE_ONE,
    ensures
        count_below(poisoned(data, mi, width, height), thr) < count_below(data, thr),
{
    let p = poisoned(data, mi, width, height);
    lemma_match_in_own_rect(mi, width, height);
    assert(p[mi] == SCORE_ONE);
    lemma_count_below_lt(data, p, thr, mi);
}

/// What one template's scan produces: starting from `board`, repeatedly take
/// the map's first smallest score; while it lies below the threshold, write
/// the piece into the board cell its anchor falls in and poison the
/// surrounding rectangle; stop as soon as the smallest score reaches the
/// threshold.
pub open spec fn spec_scan(
    width: int,
    height: int,
    data: Seq<u32>,
    thr: u32,
    bw: int,
    bh: int,
    sym: char,
    board: Seq<Seq<char>>,
) -> Seq<Seq<char>>
    decreases count_below(data, thr)
        when 1 <= width <= 0x7fff_ffff && 1 <= height <= 0x7fff_ffff && data.len() == width * height
            && thr <= SCORE_ONE via spec_scan_dec
{
    let mi = arg_min(data);
    if data[mi] >= thr {
        board
    } else {
        spec_scan(
            width,
            height,
            poisoned(data, mi, width, height),
            thr,
            bw,
            bh,
            sym,
            spec_place(board, mi / width, mi % width, bw, bh, sym),
        )
    }
}

#[via_fn]
proof fn spec_scan_dec(
    width: int,
    height: int,
    data: Seq<u32>,
    thr: u32,
    bw: int,
    bh: int,
    sym: char,
    board: Seq<Seq<char>>,
) {
    if 1 <= width <= 0x7fff_ffff && 1 <= height <= 0x7fff_ffff && data.len() == width * height
        && thr <= SCORE_ONE {
        assert(data.len() >= 1) by (nonlinear_arith)
            requires
                data.len() == width * height,
                width >= 1,
                height >= 1,
        ;
        lemma_arg_min_props(data);
        let mi = arg_min(data);
        if data[mi] < thr {
            lemma_poison_decreases(data, mi, width, height, thr);
            assert(poisoned(data, mi, width, height).len() == width * height);
        }
    }
}

fn poison(map: &mut ScoreMap, mi: usize)
    requires
        old(map).wf(),
        mi < old(map).data@.len(),
    ensures
        final(map).wf(),
        final(map).width == old(map).width,
        final(map).height == old(map).height,
        final(map).data@ == poisoned(
            old(map).data@,
            mi as int,
            old(map).width as int,
            old(map).height as int,
        ),
{
    let ghost d0 = map.data@;
    let total = map.data.len();
    let w = map.width;
    let h = map.height;
    let tx = mi % w;
    let ty = mi / w;
    proof {
        assert(ty < h) by (nonlinear_arith)
            requires
                mi < w * h,
                w >= 1,
                ty == mi as int / w as int,
        ;
    }
    let rx = if tx >= 22 {
        tx - 22
    } else {
        0
    };
    let ry = if ty >= 22 {
        ty - 22
    } else {
        0
    };
    let rw = if w - rx <= 45 {
        w - rx
    } else {
        45
    };
    let rh = if h - ry <= 45 {
        h - ry
    } else {
        45
    };
    let mut yy: usize = ry;
    while yy < ry + rh
        invariant
            map.width == w,
            map.height == h,
            map.data@.len() == d0.len(),
            total == d0.len(),
            d0.len() == w * h,
            1 <= w <= 0x7fff_ffff,
            1 <= h <= 0x7fff_ffff,
            mi < d0.len(),
            rx as int == rect_x0(mi as int, w as int),
            rw as int == rect_w(mi as int, w as int),
            ry as int == rect_y0(mi as int, w as int),
            rh as int == rect_h(mi as int, w as int, h as int),
            rx + rw <= w,
            ry + rh <= h,
            ry <= yy <= ry + rh,
            forall|i: int|
                0 <= i < d0.len() ==> #[trigger] map.data@[i] == (if in_poison_rect(
                    i,
                    mi as int,
                    w as int,
                    h as int,
                ) && i / (w as int) < yy {
                    SCORE_ONE
                } else {
                    d0[i]
                }),
        decreases ry + rh - yy,
    {
        let mut xx: usize = rx;
        while xx < rx + rw
            invariant
                map.width == w,
                map.height == h,
                map.data@.len() == d0.len(),
                total == d0.len(),
                d0.len() == w * h,
                1 <= w <= 0x7fff_ffff,
                1 <= h <= 0x7fff_ffff,
                mi < d0.len(),
                rx as int == rect_x0(mi as int, w as int),
                rw as int == rect_w(mi as int, w as int),
                ry as int == rect_y0(mi as int, w as int),
                rh as int == rect_h(mi as int, w as int, h as int),
                rx + rw <= w,
                ry + rh <= h,
                ry <= yy < ry + rh,
                rx <= xx <= rx + rw,
                forall|i: int|
                    0 <= i < d0.len() ==> #[trigger] map.data@[i] == (if in_poison_rect(
                        i,
                        mi as int,
                        w as int,
                        h as int,
                    ) && (i / (w as int) < yy || (i / (w as int) == yy && i % (w as int) < xx)) {
                        SCORE_ONE
                    } else {
                        d0[i]
                    }),
            decreases rx + rw - xx,
        {
            proof {
                assert(yy * w + xx < h * w) by (nonlinear_arith)
                    requires
                        yy < h,
                        xx < w,
                        w >= 1,
                ;
                assert(h * w == w * h) by (nonlinear_arith);
                assert(yy * w + xx < total);
            }
            let idx = yy * w + xx;
            let ghost dmid = map.data@;
            map.data.set(idx, SCORE_ONE);
            proof {
                assert(idx as int / (w as int) == yy && idx as int % (w as int) == xx)
                    by (nonlinear_arith)
                    requires
                        idx == yy * w + xx,
                        0 <= xx < w,
                        0 <= yy,
                ;
                assert(in_poison_rect(idx as int, mi as int, w as int, h as int));
                assert forall|i: int| 0 <= i < d0.len() implies #[trigger] map.data@[i]
                    == (if in_poison_rect(i, mi as int, w as int, h as int) && (i / (w as int) < yy
                    || (i / (w as int) == yy && i % (w as int) < xx + 1)) {
                    SCORE_ONE
                } else {
                    d0[i]
                }) by {
                    if i != idx {
                        assert(map.data@[i] == dmid[i]);
                        if i / (w as int) == yy && i % (w as int) == xx {
                            lemma_fundamental_div_mod(i, w as int);
                            assert(i == (w as int) * yy + xx);
                            assert((w as int) * yy == yy * (w as int)) by (nonlinear_arith);
                            assert(i == idx);
                        }
                    }
                }
            }
            xx = xx + 1;
        }
        yy = yy + 1;
        proof {
            assert forall|i: int| 0 <= i < d0.len() implies #[trigger] map.data@[i]
                == (if in_poison_rect(i, mi as int, w as int, h as int) && i / (w as int) < yy {
                SCORE_ONE
            } else {
                d0[i]
            }) by {
                if in_poison_rect(i, mi as int, w as int, h as int) && i / (w as int) == yy - 1 {
                    assert(i % (w as int) < rx + rw);
                }
            }
        }
    }
    proof {
        assert forall|i: int|
            0 <= i < d0.len() && in_poison_rect(i, mi as int, w as int, h as int) implies i / (
        w as int) < ry + rh by {}
        assert(map.data@ =~= poisoned(d0, mi as int, w as int, h as int));
    }
}

/// An 8x8 board of blank cells.
pub open spec fn spec_empty_board() -> Seq<Seq<char>> {
    Seq::new(8, |i: int| Seq::new(8, |j: int| ' '))
}

/// Builds an 8x8 board of blank cells.
pub fn empty_board() -> (r: Vec<Vec<char>>)
    ensures
        r.deep_view() == spec_empty_board(),
        raw_wf(r.deep_view()),
{
    let mut out: Vec<Vec<char>> = Vec::new();
    let mut i: usize = 0;
    while i < 8
        invariant
            i <= 8,
            out@.len() == i,
            forall|r: int, c: int|
                0 <= r < i && 0 <= c < 8 ==> #[trigger] out.deep_view()[r][c] == ' ',
            forall|r: int| 0 <= r < i ==> (#[trigger] out.deep_view()[r]).len() == 8,
        decreases 8 - i,
    {
        let mut row: Vec<char> = Vec::new();
        let mut j: usize = 0;
        while j < 8
            invariant
                j <= 8,
                row@.len() == j,
                forall|c: int| 0 <= c < j ==> #[trigger] row@[c] == ' ',
            decreases 8 - j,
        {
            row.push(' ');
            j = j + 1;
        }
        let ghost pre = out.deep_view();
        let ghost prev = out@;
        out.push(row);
        proof {
            assert(out.deep_view().len() == i + 1);
            assert forall|r: int| 0 <= r < i implies #[trigger] out.deep_view()[r] == pre[r] by {
                assert(out@[r] == prev[r]);
            }
            assert(out.deep_view()[i as int] =~= row@);
        }
        i = i + 1;
    }
    proof {
        assert(out.deep_view() =~~= spec_empty_board());
    }
    out
}

/// Scans one template's score map and returns the local board its accepted
/// matches draw: exactly the poison-scan recurrence applied to a blank
/// board.
pub fn find_piece_location(
    matched: &ScoreMap,
    board_w: i32,
    board_h: i32,
    threshold: u32,
    symbol: char,
) -> (r: Vec<Vec<char>>)
    requires
        matched.wf(),
        threshold <= SCORE_ONE,
        board_w >= 8,
        board_h >= 8,
    ensures
        raw_wf(r.deep_view()),
        r.deep_view() == spec_scan(
            matched.width as int,
            matched.height as int,
            matched.data@,
            threshold,
            board_w as int,
            board_h as int,
            symbol,
            spec_empty_board(),
        ),
{
    let n = matched.data.len();
    let mut cloned_data: Vec<u32> = Vec::new();
    let mut ci: usize = 0;
    while ci < n
        invariant
            n == matched.data@.len(),
            ci <= n,
            cloned_data@ =~= matched.data@.take(ci as int),
        decreases n - ci,
    {
        cloned_data.push(matched.data[ci]);
        ci = ci + 1;
    }
    proof {
        assert(cloned_data@ =~= matched.data@);
    }
    let mut map = ScoreMap { width: matched.width, height: matched.height, data: cloned_data };
    let mut board = empty_board();
    let ghost target = spec_scan(
        map.width as int,
        map.height as int,
        map.data@,
        threshold,
        board_w as int,
        board_h as int,
        symbol,
        board.deep_view(),
    );
    loop
        invariant
            map.wf(),
            matched.wf(),
            map.width == matched.width,
            map.height == matched.height,
            raw_wf(board.deep_view()),
            threshold <= SCORE_ONE,
            board_w >= 8,
            board_h >= 8,
            target == spec_scan(
                matched.width as int,
                matched.height as int,
                matched.data@,
                threshold,
                board_w as int,
                board_h as int,
                symbol,
                spec_empty_board(),
            ),
            spec_scan(
                map.width as int,
                map.height as int,
                map.data@,
                threshold,
                board_w as int,
                board_h as int,
                symbol,
                board.deep_view(),
            ) == target,
        ensures
            board.deep_view() == target,
        decreases count_below(map.data@, threshold),
    {
        let (mv, mi) = find_min(&map);
        if mv >= threshold {
            proof {
                assert(spec_scan(
                    map.width as int,
                    map.height as int,
                    map.data@,
                    threshold,
                    board_w as int,
                    board_h as int,
                    symbol,
                    board.deep_view(),
                ) == board.deep_view());
            }
            return board;
        }
        proof {
            assert(map.data@.len() >= 1) by (nonlinear_arith)
                requires
                    map.data@.len() == map.width * map.height,
                    map.width >= 1,
                    map.height >= 1,
            ;
            lemma_arg_min_props(map.data@);
            assert(mi as int / (map.width as int) < map.height as int) by (nonlinear_arith)
                requires
                    mi < map.width * map.height,
                    map.width >= 1,
            ;
        }
        let y = (mi / map.width) as i32;
        let x = (mi % map.width) as i32;
        let ghost data_before = map.data@;
        let _ = register_piece((y, x), (board_w, board_h), symbol, &mut board);
        poison(&mut map, mi);
        proof {
            lemma_poison_decreases(
                data_before,
                mi as int,
                map.width as int,
                map.height as int,
                threshold,
            );
            assert(map.data@.len() == map.width * map.height);
        }
    }
}

/// A first-writer-wins merge: every blank cell of `acc` takes the piece the
/// local board holds there; every other cell keeps what `acc` holds.
pub open spec fn spec_merge(acc: Seq<Seq<char>>, local: Seq<Seq<char>>) -> Seq<Seq<char>> {
    Seq::new(
        8,
        |r: int|
            Seq::new(
                8,
                |c: int|
                    if acc[r][c] == ' ' && local[r][c] != ' ' {
                        local[r][c]
                    } else {
                        acc[r][c]
                    },
            ),
    )
}

fn merge_boards(acc: &mut Vec<Vec<char>>, local: &Vec<Vec<char>>)
    requires
        raw_wf(old(acc).deep_view()),
        raw_wf(local.deep_view()),
    ensures
        raw_wf(final(acc).deep_view()),
        final(acc).deep_view() == spec_merge(old(acc).deep_view(), local.deep_view()),
{
    let ghost acc0 = acc.deep_view();
    let mut r: usize = 0;
    while r < 8
        invariant
            raw_wf(acc0),
            raw_wf(local.deep_view()),
            raw_wf(acc.deep_view()),
            r <= 8,
            acc.deep_view().len() == 8,
            forall|rr: int|
                r <= rr < 8 ==> #[trigger] acc.deep_view()[rr] == acc0[rr],
            forall|rr: int|
                0 <= rr < r ==> #[trigger] acc.deep_view()[rr] == spec_merge(
                    acc0,
                    local.deep_view(),
                )[rr],
        decreases 8 - r,
    {
        let ghost dv = acc.deep_view();
        let ghost pre_vecs = acc@;
        let mut rowv = acc.remove(r);
        proof {
            assert(rowv.deep_view() == dv[r as int]);
            assert(rowv.deep_view() =~= rowv@);
            assert(rowv@ == acc0[r as int]);
        }
        let ghost row0 = rowv@;
        let mut c: usize = 0;
        while c < 8
            invariant
                raw_wf(acc0),
                raw_wf(local.deep_view()),
                r < 8,
                c <= 8,
                rowv@.len() == 8,
                row0 == acc0[r as int],
                forall|cc: int| c <= cc < 8 ==> #[trigger] rowv@[cc] == row0[cc],
                forall|cc: int|
                    0 <= cc < c ==> #[trigger] rowv@[cc] == (if row0[cc] == ' '
                        && local.deep_view()[r as int][cc] != ' ' {
                        local.deep_view()[r as int][cc]
                    } else {
                        row0[cc]
                    }),
            decreases 8 - c,
        {
            proof {
                assert(local.deep_view()[r as int] =~= local@[r as int]@);
            }
            let lc = local[r][c];
            if rowv[c] == ' ' && lc != ' ' {
                rowv.set(c, lc);
            }
            c = c + 1;
        }
        acc.insert(r, rowv);
        proof {
            assert(acc@ =~= pre_vecs.update(r as int, rowv));
            assert forall|rr: int| 0 <= rr < 8 implies #[trigger] acc.deep_view()[rr] == (if rr
                == r {
                rowv.deep_view()
            } else {
                dv[rr]
            }) by {
                if rr != r {
                    assert(acc@[rr] == pre_vecs[rr]);
                }
            }
            assert(rowv.deep_view() =~= rowv@);
            assert(rowv@ =~= spec_merge(acc0, local.deep_view())[r as int]);
        }
        r = r + 1;
    }
    proof {
        assert(acc.deep_view() =~~= spec_merge(acc0, local.deep_view()));
    }
}

/// What assembling the full board returns: each template's scan merged into
/// the blank board, first writer wins, in the order the caller supplied the
/// templates.
pub open spec fn spec_find_all(
    maps: Seq<(char, ScoreMap)>,
    j: int,
    bw: int,
    bh: int,
    thr: u32,
    acc: Seq<Seq<char>>,
) -> Seq<Seq<char>>
    decreases maps.len() - j when 0 <= j <= maps.len()
{
    if j >= maps.len() {
        acc
    } else {
        let local = spec_scan(
            maps[j].1.width as int,
            maps[j].1.height as int,
            maps[j].1.data@,
            thr,
            bw,
            bh,
            maps[j].0,
            spec_empty_board(),
        );
        spec_find_all(maps, j + 1, bw, bh, thr, spec_merge(acc, local))
    }
}

/// Assembles the symbolic board from every template's score map: each map
/// is scanned independently and the local results are merged
/// first-writer-wins in the supplied order. The result is a pure function
/// of the score maps, the board's pixel size and the threshold.
pub fn find_all_pieces(
    score_maps: &Vec<(char, ScoreMap)>,
    board_w: i32,
    board_h: i32,
    piece_threshold: u32,
) -> (r: Vec<Vec<char>>)
    requires
        forall|j: int| 0 <= j < score_maps@.len() ==> (#[trigger] score_maps@[j]).1.wf(),
        piece_threshold <= SCORE_ONE,
        board_w >= 8,
        board_h >= 8,
    ensures
        raw_wf(r.deep_view()),
        r.deep_view() == spec_find_all(
            score_maps@,
            0,
            board_w as int,
            board_h as int,
            piece_threshold,
            spec_empty_board(),
        ),
{
    let ghost target = spec_find_all(
        score_maps@,
        0,
        board_w as int,
        board_h as int,
        piece_threshold,
        spec_empty_board(),
    );
    let mut acc = empty_board();
    let n = score_maps.len();
    let mut j: usize = 0;
    while j < n
        invariant
            forall|jj: int| 0 <= jj < score_maps@.len() ==> (#[trigger] score_maps@[jj]).1.wf(),
            piece_threshold <= SCORE_ONE,
            board_w >= 8,
            board_h >= 8,
            n == score_maps@.len(),
            j <= n,
            raw_wf(acc.deep_view()),
            spec_find_all(
                score_maps@,
                j as int,
                board_w as int,
                board_h as int,
                piece_threshold,
                acc.deep_view(),
            ) == target,
        decreases n - j,
    {
        let sym = score_maps[j].0;
        let local = find_piece_location(
            &score_maps[j].1,
            board_w,
            board_h,
            piece_threshold,
            sym,
        );
        merge_boards(&mut acc, &local);
        j = j + 1;
    }
    acc
}

/// Board assembly is deterministic: two runs over the same score maps, board
/// size and threshold return the same matrix.
pub proof fn lemma_find_all_pieces_deterministic(
    r1: Vec<Vec<char>>,
    r2: Vec<Vec<char>>,
    maps: Seq<(char, ScoreMap)>,
    bw: int,
    bh: int,
    thr: u32,
)
    requires
        r1.deep_view() == spec_find_all(maps, 0, bw, bh, thr, spec_empty_board()),
        r2.deep_view() == spec_find_all(maps, 0, bw, bh, thr, spec_empty_board()),
    ensures
        r1.deep_view() == r2.deep_view(),
{
}

} // verus!
