//! The calibration-time and per-cycle vision logic over integer images:
//! deciding which colour the local player has, gating re-detection on a
//! cheap cell-wise difference test, and slicing the twelve piece templates
//! out of the starting position.
use crate::board::Color;
use crate::error::CheatessError;
use crate::image::{
    crop, dark_in_rect, dark_in_row, dark_rect, lemma_dark_in_rect_frame, spec_threshold_map,
    threshold, GrayImage,
};
use vstd::prelude::*;

verus! {

/// Binarises a board frame with the configured board threshold.
pub fn convert_board_to_bin(gray_board: &GrayImage, board_threshold: u8) -> (r: GrayImage)
    requires
        gray_board.wf(),
    ensures
        r.wf(),
        r.width == gray_board.width,
        r.height == gray_board.height,
        r.data@ == spec_threshold_map(gray_board.data@, board_threshold),
{
    threshold(gray_board, board_threshold)
}

/// The decision `detect_player_color` returns: in the bottom-left square
/// (one eighth of the board each way), more than a fifth of the pixels lying
/// below the calibration threshold of 50 means the black rook sits there, so
/// the local player plays Black; otherwise White.
pub open spec fn spec_player_color(img: GrayImage) -> Color {
    let sw = img.width as int / 8;
    let sh = img.height as int / 8;
    let dark = dark_in_rect(
        img.width as int,
        img.data@,
        0,
        img.height - sh,
        sw,
        sh,
        50,
    );
    if 5 * dark > sw * sh {
        Color::Black
    } else {
        Color::White
    }
}

/// Decides the local player's colour from the starting-position board image
/// by the darkness of the bottom-left square.
pub fn detect_player_color(gray_board: &GrayImage) -> (r: Color)
    requires
        gray_board.wf(),
    ensures
        r == spec_player_color(*gray_board),
{
    let sw = gray_board.width / 8;
    let sh = gray_board.height / 8;
    let y0 = gray_board.height - sh;
    let dark = dark_rect(gray_board, 0, y0, sw, sh, 50);
    proof {
        assert(dark <= sh * sw) by {
            lemma_dark_rect_le(
                gray_board.width as int,
                gray_board.data@,
                0,
                y0 as int,
                sw as int,
                sh as int,
                50,
            );
        }
    }
    proof {
        assert((sw as int) * (sh as int) <= 0xffff_ffff_ffff_ffff * 0xffff_ffff_ffff_ffff)
            by (nonlinear_arith)
            requires
                0 <= sw <= 0xffff_ffff_ffff_ffff,
                0 <= sh <= 0xffff_ffff_ffff_ffff,
        ;
    }
    let darker = (dark as u128) * 5;
    let total = (sw as u128) * (sh as u128);
    if darker > total {
        Color::Black
    } else {
        Color::White
    }
}

proof fn lemma_dark_row_le(width: int, data: Seq<u8>, y: int, x0: int, w: int, t: u8)
    requires
        w >= 0,
    ensures
        dark_in_row(width, data, y, x0, w, t) <= w,
    decreases w,
{
    if w > 0 {
        lemma_dark_row_le(width, data, y, x0, w - 1, t);
    }
}

proof fn lemma_dark_rect_le(width: int, data: Seq<u8>, x0: int, y0: int, w: int, h: int, t: u8)
    requires
        w >= 0,
        h >= 0,
    ensures
        dark_in_rect(width, data, x0, y0, w, h, t) <= h * w,
    decreases h,
{
    if h > 0 {
        lemma_dark_rect_le(width, data, x0, y0, w, h - 1, t);
        lemma_dark_row_le(width, data, y0 + (h - 1), x0, w, t);
        assert(h * w == (h - 1) * w + w) by (nonlinear_arith);
    }
}

/// The colour decision reads nothing but the bottom-left square: two board
/// images of the same size whose pixels agree there are classified alike.
pub proof fn lemma_player_color_corner_only(g1: GrayImage, g2: GrayImage)
    requires
        g1.wf(),
        g2.wf(),
        g1.width == g2.width,
        g1.height == g2.height,
        forall|x: int, y: int|
            0 <= x < g1.width as int / 8 && g1.height - g1.height as int / 8 <= y < g1.height
                ==> g1.data@[y * (g1.width as int) + x] == #[trigger] g2.data@[y * (
            g1.width as int) + x],
    ensures
        spec_player_color(g1) == spec_player_color(g2),
{
    let w = g1.width as int;
    let h = g1.height as int;
    lemma_dark_in_rect_frame(w, g1.data@, g2.data@, 0, h - h / 8, w / 8, h / 8, 50);
}

/// The horizontal start of grid cell column `col` when an image `w` pixels
/// wide is cut into eight cell columns.
pub open spec fn cell_x0(w: int, col: int) -> int {
    col * (w / 8)
}

/// The width of grid cell column `col`: one eighth of the image, the last
/// column absorbing the remainder.
pub open spec fn cell_w(w: int, col: int) -> int {
    if col == 7 {
        w - 7 * (w / 8)
    } else {
        w / 8
    }
}

/// Whether grid cell `(row, col)` separates the two images: its dark-pixel
/// counts (pixels below 50) straddle the threshold, one strictly above and
/// one at or below.
pub open spec fn spec_cell_straddles(
    g1: GrayImage,
    g2: GrayImage,
    threshold: int,
    row: int,
    col: int,
) -> bool {
    let x0 = cell_x0(g1.width as int, col);
    let y0 = cell_x0(g1.height as int, row);
    let cw = cell_w(g1.width as int, col);
    let ch = cell_w(g1.height as int, row);
    let d1 = dark_in_rect(g1.width as int, g1.data@, x0, y0, cw, ch, 50) as int;
    let d2 = dark_in_rect(g1.width as int, g2.data@, x0, y0, cw, ch, 50) as int;
    (d1 > threshold) != (d2 > threshold)
}

/// What the difference gate reports: some grid cell straddles the threshold.
pub open spec fn spec_images_differ(g1: GrayImage, g2: GrayImage, threshold: int) -> bool {
    exists|row: int, col: int|
        0 <= row < 8 && 0 <= col < 8 && #[trigger] spec_cell_straddles(g1, g2, threshold, row, col)
}

/// The cheap per-cycle change test: cuts both images into the 8x8 grid of
/// cells (the rightmost column and bottom row absorb any remainder) and
/// reports whether any cell's dark-pixel counts straddle the threshold.
pub fn are_images_different(gray1: &GrayImage, gray2: &GrayImage, threshold: i32) -> (r: bool)
    requires
        gray1.wf(),
        gray2.wf(),
        gray1.width == gray2.width,
        gray1.height == gray2.height,
    ensures
        r == spec_images_differ(*gray1, *gray2, threshold as int),
{
    let w = gray1.width;
    let h = gray1.height;
    let cw8 = w / 8;
    let ch8 = h / 8;
    let mut row: usize = 0;
    while row < 8
        invariant
            gray1.wf(),
            gray2.wf(),
            gray1.width == gray2.width,
            gray1.height == gray2.height,
            w == gray1.width,
            h == gray1.height,
            cw8 == w as int / 8,
            ch8 == h as int / 8,
            row <= 8,
            forall|rr: int, cc: int|
                0 <= rr < row && 0 <= cc < 8 ==> !#[trigger] spec_cell_straddles(
                    *gray1,
                    *gray2,
                    threshold as int,
                    rr,
                    cc,
                ),
        decreases 8 - row,
    {
        let mut col: usize = 0;
        while col < 8
            invariant
                gray1.wf(),
                gray2.wf(),
                gray1.width == gray2.width,
                gray1.height == gray2.height,
                w == gray1.width,
                h == gray1.height,
                cw8 == w as int / 8,
                ch8 == h as int / 8,
                row < 8,
                col <= 8,
                forall|rr: int, cc: int|
                    0 <= rr < row && 0 <= cc < 8 ==> !#[trigger] spec_cell_straddles(
                        *gray1,
                        *gray2,
                        threshold as int,
                        rr,
                        cc,
                    ),
                forall|cc: int|
                    0 <= cc < col ==> !#[trigger] spec_cell_straddles(
                        *gray1,
                        *gray2,
                        threshold as int,
                        row as int,
                        cc,
                    ),
            decreases 8 - col,
        {
            proof {
                assert(col * cw8 <= 7 * cw8) by (nonlinear_arith)
                    requires
                        0 <= col <= 7,
                        cw8 >= 0,
                ;
                assert(row * ch8 <= 7 * ch8) by (nonlinear_arith)
                    requires
                        0 <= row <= 7,
                        ch8 >= 0,
                ;
                assert(8 * (w as int / 8) <= w);
                assert(8 * (h as int / 8) <= h);
            }
            let x0 = col * cw8;
            let y0 = row * ch8;
            proof {
                assert(col * cw8 + cw8 == (col + 1) * cw8) by (nonlinear_arith);
                assert((col + 1) * cw8 <= 8 * cw8) by (nonlinear_arith)
                    requires
                        col + 1 <= 8,
                        cw8 >= 0,
                ;
                assert(row * ch8 + ch8 == (row + 1) * ch8) by (nonlinear_arith);
                assert((row + 1) * ch8 <= 8 * ch8) by (nonlinear_arith)
                    requires
                        row + 1 <= 8,
                        ch8 >= 0,
                ;
                assert(7 * (w as int / 8) <= 8 * (w as int / 8)) by (nonlinear_arith)
                    requires
                        w as int / 8 >= 0,
                ;
                assert(7 * (h as int / 8) <= 8 * (h as int / 8)) by (nonlinear_arith)
                    requires
                        h as int / 8 >= 0,
                ;
            }
            let cw = if col == 7 {
                w - 7 * cw8
            } else {
                cw8
            };
            let ch = if row == 7 {
                h - 7 * ch8
            } else {
                ch8
            };
            let d1 = dark_rect(gray1, x0, y0, cw, ch, 50);
            let d2 = dark_rect(gray2, x0, y0, cw, ch, 50);
            let above1 = if threshold < 0 {
                true
            } else {
                d1 > (threshold as usize)
            };
            let above2 = if threshold < 0 {
                true
            } else {
                d2 > (threshold as usize)
            };
            if above1 != above2 {
                assert(spec_cell_straddles(*gray1, *gray2, threshold as int, row as int, col as int));
                return true;
            }
            assert(!spec_cell_straddles(*gray1, *gray2, threshold as int, row as int, col as int));
            col = col + 1;
        }
        row = row + 1;
    }
    proof {
        assert(!spec_images_differ(*gray1, *gray2, threshold as int)) by {
            if spec_images_differ(*gray1, *gray2, threshold as int) {
                let (rr, cc): (int, int) = choose|rr: int, cc: int|
                    0 <= rr < 8 && 0 <= cc < 8 && #[trigger] spec_cell_straddles(
                        *gray1,
                        *gray2,
                        threshold as int,
                        rr,
                        cc,
                    );
                assert(!spec_cell_straddles(*gray1, *gray2, threshold as int, rr, cc));
            }
        }
    }
    false
}

/// The difference gate never fires on two copies of the same image.
pub proof fn lemma_difference_gate_same_image(g: GrayImage, threshold: int)
    requires
        g.wf(),
        threshold > 0,
    ensures
        !spec_images_differ(g, g, threshold),
{
    assert forall|row: int, col: int| 0 <= row < 8 && 0 <= col < 8 implies !#[trigger] spec_cell_straddles(
        g,
        g,
        threshold,
        row,
        col,
    ) by {
    }
}

/// The twelve squares the piece templates are sliced from, as `(column,
/// row)` grid coordinates with the piece letter each holds in the starting
/// position; which table applies depends on the player's colour.
pub open spec fn spec_named_fields(color: Color) -> Seq<((usize, usize), char)> {
    if color == Color::White {
        seq![
            ((0usize, 0usize), 'r'),
            ((1usize, 0usize), 'n'),
            ((2usize, 0usize), 'b'),
            ((3usize, 0usize), 'q'),
            ((4usize, 0usize), 'k'),
            ((0usize, 1usize), 'p'),
            ((0usize, 6usize), 'P'),
            ((0usize, 7usize), 'R'),
            ((1usize, 7usize), 'N'),
            ((2usize, 7usize), 'B'),
            ((3usize, 7usize), 'Q'),
            ((4usize, 7usize), 'K'),
        ]
    } else {
        seq![
            ((0usize, 0usize), 'R'),
            ((1usize, 0usize), 'N'),
            ((2usize, 0usize), 'B'),
            ((3usize, 0usize), 'K'),
            ((4usize, 0usize), 'Q'),
            ((0usize, 1usize), 'P'),
            ((0usize, 6usize), 'p'),
            ((0usize, 7usize), 'r'),
            ((1usize, 7usize), 'n'),
            ((2usize, 7usize), 'b'),
            ((3usize, 7usize), 'k'),
            ((4usize, 7usize), 'q'),
        ]
    }
}

fn named_fields(color: &Color) -> (r: Vec<((usize, usize), char)>)
    ensures
        r@ == spec_named_fields(*color),
        r@.len() == 12,
{
    match color {
        Color::White => {
            let v: Vec<((usize, usize), char)> = vec![
                ((0, 0), 'r'),
                ((1, 0), 'n'),
                ((2, 0), 'b'),
                ((3, 0), 'q'),
                ((4, 0), 'k'),
                ((0, 1), 'p'),
                ((0, 6), 'P'),
                ((0, 7), 'R'),
                ((1, 7), 'N'),
                ((2, 7), 'B'),
                ((3, 7), 'Q'),
                ((4, 7), 'K'),
            ];
            proof {
                assert(v@ =~= spec_named_fields(*color));
            }
            v
        },
        Color::Black => {
            let v: Vec<((usize, usize), char)> = vec![
                ((0, 0), 'R'),
                ((1, 0), 'N'),
                ((2, 0), 'B'),
                ((3, 0), 'K'),
                ((4, 0), 'Q'),
                ((0, 1), 'P'),
                ((0, 6), 'p'),
                ((0, 7), 'r'),
                ((1, 7), 'n'),
                ((2, 7), 'b'),
                ((3, 7), 'k'),
                ((4, 7), 'q'),
            ];
            proof {
                assert(v@ =~= spec_named_fields(*color));
            }
            v
        },
    }
}

/// The side of the square working area: the smaller of the image's two
/// dimensions.
pub open spec fn spec_board_side(img: GrayImage) -> int {
    if img.height <= img.width {
        img.height as int
    } else {
        img.width as int
    }
}

/// The pixel offset of grid edge `i` on a board `size` pixels across: the
/// nearest integer to one eighth of `i * size`.
pub open spec fn spec_edge(i: int, size: int) -> int {
    (i * size + 4) / 8
}

fn edge_of(i: usize, size: usize) -> (r: usize)
    requires
        i <= 8,
    ensures
        r == spec_edge(i as int, size as int),
        r <= size,
{
    proof {
        assert((i as int) * (size as int) <= 8 * (size as int)) by (nonlinear_arith)
            requires
                0 <= i <= 8,
                size >= 0,
        ;
        vstd::arithmetic::div_mod::lemma_div_is_ordered(
            (i as int) * (size as int) + 4,
            8 * (size as int) + 4,
            8,
        );
        assert((8 * (size as int) + 4) / 8 == size as int);
    }
    let v = ((i as u128) * (size as u128) + 4) / 8;
    v as usize
}

/// Grid edges never run backwards: edge `i` lies at or before edge `i + 1`.
proof fn lemma_edge_ordered(i: int, size: int)
    requires
        0 <= i,
        0 <= size,
    ensures
        spec_edge(i, size) <= spec_edge(i + 1, size),
        spec_edge(i, size) >= 0,
{
    assert(i * size <= (i + 1) * size) by (nonlinear_arith)
        requires
            0 <= i && 0 <= size,
    ;
    vstd::arithmetic::div_mod::lemma_div_is_ordered(i * size + 4, (i + 1) * size + 4, 8);
    assert(i * size >= 0) by (nonlinear_arith)
        requires
            0 <= i && 0 <= size,
    ;
}

/// The horizontal start of the template sliced from grid column `col`, after
/// the symmetric inset.
pub open spec fn spec_tpl_x(img: GrayImage, m: int, col: int) -> int {
    spec_edge(col, spec_board_side(img)) + m
}

/// The width of the template sliced from grid column `col`: the grid step
/// minus the inset on both sides.
pub open spec fn spec_tpl_w(img: GrayImage, m: int, col: int) -> int {
    spec_edge(col + 1, spec_board_side(img)) - spec_edge(col, spec_board_side(img)) - 2 * m
}

/// Whether the template rectangle for grid square `(col, row)` survives the
/// inset with positive extent and lies inside the image.
pub open spec fn spec_crop_ok(img: GrayImage, m: int, col: int, row: int) -> bool {
    &&& spec_tpl_w(img, m, col) >= 1
    &&& spec_tpl_w(img, m, row) >= 1
    &&& spec_tpl_x(img, m, col) + spec_tpl_w(img, m, col) <= img.width
    &&& spec_tpl_x(img, m, row) + spec_tpl_w(img, m, row) <= img.height
}

/// Whether `tpl` is exactly the binarised template sliced from grid square
/// `(col, row)`: the inset crop of the board image with every pixel at or
/// above the extraction threshold driven to 255 and the rest to 0.
pub open spec fn spec_template_ok(
    img: GrayImage,
    m: int,
    t: u8,
    col: int,
    row: int,
    tpl: GrayImage,
) -> bool {
    &&& tpl.wf()
    &&& tpl.width == spec_tpl_w(img, m, col)
    &&& tpl.height == spec_tpl_w(img, m, row)
    &&& forall|x: int, y: int|
        0 <= x < tpl.width && 0 <= y < tpl.height ==> #[trigger] tpl.pix(x, y) == (if img.pix(
            spec_tpl_x(img, m, col) + x,
            spec_tpl_x(img, m, row) + y,
        ) >= t {
            255u8
        } else {
            0u8
        })
}

/// Slices the twelve piece templates out of a starting-position board
/// image: for each named square of the colour's table, the grid cell is
/// cropped with a symmetric inset of `margin` pixels and binarised with the
/// extraction threshold. Succeeds exactly when every one of the twelve
/// rectangles survives the inset with positive extent and lies inside the
/// image; the first one that does not makes the whole extraction fail.
pub fn extract_pieces(
    img: &GrayImage,
    margin: u8,
    extract_piece_threshold: u8,
    player_color: &Color,
) -> (r: Result<Vec<(char, GrayImage)>, CheatessError>)
    requires
        img.wf(),
    ensures
        match r {
            Ok(v) => {
                &&& v@.len() == 12
                &&& forall|j: int|
                    0 <= j < 12 ==> (#[trigger] v@[j]).0 == spec_named_fields(*player_color)[j].1
                        && spec_template_ok(
                        *img,
                        margin as int,
                        extract_piece_threshold,
                        spec_named_fields(*player_color)[j].0.0 as int,
                        spec_named_fields(*player_color)[j].0.1 as int,
                        v@[j].1,
                    )
                &&& forall|j: int|
                    0 <= j < 12 ==> #[trigger] spec_crop_ok(
                        *img,
                        margin as int,
                        spec_named_fields(*player_color)[j].0.0 as int,
                        spec_named_fields(*player_color)[j].0.1 as int,
                    )
            },
            Err(e) => {
                &&& e == CheatessError::TemplateExtractionFailed
                &&& exists|j: int|
                    0 <= j < 12 && !#[trigger] spec_crop_ok(
                        *img,
                        margin as int,
                        spec_named_fields(*player_color)[j].0.0 as int,
                        spec_named_fields(*player_color)[j].0.1 as int,
                    )
            },
        },
{
    let side = if img.height <= img.width {
        img.height
    } else {
        img.width
    };
    let fields = named_fields(player_color);
    let m = margin as usize;
    let mut out: Vec<(char, GrayImage)> = Vec::new();
    let mut j: usize = 0;
    while j < 12
        invariant
            img.wf(),
            side as int == spec_board_side(*img),
            m == margin as usize,
            fields@ == spec_named_fields(*player_color),
            fields@.len() == 12,
            j <= 12,
            out@.len() == j,
            forall|jj: int|
                0 <= jj < j ==> (#[trigger] out@[jj]).0 == spec_named_fields(*player_color)[jj].1
                    && spec_template_ok(
                    *img,
                    margin as int,
                    extract_piece_threshold,
                    spec_named_fields(*player_color)[jj].0.0 as int,
                    spec_named_fields(*player_color)[jj].0.1 as int,
                    out@[jj].1,
                ),
            forall|jj: int|
                0 <= jj < j ==> #[trigger] spec_crop_ok(
                    *img,
                    margin as int,
                    spec_named_fields(*player_color)[jj].0.0 as int,
                    spec_named_fields(*player_color)[jj].0.1 as int,
                ),
        decreases 12 - j,
    {
        let col = fields[j].0.0;
        let row = fields[j].0.1;
        let sym = fields[j].1;
        let xe = edge_of(col, side);
        let xe1 = edge_of(col + 1, side);
        let ye = edge_of(row, side);
        let ye1 = edge_of(row + 1, side);
        proof {
            lemma_edge_ordered(col as int, side as int);
            lemma_edge_ordered(row as int, side as int);
        }
        let x = (xe as u128) + (m as u128);
        let y = (ye as u128) + (m as u128);
        let wraw = (xe1 - xe) as u128;
        let hraw = (ye1 - ye) as u128;
        if wraw < 2 * (m as u128) + 1 || hraw < 2 * (m as u128) + 1 {
            proof {
                assert(!spec_crop_ok(*img, margin as int, col as int, row as int));
            }
            return Err(CheatessError::TemplateExtractionFailed);
        }
        let tw = wraw - 2 * (m as u128);
        let th = hraw - 2 * (m as u128);
        if x + tw <= (img.width as u128) && y + th <= (img.height as u128) {
            let xu = x as usize;
            let yu = y as usize;
            let twu = tw as usize;
            let thu = th as usize;
            let piece = crop(img, xu, yu, twu, thu);
            let tpl = threshold(&piece, extract_piece_threshold);
            proof {
                assert(spec_crop_ok(*img, margin as int, col as int, row as int));
                assert forall|px: int, py: int| 0 <= px < tpl.width && 0 <= py < tpl.height implies #[trigger] tpl.pix(
                    px,
                    py,
                ) == (if img.pix(
                    spec_tpl_x(*img, margin as int, col as int) + px,
                    spec_tpl_x(*img, margin as int, row as int) + py,
                ) >= extract_piece_threshold {
                    255u8
                } else {
                    0u8
                }) by {
                    assert(0 <= py * (tpl.width as int) + px < piece.data@.len())
                        by (nonlinear_arith)
                        requires
                            0 <= px < tpl.width,
                            0 <= py < tpl.height,
                            piece.data@.len() == tpl.width * tpl.height,
                    ;
                    assert(piece.pix(px, py) == img.pix(xu + px, yu + py));
                }
                assert(spec_template_ok(
                    *img,
                    margin as int,
                    extract_piece_threshold,
                    col as int,
                    row as int,
                    tpl,
                ));
            }
            out.push((sym, tpl));
        } else {
            proof {
                assert(!spec_crop_ok(*img, margin as int, col as int, row as int));
            }
            return Err(CheatessError::TemplateExtractionFailed);
        }
        j = j + 1;
    }
    Ok(out)
}

/// One of the twelve piece letters, of either colour.
pub open spec fn piece_letter(c: char) -> bool {
    c == 'p' || c == 'r' || c == 'n' || c == 'b' || c == 'q' || c == 'k' || c == 'P' || c == 'R'
        || c == 'N' || c == 'B' || c == 'Q' || c == 'K'
}

/// For either colour, the template table has exactly twelve entries, their
/// piece letters are pairwise distinct, and together they are exactly the
/// twelve piece letters.
pub proof fn lemma_template_keys(color: Color)
    ensures
        spec_named_fields(color).len() == 12,
        forall|j1: int, j2: int|
            0 <= j1 < j2 < 12 ==> (#[trigger] spec_named_fields(color)[j1]).1 != (
            #[trigger] spec_named_fields(color)[j2]).1,
        forall|c: char|
            #[trigger] piece_letter(c) <==> exists|j: int|
                0 <= j < 12 && (#[trigger] spec_named_fields(color)[j]).1 == c,
{
    let t = spec_named_fields(color);
    assert forall|c: char| #[trigger] piece_letter(c) implies exists|j: int|
        0 <= j < 12 && (#[trigger] spec_named_fields(color)[j]).1 == c by {
        if color == Color::White {
            assert(t[0].1 == 'r' && t[1].1 == 'n' && t[2].1 == 'b' && t[3].1 == 'q' && t[4].1
                == 'k' && t[5].1 == 'p' && t[6].1 == 'P' && t[7].1 == 'R' && t[8].1 == 'N'
                && t[9].1 == 'B' && t[10].1 == 'Q' && t[11].1 == 'K');
        } else {
            assert(t[0].1 == 'R' && t[1].1 == 'N' && t[2].1 == 'B' && t[3].1 == 'K' && t[4].1
                == 'Q' && t[5].1 == 'P' && t[6].1 == 'p' && t[7].1 == 'r' && t[8].1 == 'n'
                && t[9].1 == 'b' && t[10].1 == 'k' && t[11].1 == 'q');
        }
    }
}

} // verus!
