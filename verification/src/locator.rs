//! The board locator's decision: among the approximated contours of an
//! edge image, pick the largest convex quadrilateral of roughly square
//! bounding box, and read the board rectangle off its corners.
use crate::error::CheatessError;
use vstd::prelude::*;

verus! {

/// One approximated contour, as the locator's geometry sees it: its vertex
/// count, whether it is convex, its enclosed area (scaled to an integer),
/// its bounding-box extents, and its first and third vertices.
#[derive(Debug, Clone, Copy)]
pub struct QuadCandidate {
    pub vertices: usize,
    pub convex: bool,
    pub area: u64,
    pub bound_w: i32,
    pub bound_h: i32,
    pub v0: (i32, i32),
    pub v2: (i32, i32),
}

/// Whether a contour can be the board: a convex quadrilateral whose
/// bounding box has an aspect ratio strictly between four fifths and six
/// fifths.
pub open spec fn quad_eligible(c: QuadCandidate) -> bool {
    &&& c.vertices == 4
    &&& c.convex
    &&& c.bound_h > 0
    &&& 5 * c.bound_w > 4 * c.bound_h
    &&& 5 * c.bound_w < 6 * c.bound_h
}

/// The first eligible contour of strictly largest area, scanning from `i`
/// with the best seen so far; a tie keeps the earlier one.
pub open spec fn spec_best_quad(
    cands: Seq<QuadCandidate>,
    i: int,
    best: Option<int>,
    best_area: u64,
) -> Option<int>
    decreases cands.len() - i when 0 <= i <= cands.len()
{
    if i >= cands.len() {
        best
    } else {
        if quad_eligible(cands[i]) && cands[i].area > best_area {
            spec_best_quad(cands, i + 1, Some(i), cands[i].area)
        } else {
            spec_best_quad(cands, i + 1, best, best_area)
        }
    }
}

/// What locating the board returns: no eligible contour is a fatal
/// board-not-found; a winner whose first vertex is its top-left and whose
/// third is its bottom-right gives the rectangle spanned by the two; any
/// other winner geometry is an image-processing failure.
pub open spec fn spec_board_region(cands: Seq<QuadCandidate>) -> Result<
    (u32, u32, u32, u32),
    CheatessError,
> {
    match spec_best_quad(cands, 0, None, 0) {
        None => Err(CheatessError::BoardNotFound),
        Some(i) => {
            let c = cands[i];
            if 0 <= c.v0.0 && 0 <= c.v0.1 && c.v0.0 <= c.v2.0 && c.v0.1 <= c.v2.1 {
                Ok(
                    (
                        c.v0.0 as u32,
                        c.v0.1 as u32,
                        (c.v2.0 - c.v0.0) as u32,
                        (c.v2.1 - c.v0.1) as u32,
                    ),
                )
            } else {
                Err(CheatessError::ImageOp)
            }
        },
    }
}

fn eligible(c: &QuadCandidate) -> (r: bool)
    ensures
        r == quad_eligible(*c),
{
    c.vertices == 4 && c.convex && c.bound_h > 0 && 5 * (c.bound_w as i64) > 4 * (c.bound_h as i64)
        && 5 * (c.bound_w as i64) < 6 * (c.bound_h as i64)
}

fn best_quad_from(cands: &Vec<QuadCandidate>, i: usize, best: Option<usize>, best_area: u64) -> (r:
    Option<usize>)
    requires
        i <= cands@.len(),
        match best {
            Some(b) => b < cands@.len(),
            None => true,
        },
    ensures
        ({
            let bi = match best {
                Some(b) => Some(b as int),
                None => None,
            };
            match r {
                Some(p) => spec_best_quad(cands@, i as int, bi, best_area) == Some(p as int) && p
                    < cands@.len(),
                None => spec_best_quad(cands@, i as int, bi, best_area) is None,
            }
        }),
    decreases cands@.len() - i,
{
    if i >= cands.len() {
        best
    } else {
        if eligible(&cands[i]) && cands[i].area > best_area {
            let a = cands[i].area;
            best_quad_from(cands, i + 1, Some(i), a)
        } else {
            best_quad_from(cands, i + 1, best, best_area)
        }
    }
}

/// Picks the board rectangle among the approximated contours: the eligible
/// contour of largest area wins, and its first and third vertices span the
/// returned `(x, y, width, height)`.
pub fn get_board_region(candidates: &Vec<QuadCandidate>) -> (r: Result<
    (u32, u32, u32, u32),
    CheatessError,
>)
    ensures
        r == spec_board_region(candidates@),
{
    match best_quad_from(candidates, 0, None, 0) {
        None => Err(CheatessError::BoardNotFound),
        Some(i) => {
            let c = &candidates[i];
            if 0 <= c.v0.0 && 0 <= c.v0.1 && c.v0.0 <= c.v2.0 && c.v0.1 <= c.v2.1 {
                Ok(
                    (
                        c.v0.0 as u32,
                        c.v0.1 as u32,
                        (c.v2.0 - c.v0.0) as u32,
                        (c.v2.1 - c.v0.1) as u32,
                    ),
                )
            } else {
                Err(CheatessError::ImageOp)
            }
        },
    }
}

} // verus!
