//! Integer image primitives: a single-channel 8-bit image held row-major,
//! binary thresholding, bounds-checked cropping, and dark-pixel counting
//! over rectangles.
use vstd::prelude::*;

verus! {

/// A single-channel 8-bit image; `data` holds the rows top to bottom, each
/// left to right.
pub struct GrayImage {
    pub width: usize,
    pub height: usize,
    pub data: Vec<u8>,
}

impl GrayImage {
    /// The pixel buffer holds exactly one byte per coordinate pair.
    pub open spec fn wf(&self) -> bool {
        self.data@.len() == self.width * self.height
    }

    /// The pixel at column `x` of row `y`.
    pub open spec fn pix(&self, x: int, y: int) -> u8 {
        self.data@[y * self.width + x]
    }

    /// Wraps a row-major pixel buffer.
    pub fn new(width: usize, height: usize, data: Vec<u8>) -> (r: Self)
        requires
            data@.len() == width * height,
        ensures
            r.wf(),
            r.width == width,
            r.height == height,
            r.data@ == data@,
    {
        GrayImage { width, height, data }
    }

    /// Reads the pixel at column `x` of row `y`.
    pub fn at(&self, x: usize, y: usize) -> (r: u8)
        requires
            self.wf(),
            x < self.width,
            y < self.height,
        ensures
            r == self.pix(x as int, y as int),
    {
        let n = self.data.len();
        proof {
            assert((y as int) * (self.width as int) + (x as int) < (self.width as int) * (
            self.height as int)) by (nonlinear_arith)
                requires
                    x < self.width,
                    y < self.height,
            ;
        }
        let idx = y * self.width + x;
        self.data[idx]
    }
}

/// Each pixel of `data` driven to 255 where it reaches `t` and to 0 below.
pub open spec fn spec_threshold_map(data: Seq<u8>, t: u8) -> Seq<u8> {
    data.map_values(|p: u8| if p >= t { 255u8 } else { 0u8 })
}

/// Binary threshold: every pixel at or above `t` becomes 255, every other
/// pixel 0.
pub fn threshold(img: &GrayImage, t: u8) -> (r: GrayImage)
    requires
        img.wf(),
    ensures
        r.wf(),
        r.width == img.width,
        r.height == img.height,
        r.data@ == spec_threshold_map(img.data@, t),
{
    let len = img.data.len();
    let mut out: Vec<u8> = Vec::new();
    let mut i: usize = 0;
    while i < len
        invariant
            len == img.data@.len(),
            i <= len,
            out@.len() == i,
            forall|k: int|
                0 <= k < i ==> out@[k] == (if img.data@[k] >= t {
                    255u8
                } else {
                    0u8
                }),
        decreases len - i,
    {
        let p = img.data[i];
        if p >= t {
            out.push(255);
        } else {
            out.push(0);
        }
        i = i + 1;
    }
    proof {
        assert(out@ =~= spec_threshold_map(img.data@, t));
    }
    GrayImage { width: img.width, height: img.height, data: out }
}

/// The nearest in-range start for a requested offset: the offset itself, or
/// the image's extent where the offset lies beyond it.
pub open spec fn spec_clip_start(a: int, limit: int) -> int {
    if a <= limit {
        a
    } else {
        limit
    }
}

/// How much of a requested extent survives clipping against the image.
pub open spec fn spec_clip_len(a: int, l: int, limit: int) -> int {
    let s = spec_clip_start(a, limit);
    if l <= limit - s {
        l
    } else {
        limit - s
    }
}

/// Copies the `w` by `h` rectangle whose top-left corner is `(x0, y0)`,
/// clipped to the image: a rectangle reaching past the right or bottom edge
/// is cut there, and one starting beyond the image comes back empty.
pub fn crop(img: &GrayImage, x0: usize, y0: usize, w: usize, h: usize) -> (r: GrayImage)
    requires
        img.wf(),
    ensures
        r.wf(),
        r.width == spec_clip_len(x0 as int, w as int, img.width as int),
        r.height == spec_clip_len(y0 as int, h as int, img.height as int),
        forall|x: int, y: int|
            0 <= x < r.width && 0 <= y < r.height ==> #[trigger] r.pix(x, y) == img.pix(
                spec_clip_start(x0 as int, img.width as int) + x,
                spec_clip_start(y0 as int, img.height as int) + y,
            ),
{
    let xs = if x0 <= img.width {
        x0
    } else {
        img.width
    };
    let ys = if y0 <= img.height {
        y0
    } else {
        img.height
    };
    let ws = if w <= img.width - xs {
        w
    } else {
        img.width - xs
    };
    let hs = if h <= img.height - ys {
        h
    } else {
        img.height - ys
    };
    crop_within(img, xs, ys, ws, hs)
}

fn crop_within(img: &GrayImage, x0: usize, y0: usize, w: usize, h: usize) -> (r: GrayImage)
    requires
        img.wf(),
        x0 + w <= img.width,
        y0 + h <= img.height,
    ensures
        r.wf(),
        r.width == w,
        r.height == h,
        forall|x: int, y: int|
            0 <= x < w && 0 <= y < h ==> #[trigger] r.pix(x, y) == img.pix(x0 + x, y0 + y),
{
    let mut data: Vec<u8> = Vec::new();
    let mut yy: usize = 0;
    while yy < h
        invariant
            img.wf(),
            x0 + w <= img.width,
            y0 + h <= img.height,
            yy <= h,
            data@.len() == yy * w,
            forall|k: int|
                0 <= k < data@.len() ==> #[trigger] data@[k] == img.pix(
                    x0 + (k % (w as int)),
                    y0 + (k / (w as int)),
                ),
        decreases h - yy,
    {
        let mut xx: usize = 0;
        while xx < w
            invariant
                img.wf(),
                x0 + w <= img.width,
                y0 + h <= img.height,
                yy < h,
                xx <= w,
                data@.len() == yy * w + xx,
                forall|k: int|
                    0 <= k < data@.len() ==> #[trigger] data@[k] == img.pix(
                        x0 + (k % (w as int)),
                        y0 + (k / (w as int)),
                    ),
            decreases w - xx,
        {
            let p = img.at(x0 + xx, y0 + yy);
            data.push(p);
            proof {
                let k = (yy * w + xx) as int;
                assert(k % (w as int) == xx as int && k / (w as int) == yy as int)
                    by (nonlinear_arith)
                    requires
                        0 <= xx < w,
                        0 <= yy,
                        k == yy * w + xx,
                ;
            }
            xx = xx + 1;
        }
        proof {
            assert((yy + 1) * w == yy * w + w) by (nonlinear_arith);
        }
        yy = yy + 1;
    }
    proof {
        assert((h as int) * (w as int) == (w as int) * (h as int)) by (nonlinear_arith);
        assert forall|x: int, y: int| 0 <= x < w && 0 <= y < h implies GrayImage {
            width: w,
            height: h,
            data: data,
        }.pix(x, y) == img.pix(x0 + x, y0 + y) by {
            let k = y * w + x;
            assert(0 <= k < data@.len() && k % (w as int) == x && k / (w as int) == y)
                by (nonlinear_arith)
                requires
                    0 <= x < w,
                    0 <= y < h,
                    k == y * w + x,
                    data@.len() == h * w,
            ;
        }
    }
    GrayImage { width: w, height: h, data }
}

/// How many pixels of row `y`, in the `w` columns from `x0` on, lie strictly
/// below `t`.
pub open spec fn dark_in_row(width: int, data: Seq<u8>, y: int, x0: int, w: int, t: u8) -> nat
    decreases w,
{
    if w <= 0 {
        0
    } else {
        dark_in_row(width, data, y, x0, w - 1, t) + (if data[y * width + x0 + (w - 1)] < t {
            1nat
        } else {
            0nat
        })
    }
}

/// How many pixels of the `w` by `h` rectangle at `(x0, y0)` lie strictly
/// below `t`.
pub open spec fn dark_in_rect(
    width: int,
    data: Seq<u8>,
    x0: int,
    y0: int,
    w: int,
    h: int,
    t: u8,
) -> nat
    decreases h,
{
    if h <= 0 {
        0
    } else {
        dark_in_rect(width, data, x0, y0, w, h - 1, t) + dark_in_row(
            width,
            data,
            y0 + (h - 1),
            x0,
            w,
            t,
        )
    }
}

proof fn lemma_dark_in_row_le(width: int, data: Seq<u8>, y: int, x0: int, w: int, t: u8)
    ensures
        dark_in_row(width, data, y, x0, w, t) <= (if w <= 0 {
            0int
        } else {
            w
        }),
    decreases w,
{
    if w > 0 {
        lemma_dark_in_row_le(width, data, y, x0, w - 1, t);
    }
}

/// Counts the pixels of the given rectangle lying strictly below `t`.
pub fn dark_rect(img: &GrayImage, x0: usize, y0: usize, w: usize, h: usize, t: u8) -> (r: usize)
    requires
        img.wf(),
        x0 + w <= img.width,
        y0 + h <= img.height,
    ensures
        r == dark_in_rect(img.width as int, img.data@, x0 as int, y0 as int, w as int, h as int, t),
{
    let n = img.data.len();
    let mut count: usize = 0;
    let mut yy: usize = 0;
    while yy < h
        invariant
            img.wf(),
            n == img.data@.len(),
            x0 + w <= img.width,
            y0 + h <= img.height,
            yy <= h,
            count <= yy * w,
            count == dark_in_rect(
                img.width as int,
                img.data@,
                x0 as int,
                y0 as int,
                w as int,
                yy as int,
                t,
            ),
        decreases h - yy,
    {
        let mut xx: usize = 0;
        let mut row_count: usize = 0;
        while xx < w
            invariant
                img.wf(),
                x0 + w <= img.width,
                y0 + h <= img.height,
                yy < h,
                xx <= w,
                row_count <= xx,
                row_count == dark_in_row(
                    img.width as int,
                    img.data@,
                    (y0 + yy) as int,
                    x0 as int,
                    xx as int,
                    t,
                ),
            decreases w - xx,
        {
            let p = img.at(x0 + xx, y0 + yy);
            if p < t {
                row_count = row_count + 1;
            }
            xx = xx + 1;
        }
        proof {
            assert(yy * w + w == (yy + 1) * w) by (nonlinear_arith);
            assert((yy + 1) * w <= h * w) by (nonlinear_arith)
                requires
                    yy + 1 <= h,
                    w >= 0,
            ;
            assert(h * w <= img.width * img.height) by (nonlinear_arith)
                requires
                    w <= img.width,
                    h <= img.height,
                    w >= 0,
                    h >= 0,
            ;
        }
        count = count + row_count;
        yy = yy + 1;
    }
    count
}

/// The dark count of a rectangle reads only that rectangle's pixels: two
/// buffers agreeing there have the same count.
pub proof fn lemma_dark_in_rect_frame(
    width: int,
    d1: Seq<u8>,
    d2: Seq<u8>,
    x0: int,
    y0: int,
    w: int,
    h: int,
    t: u8,
)
    requires
        forall|x: int, y: int|
            x0 <= x < x0 + w && y0 <= y < y0 + h ==> d1[y * width + x] == #[trigger] d2[y * width
                + x],
    ensures
        dark_in_rect(width, d1, x0, y0, w, h, t) == dark_in_rect(width, d2, x0, y0, w, h, t),
    decreases h,
{
    if h > 0 {
        lemma_dark_in_rect_frame(width, d1, d2, x0, y0, w, h - 1, t);
        lemma_dark_in_row_frame(width, d1, d2, x0, y0 + (h - 1), w, t, y0, h);
    }
}

proof fn lemma_dark_in_row_frame(
    width: int,
    d1: Seq<u8>,
    d2: Seq<u8>,
    x0: int,
    y: int,
    w: int,
    t: u8,
    y0: int,
    h: int,
)
    requires
        y0 <= y < y0 + h,
        forall|x: int, yy: int|
            x0 <= x < x0 + w && y0 <= yy < y0 + h ==> d1[yy * width + x] == #[trigger] d2[yy * width
                + x],
    ensures
        dark_in_row(width, d1, y, x0, w, t) == dark_in_row(width, d2, y, x0, w, t),
    decreases w,
{
    if w > 0 {
        lemma_dark_in_row_frame(width, d1, d2, x0, y, w - 1, t, y0, h);
        let xi = x0 + (w - 1);
        assert(d1[y * width + xi] == d2[y * width + xi]);
        assert(y * width + x0 + (w - 1) == y * width + xi);
    }
}

} // verus!
