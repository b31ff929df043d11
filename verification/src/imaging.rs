//! Icon bitmaps: finding the opaque part of an icon, and telling square
//! icons with rounded corners from other shapes.
use vstd::prelude::*;

verus! {

/// An RGBA bitmap, four bytes per pixel, row by row.
pub struct RgbaPixels {
    pub width: u32,
    pub height: u32,
    pub data: Vec<u8>,
}

/// The byte count matches the size.
pub open spec fn pixels_wf(img: &RgbaPixels) -> bool {
    img.data@.len() == 4 * (img.width as int) * (img.height as int)
}

/// The alpha byte of pixel `(x, y)`.
pub open spec fn alpha(data: Seq<u8>, width: int, x: int, y: int) -> u8 {
    data[4 * (y * width + x) + 3]
}

/// An alpha value below `limit` (when `below`) or at least `limit`.
pub open spec fn alpha_hits(a: u8, limit: u8, below: bool) -> bool {
    if below {
        a < limit
    } else {
        a >= limit
    }
}

/// Some pixel of the region `[x0, x1) × [y0, y1)` has an alpha that hits.
pub open spec fn any_in(
    data: Seq<u8>,
    width: int,
    x0: int,
    x1: int,
    y0: int,
    y1: int,
    limit: u8,
    below: bool,
) -> bool {
    exists|x: int, y: int|
        x0 <= x < x1 && y0 <= y < y1 && alpha_hits(#[trigger] alpha(data, width, x, y), limit, below)
}

proof fn lemma_pixel_index(w: int, h: int, x: int, y: int)
    requires
        0 <= x < w,
        0 <= y < h,
    ensures
        0 <= y * w + x,
        4 * (y * w + x) + 3 < 4 * w * h,
{
    assert(0 <= y * w) by (nonlinear_arith)
        requires
            0 <= y,
            0 <= w,
    ;
    assert((y + 1) * w <= h * w) by (nonlinear_arith)
        requires
            y + 1 <= h,
            0 <= w,
    ;
    assert((y + 1) * w == y * w + w) by (nonlinear_arith);
    assert(4 * w * h == 4 * (h * w)) by (nonlinear_arith);
}

fn alpha_at(img: &RgbaPixels, x: u32, y: u32) -> (r: u8)
    requires
        pixels_wf(img),
        x < img.width,
        y < img.height,
    ensures
        r == alpha(img.data@, img.width as int, x as int, y as int),
{
    proof {
        lemma_pixel_index(img.width as int, img.height as int, x as int, y as int);
        assert(img.data@.len() == img.data.len());
        assert((y as int) * (img.width as int) + (x as int) < img.data.len());
    }
    let i: usize = (y as usize) * (img.width as usize) + (x as usize);
    img.data[4 * i + 3]
}

/// Whether some pixel of the region has an alpha that hits.
fn scan_region(img: &RgbaPixels, x0: u32, x1: u32, y0: u32, y1: u32, limit: u8, below: bool) -> (r:
    bool)
    requires
        pixels_wf(img),
        x0 <= x1 <= img.width,
        y0 <= y1 <= img.height,
    ensures
        r == any_in(img.data@, img.width as int, x0 as int, x1 as int, y0 as int, y1 as int, limit, below),
{
    let ghost d = img.data@;
    let ghost w = img.width as int;
    let mut y = y0;
    while y < y1
        invariant
            y0 <= y <= y1,
            x0 <= x1 <= img.width,
            y1 <= img.height,
            pixels_wf(img),
            d == img.data@,
            w == img.width as int,
            forall|xx: int, yy: int|
                x0 <= xx < x1 && y0 <= yy < y ==> !alpha_hits(#[trigger] alpha(d, w, xx, yy), limit, below),
        decreases y1 - y,
    {
        let mut x = x0;
        while x < x1
            invariant
                x0 <= x <= x1,
                x1 <= img.width,
                y0 <= y < y1,
                y1 <= img.height,
                pixels_wf(img),
                d == img.data@,
                w == img.width as int,
                forall|xx: int, yy: int|
                    x0 <= xx < x1 && y0 <= yy < y ==> !alpha_hits(#[trigger] alpha(d, w, xx, yy), limit, below),
                forall|xx: int| x0 <= xx < x ==> !alpha_hits(#[trigger] alpha(d, w, xx, y as int), limit, below),
            decreases x1 - x,
        {
            let a = alpha_at(img, x, y);
            let hit = if below {
                a < limit
            } else {
                a >= limit
            };
            if hit {
                proof {
                    assert(alpha_hits(alpha(d, w, x as int, y as int), limit, below));
                }
                return true;
            }
            x = x + 1;
        }
        y = y + 1;
    }
    false
}

// ---------------------------------------------------------------------------
// First and last positions
// ---------------------------------------------------------------------------
/// The least `i` in `[lo, hi)` with `p(i)`.
pub open spec fn first_where(lo: int, hi: int, p: spec_fn(int) -> bool) -> Option<int> {
    if exists|i: int| lo <= i < hi && #[trigger] p(i) {
        Some(choose|i: int| lo <= i < hi && #[trigger] p(i) && forall|j: int| lo <= j < i ==> !#[trigger] p(j))
    } else {
        None
    }
}

/// The greatest `i` in `[lo, hi)` with `p(i)`.
pub open spec fn last_where(lo: int, hi: int, p: spec_fn(int) -> bool) -> Option<int> {
    if exists|i: int| lo <= i < hi && #[trigger] p(i) {
        Some(choose|i: int| lo <= i < hi && #[trigger] p(i) && forall|j: int| i < j < hi ==> !#[trigger] p(j))
    } else {
        None
    }
}

proof fn lemma_first_where_is(lo: int, hi: int, p: spec_fn(int) -> bool, i: int)
    requires
        lo <= i < hi,
        p(i),
        forall|j: int| lo <= j < i ==> !#[trigger] p(j),
    ensures
        first_where(lo, hi, p) == Some(i),
{
    let k = choose|k: int| lo <= k < hi && #[trigger] p(k) && forall|j: int| lo <= j < k ==> !#[trigger] p(j);
    assert(lo <= k < hi && #[trigger] p(k) && forall|j: int| lo <= j < k ==> !#[trigger] p(j));
    if k < i {
        assert(!p(k));
    }
    if i < k {
        assert(!p(i));
    }
}

proof fn lemma_last_where_is(lo: int, hi: int, p: spec_fn(int) -> bool, i: int)
    requires
        lo <= i < hi,
        p(i),
        forall|j: int| i < j < hi ==> !#[trigger] p(j),
    ensures
        last_where(lo, hi, p) == Some(i),
{
    let k = choose|k: int| lo <= k < hi && #[trigger] p(k) && forall|j: int| k < j < hi ==> !#[trigger] p(j);
    assert(lo <= k < hi && #[trigger] p(k) && forall|j: int| k < j < hi ==> !#[trigger] p(j));
    if k < i {
        assert(!p(i));
    }
    if i < k {
        assert(!p(k));
    }
}

// ---------------------------------------------------------------------------
// The opaque part of an icon
// ---------------------------------------------------------------------------
/// Row `y` has a pixel that is not fully transparent.
pub open spec fn row_inked(data: Seq<u8>, width: int) -> spec_fn(int) -> bool {
    |y: int| any_in(data, width, 0, width, y, y + 1, 1, false)
}

/// Column `x` has, between rows `top` (included) and `bottom` (excluded),
/// a pixel that is not fully transparent.
pub open spec fn col_inked(data: Seq<u8>, width: int, top: int, bottom: int) -> spec_fn(int) -> bool {
    |x: int| any_in(data, width, x, x + 1, top, bottom, 1, false)
}

/// (left, top, right, bottom) of the part to keep: the first and last rows
/// with a visible pixel, then the first and last columns with a visible
/// pixel in those rows (bottom row included); none when a search finds
/// nothing.
#[verifier::opaque]
pub open spec fn spec_crop_box(img: &RgbaPixels) -> Option<(int, int, int, int)> {
    let d = img.data@;
    let w = img.width as int;
    let h = img.height as int;
    match first_where(0, h, row_inked(d, w)) {
        None => None,
        Some(top) => match last_where(top, h, row_inked(d, w)) {
            None => None,
            Some(bottom) => match first_where(0, w, col_inked(d, w, top, bottom + 1)) {
                None => None,
                Some(left) => match last_where(left, w, col_inked(d, w, top, bottom + 1)) {
                    None => None,
                    Some(right) => Some((left, top, right, bottom)),
                },
            },
        },
    }
}

fn first_row(img: &RgbaPixels, lo: u32, hi: u32) -> (r: Option<u32>)
    requires
        pixels_wf(img),
        lo <= hi <= img.height,
    ensures
        r matches Some(y) ==> lo <= y < hi && first_where(lo as int, hi as int, row_inked(img.data@, img.width as int)) == Some(y as int),
        r is None ==> first_where(lo as int, hi as int, row_inked(img.data@, img.width as int)) is None,
{
    let ghost p = row_inked(img.data@, img.width as int);
    let mut y = lo;
    while y < hi
        invariant
            lo <= y <= hi,
            hi <= img.height,
            pixels_wf(img),
            p == row_inked(img.data@, img.width as int),
            forall|j: int| lo <= j < y ==> !#[trigger] p(j),
        decreases hi - y,
    {
        if scan_region(img, 0, img.width, y, y + 1, 1, false) {
            proof {
                lemma_first_where_is(lo as int, hi as int, p, y as int);
            }
            return Some(y);
        }
        y = y + 1;
    }
    None
}

fn last_row(img: &RgbaPixels, lo: u32, hi: u32) -> (r: Option<u32>)
    requires
        pixels_wf(img),
        lo <= hi <= img.height,
    ensures
        r matches Some(y) ==> lo <= y < hi && last_where(lo as int, hi as int, row_inked(img.data@, img.width as int)) == Some(y as int),
        r is None ==> last_where(lo as int, hi as int, row_inked(img.data@, img.width as int)) is None,
{
    let ghost p = row_inked(img.data@, img.width as int);
    let mut y = hi;
    while y > lo
        invariant
            lo <= y <= hi,
            hi <= img.height,
            pixels_wf(img),
            p == row_inked(img.data@, img.width as int),
            forall|j: int| y <= j < hi ==> !#[trigger] p(j),
        decreases y - lo,
    {
        if scan_region(img, 0, img.width, y - 1, y, 1, false) {
            proof {
                lemma_last_where_is(lo as int, hi as int, p, y - 1);
            }
            return Some(y - 1);
        }
        y = y - 1;
    }
    None
}

fn first_col(img: &RgbaPixels, lo: u32, hi: u32, top: u32, bottom: u32) -> (r: Option<u32>)
    requires
        pixels_wf(img),
        lo <= hi <= img.width,
        top <= bottom <= img.height,
    ensures
        r matches Some(x) ==> lo <= x < hi && first_where(lo as int, hi as int, col_inked(img.data@, img.width as int, top as int, bottom as int)) == Some(x as int),
        r is None ==> first_where(lo as int, hi as int, col_inked(img.data@, img.width as int, top as int, bottom as int)) is None,
{
    let ghost p = col_inked(img.data@, img.width as int, top as int, bottom as int);
    let mut x = lo;
    while x < hi
        invariant
            lo <= x <= hi,
            hi <= img.width,
            top <= bottom <= img.height,
            pixels_wf(img),
            p == col_inked(img.data@, img.width as int, top as int, bottom as int),
            forall|j: int| lo <= j < x ==> !#[trigger] p(j),
        decreases hi - x,
    {
        if scan_region(img, x, x + 1, top, bottom, 1, false) {
            proof {
                lemma_first_where_is(lo as int, hi as int, p, x as int);
            }
            return Some(x);
        }
        x = x + 1;
    }
    None
}

fn last_col(img: &RgbaPixels, lo: u32, hi: u32, top: u32, bottom: u32) -> (r: Option<u32>)
    requires
        pixels_wf(img),
        lo <= hi <= img.width,
        top <= bottom <= img.height,
    ensures
        r matches Some(x) ==> lo <= x < hi && last_where(lo as int, hi as int, col_inked(img.data@, img.width as int, top as int, bottom as int)) == Some(x as int),
        r is None ==> last_where(lo as int, hi as int, col_inked(img.data@, img.width as int, top as int, bottom as int)) is None,
{
    let ghost p = col_inked(img.data@, img.width as int, top as int, bottom as int);
    let mut x = hi;
    while x > lo
        invariant
            lo <= x <= hi,
            hi <= img.width,
            top <= bottom <= img.height,
            pixels_wf(img),
            p == col_inked(img.data@, img.width as int, top as int, bottom as int),
            forall|j: int| x <= j < hi ==> !#[trigger] p(j),
        decreases x - lo,
    {
        if scan_region(img, x - 1, x, top, bottom, 1, false) {
            proof {
                lemma_last_where_is(lo as int, hi as int, p, x - 1);
            }
            return Some(x - 1);
        }
        x = x - 1;
    }
    None
}

/// The part of the icon to keep (see `spec_crop_box`).
pub fn crop_box(img: &RgbaPixels) -> (r: Option<(u32, u32, u32, u32)>)
    requires
        pixels_wf(img),
    ensures
        r matches Some(b) ==> spec_crop_box(img) == Some((b.0 as int, b.1 as int, b.2 as int, b.3 as int))
            && b.0 <= b.2 < img.width && b.1 <= b.3 < img.height,
        r is None ==> spec_crop_box(img) is None,
{
    reveal(spec_crop_box);
    let top = match first_row(img, 0, img.height) {
        Some(t) => t,
        None => return None,
    };
    let bottom = match last_row(img, top, img.height) {
        Some(b) => b,
        None => return None,
    };
    let left = match first_col(img, 0, img.width, top, bottom + 1) {
        Some(l) => l,
        None => return None,
    };
    let right = match last_col(img, left, img.width, top, bottom + 1) {
        Some(r) => r,
        None => return None,
    };
    Some((left, top, right, bottom))
}


/// The byte of the source bitmap that byte `i` of a `cw`-pixel-wide cut at
/// `(left, top)` copies.
pub open spec fn cut_source(width: int, left: int, top: int, cw: int, i: int) -> int {
    4 * ((top + (i / 4) / cw) * width + left + (i / 4) % cw) + i % 4
}

/// The bytes of the `cw` × `ch` rectangle at `(left, top)`.
pub open spec fn cut_bytes(img: &RgbaPixels, left: int, top: int, cw: int, ch: int) -> Seq<u8> {
    Seq::new((4 * cw * ch) as nat, |i: int| img.data@[cut_source(img.width as int, left, top, cw, i)])
}

proof fn lemma_cut_index(w: int, h: int, left: int, top: int, cw: int, ch: int, i: int)
    requires
        0 <= left,
        0 <= top,
        0 < cw,
        0 < ch,
        left + cw <= w,
        top + ch <= h,
        0 <= i < 4 * cw * ch,
    ensures
        0 <= (i / 4) / cw < ch,
        0 <= (i / 4) % cw < cw,
        0 <= cut_source(w, left, top, cw, i) < 4 * w * h,
{
    let p = i / 4;
    assert(0 <= p < cw * ch) by (nonlinear_arith)
        requires
            0 <= i < 4 * cw * ch,
            p == i / 4,
    ;
    assert(0 <= p / cw < ch) by (nonlinear_arith)
        requires
            0 <= p < cw * ch,
            0 < cw,
    ;
    assert(0 <= p % cw < cw) by (nonlinear_arith)
        requires
            0 < cw,
    ;
    lemma_pixel_index(w, h, left + p % cw, top + p / cw);
    assert(0 <= i % 4 < 4) by (nonlinear_arith);
}

/// A copy of the `cw` × `ch` rectangle at `(left, top)`.
pub fn cut_rect(img: &RgbaPixels, left: u32, top: u32, cw: u32, ch: u32) -> (r: RgbaPixels)
    requires
        pixels_wf(img),
        0 < cw,
        0 < ch,
        left + cw <= img.width,
        top + ch <= img.height,
    ensures
        r.width == cw,
        r.height == ch,
        r.data@ == cut_bytes(img, left as int, top as int, cw as int, ch as int),
        pixels_wf(&r),
{
    let ghost w = img.width as int;
    let ghost h = img.height as int;
    proof {
        assert((cw as int) * (ch as int) <= w * h) by (nonlinear_arith)
            requires
                0 < cw <= w,
                0 < ch <= h,
        ;
        assert(img.data@.len() == img.data.len());
        assert(4 * (cw as int) * (ch as int) <= 4 * w * h) by (nonlinear_arith)
            requires
                (cw as int) * (ch as int) <= w * h,
        ;
        assert(4 * (cw as int) <= 4 * (cw as int) * (ch as int)) by (nonlinear_arith)
            requires
                0 < cw,
                0 < ch,
        ;
    }
    let n: usize = 4 * (cw as usize) * (ch as usize);
    let mut out: Vec<u8> = Vec::new();
    let mut i: usize = 0;
    while i < n
        invariant
            i <= n,
            n == 4 * (cw as int) * (ch as int),
            n <= img.data@.len(),
            pixels_wf(img),
            w == img.width as int,
            h == img.height as int,
            0 < cw,
            0 < ch,
            left + cw <= img.width,
            top + ch <= img.height,
            out@ == cut_bytes(img, left as int, top as int, cw as int, ch as int).take(i as int),
        decreases n - i,
    {
        proof {
            lemma_cut_index(w, h, left as int, top as int, cw as int, ch as int, i as int);
            assert(img.data@.len() == img.data.len());
        }
        let p: usize = i / 4;
        let yy: usize = p / (cw as usize);
        let xx: usize = p % (cw as usize);
        let src: usize = 4 * (((top as usize) + yy) * (img.width as usize) + (left as usize) + xx) + i % 4;
        out.push(img.data[src]);
        proof {
            assert(out@ =~= cut_bytes(img, left as int, top as int, cw as int, ch as int).take(i + 1));
        }
        i = i + 1;
    }
    proof {
        assert(cut_bytes(img, left as int, top as int, cw as int, ch as int).take(n as int) =~= cut_bytes(
            img,
            left as int,
            top as int,
            cw as int,
            ch as int,
        ));
    }
    RgbaPixels { width: cw, height: ch, data: out }
}

/// The icon without its fully transparent border: the rectangle of
/// `spec_crop_box`, or one transparent pixel when there is none.
pub fn crop_transparent_borders(img: &RgbaPixels) -> (r: RgbaPixels)
    requires
        pixels_wf(img),
    ensures
        pixels_wf(&r),
        match spec_crop_box(img) {
            Some((l, t, rr, b)) => r.width == rr - l + 1 && r.height == b - t + 1 && r.data@
                == cut_bytes(img, l, t, rr - l + 1, b - t + 1),
            None => r.width == 1 && r.height == 1 && r.data@ == seq![0u8, 0u8, 0u8, 0u8],
        },
{
    match crop_box(img) {
        Some((l, t, rr, b)) => cut_rect(img, l, t, rr - l + 1, b - t + 1),
        None => {
            let data: Vec<u8> = vec![0, 0, 0, 0];
            RgbaPixels { width: 1, height: 1, data }
        },
    }
}

proof fn lemma_least_exists(lo: int, p: spec_fn(int) -> bool, i: int)
    requires
        lo <= i,
        p(i),
    ensures
        exists|k: int| lo <= k <= i && #[trigger] p(k) && forall|j: int| lo <= j < k ==> !#[trigger] p(j),
    decreases i - lo,
{
    if exists|j: int| lo <= j < i && #[trigger] p(j) {
        let j = choose|j: int| lo <= j < i && #[trigger] p(j);
        lemma_least_exists(lo, p, j);
    } else {
        assert(lo <= i <= i && p(i) && forall|j: int| lo <= j < i ==> !#[trigger] p(j));
    }
}

proof fn lemma_greatest_exists(hi: int, p: spec_fn(int) -> bool, i: int)
    requires
        i < hi,
        p(i),
    ensures
        exists|k: int| i <= k < hi && #[trigger] p(k) && forall|j: int| k < j < hi ==> !#[trigger] p(j),
    decreases hi - i,
{
    if exists|j: int| i < j < hi && #[trigger] p(j) {
        let j = choose|j: int| i < j < hi && #[trigger] p(j);
        lemma_greatest_exists(hi, p, j);
    } else {
        assert(i <= i < hi && p(i) && forall|j: int| i < j < hi ==> !#[trigger] p(j));
    }
}

proof fn lemma_first_where_some(lo: int, hi: int, p: spec_fn(int) -> bool, t: int)
    requires
        first_where(lo, hi, p) == Some(t),
    ensures
        lo <= t < hi,
        p(t),
        forall|j: int| lo <= j < t ==> !#[trigger] p(j),
{
    let i = choose|i: int| lo <= i < hi && #[trigger] p(i);
    lemma_least_exists(lo, p, i);
}

proof fn lemma_last_where_some(lo: int, hi: int, p: spec_fn(int) -> bool, b: int)
    requires
        last_where(lo, hi, p) == Some(b),
    ensures
        lo <= b < hi,
        p(b),
        forall|j: int| b < j < hi ==> !#[trigger] p(j),
{
    let i = choose|i: int| lo <= i < hi && #[trigger] p(i);
    lemma_greatest_exists(hi, p, i);
}

/// Cropping removes only transparent border: every visible pixel lies in
/// the kept rectangle.
pub proof fn lemma_crop_keeps_visible_pixels(img: &RgbaPixels, l: int, t: int, r: int, b: int, x: int, y: int)
    requires
        spec_crop_box(img) == Some((l, t, r, b)),
        0 <= x < img.width,
        0 <= y < img.height,
        alpha(img.data@, img.width as int, x, y) >= 1,
    ensures
        l <= x <= r,
        t <= y <= b,
{
    reveal(spec_crop_box);
    let d = img.data@;
    let w = img.width as int;
    let h = img.height as int;
    let rows = row_inked(d, w);
    let cols = col_inked(d, w, t, b + 1);
    assert(first_where(0, h, rows) == Some(t));
    lemma_first_where_some(0, h, rows, t);
    assert(last_where(t, h, rows) == Some(b));
    lemma_last_where_some(t, h, rows, b);
    assert(first_where(0, w, cols) == Some(l));
    lemma_first_where_some(0, w, cols, l);
    assert(last_where(l, w, cols) == Some(r));
    lemma_last_where_some(l, w, cols, r);
    assert(alpha_hits(alpha(d, w, x, y), 1, false));
    assert(rows(y));
    assert(t <= y);
    assert(cols(x));
}

/// Cropping leaves no transparent outer row or column: the kept top and
/// bottom rows, and the kept left and right columns, each hold a visible
/// pixel of the rectangle.
pub proof fn lemma_crop_box_is_tight(img: &RgbaPixels, l: int, t: int, r: int, b: int)
    requires
        spec_crop_box(img) == Some((l, t, r, b)),
    ensures
        any_in(img.data@, img.width as int, l, r + 1, t, t + 1, 1, false),
        any_in(img.data@, img.width as int, l, r + 1, b, b + 1, 1, false),
        any_in(img.data@, img.width as int, l, l + 1, t, b + 1, 1, false),
        any_in(img.data@, img.width as int, r, r + 1, t, b + 1, 1, false),
{
    reveal(spec_crop_box);
    let d = img.data@;
    let w = img.width as int;
    let h = img.height as int;
    let rows = row_inked(d, w);
    let cols = col_inked(d, w, t, b + 1);
    lemma_first_where_some(0, h, rows, t);
    lemma_last_where_some(t, h, rows, b);
    lemma_first_where_some(0, w, cols, l);
    lemma_last_where_some(l, w, cols, r);
    assert(rows(t));
    let (xt, yt) = choose|x: int, y: int| 0 <= x < w && t <= y < t + 1 && alpha_hits(#[trigger] alpha(d, w, x, y), 1, false);
    lemma_crop_keeps_visible_pixels(img, l, t, r, b, xt, yt);
    assert(rows(b));
    let (xb, yb) = choose|x: int, y: int| 0 <= x < w && b <= y < b + 1 && alpha_hits(#[trigger] alpha(d, w, x, y), 1, false);
    lemma_crop_keeps_visible_pixels(img, l, t, r, b, xb, yb);
    assert(cols(l));
    assert(cols(r));
}

/// There is no rectangle to keep exactly when every pixel is fully
/// transparent.
pub proof fn lemma_crop_box_none_iff_transparent(img: &RgbaPixels)
    ensures
        spec_crop_box(img) is None <==> !any_in(
            img.data@,
            img.width as int,
            0,
            img.width as int,
            0,
            img.height as int,
            1,
            false,
        ),
{
    reveal(spec_crop_box);
    let d = img.data@;
    let w = img.width as int;
    let h = img.height as int;
    let rows = row_inked(d, w);
    if any_in(d, w, 0, w, 0, h, 1, false) {
        let (x0, y0) = choose|x: int, y: int| 0 <= x < w && 0 <= y < h && alpha_hits(#[trigger] alpha(d, w, x, y), 1, false);
        assert(rows(y0));
        lemma_least_exists(0, rows, y0);
        let t = first_where(0, h, rows)->0;
        lemma_first_where_some(0, h, rows, t);
        assert(rows(t));
        let b = last_where(t, h, rows)->0;
        lemma_greatest_exists(h, rows, t);
        lemma_last_where_some(t, h, rows, b);
        let cols = col_inked(d, w, t, b + 1);
        let (xt, yt) = choose|x: int, y: int| 0 <= x < w && t <= y < t + 1 && alpha_hits(#[trigger] alpha(d, w, x, y), 1, false);
        assert(cols(xt));
        let l = first_where(0, w, cols)->0;
        lemma_first_where_some(0, w, cols, l);
        lemma_greatest_exists(w, cols, l);
        let r = last_where(l, w, cols)->0;
        lemma_last_where_some(l, w, cols, r);
    } else {
        if first_where(0, h, rows) is Some {
            let t = first_where(0, h, rows)->0;
            lemma_first_where_some(0, h, rows, t);
            assert(rows(t));
            let (xt, yt) = choose|x: int, y: int| 0 <= x < w && t <= y < t + 1 && alpha_hits(#[trigger] alpha(d, w, x, y), 1, false);
        }
    }
}

// ---------------------------------------------------------------------------
// Square icons
// ---------------------------------------------------------------------------
/// Alpha values below this count as see-through.
pub const OPACITY_THRESHOLD: u8 = 254;

/// Some pixel of a `corner` × `corner` square at one of the four corners is
/// see-through.
pub open spec fn corner_see_through(data: Seq<u8>, w: int, h: int, corner: int) -> bool {
    ||| any_in(data, w, 0, corner, 0, corner, OPACITY_THRESHOLD, true)
    ||| any_in(data, w, w - corner, w, 0, corner, OPACITY_THRESHOLD, true)
    ||| any_in(data, w, 0, corner, h - corner, h, OPACITY_THRESHOLD, true)
    ||| any_in(data, w, w - corner, w, h - corner, h, OPACITY_THRESHOLD, true)
}

/// With margins and corner size already measured: the inside (the bitmap
/// without its margins) is fully opaque, and, unless the corner size is
/// zero, some corner is see-through (the icon is a square with rounded
/// corners).
pub open spec fn spec_square_verdict(img: &RgbaPixels, margin_x: int, margin_y: int, corner: int) -> bool {
    let d = img.data@;
    let w = img.width as int;
    let h = img.height as int;
    &&& !any_in(d, w, margin_x, w - margin_x, margin_y, h - margin_y, OPACITY_THRESHOLD, true)
    &&& (corner == 0 || corner_see_through(d, w, h, corner))
}

pub fn square_icon_verdict(img: &RgbaPixels, margin_x: u32, margin_y: u32, corner: u32) -> (r: bool)
    requires
        pixels_wf(img),
        2 * margin_x <= img.width,
        2 * margin_y <= img.height,
        corner <= img.width,
        corner <= img.height,
    ensures
        r == spec_square_verdict(img, margin_x as int, margin_y as int, corner as int),
{
    let w = img.width;
    let h = img.height;
    if scan_region(img, margin_x, w - margin_x, margin_y, h - margin_y, OPACITY_THRESHOLD, true) {
        return false;
    }
    if corner == 0 {
        return true;
    }
    scan_region(img, 0, corner, 0, corner, OPACITY_THRESHOLD, true) || scan_region(
        img,
        w - corner,
        w,
        0,
        corner,
        OPACITY_THRESHOLD,
        true,
    ) || scan_region(img, 0, corner, h - corner, h, OPACITY_THRESHOLD, true) || scan_region(
        img,
        w - corner,
        w,
        h - corner,
        h,
        OPACITY_THRESHOLD,
        true,
    )
}

/// The bytes with the first and third byte of every pixel swapped, in each
/// whole block of 16 bytes; bytes after the last whole block stay.
pub open spec fn bgra_swapped(d: Seq<u8>) -> Seq<u8> {
    let whole = d.len() as int / 16 * 16;
    Seq::new(
        d.len(),
        |i: int|
            if i < whole && i % 4 == 0 {
                d[i + 2]
            } else if i < whole && i % 4 == 2 {
                d[i - 2]
            } else {
                d[i]
            },
    )
}

/// Turns BGRA pixels into RGBA pixels in place, 16 bytes (four pixels) at
/// a time.
pub fn bgra_to_rgba(data: &mut [u8])
    ensures
        final(data)@ == bgra_swapped(old(data)@),
{
    let ghost before = data@;
    let whole = data.len() / 16 * 16;
    let mut i: usize = 0;
    while i < whole
        invariant
            whole == before.len() as int / 16 * 16,
            whole <= data@.len(),
            i <= whole,
            i % 4 == 0,
            data@.len() == before.len(),
            forall|j: int| 0 <= j < i ==> data@[j] == #[trigger] bgra_swapped(before)[j],
            forall|j: int| i <= j < data@.len() ==> #[trigger] data@[j] == before[j],
        decreases whole - i,
    {
        let blue = data[i];
        let red = data[i + 2];
        data[i] = red;
        data[i + 2] = blue;
        proof {
            assert(bgra_swapped(before)[i as int] == before[i + 2]);
            assert(bgra_swapped(before)[i + 1] == before[i + 1]);
            assert(bgra_swapped(before)[i + 2] == before[i as int]);
            assert(bgra_swapped(before)[i + 3] == before[i + 3]);
        }
        i = i + 4;
    }
    proof {
        assert forall|j: int| 0 <= j < data@.len() implies data@[j] == bgra_swapped(before)[j] by {
            if j >= whole {
                assert(data@[j] == before[j]);
            }
        }
        assert(data@ =~= bgra_swapped(before));
    }
}

} // verus!
