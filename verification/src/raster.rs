//! Triangle coverage by edge functions.
//!
//! Vertices arrive snapped to a grid of 256 positions per pixel, so every
//! quantity the rasterizer compares is an exact integer. A pixel belongs to a
//! triangle when its centre lies inside or on the boundary, whichever way the
//! triangle winds; a triangle without area covers nothing. For each covered
//! pixel the three edge functions at its centre are handed out as
//! unnormalised barycentric weights: they add up to the doubled signed area,
//! and dividing each by that area gives the share of the vertex opposite the
//! edge.

use vstd::prelude::*;

verus! {

/// Grid positions per pixel along each axis.
pub const SUBPIXEL: i32 = 256;

/// Offset of a pixel's centre from its corner, in grid positions.
pub const HALF_PIXEL: i32 = 128;

/// A position on the sub-pixel grid.
#[derive(Clone, Copy, Debug, PartialEq, Eq, Structural)]
pub struct ScreenPoint {
    pub x: i32,
    pub y: i32,
}

/// A covered pixel with the edge functions at its centre.
///
/// `w0`, `w1` and `w2` weigh the first, second and third vertex.
#[derive(Clone, Copy, Debug, PartialEq, Eq, Structural)]
pub struct Sample {
    pub x: u32,
    pub y: u32,
    pub w0: i128,
    pub w1: i128,
    pub w2: i128,
}

/// Twice the signed area of the triangle `(a, b, p)`.
pub open spec fn edge(ax: int, ay: int, bx: int, by: int, px: int, py: int) -> int {
    (bx - ax) * (py - ay) - (by - ay) * (px - ax)
}

/// The grid coordinate of the centre of pixel `p` along one axis.
pub open spec fn center(p: int) -> int {
    p * SUBPIXEL + HALF_PIXEL
}

/// Twice the signed area of the triangle.
pub open spec fn doubled_area(a: ScreenPoint, b: ScreenPoint, c: ScreenPoint) -> int {
    edge(a.x as int, a.y as int, b.x as int, b.y as int, c.x as int, c.y as int)
}

/// The weight of vertex `a` at the centre of pixel `(x, y)`.
pub open spec fn weight_a(b: ScreenPoint, c: ScreenPoint, x: int, y: int) -> int {
    edge(b.x as int, b.y as int, c.x as int, c.y as int, center(x), center(y))
}

/// The weight of vertex `b` at the centre of pixel `(x, y)`.
pub open spec fn weight_b(c: ScreenPoint, a: ScreenPoint, x: int, y: int) -> int {
    edge(c.x as int, c.y as int, a.x as int, a.y as int, center(x), center(y))
}

/// The weight of vertex `c` at the centre of pixel `(x, y)`.
pub open spec fn weight_c(a: ScreenPoint, b: ScreenPoint, x: int, y: int) -> int {
    edge(a.x as int, a.y as int, b.x as int, b.y as int, center(x), center(y))
}

/// Whether the centre of pixel `(x, y)` lies in the closed triangle and the
/// triangle has area.
pub open spec fn covered(a: ScreenPoint, b: ScreenPoint, c: ScreenPoint, x: int, y: int) -> bool {
    let area = doubled_area(a, b, c);
    let w0 = weight_a(b, c, x, y);
    let w1 = weight_b(c, a, x, y);
    let w2 = weight_c(a, b, x, y);
    ||| area > 0 && w0 >= 0 && w1 >= 0 && w2 >= 0
    ||| area < 0 && w0 <= 0 && w1 <= 0 && w2 <= 0
}

/// Whether `s` is a covered pixel of the screen that carries its weights.
pub open spec fn sample_of(
    a: ScreenPoint,
    b: ScreenPoint,
    c: ScreenPoint,
    width: u32,
    height: u32,
    s: Sample,
) -> bool {
    &&& s.x < width
    &&& s.y < height
    &&& covered(a, b, c, s.x as int, s.y as int)
    &&& s.w0 == weight_a(b, c, s.x as int, s.y as int)
    &&& s.w1 == weight_b(c, a, s.x as int, s.y as int)
    &&& s.w2 == weight_c(a, b, s.x as int, s.y as int)
}

/// Whether pixel `(x1, y1)` comes before pixel `(x2, y2)` in scan order: rows
/// from the top, each row from the left.
pub open spec fn scans_before(x1: int, y1: int, x2: int, y2: int) -> bool {
    y1 < y2 || (y1 == y2 && x1 < x2)
}

/// Whether some sample of `samples` stands at pixel `(x, y)`.
pub open spec fn has_sample(samples: Seq<Sample>, x: int, y: int) -> bool {
    exists|i: int| 0 <= i < samples.len() && (#[trigger] samples[i]).x == x && samples[i].y == y
}

/// Whether `samples` is the coverage of the triangle on a screen of the given
/// size: every entry is a covered pixel with its weights, every covered pixel
/// of the screen has an entry, and the entries stand in scan order, so none
/// is repeated.
pub open spec fn is_coverage(
    a: ScreenPoint,
    b: ScreenPoint,
    c: ScreenPoint,
    width: u32,
    height: u32,
    samples: Seq<Sample>,
) -> bool {
    &&& forall|i: int|
        0 <= i < samples.len() ==> sample_of(a, b, c, width, height, #[trigger] samples[i])
    &&& forall|x: int, y: int|
        0 <= x < width && 0 <= y < height && #[trigger] covered(a, b, c, x, y) ==> has_sample(
            samples,
            x,
            y,
        )
    &&& forall|i: int, j: int|
        0 <= i < j < samples.len() ==> scans_before(
            (#[trigger] samples[i]).x as int,
            samples[i].y as int,
            (#[trigger] samples[j]).x as int,
            samples[j].y as int,
        )
}

/// The smallest of three coordinates.
pub open spec fn min3(p: int, q: int, r: int) -> int {
    if p <= q && p <= r {
        p
    } else if q <= r {
        q
    } else {
        r
    }
}

/// The largest of three coordinates.
pub open spec fn max3(p: int, q: int, r: int) -> int {
    if p >= q && p >= r {
        p
    } else if q >= r {
        q
    } else {
        r
    }
}

/// An edge function written out over the coordinates.
pub proof fn lemma_edge_expanded(ax: int, ay: int, bx: int, by: int, px: int, py: int)
    ensures
        edge(ax, ay, bx, by, px, py) == ax * by - ax * py + bx * py - bx * ay + px * ay - px * by,
{
    assert((bx - ax) * (py - ay) == bx * py - bx * ay - ax * py + ax * ay) by (nonlinear_arith);
    assert((by - ay) * (px - ax) == px * by - ax * by - px * ay + ax * ay) by (nonlinear_arith);
}

/// The three edge functions at any point add up to the doubled area.
pub proof fn lemma_weights_sum(
    ax: int,
    ay: int,
    bx: int,
    by: int,
    cx: int,
    cy: int,
    px: int,
    py: int,
)
    ensures
        edge(bx, by, cx, cy, px, py) + edge(cx, cy, ax, ay, px, py) + edge(ax, ay, bx, by, px, py)
            == edge(ax, ay, bx, by, cx, cy),
{
    lemma_edge_expanded(bx, by, cx, cy, px, py);
    lemma_edge_expanded(cx, cy, ax, ay, px, py);
    lemma_edge_expanded(ax, ay, bx, by, px, py);
    lemma_edge_expanded(ax, ay, bx, by, cx, cy);
}

/// A determinant with two equal rows vanishes: the edge functions, written
/// over the vertices' offsets from the point, weigh those offsets to zero.
proof fn lemma_offsets_cancel(da: int, db: int, dc: int, ea: int, eb: int, ec: int)
    ensures
        (db * ec - dc * eb) * da + (dc * ea - da * ec) * db + (da * eb - db * ea) * dc == 0,
        (db * ec - dc * eb) * ea + (dc * ea - da * ec) * eb + (da * eb - db * ea) * ec == 0,
{
    assert((db * ec - dc * eb) * da + (dc * ea - da * ec) * db + (da * eb - db * ea) * dc == 0)
        by (nonlinear_arith);
    assert((db * ec - dc * eb) * ea + (dc * ea - da * ec) * eb + (da * eb - db * ea) * ec == 0)
        by (nonlinear_arith);
}

/// An edge function over the offsets of its two vertices from the point.
proof fn lemma_edge_by_offsets(ax: int, ay: int, bx: int, by: int, px: int, py: int)
    ensures
        edge(ax, ay, bx, by, px, py) == (ax - px) * (by - py) - (bx - px) * (ay - py),
{
    lemma_edge_expanded(ax, ay, bx, by, px, py);
    assert((ax - px) * (by - py) == ax * by - ax * py - px * by + px * py) by (nonlinear_arith);
    assert((bx - px) * (ay - py) == bx * ay - bx * py - px * ay + px * py) by (nonlinear_arith);
}

/// The edge functions weigh the vertices' offsets from the point to zero,
/// along either axis: the point is the weighted mean of the vertices.
pub proof fn lemma_weighted_mean(
    ax: int,
    ay: int,
    bx: int,
    by: int,
    cx: int,
    cy: int,
    px: int,
    py: int,
)
    ensures
        edge(bx, by, cx, cy, px, py) * (ax - px) + edge(cx, cy, ax, ay, px, py) * (bx - px) + edge(
            ax,
            ay,
            bx,
            by,
            px,
            py,
        ) * (cx - px) == 0,
        edge(bx, by, cx, cy, px, py) * (ay - py) + edge(cx, cy, ax, ay, px, py) * (by - py) + edge(
            ax,
            ay,
            bx,
            by,
            px,
            py,
        ) * (cy - py) == 0,
{
    lemma_edge_by_offsets(bx, by, cx, cy, px, py);
    lemma_edge_by_offsets(cx, cy, ax, ay, px, py);
    lemma_edge_by_offsets(ax, ay, bx, by, px, py);
    lemma_offsets_cancel(ax - px, bx - px, cx - px, ay - py, by - py, cy - py);
}

/// A product keeps at least the size of a factor whose partner is not zero.
proof fn lemma_scaled(w: int, d: int)
    ensures
        w >= 0 && d >= 1 ==> w * d >= w,
        w <= 0 && d >= 1 ==> w * d <= w,
        w >= 0 && d <= -1 ==> w * d <= -w,
        w <= 0 && d <= -1 ==> w * d >= -w,
{
    assert(w >= 0 && d >= 1 ==> w * d >= w) by (nonlinear_arith);
    assert(w <= 0 && d >= 1 ==> w * d <= w) by (nonlinear_arith);
    assert(w >= 0 && d <= -1 ==> w * d <= -w) by (nonlinear_arith);
    assert(w <= 0 && d <= -1 ==> w * d >= -w) by (nonlinear_arith);
}

/// Three weights of one sign, not all zero, cannot weigh three offsets of one
/// strict sign to zero.
proof fn lemma_mean_within(w0: int, w1: int, w2: int, d0: int, d1: int, d2: int)
    requires
        (w0 >= 0 && w1 >= 0 && w2 >= 0) || (w0 <= 0 && w1 <= 0 && w2 <= 0),
        w0 + w1 + w2 != 0,
        w0 * d0 + w1 * d1 + w2 * d2 == 0,
    ensures
        !(d0 >= 1 && d1 >= 1 && d2 >= 1),
        !(d0 <= -1 && d1 <= -1 && d2 <= -1),
{
    lemma_scaled(w0, d0);
    lemma_scaled(w1, d1);
    lemma_scaled(w2, d2);
}

/// The centre of a covered pixel lies within the span of the vertices along
/// both axes.
pub proof fn lemma_covered_within_span(
    a: ScreenPoint,
    b: ScreenPoint,
    c: ScreenPoint,
    x: int,
    y: int,
)
    requires
        covered(a, b, c, x, y),
    ensures
        min3(a.x as int, b.x as int, c.x as int) <= center(x) <= max3(
            a.x as int,
            b.x as int,
            c.x as int,
        ),
        min3(a.y as int, b.y as int, c.y as int) <= center(y) <= max3(
            a.y as int,
            b.y as int,
            c.y as int,
        ),
{
    let px = center(x);
    let py = center(y);
    let w0 = weight_a(b, c, x, y);
    let w1 = weight_b(c, a, x, y);
    let w2 = weight_c(a, b, x, y);
    lemma_weights_sum(
        a.x as int,
        a.y as int,
        b.x as int,
        b.y as int,
        c.x as int,
        c.y as int,
        px,
        py,
    );
    lemma_weighted_mean(
        a.x as int,
        a.y as int,
        b.x as int,
        b.y as int,
        c.x as int,
        c.y as int,
        px,
        py,
    );
    lemma_mean_within(w0, w1, w2, a.x - px, b.x - px, c.x - px);
    lemma_mean_within(w0, w1, w2, a.y - py, b.y - py, c.y - py);
}

/// A sample stays on its pixel when another is appended.
proof fn lemma_has_sample_push(samples: Seq<Sample>, s: Sample, x: int, y: int)
    requires
        has_sample(samples, x, y),
    ensures
        has_sample(samples.push(s), x, y),
{
    let i = choose|i: int|
        0 <= i < samples.len() && (#[trigger] samples[i]).x == x && samples[i].y == y;
    assert(samples.push(s)[i] == samples[i]);
}

/// The size of a product of two bounded factors.
proof fn lemma_product_bound(u: int, v: int, m: int, n: int)
    requires
        -m <= u <= m,
        -n <= v <= n,
    ensures
        -(m * n) <= u * v <= m * n,
{
    assert(-(m * n) <= u * v <= m * n) by (nonlinear_arith)
        requires
            -m <= u <= m,
            -n <= v <= n,
    ;
}

/// Evaluates the edge function of `(a, b)` at the point `(px, py)`.
fn edge_at(ax: i32, ay: i32, bx: i32, by: i32, px: i64, py: i64) -> (e: i128)
    requires
        -0x200_0000_0000 <= px <= 0x200_0000_0000,
        -0x200_0000_0000 <= py <= 0x200_0000_0000,
    ensures
        e == edge(ax as int, ay as int, bx as int, by as int, px as int, py as int),
{
    let dx: i128 = bx as i128 - ax as i128;
    let dy: i128 = py as i128 - ay as i128;
    let ex: i128 = by as i128 - ay as i128;
    let ey: i128 = px as i128 - ax as i128;
    proof {
        lemma_product_bound(dx as int, dy as int, 0x1_0000_0000, 0x400_0000_0000);
        lemma_product_bound(ex as int, ey as int, 0x1_0000_0000, 0x400_0000_0000);
    }
    dx * dy - ex * ey
}

/// The smallest of three grid coordinates.
fn least(p: i32, q: i32, r: i32) -> (m: i32)
    ensures
        m == min3(p as int, q as int, r as int),
{
    if p <= q && p <= r {
        p
    } else if q <= r {
        q
    } else {
        r
    }
}

/// The largest of three grid coordinates.
fn greatest(p: i32, q: i32, r: i32) -> (m: i32)
    ensures
        m == max3(p as int, q as int, r as int),
{
    if p >= q && p >= r {
        p
    } else if q >= r {
        q
    } else {
        r
    }
}

/// The pixel in which a grid coordinate falls along one axis. Coordinates
/// before the screen go to the first pixel.
pub open spec fn pixel_of(coordinate: int) -> int {
    if coordinate <= 0 {
        0
    } else {
        coordinate / (SUBPIXEL as int)
    }
}

/// The first pixel whose centre may reach the grid coordinate `low`: the
/// pixel in which `low` falls. The centre of every pixel before it lies
/// before `low`.
fn first_pixel(low: i32) -> (p: u32)
    ensures
        p == pixel_of(low as int),
        forall|q: int| 0 <= q < p ==> center(q) < low,
{
    if low <= 0 {
        0
    } else {
        (low as u32) / 256
    }
}

/// The last pixel below `limit` whose centre may stay within the grid
/// coordinate `high`: the pixel in which `high` falls, or the last pixel
/// below `limit` if that comes first. The centre of every pixel after it
/// and below `limit` lies beyond `high`.
fn last_pixel(high: i32, limit: u32) -> (p: u32)
    requires
        high >= 0,
        limit > 0,
    ensures
        p == if pixel_of(high as int) < limit - 1 {
            pixel_of(high as int)
        } else {
            limit - 1
        },
        p < limit,
        forall|q: int| p < q < limit ==> center(q) > high,
{
    let top: u32 = (high as u32) / 256;
    if top < limit - 1 {
        top
    } else {
        limit - 1
    }
}

/// Twice the signed area of the triangle `(a, b, c)`.
pub fn signed_area(a: ScreenPoint, b: ScreenPoint, c: ScreenPoint) -> (area: i128)
    ensures
        area == doubled_area(a, b, c),
{
    edge_at(a.x, a.y, b.x, b.y, c.x as i64, c.y as i64)
}

/// Rasterizes the triangle `(a, b, c)` onto a screen of `width` by `height`
/// pixels.
///
/// The result lists, in scan order, exactly the pixels of the screen whose
/// centre the triangle covers, each with the three edge functions at that
/// centre. A triangle without area, or one that misses the screen, yields
/// nothing.
pub fn triangle(
    a: ScreenPoint,
    b: ScreenPoint,
    c: ScreenPoint,
    width: u32,
    height: u32,
) -> (samples: Vec<Sample>)
    ensures
        is_coverage(a, b, c, width, height, samples@),
        doubled_area(a, b, c) == 0 ==> samples@.len() == 0,
{
    let mut samples: Vec<Sample> = Vec::new();
    let area = signed_area(a, b, c);
    let max_x = greatest(a.x, b.x, c.x);
    let max_y = greatest(a.y, b.y, c.y);
    if area == 0 || width == 0 || height == 0 || max_x < 0 || max_y < 0 {
        proof {
            assert forall|x: int, y: int|
                0 <= x < width && 0 <= y < height && #[trigger] covered(
                    a,
                    b,
                    c,
                    x,
                    y,
                ) implies has_sample(samples@, x, y) by {
                lemma_covered_within_span(a, b, c, x, y);
            }
        }
        return samples;
    }
    let x_lo = first_pixel(least(a.x, b.x, c.x));
    let y_lo = first_pixel(least(a.y, b.y, c.y));
    let x_hi = last_pixel(max_x, width);
    let y_hi = last_pixel(max_y, height);
    let mut y: u32 = y_lo;
    proof {
        assert forall|px: int, py: int|
            0 <= px < width && 0 <= py < y && #[trigger] covered(a, b, c, px, py) implies has_sample(
            samples@,
            px,
            py,
        ) by {
            lemma_covered_within_span(a, b, c, px, py);
        }
    }
    while y <= y_hi
        invariant
            area == doubled_area(a, b, c),
            area != 0,
            y_lo <= y,
            y_hi < height,
            x_hi < width,
            forall|q: int| 0 <= q < x_lo ==> center(q) < min3(a.x as int, b.x as int, c.x as int),
            forall|q: int| x_hi < q < width ==> center(q) > max3(a.x as int, b.x as int, c.x as int),
            forall|q: int| y_hi < q < height ==> center(q) > max3(a.y as int, b.y as int, c.y as int),
            forall|i: int|
                0 <= i < samples@.len() ==> sample_of(a, b, c, width, height, #[trigger] samples@[i]),
            forall|i: int| 0 <= i < samples@.len() ==> (#[trigger] samples@[i]).y < y,
            forall|i: int, j: int|
                0 <= i < j < samples@.len() ==> scans_before(
                    (#[trigger] samples@[i]).x as int,
                    samples@[i].y as int,
                    (#[trigger] samples@[j]).x as int,
                    samples@[j].y as int,
                ),
            forall|px: int, py: int|
                0 <= px < width && 0 <= py < y && #[trigger] covered(a, b, c, px, py)
                    ==> has_sample(samples@, px, py),
        decreases y_hi + 1 - y,
    {
        let mut x: u32 = x_lo;
        proof {
            assert forall|px: int, py: int|
                0 <= px < width && 0 <= py <= y && (py < y || px < x) && #[trigger] covered(
                    a,
                    b,
                    c,
                    px,
                    py,
                ) implies has_sample(samples@, px, py) by {
                lemma_covered_within_span(a, b, c, px, py);
            }
        }
        while x <= x_hi
            invariant
                area == doubled_area(a, b, c),
                area != 0,
                x_lo <= x,
                y <= y_hi,
                y_hi < height,
                x_hi < width,
                forall|i: int|
                    0 <= i < samples@.len() ==> sample_of(
                        a,
                        b,
                        c,
                        width,
                        height,
                        #[trigger] samples@[i],
                    ),
                forall|i: int|
                    0 <= i < samples@.len() ==> scans_before(
                        (#[trigger] samples@[i]).x as int,
                        samples@[i].y as int,
                        x as int,
                        y as int,
                    ),
                forall|i: int, j: int|
                    0 <= i < j < samples@.len() ==> scans_before(
                        (#[trigger] samples@[i]).x as int,
                        samples@[i].y as int,
                        (#[trigger] samples@[j]).x as int,
                        samples@[j].y as int,
                    ),
                forall|px: int, py: int|
                    0 <= px < width && 0 <= py <= y && (py < y || px < x) && #[trigger] covered(
                        a,
                        b,
                        c,
                        px,
                        py,
                    ) ==> has_sample(samples@, px, py),
            decreases x_hi + 1 - x,
        {
            let px: i64 = x as i64 * 256 + 128;
            let py: i64 = y as i64 * 256 + 128;
            let w0 = edge_at(b.x, b.y, c.x, c.y, px, py);
            let w1 = edge_at(c.x, c.y, a.x, a.y, px, py);
            let w2 = edge_at(a.x, a.y, b.x, b.y, px, py);
            let inside = (area > 0 && w0 >= 0 && w1 >= 0 && w2 >= 0) || (area < 0 && w0 <= 0 && w1
                <= 0 && w2 <= 0);
            let ghost before = samples@;
            if inside {
                let s = Sample { x, y, w0, w1, w2 };
                samples.push(s);
                proof {
                    assert(samples@[before.len() as int] == s);
                    assert(has_sample(samples@, x as int, y as int));
                }
            }
            proof {
                assert forall|qx: int, qy: int|
                    0 <= qx < width && 0 <= qy <= y && (qy < y || qx < x + 1) && #[trigger] covered(
                        a,
                        b,
                        c,
                        qx,
                        qy,
                    ) implies has_sample(samples@, qx, qy) by {
                    if qx == x && qy == y {
                    } else if inside {
                        lemma_has_sample_push(before, samples@[before.len() as int], qx, qy);
                    }
                }
            }
            x = x + 1;
        }
        proof {
            assert forall|px: int, py: int|
                0 <= px < width && 0 <= py < y + 1 && #[trigger] covered(
                    a,
                    b,
                    c,
                    px,
                    py,
                ) implies has_sample(samples@, px, py) by {
                lemma_covered_within_span(a, b, c, px, py);
            }
        }
        y = y + 1;
    }
    proof {
        assert forall|px: int, py: int|
            0 <= px < width && 0 <= py < height && #[trigger] covered(
                a,
                b,
                c,
                px,
                py,
            ) implies has_sample(samples@, px, py) by {
            lemma_covered_within_span(a, b, c, px, py);
        }
    }
    samples
}

/// A triangle whose corners coincide, or of which two do, has no area.
pub proof fn lemma_coincident_corners_have_no_area(p: ScreenPoint, q: ScreenPoint)
    ensures
        doubled_area(p, p, p) == 0,
        doubled_area(p, p, q) == 0,
        doubled_area(p, q, p) == 0,
        doubled_area(q, p, p) == 0,
{
    lemma_edge_expanded(p.x as int, p.y as int, p.x as int, p.y as int, p.x as int, p.y as int);
    lemma_edge_expanded(p.x as int, p.y as int, p.x as int, p.y as int, q.x as int, q.y as int);
    lemma_edge_expanded(p.x as int, p.y as int, q.x as int, q.y as int, p.x as int, p.y as int);
    lemma_edge_expanded(q.x as int, q.y as int, p.x as int, p.y as int, p.x as int, p.y as int);
}

/// Whether the three points lie on one line: the steps from the first to the
/// other two are proportional.
pub open spec fn colinear(a: ScreenPoint, b: ScreenPoint, c: ScreenPoint) -> bool {
    (b.x - a.x) * (c.y - a.y) == (b.y - a.y) * (c.x - a.x)
}

/// A triangle without area is covered by no fragment at all: three corners
/// on one line, coincident ones among them, give an empty coverage on every
/// screen.
pub proof fn lemma_degenerate_covers_nothing(
    a: ScreenPoint,
    b: ScreenPoint,
    c: ScreenPoint,
    width: u32,
    height: u32,
    samples: Seq<Sample>,
)
    requires
        colinear(a, b, c),
        is_coverage(a, b, c, width, height, samples),
    ensures
        doubled_area(a, b, c) == 0,
        samples.len() == 0,
{
    if samples.len() > 0 {
        assert(sample_of(a, b, c, width, height, samples[0]));
    }
}

/// Two coverages of one triangle on one screen agree on the pixel of each
/// entry.
proof fn lemma_same_pixel(
    a: ScreenPoint,
    b: ScreenPoint,
    c: ScreenPoint,
    width: u32,
    height: u32,
    one: Seq<Sample>,
    other: Seq<Sample>,
    i: int,
)
    requires
        is_coverage(a, b, c, width, height, one),
        is_coverage(a, b, c, width, height, other),
        0 <= i < one.len(),
        0 <= i < other.len(),
    ensures
        one[i].x == other[i].x,
        one[i].y == other[i].y,
    decreases i,
{
    assert forall|j: int| 0 <= j < i implies (#[trigger] one[j]).x == other[j].x && one[j].y
        == other[j].y by {
        lemma_same_pixel(a, b, c, width, height, one, other, j);
    }
    let s = one[i];
    let t = other[i];
    assert(sample_of(a, b, c, width, height, s));
    assert(sample_of(a, b, c, width, height, t));
    if scans_before(s.x as int, s.y as int, t.x as int, t.y as int) {
        assert(has_sample(other, s.x as int, s.y as int));
        let m = choose|m: int|
            0 <= m < other.len() && (#[trigger] other[m]).x == s.x as int && other[m].y
                == s.y as int;
        if m < i {
            assert(one[m].x == other[m].x && one[m].y == other[m].y);
            assert(scans_before(one[m].x as int, one[m].y as int, one[i].x as int, one[i].y as int));
        } else if m > i {
            assert(scans_before(
                other[i].x as int,
                other[i].y as int,
                other[m].x as int,
                other[m].y as int,
            ));
        }
        assert(false);
    }
    if scans_before(t.x as int, t.y as int, s.x as int, s.y as int) {
        assert(has_sample(one, t.x as int, t.y as int));
        let m = choose|m: int|
            0 <= m < one.len() && (#[trigger] one[m]).x == t.x as int && one[m].y == t.y as int;
        if m < i {
            assert(one[m].x == other[m].x && one[m].y == other[m].y);
            assert(scans_before(
                other[m].x as int,
                other[m].y as int,
                other[i].x as int,
                other[i].y as int,
            ));
        } else if m > i {
            assert(scans_before(one[i].x as int, one[i].y as int, one[m].x as int, one[m].y as int));
        }
        assert(false);
    }
}

/// A coverage is no longer than another of the same triangle on the same
/// screen.
proof fn lemma_not_longer(
    a: ScreenPoint,
    b: ScreenPoint,
    c: ScreenPoint,
    width: u32,
    height: u32,
    one: Seq<Sample>,
    other: Seq<Sample>,
)
    requires
        is_coverage(a, b, c, width, height, one),
        is_coverage(a, b, c, width, height, other),
    ensures
        one.len() <= other.len(),
{
    if one.len() > other.len() {
        let n = other.len() as int;
        let s = one[n];
        assert(sample_of(a, b, c, width, height, s));
        assert(has_sample(other, s.x as int, s.y as int));
        let m = choose|m: int|
            0 <= m < other.len() && (#[trigger] other[m]).x == s.x as int && other[m].y
                == s.y as int;
        lemma_same_pixel(a, b, c, width, height, one, other, m);
        assert(scans_before(one[m].x as int, one[m].y as int, one[n].x as int, one[n].y as int));
        assert(false);
    }
}

/// The coverage of a triangle on a screen is unique: what `is_coverage`
/// admits is one sequence of samples and no other.
pub proof fn lemma_coverage_unique(
    a: ScreenPoint,
    b: ScreenPoint,
    c: ScreenPoint,
    width: u32,
    height: u32,
    one: Seq<Sample>,
    other: Seq<Sample>,
)
    requires
        is_coverage(a, b, c, width, height, one),
        is_coverage(a, b, c, width, height, other),
    ensures
        one == other,
{
    lemma_not_longer(a, b, c, width, height, one, other);
    lemma_not_longer(a, b, c, width, height, other, one);
    assert forall|i: int| 0 <= i < one.len() implies one[i] == other[i] by {
        lemma_same_pixel(a, b, c, width, height, one, other, i);
        assert(sample_of(a, b, c, width, height, one[i]));
        assert(sample_of(a, b, c, width, height, other[i]));
    }
    assert(one =~= other);
}

} // verus!
