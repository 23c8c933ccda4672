//! Pixel-buffer primitives. The frame is a flat RGBA byte buffer, four bytes
//! per pixel, rows of `WIDTH` pixels from the top of the screen down. Every
//! primitive clips: a pixel that is off the screen, or whose four bytes do not
//! all lie inside the buffer, is left alone.

use vstd::prelude::*;
use crate::fixed::narrowed;
use crate::{HEIGHT, WIDTH};

verus! {

/// A pixel position on (or off) the screen.
#[derive(Clone, Copy, Debug)]
pub struct Point {
    pub x: i32,
    pub y: i32,
}

/// Index of the first of the four bytes of pixel `(x, y)`.
pub open spec fn pixel_start(x: int, y: int) -> int {
    4 * (x + y * WIDTH)
}

/// Whether pixel `(x, y)` is on the screen and wholly inside a buffer of
/// `len` bytes.
pub open spec fn visible(len: int, x: int, y: int) -> bool {
    &&& 0 <= x < WIDTH
    &&& 0 <= y < HEIGHT
    &&& pixel_start(x, y) + 4 <= len
}

/// The frame `s` with pixel `(x, y)` set to `colour`, if that pixel is visible.
pub open spec fn plotted(s: Seq<u8>, x: int, y: int, colour: [u8; 4]) -> Seq<u8> {
    if visible(s.len() as int, x, y) {
        let i = pixel_start(x, y);
        s.update(i, colour[0]).update(i + 1, colour[1]).update(i + 2, colour[2]).update(
            i + 3,
            colour[3],
        )
    } else {
        s
    }
}

/// The frame `s` after plotting every point of `points`, first to last.
pub open spec fn traced(s: Seq<u8>, points: Seq<(i32, i32)>, colour: [u8; 4]) -> Seq<u8>
    decreases points.len(),
{
    if points.len() == 0 {
        s
    } else {
        let p = points.last();
        plotted(traced(s, points.drop_last(), colour), p.0 as int, p.1 as int, colour)
    }
}

/// Whether byte `i` of a frame of `len` bytes belongs to a visible pixel of the
/// half-open rectangle from `(lx, ly)` to `(ux, uy)`.
pub open spec fn covered(len: int, lx: int, ly: int, ux: int, uy: int, i: int) -> bool {
    let x = (i / 4) % (WIDTH as int);
    let y = (i / 4) / (WIDTH as int);
    &&& 0 <= i
    &&& lx <= x < ux
    &&& ly <= y < uy
    &&& visible(len, x, y)
}

/// The frame `s` with the half-open rectangle from `(lx, ly)` to `(ux, uy)`
/// painted in `colour`.
pub open spec fn filled(s: Seq<u8>, lx: int, ly: int, ux: int, uy: int, colour: [u8; 4]) -> Seq<
    u8,
> {
    Seq::new(
        s.len(),
        |i: int|
            if covered(s.len() as int, lx, ly, ux, uy, i) {
                colour[i % 4]
            } else {
                s[i]
            },
    )
}

/// Whether byte `i` of a frame of `len` bytes belongs to a visible pixel of
/// column `px`, in one of the `rows` rows from `top` down.
pub open spec fn in_strip(len: int, px: int, top: int, rows: int, i: int) -> bool {
    let x = (i / 4) % (WIDTH as int);
    let y = (i / 4) / (WIDTH as int);
    &&& 0 <= i
    &&& x == px
    &&& top <= y < top + rows
    &&& visible(len, x, y)
}

/// The frame `s` with a vertical strip painted in column `px`: `rows` pixels
/// from `top` down, the `r`-th of them in the colour `colour_at(r)`.
pub open spec fn striped(
    s: Seq<u8>,
    px: int,
    top: int,
    rows: int,
    colour_at: spec_fn(int) -> [u8; 4],
) -> Seq<u8> {
    Seq::new(
        s.len(),
        |i: int|
            if in_strip(s.len() as int, px, top, rows, i) {
                colour_at((i / 4) / (WIDTH as int) - top)[i % 4]
            } else {
                s[i]
            },
    )
}

/// The frame after a clear: every pixel opaque black.
pub open spec fn cleared(len: nat) -> Seq<u8> {
    Seq::new(
        len,
        |i: int|
            if i % 4 == 3 {
                255u8
            } else {
                0u8
            },
    )
}

/// `v` limited to the closed range from `lo` to `hi`.
pub open spec fn clamped(v: int, lo: int, hi: int) -> int {
    if v < lo {
        lo
    } else if v > hi {
        hi
    } else {
        v
    }
}

/// The points that `line_drawing::Bresenham` walks from `(x0, y0)` to
/// `(x1, y1)`, in the order in which it yields them.
pub uninterp spec fn bresenham_points(x0: int, y0: int, x1: int, y1: int) -> Seq<(i32, i32)>;

/// The frame `s` with the line from `(x0, y0)` to `(x1, y1)` drawn: both ends
/// are moved onto the screen, and the points that Bresenham's algorithm walks
/// between them are plotted.
pub open spec fn lined(s: Seq<u8>, x0: int, y0: int, x1: int, y1: int, colour: [u8; 4]) -> Seq<
    u8,
> {
    traced(
        s,
        bresenham_points(
            clamped(x0, 0, WIDTH - 1),
            clamped(y0, 0, HEIGHT - 1),
            clamped(x1, 0, WIDTH - 1),
            clamped(y1, 0, HEIGHT - 1),
        ),
        colour,
    )
}

/// Calls `line_drawing::Bresenham::new` on the two end points and collects what
/// the iterator yields. Nothing is claimed of the points beyond their being
/// a function of the end points; both ends are required to be on the screen,
/// where the iterator's arithmetic cannot overflow.
#[verifier::external_body]
fn bresenham(x0: i32, y0: i32, x1: i32, y1: i32) -> (points: Vec<(i32, i32)>)
    requires
        0 <= x0 < WIDTH,
        0 <= y0 < HEIGHT,
        0 <= x1 < WIDTH,
        0 <= y1 < HEIGHT,
    ensures
        points@ == bresenham_points(x0 as int, y0 as int, x1 as int, y1 as int),
{
    line_drawing::Bresenham::new((x0, y0), (x1, y1)).collect()
}

fn clamp_to(v: i32, lo: i32, hi: i32) -> (r: i32)
    requires
        lo <= hi,
    ensures
        r == clamped(v as int, lo as int, hi as int),
{
    if v < lo {
        lo
    } else if v > hi {
        hi
    } else {
        v
    }
}

/// Sets one pixel, if it is visible.
pub fn set_pixel(screen: &mut [u8], x: i32, y: i32, colour: [u8; 4])
    ensures
        final(screen)@ == plotted(old(screen)@, x as int, y as int, colour),
{
    if 0 <= x && x < WIDTH && 0 <= y && y < HEIGHT {
        let i: usize = 4 * (x as usize + y as usize * WIDTH as usize);
        if i + 4 <= screen.len() {
            screen[i] = colour[0];
            screen[i + 1] = colour[1];
            screen[i + 2] = colour[2];
            screen[i + 3] = colour[3];
        }
    }
}

/// Plots every point of `points` in turn.
pub fn plot_points(screen: &mut [u8], points: &Vec<(i32, i32)>, colour: [u8; 4])
    ensures
        final(screen)@ == traced(old(screen)@, points@, colour),
{
    let mut k: usize = 0;
    while k < points.len()
        invariant
            k <= points.len(),
            screen@ == traced(old(screen)@, points@.take(k as int), colour),
        decreases points.len() - k,
    {
        let p = points[k];
        proof {
            let next = points@.take(k as int + 1);
            assert(next.drop_last() == points@.take(k as int));
            assert(next.last() == p);
        }
        set_pixel(screen, p.0, p.1, colour);
        k += 1;
    }
    assert(points@.take(k as int) == points@);
}

/// Draws the line from `p1` to `p2`. Both ends are first moved onto the
/// screen; the pixels between them are those of Bresenham's algorithm.
pub fn line(screen: &mut [u8], p1: &Point, p2: &Point, colour: [u8; 4])
    ensures
        final(screen)@ == lined(
            old(screen)@,
            p1.x as int,
            p1.y as int,
            p2.x as int,
            p2.y as int,
            colour,
        ),
{
    let x0 = clamp_to(p1.x, 0, WIDTH - 1);
    let y0 = clamp_to(p1.y, 0, HEIGHT - 1);
    let x1 = clamp_to(p2.x, 0, WIDTH - 1);
    let y1 = clamp_to(p2.y, 0, HEIGHT - 1);
    let points = bresenham(x0, y0, x1, y1);
    plot_points(screen, &points, colour);
}

/// Paints the half-open rectangle from `lower` to `upper`.
pub fn rect_filled(screen: &mut [u8], lower: &Point, upper: &Point, colour: [u8; 4])
    ensures
        final(screen)@ == filled(
            old(screen)@,
            lower.x as int,
            lower.y as int,
            upper.x as int,
            upper.y as int,
            colour,
        ),
{
    let ghost before = screen@;
    let ghost len = screen@.len() as int;
    let (lx, ly, ux, uy) = (lower.x, lower.y, upper.x, upper.y);
    let x_from = clamp_to(lx, 0, WIDTH);
    let x_to = clamp_to(ux, 0, WIDTH);
    let y_from = clamp_to(ly, 0, HEIGHT);
    let y_to = clamp_to(uy, 0, HEIGHT);
    let mut y = y_from;
    while y < y_to
        invariant
            0 <= y_from <= y,
            y <= y_to || y == y_from,
            y_to <= HEIGHT,
            y_from == clamped(ly as int, 0, HEIGHT as int),
            y_to == clamped(uy as int, 0, HEIGHT as int),
            x_from == clamped(lx as int, 0, WIDTH as int),
            x_to == clamped(ux as int, 0, WIDTH as int),
            screen@.len() == len,
            before.len() == len,
            forall|i: int|
                0 <= i < len ==> screen@[i] == (if covered(
                    len,
                    lx as int,
                    ly as int,
                    ux as int,
                    y as int,
                    i,
                ) {
                    colour[i % 4]
                } else {
                    before[i]
                }),
        decreases y_to - y,
    {
        let mut x = x_from;
        while x < x_to
            invariant
                0 <= y_from <= y < y_to <= HEIGHT,
                0 <= x_from <= x,
                x <= x_to || x == x_from,
                x_to <= WIDTH,
                y_from == clamped(ly as int, 0, HEIGHT as int),
                y_to == clamped(uy as int, 0, HEIGHT as int),
                x_from == clamped(lx as int, 0, WIDTH as int),
                x_to == clamped(ux as int, 0, WIDTH as int),
                screen@.len() == len,
                before.len() == len,
                forall|i: int|
                    0 <= i < len ==> screen@[i] == (if covered(
                        len,
                        lx as int,
                        ly as int,
                        ux as int,
                        y as int,
                        i,
                    ) || covered(len, lx as int, y as int, x as int, y + 1, i) {
                        colour[i % 4]
                    } else {
                        before[i]
                    }),
            decreases x_to - x,
        {
            set_pixel(screen, x, y, colour);
            x += 1;
        }
        y += 1;
    }
    assert(screen@ =~= filled(before, lx as int, ly as int, ux as int, uy as int, colour));
}

/// Resets the whole frame to opaque black.
pub fn clear(screen: &mut [u8])
    ensures
        final(screen)@ == cleared(old(screen)@.len()),
{
    let n = screen.len();
    let mut i: usize = 0;
    while i < n
        invariant
            n == screen@.len(),
            screen@.len() == old(screen)@.len(),
            i <= n,
            forall|j: int|
                0 <= j < i ==> screen@[j] == (if j % 4 == 3 {
                    255u8
                } else {
                    0u8
                }),
        decreases n - i,
    {
        screen[i] = if i % 4 == 3 {
            255
        } else {
            0
        };
        i += 1;
    }
    assert(screen@ =~= cleared(old(screen)@.len()));
}

/// A rectangle whose corners are narrowed to 32 bits paints the same pixels:
/// the screen lies well inside that range.
pub proof fn lemma_filled_narrowed(s: Seq<u8>, lx: int, ly: int, ux: int, uy: int, c: [u8; 4])
    ensures
        filled(s, narrowed(lx), narrowed(ly), narrowed(ux), narrowed(uy), c) == filled(
            s,
            lx,
            ly,
            ux,
            uy,
            c,
        ),
{
    assert(filled(s, narrowed(lx), narrowed(ly), narrowed(ux), narrowed(uy), c) =~= filled(
        s,
        lx,
        ly,
        ux,
        uy,
        c,
    ));
}

/// A line whose ends are narrowed to 32 bits is the same line: its ends are
/// moved onto the screen in either case.
pub proof fn lemma_lined_narrowed(s: Seq<u8>, x0: int, y0: int, x1: int, y1: int, c: [u8; 4])
    ensures
        lined(s, narrowed(x0), narrowed(y0), narrowed(x1), narrowed(y1), c) == lined(
            s,
            x0,
            y0,
            x1,
            y1,
            c,
        ),
{
}

} // verus!
