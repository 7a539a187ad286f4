//! The pixel buffer and the drawing helpers: an RGB byte color, a row-major
//! matrix of cells, conversion from a fixed-point color vector to bytes, and
//! pixel/line drawing with centered canvas coordinates.

use vstd::prelude::*;

use crate::fixed::SCALE;
use crate::vec3::Vec3;
use vstd::pervasive::VecAdditionalExecFns;

verus! {

/// An 8-bit RGB color.
#[derive(Clone, Copy, PartialEq, Eq, Structural, Debug)]
pub struct Color {
    pub r: u8,
    pub g: u8,
    pub b: u8,
}

/// A row-major 2-D grid of cells.
#[derive(Clone, Debug)]
pub struct Matrix<T> {
    pub mat: Vec<T>,
    /// Number of cells per row.
    pub rlen: usize,
    /// Number of rows.
    pub clen: usize,
}

/// One fixed-point channel in [0, 1] mapped to a byte by scaling with 255,
/// saturating below 0 and above 255.
pub open spec fn s_map_channel(v: int) -> int {
    if v <= 0 {
        0
    } else if v * 255 / (SCALE as int) > 255 {
        255
    } else {
        v * 255 / (SCALE as int)
    }
}

/// A fixed-point color vector mapped to an 8-bit RGB triple.
pub open spec fn s_map_color(c: Vec3) -> Color {
    Color {
        r: s_map_channel(c.x as int) as u8,
        g: s_map_channel(c.y as int) as u8,
        b: s_map_channel(c.z as int) as u8,
    }
}

fn map_channel(v: i64) -> (r: u8)
    ensures
        r as int == s_map_channel(v as int),
{
    if v <= 0 {
        0
    } else {
        let q: u64 = ((v as u64) / 65536u64) * 255u64 + (((v as u64) % 65536u64) * 255u64)
            / 65536u64;
        proof {
            let vi = v as int;
            vstd::arithmetic::div_mod::lemma_fundamental_div_mod(vi, 65536);
            assert((vi / 65536) * 255 + ((vi % 65536) * 255) / 65536 == vi * 255 / 65536) by (
            nonlinear_arith)
                requires
                    vi >= 0,
            ;
            assert(vi / 65536 <= vi) by (nonlinear_arith)
                requires
                    vi >= 0,
            ;
        }
        if q > 255 {
            255
        } else {
            q as u8
        }
    }
}

/// Maps a fixed-point color vector to a concrete byte color.
pub fn map_color(c: Vec3) -> (r: Color)
    ensures
        r == s_map_color(c),
{
    Color { r: map_channel(c.x), g: map_channel(c.y), b: map_channel(c.z) }
}

/// Buffer index of a centered canvas coordinate: columns are shifted right by
/// half the width, rows are flipped (canvas y grows downward) and shifted
/// down by half the height, then laid out row-major with stride len.0.
pub open spec fn s_pixel_index(pixel: (int, int), len: (int, int)) -> int {
    (len.1 / 2 - pixel.1) * len.0 + (pixel.0 + len.0 / 2)
}

/// Writes one pixel. Coordinates are centered: x in [-len.0/2, len.0/2) and
/// y in [-len.1/2, len.1/2), y growing upward.
pub fn draw_pixel(ppm: &mut Matrix<Color>, pixel: (i32, i32), len: (usize, usize), color: Color)
    requires
        len.0 <= i32::MAX,
        len.1 <= i32::MAX,
        0 <= pixel.0 + (len.0 as int) / 2 <= i32::MAX,
        0 <= (len.1 as int) / 2 - pixel.1 <= i32::MAX,
        s_pixel_index((pixel.0 as int, pixel.1 as int), (len.0 as int, len.1 as int)) < old(
            ppm,
        ).mat.len(),
    ensures
        final(ppm).mat@ == old(ppm).mat@.update(
            s_pixel_index((pixel.0 as int, pixel.1 as int), (len.0 as int, len.1 as int)),
            color,
        ),
        final(ppm).rlen == old(ppm).rlen,
        final(ppm).clen == old(ppm).clen,
{
    let ax: i32 = pixel.0 + (len.0 as i32) / 2;
    let ay: i32 = (len.1 as i32) / 2 - pixel.1;
    proof {
        assert((ay as int) * (len.0 as int) + ax as int == s_pixel_index(
            (pixel.0 as int, pixel.1 as int),
            (len.0 as int, len.1 as int),
        ));
        assert((ay as int) * (len.0 as int) >= 0) by (nonlinear_arith)
            requires
                ay >= 0 && len.0 >= 0,
        ;
    }
    let idx: usize = (ay as usize) * len.0 + (ax as usize);
    ppm.mat.set(idx, color);
}

/// Whether buffer index k (row-major with stride rlen) lies inside the
/// axis-aligned bounding rectangle spanned by points a and b.
pub open spec fn s_in_box(k: int, rlen: int, a: (int, int), b: (int, int)) -> bool {
    let x = k % rlen;
    let y = k / rlen;
    (if a.0 <= b.0 {
        a.0 <= x <= b.0
    } else {
        b.0 <= x <= a.0
    }) && (if a.1 <= b.1 {
        a.1 <= y <= b.1
    } else {
        b.1 <= y <= a.1
    })
}

/// Draws a line from start to end using Bresenham's integer stepping: both
/// endpoints are painted, and every cell the line touches lies inside the
/// bounding rectangle of the two endpoints and is set to `color`; no other
/// cell changes.
#[verifier::rlimit(100)]
pub fn draw_line(
    buf: &mut Vec<Color>,
    rlen: usize,
    start: (i32, i32),
    end: (i32, i32),
    color: Color,
)
    requires
        0 < rlen <= 20000,
        0 <= start.0 < rlen,
        0 <= end.0 < rlen,
        0 <= start.1 <= 20000,
        0 <= end.1 <= 20000,
        ((if start.1 <= end.1 {
            end.1
        } else {
            start.1
        }) + 1) * rlen <= old(buf).len(),
    ensures
        final(buf).len() == old(buf).len(),
        forall|k: int|
            0 <= k < final(buf).len() && final(buf)[k] != old(buf)[k] ==> final(buf)[k] == color
                && s_in_box(
                k,
                rlen as int,
                (start.0 as int, start.1 as int),
                (end.0 as int, end.1 as int),
            ),
        final(buf)[start.1 * rlen + start.0] == color,
        final(buf)[end.1 * rlen + end.0] == color,
{
    let ghost gs = (start.0 as int, start.1 as int);
    let ghost ge = (end.0 as int, end.1 as int);
    let ghost len0 = old(buf).len() as int;
    let dx: i32 = if end.0 >= start.0 {
        end.0 - start.0
    } else {
        start.0 - end.0
    };
    let dy: i32 = if end.1 >= start.1 {
        -(end.1 - start.1)
    } else {
        -(start.1 - end.1)
    };
    let sx: i32 = if start.0 < end.0 {
        1
    } else {
        -1
    };
    let sy: i32 = if start.1 < end.1 {
        1
    } else {
        -1
    };
    let mut err: i32 = dx + dy;
    let mut x: i32 = start.0;
    let mut y: i32 = start.1;
    let ghost mut a: int = 0;
    let ghost mut b: int = 0;
    loop
        invariant_except_break
            0 < rlen <= 20000,
            0 <= start.0 < rlen,
            0 <= end.0 < rlen,
            0 <= start.1 <= 20000,
            0 <= end.1 <= 20000,
            gs == (start.0 as int, start.1 as int),
            ge == (end.0 as int, end.1 as int),
            len0 == old(buf).len(),
            ((if start.1 <= end.1 {
                end.1
            } else {
                start.1
            }) + 1) * rlen <= len0,
            dx as int == (if ge.0 >= gs.0 {
                ge.0 - gs.0
            } else {
                gs.0 - ge.0
            }),
            dy as int == (if ge.1 >= gs.1 {
                gs.1 - ge.1
            } else {
                ge.1 - gs.1
            }),
            sx as int == (if gs.0 < ge.0 {
                1int
            } else {
                -1int
            }),
            sy as int == (if gs.1 < ge.1 {
                1int
            } else {
                -1int
            }),
            0 <= a <= dx,
            0 <= b <= -(dy as int),
            x as int == gs.0 + (if start.0 < end.0 {
                a
            } else {
                -a
            }),
            y as int == gs.1 + (if start.1 < end.1 {
                b
            } else {
                -b
            }),
            err as int == dx + dy + (dy as int) * a + (dx as int) * b,
            buf.len() == len0,
            forall|k: int|
                0 <= k < len0 && buf[k] != old(buf)[k] ==> buf[k] == color && s_in_box(
                    k,
                    rlen as int,
                    gs,
                    ge,
                ),
            (a > 0 || b > 0) ==> buf[gs.1 * rlen + gs.0] == color,
        ensures
            buf.len() == len0,
            forall|k: int|
                0 <= k < len0 && buf[k] != old(buf)[k] ==> buf[k] == color && s_in_box(
                    k,
                    rlen as int,
                    gs,
                    ge,
                ),
            buf[gs.1 * rlen + gs.0] == color,
            buf[ge.1 * rlen + ge.0] == color,
        decreases (dx as int) - a + (-(dy as int)) - b,
    {
        let ghost ymax: int = if gs.1 <= ge.1 {
            ge.1
        } else {
            gs.1
        };
        proof {
            assert((dy as int) * a >= -400000000 && (dy as int) * a <= 0 && (dx as int) * b >= 0
                && (dx as int) * b <= 400000000) by (nonlinear_arith)
                requires
                    0 <= a <= dx,
                    0 <= b <= -(dy as int),
                    0 <= dx <= 20000,
                    -20000 <= dy <= 0,
            ;
            assert(gs.1 * (rlen as int) + gs.0 < len0 && ge.1 * (rlen as int) + ge.0 < len0) by (
            nonlinear_arith)
                requires
                    0 <= gs.1 <= ymax,
                    0 <= ge.1 <= ymax,
                    0 <= gs.0 < rlen as int,
                    0 <= ge.0 < rlen as int,
                    (ymax + 1) * (rlen as int) <= len0,
                    rlen > 0,
            ;
        }
        proof {
            assert(0 <= y as int <= ymax);
            assert(0 <= x < rlen);
            assert((y as int) * (rlen as int) + (x as int) < (ymax + 1) * (rlen as int)) by (
            nonlinear_arith)
                requires
                    0 <= y as int <= ymax && 0 <= x as int && (x as int) < rlen as int && rlen > 0,
            ;
            assert((y as int) * (rlen as int) >= 0) by (nonlinear_arith)
                requires
                    y >= 0 && rlen > 0,
            ;
        }
        let cidx: usize = (y as usize) * rlen + (x as usize);
        proof {
            vstd::arithmetic::div_mod::lemma_fundamental_div_mod_converse(
                cidx as int,
                rlen as int,
                y as int,
                x as int,
            );
            assert(s_in_box(cidx as int, rlen as int, gs, ge));
        }
        buf.set(cidx, color);
        if x == end.0 && y == end.1 {
            proof {
                assert(buf[ge.1 * rlen + ge.0] == color);
                if a == 0 && b == 0 {
                    assert(gs == ge);
                }
            }
            break ;
        }
        let ghost a0 = a;
        let ghost xt = x as int;
        let ghost err0 = err as int;
        let e2: i32 = 2 * err;
        if e2 >= dy {
            proof {
                if a == dx {
                    assert(xt == ge.0);
                    assert(b < -(dy as int));
                    assert(false) by (nonlinear_arith)
                        requires
                            err0 == dx + dy + (dy as int) * a0 + (dx as int) * b,
                            a0 == dx,
                            0 <= b,
                            b <= -(dy as int) - 1,
                            dy <= 0,
                            dx >= 0,
                            2 * err0 >= dy as int,
                    ;
                }
            }
            err = err + dy;
            x = x + sx;
            proof {
                a = a + 1;
                assert((dy as int) * (a) == (dy as int) * (a - 1) + dy as int) by (nonlinear_arith);
            }
        }
        if e2 <= dx {
            proof {
                if b == -(dy as int) {
                    assert(y == end.1);
                    if a0 == dx {
                        assert(xt == ge.0);
                        assert(false);
                    }
                    assert(a0 < dx);
                    assert(false) by (nonlinear_arith)
                        requires
                            err0 == dx + dy + (dy as int) * a0 + (dx as int) * b,
                            b == -(dy as int),
                            0 <= a0,
                            a0 <= (dx as int) - 1,
                            dy <= 0,
                            2 * err0 <= dx as int,
                    ;
                }
            }
            err = err + dx;
            y = y + sy;
            proof {
                b = b + 1;
                assert((dx as int) * (b) == (dx as int) * (b - 1) + dx as int) by (nonlinear_arith);
            }
        }
    }
}

} // verus!
