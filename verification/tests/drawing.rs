use raytracer::draw::{draw_line, draw_pixel, Color, Matrix};

fn c(r: u8, g: u8, b: u8) -> Color {
    Color { r, g, b }
}

fn blank(n: usize) -> Vec<Color> {
    vec![c(0, 0, 0); n]
}

#[test]
fn draw_pixel_writes_the_flipped_centered_cell() {
    // a 4x4 canvas: pixel (1, 1) lands at column 1+2 = 3, row 2-1 = 1
    let mut ppm = Matrix { mat: blank(25), rlen: 5, clen: 5 };
    draw_pixel(&mut ppm, (1, 1), (4, 4), c(9, 8, 7));
    assert_eq!(ppm.mat[1 * 4 + 3], c(9, 8, 7));
    for (i, cell) in ppm.mat.iter().enumerate() {
        if i != 7 {
            assert_eq!(*cell, c(0, 0, 0));
        }
    }
}

#[test]
fn draw_pixel_top_left_corner() {
    let mut ppm = Matrix { mat: blank(25), rlen: 5, clen: 5 };
    // y = 2 maps to row 0; x = -2 maps to column 0
    draw_pixel(&mut ppm, (-2, 2), (4, 4), c(1, 2, 3));
    assert_eq!(ppm.mat[0], c(1, 2, 3));
}

#[test]
fn draw_line_diagonal_paints_the_diagonal_cells() {
    let mut buf = blank(16);
    draw_line(&mut buf, 4, (0, 0), (2, 2), c(5, 5, 5));
    assert_eq!(buf[0 * 4 + 0], c(5, 5, 5));
    assert_eq!(buf[1 * 4 + 1], c(5, 5, 5));
    assert_eq!(buf[2 * 4 + 2], c(5, 5, 5));
    let painted = buf.iter().filter(|&&x| x == c(5, 5, 5)).count();
    assert_eq!(painted, 3);
}

#[test]
fn draw_line_horizontal_and_vertical() {
    let mut buf = blank(16);
    draw_line(&mut buf, 4, (0, 1), (3, 1), c(1, 1, 1));
    for x in 0..4usize {
        assert_eq!(buf[4 + x], c(1, 1, 1));
    }

    let mut buf2 = blank(16);
    draw_line(&mut buf2, 4, (2, 0), (2, 3), c(2, 2, 2));
    for y in 0..4usize {
        assert_eq!(buf2[y * 4 + 2], c(2, 2, 2));
    }
}

#[test]
fn draw_line_reversed_endpoints_paint_both_ends() {
    let mut buf = blank(16);
    draw_line(&mut buf, 4, (3, 3), (0, 0), c(7, 7, 7));
    assert_eq!(buf[0], c(7, 7, 7));
    assert_eq!(buf[3 * 4 + 3], c(7, 7, 7));
}

#[test]
fn draw_line_single_point() {
    let mut buf = blank(16);
    draw_line(&mut buf, 4, (1, 2), (1, 2), c(9, 9, 9));
    assert_eq!(buf[2 * 4 + 1], c(9, 9, 9));
    let painted = buf.iter().filter(|&&x| x == c(9, 9, 9)).count();
    assert_eq!(painted, 1);
}
