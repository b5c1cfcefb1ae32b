use raster3d::fixed::ONE;
use raster3d::math::{lerp, Xyh};
use raster3d::raster::{
    draw_filled_triangle, draw_line, draw_multishade_triangle, draw_shaded_triangle, draw_triangle,
    put_color, Color, Pixel, Point,
};

fn px(x: i32, y: i32, c: Color) -> Pixel {
    Pixel { pos: Point::new(x, y), color: c }
}

fn black() -> Color {
    Color::new(0, 0, 0)
}

fn green() -> Color {
    Color::new(0, 255, 0)
}

/// Strictly inside the triangle, by the signs of the three edge functions.
fn strictly_inside(p: (i64, i64), a: (i64, i64), b: (i64, i64), c: (i64, i64)) -> bool {
    let edge = |u: (i64, i64), v: (i64, i64)| (v.0 - u.0) * (p.1 - u.1) - (v.1 - u.1) * (p.0 - u.0);
    let (e0, e1, e2) = (edge(a, b), edge(b, c), edge(c, a));
    (e0 > 0 && e1 > 0 && e2 > 0) || (e0 < 0 && e1 < 0 && e2 < 0)
}

/// The fill's scanlines, as (y, first x, end x) runs of consecutive pixels.
fn runs(fill: &[Pixel]) -> Vec<(i32, i32, i32)> {
    let mut out: Vec<(i32, i32, i32)> = Vec::new();
    for p in fill {
        match out.last_mut() {
            Some(r) if r.0 == p.pos.y && r.2 == p.pos.x => r.2 += 1,
            _ => out.push((p.pos.y, p.pos.x, p.pos.x + 1)),
        }
    }
    out
}

#[test]
fn put_color_appends_one_write() {
    let mut canvas: Vec<Pixel> = Vec::new();
    put_color(&mut canvas, Point::new(3, 4), green());
    assert_eq!(canvas, vec![px(3, 4, green())]);
}

#[test]
fn line_steps_along_major_axis() {
    let mut canvas: Vec<Pixel> = Vec::new();
    draw_line(&mut canvas, Point::new(0, 0), Point::new(3, 1), black());
    assert_eq!(canvas, vec![px(0, 0, black()), px(1, 0, black()), px(2, 0, black()), px(3, 1, black())]);

    let mut reversed: Vec<Pixel> = Vec::new();
    draw_line(&mut reversed, Point::new(3, 1), Point::new(0, 0), black());
    assert_eq!(reversed, canvas);

    let mut vertical: Vec<Pixel> = Vec::new();
    draw_line(&mut vertical, Point::new(2, 5), Point::new(2, 1), black());
    let want: Vec<Pixel> = (1..=5).map(|y| px(2, y, black())).collect();
    assert_eq!(vertical, want);

    let mut dot: Vec<Pixel> = Vec::new();
    draw_line(&mut dot, Point::new(4, 4), Point::new(4, 4), black());
    assert_eq!(dot, vec![px(4, 4, black())]);
}

#[test]
fn wireframe_triangle_is_three_lines() {
    let (a, b, c) = (Point::new(0, 0), Point::new(6, 2), Point::new(1, 5));
    let mut canvas: Vec<Pixel> = Vec::new();
    draw_triangle(&mut canvas, a, b, c, black());
    let mut want: Vec<Pixel> = Vec::new();
    draw_line(&mut want, a, b, black());
    draw_line(&mut want, a, c, black());
    draw_line(&mut want, b, c, black());
    assert_eq!(canvas, want);
}

#[test]
fn filled_triangle_covers_interior_between_edges() {
    let (a, b, c) = (Point::new(0, 0), Point::new(10, 0), Point::new(5, 10));
    let mut canvas: Vec<Pixel> = Vec::new();
    draw_filled_triangle(&mut canvas, a, b, c, black(), green());
    // Scanlines 0..10 hold 10 + 9 + ... + 1 fill writes, then the outline.
    let fill = &canvas[..55];
    assert!(fill.iter().all(|p| p.color == green()));
    let mut outline: Vec<Pixel> = Vec::new();
    draw_triangle(&mut outline, a, b, c, black());
    assert_eq!(&canvas[55..], &outline[..]);

    // Each scanline runs from the long edge's x to the short edges' x.
    let left = lerp(0, 0, 10, 5);
    let right = lerp(0, 10, 10, 5);
    let want: Vec<(i32, i32, i32)> = (0..10).map(|y| (y, left[y as usize] as i32, right[y as usize] as i32)).collect();
    assert_eq!(runs(fill), want);
    assert_eq!(want[0], (0, 0, 10));
    assert_eq!(want[3], (3, 1, 8));
    assert_eq!(want[9], (9, 4, 5));

    // Every pixel strictly inside is written: by the fill, or by the outline
    // where the half-open scanline stops short of the right edge.
    for y in 0..=10 {
        for x in 0..=10 {
            if strictly_inside((x, y), (0, 0), (10, 0), (5, 10)) {
                let p = Point::new(x as i32, y as i32);
                assert!(canvas.iter().any(|w| w.pos == p), "({}, {}) not written", x, y);
            }
        }
    }
    // The bottom vertex's row holds no fill.
    assert!(fill.iter().all(|p| p.pos.y < 10));
}

#[test]
fn edge_classification_acute_and_skewed() {
    // Acute, apex centered: the long edge is on the left.
    let mut acute: Vec<Pixel> = Vec::new();
    draw_filled_triangle(&mut acute, Point::new(0, 0), Point::new(10, 0), Point::new(5, 10), black(), green());
    let acute_runs = runs(&acute[..55]);
    assert!(acute_runs.iter().all(|r| r.1 < r.2));

    // Apex far right: the long edge (0,0)-(20,10) is on the left.
    let mut right_skew: Vec<Pixel> = Vec::new();
    draw_filled_triangle(&mut right_skew, Point::new(0, 0), Point::new(2, 0), Point::new(20, 10), black(), green());
    let fill: Vec<Pixel> = right_skew.iter().copied().filter(|p| p.color == green()).collect();
    assert_eq!(runs(&fill), vec![(0, 0, 2), (1, 2, 3), (2, 4, 5), (3, 6, 7), (4, 8, 9), (5, 10, 11)]);

    // Middle vertex far left: the two short edges are on the left.
    let mut left_skew: Vec<Pixel> = Vec::new();
    draw_filled_triangle(&mut left_skew, Point::new(10, 0), Point::new(0, 5), Point::new(10, 10), black(), green());
    let fill: Vec<Pixel> = left_skew.iter().copied().filter(|p| p.color == green()).collect();
    let want: Vec<(i32, i32, i32)> = vec![
        (1, 8, 10), (2, 6, 10), (3, 4, 10), (4, 2, 10), (5, 0, 10), (6, 2, 10), (7, 4, 10), (8, 6, 10), (9, 8, 10),
    ];
    assert_eq!(runs(&fill), want);
}

#[test]
fn filled_triangle_with_all_vertices_on_one_row_has_no_fill() {
    let mut canvas: Vec<Pixel> = Vec::new();
    draw_filled_triangle(&mut canvas, Point::new(0, 3), Point::new(8, 3), Point::new(4, 3), black(), green());
    assert!(canvas.iter().all(|p| p.color == black()));
    assert!(!canvas.is_empty());
}

#[test]
fn shaded_triangle_stays_within_base_color() {
    let base = Color::new(200, 100, 50);
    let mut canvas: Vec<Pixel> = Vec::new();
    draw_shaded_triangle(&mut canvas, Xyh::new(0, 0, ONE), Xyh::new(10, 0, 0), Xyh::new(5, 10, ONE / 2), base);
    assert_eq!(canvas.len(), 55);
    assert!(canvas.iter().all(|p| p.color.r <= base.r && p.color.g <= base.g && p.color.b <= base.b));
    // Full intensity at the left end of the top scanline reproduces the base.
    assert_eq!(canvas[0], px(0, 0, base));
    // Half way across the top scanline, half the intensity.
    assert_eq!(canvas[5], px(5, 0, Color::new(100, 50, 25)));
}

#[test]
fn shaded_triangle_with_intensity_one_everywhere_is_flat() {
    let base = Color::new(9, 80, 255);
    let mut shaded: Vec<Pixel> = Vec::new();
    draw_shaded_triangle(&mut shaded, Xyh::new(3, 1, ONE), Xyh::new(12, 4, ONE), Xyh::new(6, 9, ONE), base);
    let mut filled: Vec<Pixel> = Vec::new();
    draw_filled_triangle(&mut filled, Point::new(3, 1), Point::new(12, 4), Point::new(6, 9), base, base);
    assert_eq!(&filled[..shaded.len()], &shaded[..]);
}

#[test]
fn multishade_interpolates_each_channel() {
    let (red, green, blue) = (Color::new(255, 0, 0), Color::new(0, 255, 0), Color::new(0, 0, 255));
    let mut canvas: Vec<Pixel> = Vec::new();
    draw_multishade_triangle(&mut canvas, Point::new(0, 0), Point::new(4, 0), Point::new(0, 4), red, green, blue);
    assert_eq!(
        &canvas[..4],
        &[
            px(0, 0, Color::new(255, 0, 0)),
            px(1, 0, Color::new(191, 63, 0)),
            px(2, 0, Color::new(127, 127, 0)),
            px(3, 0, Color::new(63, 191, 0)),
        ]
    );
    // Rows of 4, 3, 2 and 1 pixels.
    assert_eq!(canvas.len(), 10);
}

fn fill_set(p: [Point; 3]) -> Vec<(i32, i32)> {
    let mut canvas: Vec<Pixel> = Vec::new();
    draw_filled_triangle(&mut canvas, p[0], p[1], p[2], black(), green());
    let mut s: Vec<(i32, i32)> = canvas.iter().filter(|w| w.color == green()).map(|w| (w.pos.x, w.pos.y)).collect();
    s.sort();
    s
}

#[test]
fn thin_triangle_fills_the_row_where_edges_part() {
    assert_eq!(fill_set([Point::new(0, 0), Point::new(1, 4), Point::new(0, 10)]), vec![(0, 4)]);
}

#[test]
fn one_row_triangle_fills_the_same_in_either_order() {
    let want: Vec<(i32, i32)> = (-6..-1).map(|x| (x, -6)).collect();
    assert_eq!(fill_set([Point::new(3, -5), Point::new(-1, -6), Point::new(-6, -6)]), want);
    assert_eq!(fill_set([Point::new(3, -5), Point::new(-6, -6), Point::new(-1, -6)]), want);
}

#[test]
fn fill_does_not_depend_on_vertex_order() {
    let coords = [-7, -2, 0, 3, 9];
    for &ax in &coords {
        for &by in &coords {
            for &cx in &coords {
                for &cy in &coords {
                    let p = [Point::new(ax, -3), Point::new(2, by), Point::new(cx, cy)];
                    let base = fill_set(p);
                    for perm in [[0, 2, 1], [1, 0, 2], [1, 2, 0], [2, 0, 1], [2, 1, 0]] {
                        assert_eq!(fill_set([p[perm[0]], p[perm[1]], p[perm[2]]]), base, "{:?}", p);
                    }
                }
            }
        }
    }
}

#[test]
fn fill_spans_truncate_the_exact_edges() {
    // Each scanline of a filled triangle runs from the truncated x of the
    // left edge to the truncated x of the right edge, both exact.
    let tri = [Point::new(-5, -4), Point::new(7, 1), Point::new(-2, 9)];
    let fill = fill_set(tri);
    let edge_x = |p: Point, q: Point, y: i32| -> f64 {
        p.x as f64 + (q.x - p.x) as f64 * (y - p.y) as f64 / (q.y - p.y) as f64
    };
    let (a, b, c) = (tri[0], tri[1], tri[2]);
    let mut want: Vec<(i32, i32)> = Vec::new();
    for y in a.y..c.y {
        let long = edge_x(a, c, y);
        let short = if y < b.y { edge_x(a, b, y) } else { edge_x(b, c, y) };
        let (l, r) = (long.min(short).trunc() as i32, long.max(short).trunc() as i32);
        for x in l..r {
            want.push((x, y));
        }
    }
    want.sort();
    assert_eq!(fill, want);
}

#[test]
fn multishade_rounds_each_channel_once() {
    let mut canvas: Vec<Pixel> = Vec::new();
    draw_multishade_triangle(
        &mut canvas,
        Point::new(2, 0),
        Point::new(4, 2),
        Point::new(1, 2),
        Color::new(51, 237, 18),
        Color::new(52, 2, 243),
        Color::new(118, 229, 191),
    );
    let at = canvas.iter().find(|w| w.pos == Point::new(2, 1)).unwrap();
    assert_eq!(at.color.r, 68);
}
