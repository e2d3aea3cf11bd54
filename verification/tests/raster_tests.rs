use term_raster::canvas::{Canvas, BACKGROUND, EMPTY_DEPTH};
use term_raster::raster::{DepthPlane, Facet};

fn flat(depth: i64) -> DepthPlane {
    DepthPlane { a: 0, b: 0, c: depth }
}

type Cell = (usize, usize);

fn facet(first: Cell, second: Cell, third: Cell, depth: i64, intensity: u8) -> Facet {
    Facet { first, second, third, plane: flat(depth), intensity }
}

fn edge(a: (usize, usize), b: (usize, usize), p: (usize, usize)) -> i128 {
    let (ax, ay, bx, by) = (a.0 as i128, a.1 as i128, b.0 as i128, b.1 as i128);
    let (px, py) = (p.0 as i128, p.1 as i128);
    (bx - ax) * (py - ay) - (by - ay) * (px - ax)
}

fn covered(f: &Facet, p: (usize, usize)) -> bool {
    edge(f.first, f.second, f.third) != 0
        && edge(f.first, f.second, p) >= 0
        && edge(f.second, f.third, p) >= 0
        && edge(f.third, f.first, p) >= 0
}

fn snapshot(canvas: &Canvas) -> Vec<(Option<u8>, Option<i128>)> {
    let mut cells = Vec::new();
    for v in 0..canvas.height() {
        for u in 0..canvas.width() {
            cells.push((canvas.intensity(u, v), canvas.depth(u, v)));
        }
    }
    cells
}

#[test]
fn depth_plane_is_linear_in_the_cell() {
    let plane = DepthPlane { a: 3, b: -2, c: 10 };
    assert_eq!(plane.depth_at(0, 0), 10);
    assert_eq!(plane.depth_at(4, 5), 12);
    assert_eq!(plane.depth_at(1, 0), 13);
    assert_eq!(plane.depth_at(0, 1), 8);
}

#[test]
fn depth_plane_at_the_limits() {
    let plane = DepthPlane { a: i64::MAX, b: i64::MAX, c: i64::MAX };
    assert_eq!(plane.depth_at(65535, 65535), (i64::MAX as i128) * 131071);
    let plane = DepthPlane { a: i64::MIN, b: i64::MIN, c: i64::MIN };
    assert_eq!(plane.depth_at(65535, 65535), (i64::MIN as i128) * 131071);
    assert!(plane.depth_at(65535, 65535) > EMPTY_DEPTH);
}

#[test]
fn triangle_covers_the_expected_cells() {
    let mut canvas = Canvas::new(8, 6);
    let f = facet((1, 1), (6, 1), (1, 5), 40, 99);
    canvas.rasterize(&f);
    let rows: [(usize, usize); 6] = [(1, 0), (1, 6), (1, 4), (1, 3), (1, 2), (1, 1)];
    let mut lit = 0;
    for v in 0..6 {
        for u in 0..8 {
            let inside = v >= 1 && u >= rows[v].0 && u <= rows[v].1;
            if inside {
                lit += 1;
                assert_eq!(canvas.intensity(u, v), Some(99));
                assert_eq!(canvas.depth(u, v), Some(40));
            } else {
                assert_eq!(canvas.intensity(u, v), Some(BACKGROUND));
                assert_eq!(canvas.depth(u, v), Some(EMPTY_DEPTH));
            }
        }
    }
    assert_eq!(lit, 16);
}

#[test]
fn sloped_plane_gives_each_cell_its_depth() {
    let mut canvas = Canvas::new(8, 6);
    let f = Facet {
        first: (0, 0),
        second: (7, 0),
        third: (0, 5),
        plane: DepthPlane { a: 5, b: -3, c: 100 },
        intensity: 1,
    };
    canvas.rasterize(&f);
    assert_eq!(canvas.depth(0, 0), Some(100));
    assert_eq!(canvas.depth(7, 0), Some(135));
    assert_eq!(canvas.depth(0, 5), Some(85));
    assert_eq!(canvas.depth(2, 2), Some(104));
    assert_eq!(canvas.depth(7, 5), Some(EMPTY_DEPTH));
}

#[test]
fn degenerate_triangle_changes_nothing() {
    let mut canvas = Canvas::new(8, 6);
    canvas.rasterize(&facet((1, 1), (6, 1), (1, 5), 40, 99));
    let before = snapshot(&canvas);
    // three points on one line, a repeated corner, and a single point
    canvas.rasterize(&facet((1, 1), (3, 3), (5, 5), 1000, 200));
    canvas.rasterize(&facet((0, 2), (7, 2), (3, 2), 1000, 200));
    canvas.rasterize(&facet((2, 2), (2, 2), (5, 1), 1000, 200));
    canvas.rasterize(&facet((4, 4), (4, 4), (4, 4), 1000, 200));
    assert_eq!(snapshot(&canvas), before);
}

#[test]
fn counter_clockwise_triangle_changes_nothing() {
    let mut canvas = Canvas::new(8, 6);
    canvas.rasterize(&facet((1, 1), (1, 5), (6, 1), 40, 99));
    for cell in snapshot(&canvas) {
        assert_eq!(cell, (Some(BACKGROUND), Some(EMPTY_DEPTH)));
    }
}

#[test]
fn empty_viewport_takes_any_triangle() {
    let f = facet((1, 1), (6, 1), (1, 5), 40, 99);
    for (w, h) in [(0, 0), (0, 5), (5, 0)] {
        let mut canvas = Canvas::new(w, h);
        canvas.rasterize(&f);
        assert_eq!(canvas.width(), w as usize);
        assert_eq!(canvas.height(), h as usize);
        assert!(snapshot(&canvas).is_empty());
    }
}

#[test]
fn triangle_is_clipped_to_the_canvas() {
    let mut canvas = Canvas::new(4, 3);
    let f = facet((0, 0), (usize::MAX, 0), (0, usize::MAX), 7, 250);
    canvas.rasterize(&f);
    for cell in snapshot(&canvas) {
        assert_eq!(cell, (Some(250), Some(7)));
    }
    // a triangle that lies wholly beyond the canvas
    let mut canvas = Canvas::new(4, 3);
    canvas.rasterize(&facet((10, 10), (20, 10), (10, 20), 7, 250));
    for cell in snapshot(&canvas) {
        assert_eq!(cell, (Some(BACKGROUND), Some(EMPTY_DEPTH)));
    }
}

#[test]
fn larger_depth_wins_in_either_order() {
    let low = facet((0, 0), (7, 0), (0, 5), 5, 10);
    let high = facet((2, 1), (7, 1), (2, 5), 9, 20);
    for order in [[low, high], [high, low]] {
        let mut canvas = Canvas::new(8, 6);
        canvas.rasterize(&order[0]);
        canvas.rasterize(&order[1]);
        for v in 0..6 {
            for u in 0..8 {
                let expected = if covered(&high, (u, v)) {
                    (Some(20), Some(9))
                } else if covered(&low, (u, v)) {
                    (Some(10), Some(5))
                } else {
                    (Some(BACKGROUND), Some(EMPTY_DEPTH))
                };
                assert_eq!((canvas.intensity(u, v), canvas.depth(u, v)), expected);
            }
        }
        assert_eq!(canvas.depth(3, 2), Some(9));
        assert_eq!(canvas.depth(0, 0), Some(5));
    }
}

#[test]
fn equal_depth_goes_to_the_later_triangle() {
    let first = facet((0, 0), (7, 0), (0, 5), 5, 10);
    let second = facet((0, 0), (7, 0), (0, 5), 5, 20);
    let mut canvas = Canvas::new(8, 6);
    canvas.rasterize(&first);
    canvas.rasterize(&second);
    assert_eq!(canvas.intensity(1, 1), Some(20));
    canvas.rasterize(&first);
    assert_eq!(canvas.intensity(1, 1), Some(10));
    assert_eq!(canvas.depth(1, 1), Some(5));
}

#[test]
fn rasterize_agrees_with_the_edge_tests_on_many_triangles() {
    let mut seed: u64 = 0x2545_f491_4f6c_dd1d;
    let mut next = move |bound: u64| -> usize {
        seed ^= seed << 13;
        seed ^= seed >> 7;
        seed ^= seed << 17;
        (seed % bound) as usize
    };
    let mut canvas = Canvas::new(12, 9);
    let mut depth = vec![EMPTY_DEPTH; 12 * 9];
    let mut shown = vec![BACKGROUND; 12 * 9];
    for round in 0..400 {
        let f = Facet {
            first: (next(16), next(12)),
            second: (next(16), next(12)),
            third: (next(16), next(12)),
            plane: DepthPlane {
                a: next(7) as i64 - 3,
                b: next(7) as i64 - 3,
                c: next(50) as i64 - 25,
            },
            intensity: (round % 251) as u8,
        };
        canvas.rasterize(&f);
        for v in 0..9 {
            for u in 0..12 {
                let d = f.plane.a as i128 * u as i128 + f.plane.b as i128 * v as i128
                    + f.plane.c as i128;
                if covered(&f, (u, v)) && d >= depth[v * 12 + u] {
                    depth[v * 12 + u] = d;
                    shown[v * 12 + u] = f.intensity;
                }
                assert_eq!(canvas.depth(u, v), Some(depth[v * 12 + u]));
                assert_eq!(canvas.intensity(u, v), Some(shown[v * 12 + u]));
            }
        }
        if round % 50 == 49 {
            canvas.clear();
            depth = vec![EMPTY_DEPTH; 12 * 9];
            shown = vec![BACKGROUND; 12 * 9];
        }
    }
}
