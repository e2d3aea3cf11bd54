use term_raster::canvas::{Canvas, BACKGROUND, EMPTY_DEPTH};
use term_raster::raster::{DepthPlane, Facet};

type Cell = (usize, usize);

fn tri(first: Cell, second: Cell, third: Cell, plane: (i64, i64, i64), intensity: u8) -> Facet {
    let plane = DepthPlane { a: plane.0, b: plane.1, c: plane.2 };
    Facet { first, second, third, plane, intensity }
}

fn edge_at(a: (usize, usize), b: (usize, usize), p: (usize, usize)) -> i64 {
    (b.0 as i64 - a.0 as i64) * (p.1 as i64 - a.1 as i64)
        - (b.1 as i64 - a.1 as i64) * (p.0 as i64 - a.0 as i64)
}

fn covers(f: &Facet, p: (usize, usize)) -> bool {
    edge_at(f.first, f.second, f.third) != 0
        && edge_at(f.first, f.second, p) >= 0
        && edge_at(f.second, f.third, p) >= 0
        && edge_at(f.third, f.first, p) >= 0
}

fn depth_of(f: &Facet, p: (usize, usize)) -> i128 {
    f.plane.a as i128 * p.0 as i128 + f.plane.b as i128 * p.1 as i128 + f.plane.c as i128
}

fn overlapping() -> Vec<Facet> {
    vec![
        tri((0, 0), (9, 0), (0, 7), (2, 0, 0), 40),
        tri((9, 7), (0, 7), (9, 0), (-2, 0, 18), 80),
        tri((1, 1), (8, 1), (1, 6), (0, 3, 1), 120),
        tri((3, 0), (9, 3), (2, 7), (0, 0, 9), 160),
        tri((2, 2), (2, 6), (7, 2), (0, 0, 500), 200),
        tri((4, 4), (4, 4), (8, 8), (0, 0, 900), 240),
    ]
}

#[test]
fn stored_depth_is_the_largest_of_the_covering_triangles() {
    let facets = overlapping();
    let mut canvas = Canvas::new(10, 8);
    canvas.render(&facets);
    for v in 0..8 {
        for u in 0..10 {
            let best = facets
                .iter()
                .filter(|f| covers(f, (u, v)))
                .map(|f| depth_of(f, (u, v)))
                .max();
            match best {
                Some(d) => assert_eq!(canvas.depth(u, v), Some(d)),
                None => {
                    assert_eq!(canvas.depth(u, v), Some(EMPTY_DEPTH));
                    assert_eq!(canvas.intensity(u, v), Some(BACKGROUND));
                },
            }
        }
    }
}

#[test]
fn shown_intensity_is_of_the_last_triangle_at_the_stored_depth() {
    let facets = overlapping();
    let mut canvas = Canvas::new(10, 8);
    canvas.render(&facets);
    let mut seen = 0;
    for v in 0..8 {
        for u in 0..10 {
            let stored = canvas.depth(u, v).unwrap();
            let last = facets
                .iter()
                .filter(|f| covers(f, (u, v)) && depth_of(f, (u, v)) == stored)
                .last();
            if let Some(f) = last {
                seen += 1;
                assert_eq!(canvas.intensity(u, v), Some(f.intensity));
            }
        }
    }
    assert!(seen > 40);
}

#[test]
fn stored_depth_does_not_depend_on_the_drawing_order() {
    let facets = overlapping();
    let mut reversed = facets.clone();
    reversed.reverse();
    let mut one = Canvas::new(10, 8);
    let mut other = Canvas::new(10, 8);
    one.render(&facets);
    other.render(&reversed);
    for v in 0..8 {
        for u in 0..10 {
            assert_eq!(one.depth(u, v), other.depth(u, v));
        }
    }
}

#[test]
fn draw_keeps_what_lies_above() {
    let mut canvas = Canvas::new(10, 8);
    assert!(canvas.plot(1, 1, 1000, 7));
    assert!(canvas.plot(2, 1, 2, 8));
    canvas.draw(&overlapping());
    // every triangle is below 1000 on (1, 1): the cell keeps what it held
    assert_eq!(canvas.depth(1, 1), Some(1000));
    assert_eq!(canvas.intensity(1, 1), Some(7));
    // on (2, 1) the triangles 0 and 2 both reach the depth 4, above the 2 held
    assert_eq!(canvas.depth(2, 1), Some(4));
    assert_eq!(canvas.intensity(2, 1), Some(120));
}

#[test]
fn render_starts_from_a_blank_canvas() {
    let mut canvas = Canvas::new(10, 8);
    for v in 0..8 {
        for u in 0..10 {
            assert!(canvas.plot(u, v, 100000, 255));
        }
    }
    canvas.render(&vec![tri((0, 0), (3, 0), (0, 3), (0, 0, 5), 90)]);
    assert_eq!(canvas.depth(1, 1), Some(5));
    assert_eq!(canvas.intensity(1, 1), Some(90));
    assert_eq!(canvas.depth(9, 7), Some(EMPTY_DEPTH));
    assert_eq!(canvas.intensity(9, 7), Some(BACKGROUND));
}

#[test]
fn render_without_triangles_gives_a_blank_frame() {
    let mut canvas = Canvas::new(6, 2);
    assert!(canvas.plot(3, 1, 5, 255));
    canvas.render(&Vec::new());
    let text: String = canvas.to_text().into_iter().collect();
    assert_eq!(text, "      \r\n      \r\n");
}
