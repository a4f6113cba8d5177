use hilbert_curve::hilbertcurve::{supported_dimensions, CurveError, HCType, HilbertCurve, Orientation};
use hilbert_curve::point::HPoint;

fn build(height: usize, width: usize, origin: HPoint, orientation: Orientation) -> Vec<HPoint> {
    let hc = HilbertCurve::new(height, width, HCType::H0, origin, orientation).unwrap();
    hc.curve
}

#[test]
fn simple_test() {
    let hc = HilbertCurve::new(4, 4, HCType::H0, HPoint::new(0, 0), Orientation::A).unwrap();

    assert_eq!(
        hc.curve,
        vec![
            HPoint::new_with_index(0, 0, 0),
            HPoint::new_with_index(1, 0, 1),
            HPoint::new_with_index(1, 1, 2),
            HPoint::new_with_index(0, 1, 3),
            HPoint::new_with_index(0, 2, 4),
            HPoint::new_with_index(0, 3, 5),
            HPoint::new_with_index(1, 3, 6),
            HPoint::new_with_index(1, 2, 7),
            HPoint::new_with_index(2, 2, 8),
            HPoint::new_with_index(2, 3, 9),
            HPoint::new_with_index(3, 3, 10),
            HPoint::new_with_index(3, 2, 11),
            HPoint::new_with_index(3, 1, 12),
            HPoint::new_with_index(2, 1, 13),
            HPoint::new_with_index(2, 0, 14),
            HPoint::new_with_index(3, 0, 15)
        ]
    );
}

#[test]
fn zero_dimension_rejected() {
    let r = HilbertCurve::new(0, 5, HCType::H0, HPoint::new(0, 0), Orientation::A);
    assert_eq!(r.unwrap_err(), CurveError::InvalidDimensions);
    let r = HilbertCurve::new(5, 0, HCType::H0, HPoint::new(0, 0), Orientation::A);
    assert_eq!(r.unwrap_err(), CurveError::InvalidDimensions);
    let r = HilbertCurve::new(0, 0, HCType::H0, HPoint::new(0, 0), Orientation::A);
    assert_eq!(r.unwrap_err(), CurveError::InvalidDimensions);
}

#[test]
fn single_row_and_column() {
    // 1 x 2: orientations A and B start at the origin, C and D end there.
    for o in [Orientation::A, Orientation::B] {
        let c = build(1, 2, HPoint::new(0, 0), o);
        assert_eq!(c, vec![HPoint::new_with_index(0, 0, 0), HPoint::new_with_index(1, 0, 1)]);
    }
    for o in [Orientation::C, Orientation::D] {
        let c = build(1, 2, HPoint::new(0, 0), o);
        assert_eq!(c, vec![HPoint::new_with_index(1, 0, 0), HPoint::new_with_index(0, 0, 1)]);
    }
    // 2 x 1 likewise, along the other axis.
    for o in [Orientation::A, Orientation::B] {
        let c = build(2, 1, HPoint::new(0, 0), o);
        assert_eq!(c, vec![HPoint::new_with_index(0, 0, 0), HPoint::new_with_index(0, 1, 1)]);
    }
    for o in [Orientation::C, Orientation::D] {
        let c = build(2, 1, HPoint::new(0, 0), o);
        assert_eq!(c, vec![HPoint::new_with_index(0, 1, 0), HPoint::new_with_index(0, 0, 1)]);
    }
}

fn check_bijection(curve: &[HPoint], height: u32, width: u32, ox: u32, oy: u32) {
    assert_eq!(curve.len(), (height * width) as usize);
    for (k, p) in curve.iter().enumerate() {
        assert_eq!(p.i, k as u64);
        assert!(ox <= p.x && p.x < ox + width);
        assert!(oy <= p.y && p.y < oy + height);
    }
    let mut seen = vec![false; (height * width) as usize];
    for p in curve {
        let cell = ((p.y - oy) * width + (p.x - ox)) as usize;
        assert!(!seen[cell], "coordinate visited twice");
        seen[cell] = true;
    }
    assert!(seen.iter().all(|&s| s));
}

fn check_adjacency(curve: &[HPoint]) {
    for w in curve.windows(2) {
        let dx = w[0].x.abs_diff(w[1].x);
        let dy = w[0].y.abs_diff(w[1].y);
        assert_eq!(dx + dy, 1, "consecutive points must be grid-adjacent");
    }
}

#[test]
fn bijection_and_adjacency_on_near_squares() {
    for o in [Orientation::A, Orientation::B, Orientation::C, Orientation::D] {
        for (h, w) in [(1usize, 1usize), (2, 2), (3, 3), (4, 4), (8, 8), (16, 16)] {
            let c = build(h, w, HPoint::new(0, 0), o);
            check_bijection(&c, h as u32, w as u32, 0, 0);
            check_adjacency(&c);
        }
    }
    // Sides differing by one, with the odd side on the axis the
    // orientation class splits oddly.
    for (h, w) in [(3usize, 2usize), (3, 4), (5, 4), (5, 6), (9, 8), (15, 16)] {
        for o in [Orientation::A, Orientation::C] {
            let c = build(h, w, HPoint::new(0, 0), o);
            check_bijection(&c, h as u32, w as u32, 0, 0);
            check_adjacency(&c);
        }
        let c = build(w, h, HPoint::new(0, 0), Orientation::B);
        check_bijection(&c, w as u32, h as u32, 0, 0);
        check_adjacency(&c);
        let c = build(w, h, HPoint::new(0, 0), Orientation::D);
        check_bijection(&c, w as u32, h as u32, 0, 0);
        check_adjacency(&c);
    }
}

#[test]
fn wide_rectangle_keeps_bijection() {
    // 2 x 3 covers the grid exactly once, but the seam between two of its
    // blocks is a diagonal step, so only the bijection holds, not
    // adjacency.
    let c = build(2, 3, HPoint::new(0, 0), Orientation::A);
    check_bijection(&c, 2, 3, 0, 0);
    assert_eq!(
        c,
        vec![
            HPoint::new_with_index(0, 0, 0),
            HPoint::new_with_index(1, 0, 1),
            HPoint::new_with_index(0, 1, 2),
            HPoint::new_with_index(1, 1, 3),
            HPoint::new_with_index(2, 1, 4),
            HPoint::new_with_index(2, 0, 5),
        ]
    );
}

#[test]
fn identical_inputs_identical_curves() {
    let a = build(5, 6, HPoint::new(3, 4), Orientation::B);
    let b = build(5, 6, HPoint::new(3, 4), Orientation::B);
    assert_eq!(a, b);
}

#[test]
fn translation_shifts_the_curve() {
    let base = build(4, 4, HPoint::new(0, 0), Orientation::A);
    let moved = build(4, 4, HPoint::new(5, 7), Orientation::A);
    assert_eq!(base.len(), moved.len());
    for (p, q) in base.iter().zip(moved.iter()) {
        assert_eq!(q.x, p.x + 5);
        assert_eq!(q.y, p.y + 7);
        assert_eq!(q.i, p.i);
    }
}

#[test]
fn thin_rectangles_cover_the_grid() {
    // Dimensions on which a split produces empty sub-rectangles still
    // yield a complete, duplicate-free ordering of the grid.
    for o in [Orientation::A, Orientation::B, Orientation::C, Orientation::D] {
        for (h, w) in [
            (1usize, 3usize),
            (1, 5),
            (1, 8),
            (3, 1),
            (5, 1),
            (8, 1),
            (2, 5),
            (5, 2),
            (2, 4),
            (5, 9),
            (16, 2),
        ] {
            let c = build(h, w, HPoint::new(0, 0), o);
            check_bijection(&c, h as u32, w as u32, 0, 0);
        }
    }
    // A single row under orientation A is walked left to right.
    let c = build(1, 5, HPoint::new(0, 0), Orientation::A);
    for (k, p) in c.iter().enumerate() {
        assert_eq!((p.x, p.y, p.i), (k as u32, 0, k as u64));
    }
    // A single column can jump: 4 x 1 under orientation A starts in the
    // middle, so it covers the grid without being adjacent throughout.
    let c = build(4, 1, HPoint::new(0, 0), Orientation::A);
    assert_eq!(
        c,
        vec![
            HPoint::new_with_index(0, 2, 0),
            HPoint::new_with_index(0, 3, 1),
            HPoint::new_with_index(0, 1, 2),
            HPoint::new_with_index(0, 0, 3),
        ]
    );
}

#[test]
fn supported_dimensions_flags_degenerate_splits() {
    for o in [Orientation::A, Orientation::B, Orientation::C, Orientation::D] {
        assert!(!supported_dimensions(o, 0, 5));
        assert!(!supported_dimensions(o, 5, 0));
        assert!(supported_dimensions(o, 1, 1));
        assert!(supported_dimensions(o, 1, 2));
        assert!(supported_dimensions(o, 2, 1));
        assert!(supported_dimensions(o, 4, 4));
        assert!(supported_dimensions(o, 2, 3));
        assert!(!supported_dimensions(o, 1, 3));
        assert!(!supported_dimensions(o, 3, 1));
        assert!(!supported_dimensions(o, 2, 5));
        assert!(!supported_dimensions(o, 5, 9));
        assert!(supported_dimensions(o, 8, 9));
    }
}
