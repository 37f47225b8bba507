use field_flow::{clamp_index, Corners, FieldError, Grid2D};

fn lerp(a: f32, b: f32, t: f32) -> f32 {
    a * (1.0 - t) + b * t
}

/// Bilinear sample built on the library's choice of corners.
fn sample(g: &Grid2D<f32>, x: f32, y: f32) -> f32 {
    let fx = x.floor();
    let fy = y.floor();
    let c = g.corners(fx as i64, fy as i64);
    let tx = x - fx;
    let ty = y - fy;
    lerp(lerp(c.q00, c.q01, tx), lerp(c.q10, c.q11, tx), ty)
}

fn ramp(w: usize, h: usize) -> Grid2D<f32> {
    let mut g = Grid2D::new(w, h, 0.0f32).unwrap();
    for y in 0..h {
        for x in 0..w {
            g.set(x, y, (x * 3 + y * 5 % 7) as f32 - 4.0);
        }
    }
    g
}

fn advect(g: &Grid2D<f32>, v: &Grid2D<(f32, f32)>, dt: f32) -> Result<Grid2D<f32>, FieldError> {
    g.advect(v, |x, y, vel: (f32, f32)| sample(g, x as f32 - vel.0 * dt, y as f32 - vel.1 * dt))
}

#[test]
fn new_fills_every_cell() {
    let g = Grid2D::new(3, 2, 1.5f32).unwrap();
    assert_eq!(g.width(), 3);
    assert_eq!(g.height(), 2);
    assert_eq!(g.cell_values().len(), 6);
    for y in 0..2 {
        for x in 0..3 {
            assert_eq!(g.get(x, y), 1.5);
        }
    }
}

#[test]
fn zero_width_or_height_is_invalid() {
    assert_eq!(Grid2D::new(0, 4, 0u8).unwrap_err(), FieldError::InvalidDimension);
    assert_eq!(Grid2D::new(4, 0, 0u8).unwrap_err(), FieldError::InvalidDimension);
}

#[test]
fn unaddressable_cell_count_is_invalid() {
    assert_eq!(Grid2D::new(usize::MAX, 2, 0u8).unwrap_err(), FieldError::InvalidDimension);
}

#[test]
fn set_changes_one_cell_only() {
    let mut g = Grid2D::new(3, 3, 0i32).unwrap();
    g.set(2, 1, 9);
    assert_eq!(g.get(2, 1), 9);
    assert_eq!(g.index_of(2, 1), 5);
    assert_eq!(g.cell_values(), &vec![0, 0, 0, 0, 0, 9, 0, 0, 0]);
}

#[test]
fn clamp_pins_to_border() {
    assert_eq!(clamp_index(-5, 4), 0);
    assert_eq!(clamp_index(0, 4), 0);
    assert_eq!(clamp_index(2, 4), 2);
    assert_eq!(clamp_index(3, 4), 3);
    assert_eq!(clamp_index(9, 4), 3);
    assert_eq!(clamp_index(i64::MAX as i128 + 1, 4), 3);
}

#[test]
fn corners_inside_the_grid() {
    let mut g = Grid2D::new(3, 3, 0i32).unwrap();
    for y in 0..3 {
        for x in 0..3 {
            g.set(x, y, (10 * y + x) as i32);
        }
    }
    assert_eq!(g.corners(1, 0), Corners { q00: 1, q01: 2, q10: 11, q11: 12 });
    assert_eq!(g.corners(2, 2), Corners { q00: 22, q01: 22, q10: 22, q11: 22 });
    assert_eq!(g.corners(-1, 1), Corners { q00: 10, q01: 10, q10: 20, q11: 20 });
}

#[test]
fn edge_clamp_far_outside() {
    let g = ramp(4, 3);
    assert_eq!(sample(&g, -5.0, -5.0), sample(&g, 0.0, 0.0));
    assert_eq!(sample(&g, 9.0, 8.0), sample(&g, 3.0, 2.0));
    assert_eq!(g.corners(i64::MIN, i64::MIN), Corners { q00: -4.0, q01: -4.0, q10: -4.0, q11: -4.0 });
    let last = g.get(3, 2);
    assert_eq!(g.corners(i64::MAX, i64::MAX), Corners { q00: last, q01: last, q10: last, q11: last });
}

#[test]
fn sampling_stays_within_field_range() {
    let g = ramp(5, 4);
    let vals = g.cell_values();
    let lo = vals.iter().cloned().fold(f32::INFINITY, f32::min);
    let hi = vals.iter().cloned().fold(f32::NEG_INFINITY, f32::max);
    let mut y = -1.0f32;
    while y < 5.0 {
        let mut x = -1.0f32;
        while x < 6.0 {
            let s = sample(&g, x, y);
            assert!(lo <= s && s <= hi);
            x += 0.37;
        }
        y += 0.41;
    }
}

#[test]
fn sampling_between_cells_blends() {
    let mut g = Grid2D::new(2, 2, 0.0f32).unwrap();
    g.set(1, 0, 4.0);
    g.set(0, 1, 8.0);
    g.set(1, 1, 12.0);
    assert_eq!(sample(&g, 0.5, 0.0), 2.0);
    assert_eq!(sample(&g, 0.0, 0.5), 4.0);
    assert_eq!(sample(&g, 0.5, 0.5), 6.0);
}

#[test]
fn advect_rejects_misaligned_velocity() {
    let g = Grid2D::new(4, 4, 1.0f32).unwrap();
    let v = Grid2D::new(3, 4, (0.0f32, 0.0f32)).unwrap();
    assert_eq!(advect(&g, &v, 0.1).unwrap_err(), FieldError::ShapeMismatch);
    let v = Grid2D::new(4, 5, (0.0f32, 0.0f32)).unwrap();
    assert_eq!(advect(&g, &v, 0.1).unwrap_err(), FieldError::ShapeMismatch);
}

#[test]
fn advect_zero_velocity_is_fixed_point() {
    let g = ramp(5, 3);
    let v = Grid2D::new(5, 3, (0.0f32, 0.0f32)).unwrap();
    for dt in [0.0f32, 0.5, 17.0] {
        let next = advect(&g, &v, dt).unwrap();
        assert_eq!(next.cell_values(), g.cell_values());
    }
}

#[test]
fn advect_is_deterministic() {
    let g = ramp(6, 4);
    let v = Grid2D::new(6, 4, (0.7f32, -0.3f32)).unwrap();
    let a = advect(&g, &v, 0.25).unwrap();
    let b = advect(&g, &v, 0.25).unwrap();
    assert_eq!(a.cell_values(), b.cell_values());
}

#[test]
fn advect_shifts_by_whole_cells() {
    let mut g = Grid2D::new(4, 1, 0.0f32).unwrap();
    for x in 0..4 {
        g.set(x, 0, x as f32 * 10.0);
    }
    let v = Grid2D::new(4, 1, (1.0f32, 0.0f32)).unwrap();
    let next = advect(&g, &v, 1.0).unwrap();
    assert_eq!(next.cell_values(), &vec![0.0, 0.0, 10.0, 20.0]);
}

#[test]
fn advect_reads_the_field_before_the_pass() {
    let mut g = Grid2D::new(3, 1, 0.0f32).unwrap();
    g.set(0, 0, 1.0);
    let v = Grid2D::new(3, 1, (1.0f32, 0.0f32)).unwrap();
    let next = advect(&g, &v, 1.0).unwrap();
    assert_eq!(next.cell_values(), &vec![1.0, 1.0, 0.0]);
}
