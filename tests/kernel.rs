use mac_amx::kernel::{multiply_program, tile_origins, tile_program, tiled_applies, TileOp};

/// Runs tile programs the way the coprocessor does, on a simulated register file.
struct Unit {
    x: [f32; 16],
    y: [f32; 16],
    z: [[f32; 16]; 64],
    issued: usize,
}

impl Unit {
    fn new() -> Unit {
        Unit { x: [0.0; 16], y: [0.0; 16], z: [[0.0; 16]; 64], issued: 0 }
    }

    fn execute(&mut self, op: TileOp, a: &[f32], b: &[f32], c: &mut [f32]) {
        self.issued += 1;
        match op {
            TileOp::SeedZ { c_start, len, z_row } => {
                let mut row = [0.0f32; 16];
                row[..len].copy_from_slice(&c[c_start..c_start + len]);
                self.z[z_row] = row;
            }
            TileOp::LoadY { a_start, stride, rows } => {
                let mut col = [0.0f32; 16];
                for (p, lane) in col.iter_mut().enumerate().take(rows) {
                    *lane = a[a_start + p * stride];
                }
                self.y = col;
            }
            TileOp::LoadX { b_start, len } => {
                let mut row = [0.0f32; 16];
                row[..len].copy_from_slice(&b[b_start..b_start + len]);
                self.x = row;
            }
            TileOp::Fma => {
                for p in 0..16 {
                    for q in 0..16 {
                        self.z[4 * p][q] = self.y[p].mul_add(self.x[q], self.z[4 * p][q]);
                    }
                }
            }
            TileOp::DrainZ { z_row, c_start, len } => {
                c[c_start..c_start + len].copy_from_slice(&self.z[z_row][..len]);
            }
        }
    }
}

fn tiled(a: &[f32], b: &[f32], n: usize) -> (Vec<f32>, usize) {
    let mut c = vec![0.0f32; n * n];
    let mut unit = Unit::new();
    for op in multiply_program(n) {
        unit.execute(op, a, b, &mut c);
    }
    (c, unit.issued)
}

fn naive(a: &[f32], b: &[f32], n: usize, m: usize, k: usize) -> Vec<f32> {
    let mut c = vec![0.0f32; n * k];
    for r in 0..n {
        for s in 0..k {
            let mut acc = 0.0f32;
            for t in 0..m {
                acc += a[r * m + t] * b[t * k + s];
            }
            c[r * k + s] = acc;
        }
    }
    c
}

fn pattern(n: usize, seed: usize) -> Vec<f32> {
    (0..n * n).map(|t| ((t * 7 + seed * 3) % 11) as f32 - 5.0).collect()
}

#[test]
fn test_matmul_small() {
    const N: usize = 64;
    let a: Vec<f32> = (0..N * N).map(|i| if i % (N + 1) == 0 { 1.0 } else { 0.0 }).collect();
    let b: Vec<f32> = (0..N * N).map(|i| (i % N) as f32).collect();
    let (c, _) = tiled(&a, &b, N);
    for (i, (&ci, &bi)) in c.iter().zip(b.iter()).enumerate() {
        assert!((ci - bi).abs() < 1e-5, "Mismatch at {i}: got {ci}, expected {bi}");
    }
}

#[test]
fn identity_times_matrix_n16() {
    let n = 16;
    let a: Vec<f32> = (0..n * n).map(|i| if i % (n + 1) == 0 { 1.0 } else { 0.0 }).collect();
    let b = pattern(n, 2);
    let (c, _) = tiled(&a, &b, n);
    for t in 0..n * n {
        assert!((c[t] - b[t]).abs() < 1e-5);
    }
}

#[test]
fn two_by_two_scenario() {
    let a = [1.0f32, 2.0, 3.0, 4.0];
    let b = [5.0f32, 6.0, 7.0, 8.0];
    let (c, _) = tiled(&a, &b, 2);
    assert_eq!(c, vec![19.0, 22.0, 43.0, 50.0]);
    assert_eq!(naive(&a, &b, 2, 2, 2), vec![19.0, 22.0, 43.0, 50.0]);
}

#[test]
fn boundary_sizes_match_naive() {
    for &n in &[0usize, 1, 15, 16, 17, 31, 32, 33] {
        let a = pattern(n, 1);
        let b = pattern(n, 4);
        let (c, _) = tiled(&a, &b, n);
        let expected = naive(&a, &b, n, n, n);
        assert_eq!(c.len(), n * n);
        for t in 0..n * n {
            assert!((c[t] - expected[t]).abs() < 1e-5, "n = {n}, element {t}: {} vs {}", c[t], expected[t]);
        }
    }
}

#[test]
fn empty_multiply_issues_nothing() {
    assert!(tile_origins(0).is_empty());
    let (c, issued) = tiled(&[], &[], 0);
    assert!(c.is_empty());
    assert_eq!(issued, 0);
}

#[test]
fn tile_origins_row_major() {
    assert_eq!(tile_origins(1), vec![(0, 0)]);
    assert_eq!(tile_origins(16), vec![(0, 0)]);
    assert_eq!(tile_origins(17), vec![(0, 0), (0, 16), (16, 0), (16, 16)]);
    assert_eq!(tile_origins(33).len(), 9);
    assert_eq!(tile_origins(33)[5], (16, 32));
}

#[test]
fn tile_program_of_two_by_two() {
    let ops = tile_program(2, 0, 0);
    assert_eq!(
        ops,
        vec![
            TileOp::SeedZ { c_start: 0, len: 2, z_row: 0 },
            TileOp::SeedZ { c_start: 2, len: 2, z_row: 4 },
            TileOp::LoadY { a_start: 0, stride: 2, rows: 2 },
            TileOp::LoadX { b_start: 0, len: 2 },
            TileOp::Fma,
            TileOp::LoadY { a_start: 1, stride: 2, rows: 2 },
            TileOp::LoadX { b_start: 2, len: 2 },
            TileOp::Fma,
            TileOp::DrainZ { z_row: 0, c_start: 0, len: 2 },
            TileOp::DrainZ { z_row: 4, c_start: 2, len: 2 },
        ]
    );
}

#[test]
fn tile_program_clips_boundary_tile() {
    let n = 17;
    let ops = tile_program(n, 16, 0);
    assert_eq!(ops.len(), 2 + 3 * n);
    assert_eq!(ops[0], TileOp::SeedZ { c_start: 16 * 17, len: 16, z_row: 0 });
    assert_eq!(ops[1], TileOp::LoadY { a_start: 16 * 17, stride: 17, rows: 1 });
    assert_eq!(ops[2], TileOp::LoadX { b_start: 0, len: 16 });
    let corner = tile_program(n, 16, 16);
    assert_eq!(corner[0], TileOp::SeedZ { c_start: 16 * 17 + 16, len: 1, z_row: 0 });
    assert_eq!(corner[corner.len() - 1], TileOp::DrainZ { z_row: 0, c_start: 16 * 17 + 16, len: 1 });
}

#[test]
fn seed_then_drain_keeps_c() {
    let c0: Vec<f32> = (0..9).map(|t| t as f32 * 1.5).collect();
    let mut c = c0.clone();
    let mut unit = Unit::new();
    unit.execute(TileOp::SeedZ { c_start: 3, len: 5, z_row: 8 }, &[], &[], &mut c);
    unit.execute(TileOp::DrainZ { z_row: 8, c_start: 3, len: 5 }, &[], &[], &mut c);
    assert_eq!(c, c0);
}

#[test]
fn tiled_kernel_shape_check() {
    assert!(tiled_applies(2, 2, 2, 2));
    assert!(tiled_applies(64, 64, 64, 64));
    assert!(!tiled_applies(3, 5, 5, 4));
    assert!(!tiled_applies(2, 2, 3, 3));
    assert!(!tiled_applies(usize::MAX, usize::MAX, usize::MAX, usize::MAX));
}

#[test]
fn fallback_shapes_agree_with_naive() {
    let a: Vec<f32> = (0..15).map(|t| t as f32).collect();
    let b: Vec<f32> = (0..20).map(|t| (t % 3) as f32).collect();
    assert!(!tiled_applies(3, 5, 5, 4));
    let c = naive(&a, &b, 3, 5, 4);
    assert_eq!(c.len(), 12);
    assert_eq!(c[0], 0.0 * 0.0 + 1.0 * 1.0 + 2.0 * 2.0 + 3.0 * 0.0 + 4.0 * 1.0);
    let a2 = [1.0f32, 2.0, 3.0, 4.0];
    let b2 = [0.5f32, -1.0, 2.0, 0.25];
    let (t2, _) = tiled(&a2, &b2, 2);
    let n2 = naive(&a2, &b2, 2, 2, 2);
    for k in 0..4 {
        assert!((t2[k] - n2[k]).abs() < 1e-5);
    }
}

#[test]
fn multiply_program_concatenates_tiles() {
    for &n in &[0usize, 1, 2, 16, 17, 33] {
        let mut expected = Vec::new();
        for (i, j) in tile_origins(n) {
            expected.extend(tile_program(n, i, j));
        }
        assert_eq!(multiply_program(n), expected);
    }
    assert!(multiply_program(0).is_empty());
    assert_eq!(multiply_program(2), tile_program(2, 0, 0));
}
