//! Tiled matrix multiply `C = A × B` on the coprocessor, for square `n × n`
//! row-major matrices.
//!
//! The output is cut into tiles of at most 16 × 16, clipped at the boundary. The
//! program of one tile seeds Z with the tile of C (logical row `p` in Z row `4p`),
//! then, for every reduction index `m` in order, loads column `m` of the A row-tile
//! into Y, row `m` of the B column-tile into X, and issues one outer-product
//! multiply-accumulate, which adds `Y[p] × X[q]` to lane `q` of Z row `4p`. Finally
//! the Z rows are drained back into the tile of C. The caller executes the
//! operations in order; every index they carry is in bounds for `n × n` buffers.
//!
//! What the operations do is given by [`step`] over [`Machine`], with exact
//! arithmetic on the lanes; on the hardware, lanes are `f32` and each
//! multiply-accumulate rounds once.

use vstd::prelude::*;

verus! {

/// Lanes of one register row, and the largest tile side.
pub const TILE: usize = 16;

/// Z-row distance between two logical rows of a tile in outer-product mode.
pub const Z_ROW_STRIDE: usize = 4;

/// One step of a tile program.
#[derive(Clone, Copy, Debug, PartialEq, Eq, Structural)]
pub enum TileOp {
    /// Copy `len` elements of C from `c_start` into a zero-padded 16-lane row and
    /// load it into Z row `z_row`.
    SeedZ { c_start: usize, len: usize, z_row: usize },
    /// Gather `rows` elements of A, from `a_start` and `stride` apart, into a
    /// zero-padded 16-lane row and load it into Y register 0.
    LoadY { a_start: usize, stride: usize, rows: usize },
    /// Copy `len` elements of B from `b_start` into a zero-padded 16-lane row and
    /// load it into X register 0.
    LoadX { b_start: usize, len: usize },
    /// Outer-product multiply-accumulate of X register 0 and Y register 0 into Z,
    /// Z row 0 first (`x_off = 0`, `y_off = 0`, `z_row = 0`, matrix mode).
    Fma,
    /// Store Z row `z_row` and copy its first `len` lanes into C from `c_start`.
    DrainZ { z_row: usize, c_start: usize, len: usize },
}

/// What a tile program acts on: X and Y register 0, the Z register file, and C.
pub struct Machine {
    pub x: Seq<int>,
    pub y: Seq<int>,
    pub z: Seq<Seq<int>>,
    pub c: Seq<int>,
}

/// A 16-lane row whose first `len` lanes are `f(q)` and whose other lanes are zero.
pub open spec fn padded_row(len: int, f: spec_fn(int) -> int) -> Seq<int> {
    Seq::new(16, |q: int| if q < len { f(q) } else { 0 })
}

/// The effect of one operation, with A and B as inputs.
pub open spec fn step(s: Machine, op: TileOp, a: Seq<int>, b: Seq<int>) -> Machine {
    match op {
        TileOp::SeedZ { c_start, len, z_row } => Machine {
            z: s.z.update(z_row as int, padded_row(len as int, |q: int| s.c[c_start + q])),
            ..s
        },
        TileOp::LoadY { a_start, stride, rows } => Machine {
            y: padded_row(rows as int, |p: int| a[a_start + p * stride]),
            ..s
        },
        TileOp::LoadX { b_start, len } => Machine {
            x: padded_row(len as int, |q: int| b[b_start + q]),
            ..s
        },
        TileOp::Fma => Machine {
            z: Seq::new(
                64,
                |r: int|
                    if r % 4 == 0 {
                        Seq::new(16, |q: int| s.z[r][q] + s.y[r / 4] * s.x[q])
                    } else {
                        s.z[r]
                    },
            ),
            ..s
        },
        TileOp::DrainZ { z_row, c_start, len } => Machine {
            c: Seq::new(
                s.c.len(),
                |t: int|
                    if c_start <= t < c_start + len {
                        s.z[z_row as int][t - c_start]
                    } else {
                        s.c[t]
                    },
            ),
            ..s
        },
    }
}

/// The effect of a sequence of operations, first to last.
pub open spec fn run(s: Machine, ops: Seq<TileOp>, a: Seq<int>, b: Seq<int>) -> Machine
    decreases ops.len(),
{
    if ops.len() == 0 {
        s
    } else {
        step(run(s, ops.drop_last(), a, b), ops.last(), a, b)
    }
}

/// `acc` plus the products `A[r][k] × B[k][s]` for `k < m`, added in order of `k`.
pub open spec fn dot_from(acc: int, a: Seq<int>, b: Seq<int>, n: int, r: int, s: int, m: int) -> int
    decreases m,
{
    if m <= 0 {
        acc
    } else {
        dot_from(acc, a, b, n, r, s, m - 1) + a[r * n + (m - 1)] * b[(m - 1) * n + s]
    }
}

/// Side of the tile that starts at `origin` along a dimension of size `n`.
pub open spec fn tile_side(n: int, origin: int) -> int {
    if n - origin < 16 {
        n - origin
    } else {
        16
    }
}

/// The operation that seeds logical row `p` of the tile at `(i, j)`.
pub open spec fn seed_op(n: int, i: int, j: int, p: int) -> TileOp {
    TileOp::SeedZ {
        c_start: ((i + p) * n + j) as usize,
        len: tile_side(n, j) as usize,
        z_row: (4 * p) as usize,
    }
}

/// Operation `t` of the accumulation of the tile at `(i, j)`: for reduction index
/// `t / 3`, the Y load, the X load and the multiply-accumulate.
pub open spec fn accum_op(n: int, i: int, j: int, t: int) -> TileOp {
    let m = t / 3;
    if t % 3 == 0 {
        TileOp::LoadY { a_start: (i * n + m) as usize, stride: n as usize, rows: tile_side(n, i) as usize }
    } else if t % 3 == 1 {
        TileOp::LoadX { b_start: (m * n + j) as usize, len: tile_side(n, j) as usize }
    } else {
        TileOp::Fma
    }
}

/// The operation that drains logical row `p` of the tile at `(i, j)`.
pub open spec fn drain_op(n: int, i: int, j: int, p: int) -> TileOp {
    TileOp::DrainZ {
        z_row: (4 * p) as usize,
        c_start: ((i + p) * n + j) as usize,
        len: tile_side(n, j) as usize,
    }
}

/// The seeds of all rows of the tile at `(i, j)`.
pub open spec fn seed_ops(n: int, i: int, j: int) -> Seq<TileOp> {
    Seq::new(tile_side(n, i) as nat, |p: int| seed_op(n, i, j, p))
}

/// The accumulation of the tile at `(i, j)`, over every reduction index in order.
pub open spec fn accum_ops(n: int, i: int, j: int) -> Seq<TileOp> {
    Seq::new((3 * n) as nat, |t: int| accum_op(n, i, j, t))
}

/// The drains of all rows of the tile at `(i, j)`.
pub open spec fn drain_ops(n: int, i: int, j: int) -> Seq<TileOp> {
    Seq::new(tile_side(n, i) as nat, |p: int| drain_op(n, i, j, p))
}

/// The program of the tile at `(i, j)`: seed, accumulate, drain.
pub open spec fn tile_ops(n: int, i: int, j: int) -> Seq<TileOp> {
    seed_ops(n, i, j) + accum_ops(n, i, j) + drain_ops(n, i, j)
}

/// The buffers that an operation touches lie within `n × n` elements, and its
/// register rows exist.
pub open spec fn op_in_bounds(op: TileOp, n: int) -> bool {
    match op {
        TileOp::SeedZ { c_start, len, z_row } => len <= 16 && c_start + len <= n * n && z_row < 64,
        TileOp::LoadY { a_start, stride, rows } => rows <= 16 && (rows == 0 || a_start + (rows - 1)
            * stride < n * n),
        TileOp::LoadX { b_start, len } => len <= 16 && b_start + len <= n * n,
        TileOp::Fma => true,
        TileOp::DrainZ { z_row, c_start, len } => len <= 16 && c_start + len <= n * n && z_row < 64,
    }
}

/// Element `(r, s)` of C after the program of the tile at `(i, j)` has run on
/// `c`: inside the tile, its old value plus the products of row `r` of A and column
/// `s` of B in order; outside, unchanged.
pub open spec fn tile_result(c: Seq<int>, a: Seq<int>, b: Seq<int>, n: int, i: int, j: int, r: int, s: int) -> int {
    if i <= r < i + tile_side(n, i) && j <= s < j + tile_side(n, j) {
        dot_from(c[r * n + s], a, b, n, r, s, n)
    } else {
        c[r * n + s]
    }
}

proof fn lemma_row_major_bound(n: int, r: int, s: int)
    requires
        0 <= r < n,
        0 <= s < n,
    ensures
        0 <= r * n + s < n * n,
        r * n + s - s == r * n,
{
    assert(r * n + s < n * n) by (nonlinear_arith)
        requires
            0 <= r < n,
            0 <= s < n,
    ;
    assert(0 <= r * n) by (nonlinear_arith)
        requires
            0 <= r,
            0 <= n,
    ;
}

/// Element `r * n + s` lies in the run `[R * n + j, R * n + j + len)` exactly when
/// it is in row `R` and in columns `j .. j + len`.
proof fn lemma_in_row_run(n: int, r: int, s: int, rr: int, j: int, len: int)
    requires
        0 <= r < n,
        0 <= s < n,
        0 <= rr < n,
        0 <= j,
        0 <= len,
        j + len <= n,
    ensures
        (rr * n + j <= r * n + s < rr * n + j + len) <==> (r == rr && j <= s < j + len),
{
    if r < rr {
        assert((r + 1) * n <= rr * n && (r + 1) * n == r * n + n) by (nonlinear_arith)
            requires
                r + 1 <= rr,
                0 <= n,
        ;
    } else if r > rr {
        assert(rr * n + n <= r * n && 0 <= rr * n) by (nonlinear_arith)
            requires
                r > rr,
                0 <= rr,
                0 <= n,
        ;
    }
}

proof fn lemma_run_concat(s: Machine, x: Seq<TileOp>, y: Seq<TileOp>, a: Seq<int>, b: Seq<int>)
    ensures
        run(s, x + y, a, b) == run(run(s, x, a, b), y, a, b),
    decreases y.len(),
{
    if y.len() == 0 {
        assert(x + y =~= x);
    } else {
        assert((x + y).drop_last() =~= x + y.drop_last());
        lemma_run_concat(s, x, y.drop_last(), a, b);
    }
}

proof fn lemma_run_push(s: Machine, x: Seq<TileOp>, op: TileOp, a: Seq<int>, b: Seq<int>)
    ensures
        run(s, x.push(op), a, b) == step(run(s, x, a, b), op, a, b),
{
    assert(x.push(op).drop_last() =~= x);
}

/// After the seeds of the first `p` rows, those Z rows hold the tile rows of C.
proof fn lemma_seeds(s: Machine, a: Seq<int>, b: Seq<int>, n: int, i: int, j: int, p: int)
    requires
        n * n <= usize::MAX,
        0 <= i < n,
        0 <= j < n,
        0 <= p <= tile_side(n, i),
        s.z.len() == 64,
    ensures
        ({
            let t = run(s, seed_ops(n, i, j).take(p), a, b);
            &&& t.c == s.c
            &&& t.z.len() == 64
            &&& forall|pp: int, q: int|
                0 <= pp < p && 0 <= q < tile_side(n, j) ==> #[trigger] t.z[4 * pp][q] == s.c[(i + pp) * n + j + q]
        }),
    decreases p,
{
    if p == 0 {
        assert(seed_ops(n, i, j).take(0) =~= Seq::<TileOp>::empty());
    } else {
        lemma_seeds(s, a, b, n, i, j, p - 1);
        assert(seed_ops(n, i, j).take(p) =~= seed_ops(n, i, j).take(p - 1).push(seed_op(n, i, j, p - 1)));
        lemma_run_push(s, seed_ops(n, i, j).take(p - 1), seed_op(n, i, j, p - 1), a, b);
        lemma_row_major_bound(n, i + p - 1, j);
        let t = run(s, seed_ops(n, i, j).take(p), a, b);
        assert forall|pp: int, q: int|
            0 <= pp < p && 0 <= q < tile_side(n, j) implies #[trigger] t.z[4 * pp][q] == s.c[(i + pp) * n + j + q] by {
        }
    }
}

/// After the first `m` reduction steps, lane `q` of Z row `4p` holds the seeded
/// value plus the first `m` products, for every row and column of the tile.
proof fn lemma_accum(s: Machine, a: Seq<int>, b: Seq<int>, n: int, i: int, j: int, m: int)
    requires
        n * n <= usize::MAX,
        0 <= i < n,
        0 <= j < n,
        0 <= m <= n,
        s.z.len() == 64,
    ensures
        ({
            let t = run(s, accum_ops(n, i, j).take(3 * m), a, b);
            &&& t.c == s.c
            &&& t.z.len() == 64
            &&& forall|p: int, q: int|
                0 <= p < tile_side(n, i) && 0 <= q < tile_side(n, j) ==> #[trigger] t.z[4 * p][q] == dot_from(
                    s.z[4 * p][q],
                    a,
                    b,
                    n,
                    i + p,
                    j + q,
                    m,
                )
        }),
    decreases m,
{
    let ops = accum_ops(n, i, j);
    if m == 0 {
        assert(ops.take(0) =~= Seq::<TileOp>::empty());
    } else {
        lemma_accum(s, a, b, n, i, j, m - 1);
        let k = m - 1;
        assert(ops.take(3 * k + 1) =~= ops.take(3 * k).push(ops[3 * k]));
        assert(ops.take(3 * k + 2) =~= ops.take(3 * k + 1).push(ops[3 * k + 1]));
        assert(ops.take(3 * k + 3) =~= ops.take(3 * k + 2).push(ops[3 * k + 2]));
        lemma_run_push(s, ops.take(3 * k), ops[3 * k], a, b);
        lemma_run_push(s, ops.take(3 * k + 1), ops[3 * k + 1], a, b);
        lemma_run_push(s, ops.take(3 * k + 2), ops[3 * k + 2], a, b);
        assert((3 * k) / 3 == k && (3 * k) % 3 == 0);
        assert((3 * k + 1) / 3 == k && (3 * k + 1) % 3 == 1);
        assert((3 * k + 2) / 3 == k && (3 * k + 2) % 3 == 2);
        let t0 = run(s, ops.take(3 * k), a, b);
        let t1 = run(s, ops.take(3 * k + 1), a, b);
        let t2 = run(s, ops.take(3 * k + 2), a, b);
        let t3 = run(s, ops.take(3 * k + 3), a, b);
        lemma_row_major_bound(n, i, k);
        lemma_row_major_bound(n, k, j);
        assert(n <= n * n) by (nonlinear_arith)
            requires
                1 <= n,
        ;
        assert forall|p: int, q: int|
            0 <= p < tile_side(n, i) && 0 <= q < tile_side(n, j) implies #[trigger] t3.z[4 * p][q] == dot_from(
                s.z[4 * p][q],
                a,
                b,
                n,
                i + p,
                j + q,
                m,
            ) by {
            assert((4 * p) % 4 == 0 && (4 * p) / 4 == p);
            assert(i * n + k + p * n == (i + p) * n + k) by (nonlinear_arith);
            assert(t2.y[p] == a[(i + p) * n + k]);
            assert(t2.x[q] == b[k * n + (j + q)]);
            assert(t3.z[4 * p][q] == t0.z[4 * p][q] + t2.y[p] * t2.x[q]);
        }
        assert(3 * m == 3 * k + 3);
    }
}

/// After the drains of the first `p` rows, those tile rows of C hold their Z rows.
proof fn lemma_drains(s: Machine, a: Seq<int>, b: Seq<int>, n: int, i: int, j: int, p: int)
    requires
        n * n <= usize::MAX,
        0 <= i < n,
        0 <= j < n,
        0 <= p <= tile_side(n, i),
        s.c.len() == n * n,
    ensures
        ({
            let t = run(s, drain_ops(n, i, j).take(p), a, b);
            &&& t.z == s.z
            &&& t.c.len() == n * n
            &&& forall|r: int, c: int|
                0 <= r < n && 0 <= c < n ==> #[trigger] t.c[r * n + c] == if i <= r < i + p && j <= c < j
                    + tile_side(n, j) {
                    s.z[4 * (r - i)][c - j]
                } else {
                    s.c[r * n + c]
                }
        }),
    decreases p,
{
    if p == 0 {
        assert(drain_ops(n, i, j).take(0) =~= Seq::<TileOp>::empty());
    } else {
        lemma_drains(s, a, b, n, i, j, p - 1);
        assert(drain_ops(n, i, j).take(p) =~= drain_ops(n, i, j).take(p - 1).push(drain_op(n, i, j, p - 1)));
        lemma_run_push(s, drain_ops(n, i, j).take(p - 1), drain_op(n, i, j, p - 1), a, b);
        let rr = i + p - 1;
        lemma_row_major_bound(n, rr, j);
        let t = run(s, drain_ops(n, i, j).take(p), a, b);
        assert forall|r: int, c: int| 0 <= r < n && 0 <= c < n implies #[trigger] t.c[r * n + c] == if i <= r < i
            + p && j <= c < j + tile_side(n, j) {
            s.z[4 * (r - i)][c - j]
        } else {
            s.c[r * n + c]
        } by {
            lemma_row_major_bound(n, r, c);
            lemma_in_row_run(n, r, c, rr, j, tile_side(n, j));
        }
    }
}

/// The program of the tile at `(i, j)` leaves every element of C outside the tile
/// unchanged and adds to every element inside it the products of its row of A and
/// its column of B, in order of the reduction index.
pub proof fn lemma_tile_program(s: Machine, a: Seq<int>, b: Seq<int>, n: int, i: int, j: int)
    requires
        n * n <= usize::MAX,
        0 <= i < n,
        0 <= j < n,
        s.c.len() == n * n,
        s.z.len() == 64,
    ensures
        run(s, tile_ops(n, i, j), a, b).c.len() == n * n,
        run(s, tile_ops(n, i, j), a, b).z.len() == 64,
        forall|r: int, c: int|
            0 <= r < n && 0 <= c < n ==> #[trigger] run(s, tile_ops(n, i, j), a, b).c[r * n + c] == tile_result(
                s.c,
                a,
                b,
                n,
                i,
                j,
                r,
                c,
            ),
{
    let ti = tile_side(n, i);
    let seeds = seed_ops(n, i, j);
    let accs = accum_ops(n, i, j);
    let drains = drain_ops(n, i, j);
    lemma_run_concat(s, seeds + accs, drains, a, b);
    lemma_run_concat(s, seeds, accs, a, b);
    lemma_seeds(s, a, b, n, i, j, ti);
    assert(seeds.take(ti) =~= seeds);
    let s1 = run(s, seeds, a, b);
    lemma_accum(s1, a, b, n, i, j, n);
    assert(accs.take(3 * n) =~= accs);
    let s2 = run(s1, accs, a, b);
    lemma_drains(s2, a, b, n, i, j, ti);
    assert(drains.take(ti) =~= drains);
    let s3 = run(s2, drains, a, b);
    assert forall|r: int, c: int| 0 <= r < n && 0 <= c < n implies #[trigger] s3.c[r * n + c] == tile_result(
        s.c,
        a,
        b,
        n,
        i,
        j,
        r,
        c,
    ) by {
        if i <= r < i + ti && j <= c < j + tile_side(n, j) {
            let p = r - i;
            let q = c - j;
            assert(s2.z[4 * p][q] == dot_from(s1.z[4 * p][q], a, b, n, i + p, j + q, n));
            assert(s1.z[4 * p][q] == s.c[(i + p) * n + j + q]);
            assert((i + p) * n + j + q == r * n + c);
        }
    }
}

/// Every operation of the program of the tile at `(i, j)` stays within `n × n`
/// buffers and within the register files.
pub proof fn lemma_tile_ops_in_bounds(n: int, i: int, j: int)
    requires
        0 <= i < n,
        0 <= j < n,
        n * n <= usize::MAX,
    ensures
        forall|k: int| 0 <= k < tile_ops(n, i, j).len() ==> op_in_bounds(#[trigger] tile_ops(n, i, j)[k], n),
{
    let ops = tile_ops(n, i, j);
    let ti = tile_side(n, i);
    let tj = tile_side(n, j);
    assert(n <= n * n) by (nonlinear_arith)
        requires
            1 <= n,
    ;
    assert forall|k: int| 0 <= k < ops.len() implies op_in_bounds(#[trigger] ops[k], n) by {
        if k < ti {
            lemma_row_major_bound(n, i + k, j);
            assert((i + k) * n + n <= n * n) by (nonlinear_arith)
                requires
                    i + k + 1 <= n,
                    0 <= n,
            ;
        } else if k < ti + 3 * n {
            let t = k - ti;
            let m = t / 3;
            assert(ops[k] == accum_op(n, i, j, t));
            lemma_row_major_bound(n, i, m);
            lemma_row_major_bound(n, m, j);
            lemma_row_major_bound(n, i + ti - 1, m);
            assert(i * n + m + (ti - 1) * n == (i + ti - 1) * n + m) by (nonlinear_arith);
            assert(m * n + n <= n * n) by (nonlinear_arith)
                requires
                    m + 1 <= n,
                    0 <= n,
            ;
        } else {
            let p = k - ti - 3 * n;
            assert(ops[k] == drain_op(n, i, j, p));
            lemma_row_major_bound(n, i + p, j);
            assert((i + p) * n + n <= n * n) by (nonlinear_arith)
                requires
                    i + p + 1 <= n,
                    0 <= n,
            ;
        }
    }
}

/// The program of the tile whose top-left element is `(i, j)` in an `n × n`
/// multiply. Its effect is given by [`lemma_tile_program`].
pub fn tile_program(n: usize, i: usize, j: usize) -> (r: Vec<TileOp>)
    requires
        i < n,
        j < n,
        n * n <= usize::MAX,
    ensures
        r@ == tile_ops(n as int, i as int, j as int),
        forall|k: int| 0 <= k < r@.len() ==> op_in_bounds(#[trigger] r@[k], n as int),
{
    let ghost (nn, ii, jj) = (n as int, i as int, j as int);
    let ti: usize = if n - i < TILE { n - i } else { TILE };
    let tj: usize = if n - j < TILE { n - j } else { TILE };
    assert(n <= n * n) by (nonlinear_arith)
        requires
            1 <= n,
    ;
    let mut ops: Vec<TileOp> = Vec::new();

    let mut p: usize = 0;
    while p < ti
        invariant
            i < n,
            j < n,
            n * n <= usize::MAX,
            ti == tile_side(nn, ii),
            tj == tile_side(nn, jj),
            (nn, ii, jj) == (n as int, i as int, j as int),
            p <= ti,
            ops@ == seed_ops(nn, ii, jj).take(p as int),
        decreases ti - p,
    {
        proof {
            lemma_row_major_bound(nn, ii + p, jj);
        }
        ops.push(TileOp::SeedZ { c_start: (i + p) * n + j, len: tj, z_row: p * Z_ROW_STRIDE });
        assert(ops@ =~= seed_ops(nn, ii, jj).take(p + 1));
        p += 1;
    }
    assert(seed_ops(nn, ii, jj).take(ti as int) =~= seed_ops(nn, ii, jj));

    let ghost accs = accum_ops(nn, ii, jj);
    let mut k: usize = 0;
    while k < n
        invariant
            i < n,
            j < n,
            n * n <= usize::MAX,
            ti == tile_side(nn, ii),
            tj == tile_side(nn, jj),
            (nn, ii, jj) == (n as int, i as int, j as int),
            accs == accum_ops(nn, ii, jj),
            k <= n,
            ops@ == seed_ops(nn, ii, jj) + accs.take(3 * k),
        decreases n - k,
    {
        let kl: usize = if n - k < TILE { n - k } else { TILE };
        let mut kk: usize = 0;
        while kk < kl
            invariant
                i < n,
                j < n,
                n * n <= usize::MAX,
                ti == tile_side(nn, ii),
                tj == tile_side(nn, jj),
                (nn, ii, jj) == (n as int, i as int, j as int),
                accs == accum_ops(nn, ii, jj),
                k + kl <= n,
                kk <= kl,
                ops@ == seed_ops(nn, ii, jj) + accs.take(3 * (k + kk)),
            decreases kl - kk,
        {
            let m = k + kk;
            proof {
                lemma_row_major_bound(nn, ii, m as int);
                lemma_row_major_bound(nn, m as int, jj);
                assert((3 * m) / 3 == m && (3 * m) % 3 == 0);
                assert((3 * m + 1) / 3 == m && (3 * m + 1) % 3 == 1);
                assert((3 * m + 2) / 3 == m && (3 * m + 2) % 3 == 2);
            }
            ops.push(TileOp::LoadY { a_start: i * n + m, stride: n, rows: ti });
            ops.push(TileOp::LoadX { b_start: m * n + j, len: tj });
            ops.push(TileOp::Fma);
            assert(ops@ =~= seed_ops(nn, ii, jj) + accs.take(3 * (m + 1)));
            kk += 1;
        }
        k += kl;
    }
    assert(accs.take(3 * nn) =~= accs);

    let mut p: usize = 0;
    while p < ti
        invariant
            i < n,
            j < n,
            n * n <= usize::MAX,
            ti == tile_side(nn, ii),
            tj == tile_side(nn, jj),
            (nn, ii, jj) == (n as int, i as int, j as int),
            p <= ti,
            ops@ == seed_ops(nn, ii, jj) + accum_ops(nn, ii, jj) + drain_ops(nn, ii, jj).take(p as int),
        decreases ti - p,
    {
        proof {
            lemma_row_major_bound(nn, ii + p, jj);
        }
        ops.push(TileOp::DrainZ { z_row: p * Z_ROW_STRIDE, c_start: (i + p) * n + j, len: tj });
        assert(ops@ =~= seed_ops(nn, ii, jj) + accum_ops(nn, ii, jj) + drain_ops(nn, ii, jj).take(p + 1));
        p += 1;
    }
    assert(drain_ops(nn, ii, jj).take(ti as int) =~= drain_ops(nn, ii, jj));
    proof {
        lemma_tile_ops_in_bounds(nn, ii, jj);
        assert(ops@ == tile_ops(n as int, i as int, j as int));
    }
    ops
}

/// Tiles along each side of an `n × n` matrix.
pub open spec fn tiles_per_side(n: int) -> int {
    (n + 15) / 16
}

/// Top-left element of tile `t`, tiles numbered row by row.
pub open spec fn tile_origin(n: int, t: int) -> (int, int) {
    (16 * (t / tiles_per_side(n)), 16 * (t % tiles_per_side(n)))
}

/// Number of the tile that holds element `(r, s)`.
pub open spec fn tile_index(n: int, r: int, s: int) -> int {
    (r / 16) * tiles_per_side(n) + s / 16
}

/// The programs of the first `count` tiles, one after the other.
pub open spec fn tiles_ops(n: int, count: int) -> Seq<TileOp>
    decreases count,
{
    if count <= 0 {
        Seq::empty()
    } else {
        tiles_ops(n, count - 1) + tile_ops(n, tile_origin(n, count - 1).0, tile_origin(n, count - 1).1)
    }
}

/// The whole multiply: the programs of all tiles, row of tiles by row of tiles.
pub open spec fn multiply_ops(n: int) -> Seq<TileOp> {
    tiles_ops(n, tiles_per_side(n) * tiles_per_side(n))
}

/// Element `(r, s)` of the product `A × B`, its products added in order of the
/// reduction index.
pub open spec fn product_at(a: Seq<int>, b: Seq<int>, n: int, r: int, s: int) -> int {
    dot_from(0, a, b, n, r, s, n)
}

proof fn lemma_tile_membership(n: int, t: int, r: int, s: int)
    requires
        0 <= r < n,
        0 <= s < n,
        0 <= t < tiles_per_side(n) * tiles_per_side(n),
    ensures
        0 <= tile_origin(n, t).0 < n,
        0 <= tile_origin(n, t).1 < n,
        0 <= tile_index(n, r, s) < tiles_per_side(n) * tiles_per_side(n),
        (tile_origin(n, t).0 <= r < tile_origin(n, t).0 + tile_side(n, tile_origin(n, t).0)
            && tile_origin(n, t).1 <= s < tile_origin(n, t).1 + tile_side(n, tile_origin(n, t).1))
            <==> tile_index(n, r, s) == t,
{
    let nt = tiles_per_side(n);
    let ti = t / nt;
    let tj = t % nt;
    assert(nt > 0);
    vstd::arithmetic::div_mod::lemma_fundamental_div_mod(t, nt);
    assert(0 <= ti < nt) by {
        vstd::arithmetic::div_mod::lemma_div_pos_is_pos(t, nt);
        vstd::arithmetic::div_mod::lemma_div_by_multiple_is_strongly_ordered(t, nt * nt, nt, nt);
        vstd::arithmetic::div_mod::lemma_div_multiples_vanish(nt, nt);
    }
    assert(0 <= tj < nt);
    assert(r / 16 < nt && s / 16 < nt);
    assert(0 <= (r / 16) * nt + s / 16 < nt * nt) by (nonlinear_arith)
        requires
            0 <= r / 16 < nt,
            0 <= s / 16 < nt,
    ;
    vstd::arithmetic::div_mod::lemma_fundamental_div_mod_converse(tile_index(n, r, s), nt, r / 16, s / 16);
    vstd::arithmetic::div_mod::lemma_fundamental_div_mod(r, 16);
    vstd::arithmetic::div_mod::lemma_fundamental_div_mod(s, 16);
    assert(16 * ti + 16 <= 16 * nt);
    assert(16 * tj + 16 <= 16 * nt);
    let (i, j) = tile_origin(n, t);
    assert(i <= r < i + tile_side(n, i) <==> r / 16 == ti);
    assert(j <= s < j + tile_side(n, j) <==> s / 16 == tj);
    assert(t == ti * nt + tj) by (nonlinear_arith)
        requires
            t == nt * ti + tj,
    ;
    if tile_index(n, r, s) == t {
        assert(r / 16 == ti && s / 16 == tj);
    }
    if r / 16 == ti && s / 16 == tj {
        assert(tile_index(n, r, s) == t);
    }
}

proof fn lemma_tiles(s: Machine, a: Seq<int>, b: Seq<int>, n: int, count: int)
    requires
        n * n <= usize::MAX,
        0 <= n,
        0 <= count <= tiles_per_side(n) * tiles_per_side(n),
        s.c.len() == n * n,
        s.z.len() == 64,
        forall|r: int, c: int| 0 <= r < n && 0 <= c < n ==> #[trigger] s.c[r * n + c] == 0,
    ensures
        run(s, tiles_ops(n, count), a, b).c.len() == n * n,
        run(s, tiles_ops(n, count), a, b).z.len() == 64,
        forall|r: int, c: int|
            0 <= r < n && 0 <= c < n ==> #[trigger] run(s, tiles_ops(n, count), a, b).c[r * n + c] == if tile_index(
                n,
                r,
                c,
            ) < count {
                product_at(a, b, n, r, c)
            } else {
                0
            },
    decreases count,
{
    if count == 0 {
        assert forall|r: int, c: int| 0 <= r < n && 0 <= c < n implies #[trigger] run(s, tiles_ops(n, 0), a, b).c[r
            * n + c] == if tile_index(n, r, c) < 0 {
            product_at(a, b, n, r, c)
        } else {
            0
        } by {
            assert(0 <= r / 16 && 0 <= c / 16 && 0 <= tiles_per_side(n));
            assert(0 <= (r / 16) * tiles_per_side(n)) by (nonlinear_arith)
                requires
                    0 <= r / 16,
                    0 <= tiles_per_side(n),
            ;
        }
    } else {
        let t = count - 1;
        lemma_tiles(s, a, b, n, t);
        let (i, j) = tile_origin(n, t);
        let s1 = run(s, tiles_ops(n, t), a, b);
        assert(n > 0);
        lemma_tile_membership(n, t, 0, 0);
        lemma_tile_program(s1, a, b, n, i, j);
        lemma_run_concat(s, tiles_ops(n, t), tile_ops(n, i, j), a, b);
        let s2 = run(s, tiles_ops(n, count), a, b);
        assert forall|r: int, c: int| 0 <= r < n && 0 <= c < n implies #[trigger] s2.c[r * n + c] == if tile_index(
            n,
            r,
            c,
        ) < count {
            product_at(a, b, n, r, c)
        } else {
            0
        } by {
            lemma_tile_membership(n, t, r, c);
            assert(s2.c[r * n + c] == tile_result(s1.c, a, b, n, i, j, r, c));
        }
    }
}

/// The whole multiply computes the product: run on a zeroed C, the programs of
/// all tiles leave in every element `(r, s)` the sum over `k` of `A[r][k] × B[k][s]`,
/// added in order of `k`.
pub proof fn lemma_multiply_program(s: Machine, a: Seq<int>, b: Seq<int>, n: int)
    requires
        0 <= n,
        n * n <= usize::MAX,
        s.c == Seq::new((n * n) as nat, |t: int| 0int),
        s.z.len() == 64,
    ensures
        n == 0 ==> multiply_ops(n).len() == 0,
        run(s, multiply_ops(n), a, b).c.len() == n * n,
        forall|r: int, c: int|
            0 <= r < n && 0 <= c < n ==> #[trigger] run(s, multiply_ops(n), a, b).c[r * n + c] == product_at(a, b, n, r, c),
{
    let nt = tiles_per_side(n);
    assert(0 <= nt * nt) by (nonlinear_arith)
        requires
            0 <= nt,
    ;
    assert forall|r: int, c: int| 0 <= r < n && 0 <= c < n implies #[trigger] s.c[r * n + c] == 0 by {
        lemma_row_major_bound(n, r, c);
    }
    lemma_tiles(s, a, b, n, nt * nt);
    assert forall|r: int, c: int| 0 <= r < n && 0 <= c < n implies #[trigger] run(s, multiply_ops(n), a, b).c[r * n
        + c] == product_at(a, b, n, r, c) by {
        assert(1 <= nt * nt) by (nonlinear_arith)
            requires
                1 <= nt,
        ;
        lemma_tile_membership(n, 0, r, c);
    }
}

/// The top-left elements of all tiles of an `n × n` multiply, row of tiles by row
/// of tiles. Empty for `n == 0`.
pub fn tile_origins(n: usize) -> (r: Vec<(usize, usize)>)
    requires
        n * n <= usize::MAX,
    ensures
        r@.len() == tiles_per_side(n as int) * tiles_per_side(n as int),
        forall|t: int|
            0 <= t < r@.len() ==> (#[trigger] r@[t]).0 == tile_origin(n as int, t).0 && r@[t].1 == tile_origin(
                n as int,
                t,
            ).1 && r@[t].0 < n && r@[t].1 < n,
{
    let ghost nt = tiles_per_side(n as int);
    assert(n + 16 <= usize::MAX) by (nonlinear_arith)
        requires
            n * n <= usize::MAX,
    ;
    let mut r: Vec<(usize, usize)> = Vec::new();
    let mut i: usize = 0;
    assert((i / 16) * nt == 0) by (nonlinear_arith)
        requires
            i == 0,
    ;
    while i < n
        invariant
            n + 16 <= usize::MAX,
            nt == tiles_per_side(n as int),
            i % 16 == 0,
            i <= n + 15,
            i < n ==> i / 16 < nt,
            r@.len() == (i / 16) * nt,
            forall|t: int|
                0 <= t < r@.len() ==> (#[trigger] r@[t]).0 == tile_origin(n as int, t).0 && r@[t].1 == tile_origin(
                    n as int,
                    t,
                ).1 && r@[t].0 < n && r@[t].1 < n,
        decreases n + 16 - i,
    {
        let mut j: usize = 0;
        while j < n
            invariant
                n + 16 <= usize::MAX,
                nt == tiles_per_side(n as int),
                i % 16 == 0,
                i < n,
                i / 16 < nt,
                j % 16 == 0,
                j <= n + 15,
                j < n ==> j / 16 < nt,
                r@.len() == (i / 16) * nt + j / 16,
                forall|t: int|
                    0 <= t < r@.len() ==> (#[trigger] r@[t]).0 == tile_origin(n as int, t).0 && r@[t].1
                        == tile_origin(n as int, t).1 && r@[t].0 < n && r@[t].1 < n,
            decreases n + 16 - j,
        {
            proof {
                vstd::arithmetic::div_mod::lemma_fundamental_div_mod_converse(
                    r@.len() as int,
                    nt,
                    i as int / 16,
                    j as int / 16,
                );
            }
            r.push((i, j));
            j += TILE;
        }
        assert(j / 16 == nt);
        assert((i / 16) * nt + nt == (i / 16 + 1) * nt) by (nonlinear_arith);
        i += TILE;
    }
    assert(i / 16 == nt);
    r
}

/// The whole multiply of two `n × n` matrices: the programs of all tiles, row of
/// tiles by row of tiles, as one sequence. Run on a zeroed C it leaves the product
/// there ([`lemma_multiply_program`]); empty for `n == 0`.
pub fn multiply_program(n: usize) -> (r: Vec<TileOp>)
    requires
        n * n <= usize::MAX,
    ensures
        r@ == multiply_ops(n as int),
        forall|k: int| 0 <= k < r@.len() ==> op_in_bounds(#[trigger] r@[k], n as int),
{
    let origins = tile_origins(n);
    let mut ops: Vec<TileOp> = Vec::new();
    let mut t: usize = 0;
    while t < origins.len()
        invariant
            n * n <= usize::MAX,
            origins@.len() == tiles_per_side(n as int) * tiles_per_side(n as int),
            forall|u: int|
                0 <= u < origins@.len() ==> (#[trigger] origins@[u]).0 == tile_origin(n as int, u).0
                    && origins@[u].1 == tile_origin(n as int, u).1 && origins@[u].0 < n && origins@[u].1 < n,
            t <= origins.len(),
            ops@ == tiles_ops(n as int, t as int),
            forall|k: int| 0 <= k < ops@.len() ==> op_in_bounds(#[trigger] ops@[k], n as int),
        decreases origins.len() - t,
    {
        let (i, j) = origins[t];
        let tile = tile_program(n, i, j);
        let ghost before = ops@;
        let mut k: usize = 0;
        while k < tile.len()
            invariant
                tile@ == tile_ops(n as int, i as int, j as int),
                forall|q: int| 0 <= q < tile@.len() ==> op_in_bounds(#[trigger] tile@[q], n as int),
                forall|q: int| 0 <= q < before.len() ==> op_in_bounds(#[trigger] before[q], n as int),
                k <= tile.len(),
                ops@ == before + tile@.take(k as int),
            decreases tile.len() - k,
        {
            ops.push(tile[k]);
            assert(ops@ =~= before + tile@.take(k + 1));
            k += 1;
        }
        assert(tile@.take(tile@.len() as int) =~= tile@);
        assert(tiles_ops(n as int, t + 1) == tiles_ops(n as int, t as int) + tile_ops(
            n as int,
            tile_origin(n as int, t as int).0,
            tile_origin(n as int, t as int).1,
        ));
        assert forall|q: int| 0 <= q < ops@.len() implies op_in_bounds(#[trigger] ops@[q], n as int) by {
            if q >= before.len() {
                assert(ops@[q] == tile@[q - before.len()]);
            }
        }
        t += 1;
    }
    ops
}

/// Whether the tiled kernel takes the product of an `a_rows × a_cols` and a
/// `b_rows × b_cols` matrix: both square, of one size `n`, with `n × n` elements
/// addressable. Other shapes go to a general multiply.
pub fn tiled_applies(a_rows: usize, a_cols: usize, b_rows: usize, b_cols: usize) -> (r: bool)
    ensures
        r == (a_rows == a_cols && b_rows == b_cols && a_cols == b_rows && a_rows * a_rows <= usize::MAX),
{
    if a_rows != a_cols || b_rows != b_cols || a_cols != b_rows {
        return false;
    }
    a_rows.checked_mul(a_rows).is_some()
}

/// Loading a run of C into a Z row and storing that row straight back over the
/// same run gives C back unchanged.
pub proof fn lemma_seed_drain_round_trip(s: Machine, c_start: usize, len: usize, z_row: usize, a: Seq<int>, b: Seq<int>)
    requires
        len <= 16,
        z_row < 64,
        s.z.len() == 64,
        c_start + len <= s.c.len(),
    ensures
        run(
            s,
            seq![TileOp::SeedZ { c_start, len, z_row }, TileOp::DrainZ { z_row, c_start, len }],
            a,
            b,
        ).c == s.c,
{
    let ops = seq![TileOp::SeedZ { c_start, len, z_row }, TileOp::DrainZ { z_row, c_start, len }];
    let seed = TileOp::SeedZ { c_start, len, z_row };
    let drain = TileOp::DrainZ { z_row, c_start, len };
    let none = Seq::<TileOp>::empty();
    assert(ops =~= none.push(seed).push(drain));
    lemma_run_push(s, none, seed, a, b);
    lemma_run_push(s, none.push(seed), drain, a, b);
    assert(run(s, none, a, b) == s);
    let s1 = step(s, seed, a, b);
    assert(s1.z[z_row as int] == padded_row(len as int, |q: int| s.c[c_start + q]));
    let t = step(s1, drain, a, b);
    assert(run(s, ops, a, b) == t);
    assert(t.c =~= s.c);
}

proof fn lemma_identity_dot(a: Seq<int>, b: Seq<int>, n: int, r: int, s: int, m: int)
    requires
        0 <= r < n,
        0 <= s < n,
        0 <= m <= n,
        forall|rr: int, k: int| 0 <= rr < n && 0 <= k < n ==> #[trigger] a[rr * n + k] == if rr == k { 1int } else { 0int },
    ensures
        dot_from(0, a, b, n, r, s, m) == if r < m { b[r * n + s] } else { 0 },
    decreases m,
{
    if m > 0 {
        lemma_identity_dot(a, b, n, r, s, m - 1);
        assert(a[r * n + (m - 1)] == if r == m - 1 { 1int } else { 0int });
    }
}

/// Multiplying the identity by `B` gives `B` back, element by element.
pub proof fn lemma_identity_multiply(s: Machine, a: Seq<int>, b: Seq<int>, n: int)
    requires
        0 <= n,
        n * n <= usize::MAX,
        s.c == Seq::new((n * n) as nat, |t: int| 0int),
        s.z.len() == 64,
        forall|r: int, k: int| 0 <= r < n && 0 <= k < n ==> #[trigger] a[r * n + k] == if r == k { 1int } else { 0int },
    ensures
        forall|r: int, c: int| 0 <= r < n && 0 <= c < n ==> #[trigger] run(s, multiply_ops(n), a, b).c[r * n + c] == b[r * n + c],
{
    lemma_multiply_program(s, a, b, n);
    assert forall|r: int, c: int| 0 <= r < n && 0 <= c < n implies #[trigger] run(s, multiply_ops(n), a, b).c[r * n + c] == b[r
        * n + c] by {
        lemma_identity_dot(a, b, n, r, c, n);
    }
}

} // verus!
