//! Small square integer matrices: product, determinant by cofactor expansion,
//! adjugate and inverse modulo `n`.

use vstd::prelude::*;
use crate::modular::{
    coprime, inverse_of, is_inverse, lemma_inverse_unique, mod_inv, rem_euclid,
};

verus! {

/// The largest order of a matrix that the functions of this module take.
pub const MAX_ORDER: usize = 4;

/// The largest magnitude of an entry that the functions of this module take.
pub const MAX_ENTRY: i64 = 255;

/// A matrix as the list of its rows.
#[derive(Debug)]
pub struct Matrix {
    pub rows: Vec<Vec<i64>>,
}

impl View for Matrix {
    type V = Seq<Seq<int>>;

    open spec fn view(&self) -> Seq<Seq<int>> {
        Seq::new(
            self.rows@.len(),
            |i: int| Seq::new(self.rows@[i]@.len(), |j: int| self.rows@[i]@[j] as int),
        )
    }
}

/// Whether `m` has as many columns in every row as it has rows.
pub open spec fn is_square(m: Seq<Seq<int>>) -> bool {
    forall|i: int| 0 <= i < m.len() ==> (#[trigger] m[i]).len() == m.len()
}

/// Whether every entry of `m` lies in `-b..=b`.
pub open spec fn within(m: Seq<Seq<int>>, b: int) -> bool {
    forall|i: int, j: int|
        0 <= i < m.len() && 0 <= j < m[i].len() ==> -b <= #[trigger] m[i][j] <= b
}

/// A square matrix of order at most [`MAX_ORDER`] with entries of magnitude at
/// most [`MAX_ENTRY`]: one whose determinant and products fit in 64 bits.
pub open spec fn small(m: Seq<Seq<int>>) -> bool {
    is_square(m) && m.len() <= MAX_ORDER && within(m, MAX_ENTRY as int)
}

/// The sum of `a[i][t] * b[t][j]` over `t` in `0..k`.
pub open spec fn dot(a: Seq<Seq<int>>, b: Seq<Seq<int>>, i: int, j: int, k: nat) -> int
    decreases k,
{
    if k == 0 {
        0
    } else {
        dot(a, b, i, j, (k - 1) as nat) + a[i][k - 1] * b[k - 1][j]
    }
}

/// The product of two square matrices of one order, entries not reduced.
pub open spec fn product(a: Seq<Seq<int>>, b: Seq<Seq<int>>) -> Seq<Seq<int>> {
    Seq::new(a.len(), |i: int| Seq::new(a.len(), |j: int| dot(a, b, i, j, a.len())))
}

/// `m` without row `r` and column `c`.
pub open spec fn minor(m: Seq<Seq<int>>, r: int, c: int) -> Seq<Seq<int>> {
    Seq::new(
        (m.len() - 1) as nat,
        |i: int|
            Seq::new(
                (m.len() - 1) as nat,
                |j: int|
                    m[if i < r {
                        i
                    } else {
                        i + 1
                    }][if j < c {
                        j
                    } else {
                        j + 1
                    }],
            ),
    )
}

/// 1 for an even `k`, -1 for an odd one.
pub open spec fn sign(k: int) -> int {
    if k % 2 == 0 {
        1
    } else {
        -1
    }
}

/// The determinant of a square matrix, expanded along its first row; the
/// determinant of the empty matrix is 1.
pub open spec fn det(m: Seq<Seq<int>>) -> int
    decreases m.len(), m.len() + 1,
{
    if m.len() == 0 {
        1
    } else {
        expansion(m, m.len())
    }
}

/// The first `k` terms of the expansion of `det(m)` along the first row.
pub open spec fn expansion(m: Seq<Seq<int>>, k: nat) -> int
    decreases m.len(), k,
{
    if k == 0 || m.len() == 0 {
        0
    } else {
        expansion(m, (k - 1) as nat) + sign(k - 1) * m[0][k - 1] * det(minor(m, 0, k - 1))
    }
}

/// The signed determinant of the minor at row `i` and column `j`.
pub open spec fn cofactor(m: Seq<Seq<int>>, i: int, j: int) -> int {
    sign(i + j) * det(minor(m, i, j))
}

/// The transpose of the matrix of cofactors.
pub open spec fn adjugate(m: Seq<Seq<int>>) -> Seq<Seq<int>> {
    Seq::new(m.len(), |i: int| Seq::new(m.len(), |j: int| cofactor(m, j, i)))
}

/// Every entry of `m` replaced by its remainder modulo `n`, from `0..n`.
pub open spec fn reduced(m: Seq<Seq<int>>, n: int) -> Seq<Seq<int>> {
    Seq::new(m.len(), |i: int| Seq::new(m[i].len(), |j: int| m[i][j] % n))
}

/// The inverse of `m` modulo `n`: the adjugate times the inverse of the
/// determinant, every entry reduced.
pub open spec fn inverse_mod(m: Seq<Seq<int>>, n: int) -> Seq<Seq<int>> {
    Seq::new(
        m.len(),
        |i: int| Seq::new(m.len(), |j: int| (adjugate(m)[i][j] * inverse_of(det(m), n)) % n),
    )
}

/// A bound on the determinant of a small matrix of order `k`.
pub open spec fn det_bound(k: nat) -> nat
    decreases k,
{
    if k == 0 {
        1
    } else {
        k * 255 * det_bound((k - 1) as nat)
    }
}

/// The bounds for the orders up to [`MAX_ORDER`].
proof fn lemma_det_bound_values()
    ensures
        det_bound(0) == 1,
        det_bound(1) == 255,
        det_bound(2) == 130_050,
        det_bound(3) == 99_488_250,
        det_bound(4) == 101_478_015_000,
{
    assert(det_bound(1) == 1 * 255 * det_bound(0));
    assert(det_bound(2) == 2 * 255 * det_bound(1));
    assert(det_bound(3) == 3 * 255 * det_bound(2));
    assert(det_bound(4) == 4 * 255 * det_bound(3));
}

/// The minor of a small matrix is small.
proof fn lemma_minor_small(m: Seq<Seq<int>>, r: int, c: int)
    requires
        small(m),
        0 <= r < m.len(),
        0 <= c < m.len(),
    ensures
        small(minor(m, r, c)),
        minor(m, r, c).len() == m.len() - 1,
{
    let s = minor(m, r, c);
    assert forall|i: int, j: int| 0 <= i < s.len() && 0 <= j < s[i].len() implies -255
        <= #[trigger] s[i][j] <= 255 by {}
}

/// The determinant of a small matrix stays below [`det_bound`].
proof fn lemma_det_within(m: Seq<Seq<int>>)
    requires
        small(m),
    ensures
        -det_bound(m.len()) <= det(m) <= det_bound(m.len()),
    decreases m.len(), m.len() + 1,
{
    if m.len() > 0 {
        lemma_expansion_within(m, m.len());
    }
}

/// Each term of an expansion adds at most 255 times the bound of a minor.
proof fn lemma_expansion_within(m: Seq<Seq<int>>, k: nat)
    requires
        small(m),
        0 < m.len(),
        k <= m.len(),
    ensures
        -(k * 255 * det_bound((m.len() - 1) as nat)) <= expansion(m, k) <= k * 255 * det_bound(
            (m.len() - 1) as nat,
        ),
    decreases m.len(), k,
{
    if k > 0 {
        lemma_expansion_within(m, (k - 1) as nat);
        lemma_minor_small(m, 0, k - 1);
        lemma_det_within(minor(m, 0, k - 1));
        let d = det(minor(m, 0, k - 1));
        let e = m[0][k - 1];
        let b = det_bound((m.len() - 1) as nat) as int;
        assert(-(255 * b) <= sign(k - 1) * e * d <= 255 * b) by (nonlinear_arith)
            requires
                -255 <= e <= 255,
                -b <= d <= b,
                sign(k - 1) == 1 || sign(k - 1) == -1,
        ;
        assert(k * 255 * b == (k - 1) * 255 * b + 255 * b) by (nonlinear_arith);
    }
}

impl Matrix {
    /// The number of rows.
    pub fn order(&self) -> (n: usize)
        ensures
            n == self@.len(),
    {
        self.rows.len()
    }

    /// Whether the matrix is square, of order at most [`MAX_ORDER`], with
    /// entries of magnitude at most [`MAX_ENTRY`].
    pub fn is_small(&self) -> (b: bool)
        ensures
            b == small(self@),
    {
        let n = self.rows.len();
        if n > MAX_ORDER {
            return false;
        }
        let mut i: usize = 0;
        while i < n
            invariant
                i <= n,
                n == self.rows@.len(),
                n <= MAX_ORDER,
                forall|r: int| 0 <= r < i ==> (#[trigger] self@[r]).len() == n,
                forall|r: int, c: int|
                    0 <= r < i && 0 <= c < self@[r].len() ==> -255 <= #[trigger] self@[r][c] <= 255,
            decreases n - i,
        {
            if self.rows[i].len() != n {
                assert(self@[i as int].len() != n);
                return false;
            }
            let mut j: usize = 0;
            while j < n
                invariant
                    j <= n,
                    i < n,
                    n == self.rows@.len(),
                    self.rows@[i as int]@.len() == n,
                    forall|c: int| 0 <= c < j ==> -255 <= #[trigger] self@[i as int][c] <= 255,
                decreases n - j,
            {
                let e = self.rows[i][j];
                if e < -MAX_ENTRY || e > MAX_ENTRY {
                    assert(self@[i as int][j as int] == e);
                    return false;
                }
                j += 1;
            }
            i += 1;
        }
        true
    }
}

/// The matrix `m` without row `r` and column `c`.
pub fn minor_of(m: &Matrix, r: usize, c: usize) -> (s: Matrix)
    requires
        is_square(m@),
        r < m@.len(),
        c < m@.len(),
    ensures
        s@ == minor(m@, r as int, c as int),
{
    let n = m.rows.len();
    let mut rows: Vec<Vec<i64>> = Vec::new();
    let mut i: usize = 0;
    while i < n - 1
        invariant
            n == m.rows@.len(),
            0 < n,
            is_square(m@),
            r < n,
            c < n,
            i <= n - 1,
            rows@.len() == i,
            forall|a: int| 0 <= a < i ==> (#[trigger] rows@[a])@.len() == n - 1,
            forall|a: int, b: int|
                0 <= a < i && 0 <= b < n - 1 ==> (#[trigger] rows@[a]@[b]) as int == minor(
                    m@,
                    r as int,
                    c as int,
                )[a][b],
        decreases n - 1 - i,
    {
        let src = if i < r { i } else { i + 1 };
        assert(m@[src as int].len() == n);
        let mut row: Vec<i64> = Vec::new();
        let mut j: usize = 0;
        while j < n - 1
            invariant
                n == m.rows@.len(),
                0 < n,
                src < n,
                src == if i < r { i as int } else { i + 1 },
                i < n - 1,
                m.rows@[src as int]@.len() == n,
                c < n,
                j <= n - 1,
                row@.len() == j,
                forall|b: int|
                    0 <= b < j ==> (#[trigger] row@[b]) as int == minor(m@, r as int, c as int)[i as int][b],
            decreases n - 1 - j,
        {
            let col = if j < c { j } else { j + 1 };
            row.push(m.rows[src][col]);
            j += 1;
        }
        rows.push(row);
        i += 1;
    }
    let s = Matrix { rows };
    assert(s@ =~~= minor(m@, r as int, c as int));
    s
}

/// The determinant of a small matrix.
pub fn determinant(m: &Matrix) -> (d: i64)
    requires
        small(m@),
    ensures
        d == det(m@),
    decreases m@.len(),
{
    let n = m.rows.len();
    if n == 0 {
        return 1;
    }
    proof {
        lemma_det_bound_values();
    }
    let mut sum: i64 = 0;
    let mut j: usize = 0;
    while j < n
        invariant
            n == m.rows@.len(),
            0 < n <= 4,
            small(m@),
            j <= n,
            sum == expansion(m@, j as nat),
            -(j * 255 * det_bound((n - 1) as nat)) <= sum <= j * 255 * det_bound((n - 1) as nat),
            det_bound((n - 1) as nat) <= 99_488_250,
        decreases n - j,
    {
        proof {
            lemma_minor_small(m@, 0, j as int);
            lemma_det_within(minor(m@, 0, j as int));
            lemma_expansion_within(m@, (j + 1) as nat);
        }
        let sub = minor_of(m, 0, j);
        let d = determinant(&sub);
        let e = m.rows[0][j];
        let ghost b = det_bound((n - 1) as nat) as int;
        assert(-(255 * b) <= e * d <= 255 * b) by (nonlinear_arith)
            requires
                -255 <= e <= 255,
                -b <= d <= b,
        ;
        let term = e * d;
        assert(-76_108_511_250 <= sum <= 76_108_511_250) by (nonlinear_arith)
            requires
                -(j * 255 * b) <= sum <= j * 255 * b,
                j <= 3,
                0 <= b <= 99_488_250,
        ;
        assert(sign(j as int) * m@[0][j as int] * det(minor(m@, 0, j as int)) == if j % 2 == 0 {
            term as int
        } else {
            -(term as int)
        }) by (nonlinear_arith)
            requires
                term as int == m@[0][j as int] * det(minor(m@, 0, j as int)),
                sign(j as int) == if j % 2 == 0 { 1int } else { -1int },
        ;
        if j % 2 == 0 {
            sum = sum + term;
        } else {
            sum = sum - term;
        }
        j += 1;
    }
    sum
}

/// The product of two small matrices of one order. No entry is reduced.
pub fn multiply(a: &Matrix, b: &Matrix) -> (p: Matrix)
    requires
        small(a@),
        small(b@),
        a@.len() == b@.len(),
    ensures
        p@ == product(a@, b@),
{
    let n = a.rows.len();
    let mut rows: Vec<Vec<i64>> = Vec::new();
    let mut i: usize = 0;
    while i < n
        invariant
            n == a.rows@.len(),
            n == b.rows@.len(),
            small(a@),
            small(b@),
            i <= n,
            rows@.len() == i,
            forall|r: int| 0 <= r < i ==> (#[trigger] rows@[r])@.len() == n,
            forall|r: int, c: int|
                0 <= r < i && 0 <= c < n ==> (#[trigger] rows@[r]@[c]) as int == dot(
                    a@,
                    b@,
                    r,
                    c,
                    n as nat,
                ),
        decreases n - i,
    {
        let mut row: Vec<i64> = Vec::new();
        let mut j: usize = 0;
        while j < n
            invariant
                n == a.rows@.len(),
                n == b.rows@.len(),
                small(a@),
                small(b@),
                i < n,
                j <= n,
                row@.len() == j,
                forall|c: int|
                    0 <= c < j ==> (#[trigger] row@[c]) as int == dot(a@, b@, i as int, c, n as nat),
            decreases n - j,
        {
            let mut sum: i64 = 0;
            let mut k: usize = 0;
            while k < n
                invariant
                    n == a.rows@.len(),
                    n == b.rows@.len(),
                    small(a@),
                    small(b@),
                    i < n,
                    j < n,
                    k <= n,
                    sum == dot(a@, b@, i as int, j as int, k as nat),
                    -(k * 65_025) <= sum <= k * 65_025,
                decreases n - k,
            {
                assert(b@[k as int].len() == n);
                let x = a.rows[i][k];
                let y = b.rows[k][j];
                assert(a@[i as int][k as int] == x);
                assert(b@[k as int][j as int] == y);
                assert(-65_025 <= x * y <= 65_025) by (nonlinear_arith)
                    requires
                        -255 <= x <= 255,
                        -255 <= y <= 255,
                ;
                sum = sum + x * y;
                k += 1;
            }
            row.push(sum);
            j += 1;
        }
        rows.push(row);
        i += 1;
    }
    let p = Matrix { rows };
    assert(p@ =~~= product(a@, b@));
    p
}

/// Replaces every entry by its remainder modulo `n`, taken from `0..n`.
pub fn modulus(m: &mut Matrix, n: i32)
    requires
        n > 0,
    ensures
        final(m)@ == reduced(old(m)@, n as int),
{
    let ghost before = m@;
    let count = m.rows.len();
    let mut rows: Vec<Vec<i64>> = Vec::new();
    let mut i: usize = 0;
    while i < count
        invariant
            n > 0,
            count == m.rows@.len(),
            m@ == before,
            i <= count,
            rows@.len() == i,
            forall|r: int| 0 <= r < i ==> (#[trigger] rows@[r])@.len() == before[r].len(),
            forall|r: int, c: int|
                0 <= r < i && 0 <= c < before[r].len() ==> (#[trigger] rows@[r]@[c]) as int
                    == before[r][c] % (n as int),
        decreases count - i,
    {
        let width = m.rows[i].len();
        let mut row: Vec<i64> = Vec::new();
        let mut j: usize = 0;
        while j < width
            invariant
                n > 0,
                i < count,
                count == m.rows@.len(),
                m@ == before,
                width == m.rows@[i as int]@.len(),
                j <= width,
                row@.len() == j,
                forall|c: int|
                    0 <= c < j ==> (#[trigger] row@[c]) as int == before[i as int][c] % (n as int),
            decreases width - j,
        {
            let e = m.rows[i][j];
            row.push(rem_euclid(e, n as i64));
            j += 1;
        }
        rows.push(row);
        i += 1;
    }
    m.rows = rows;
    assert(m@ =~~= reduced(before, n as int));
}

/// The adjugate of a small matrix: the transpose of its cofactors.
pub fn adjugate_of(m: &Matrix) -> (adj: Matrix)
    requires
        small(m@),
    ensures
        adj@ == adjugate(m@),
{
    let n = m.rows.len();
    proof {
        lemma_det_bound_values();
    }
    let mut rows: Vec<Vec<i64>> = Vec::new();
    let mut i: usize = 0;
    while i < n
        invariant
            n == m.rows@.len(),
            small(m@),
            i <= n,
            rows@.len() == i,
            forall|r: int| 0 <= r < i ==> (#[trigger] rows@[r])@.len() == n,
            forall|r: int, c: int|
                0 <= r < i && 0 <= c < n ==> (#[trigger] rows@[r]@[c]) as int == cofactor(m@, c, r),
        decreases n - i,
    {
        let mut row: Vec<i64> = Vec::new();
        let mut j: usize = 0;
        while j < n
            invariant
                n == m.rows@.len(),
                small(m@),
                i < n,
                j <= n,
                row@.len() == j,
                forall|c: int| 0 <= c < j ==> (#[trigger] row@[c]) as int == cofactor(m@, c, i as int),
            decreases n - j,
        {
            proof {
                lemma_minor_small(m@, j as int, i as int);
                lemma_det_within(minor(m@, j as int, i as int));
                lemma_det_bound_values();
            }
            let sub = minor_of(m, j, i);
            let d = determinant(&sub);
            if (i + j) % 2 == 0 {
                row.push(d);
            } else {
                row.push(-d);
            }
            j += 1;
        }
        rows.push(row);
        i += 1;
    }
    let adj = Matrix { rows };
    assert(adj@ =~~= adjugate(m@));
    adj
}

/// The inverse of a small matrix modulo `modulo`: its adjugate times the
/// inverse of its determinant, every entry reduced into `0..modulo`.
///
/// There is none exactly when the determinant and the modulus are not
/// coprime.
pub fn modular_matrix_multiplicative_inverse(m: &Matrix, modulo: i32) -> (r: Option<Matrix>)
    requires
        small(m@),
    ensures
        r is Some <==> coprime(det(m@), modulo as int),
        r is Some ==> r->Some_0@ == inverse_mod(m@, modulo as int),
{
    if modulo <= 0 {
        return None;
    }
    proof {
        lemma_det_within(m@);
        lemma_det_bound_values();
    }
    let d = determinant(m);
    let d0 = rem_euclid(d, modulo as i64);
    proof {
        vstd::arithmetic::div_mod::lemma_mod_twice(d as int, modulo as int);
    }
    let x = match mod_inv(d0 as i32, modulo) {
        Some(x) => x,
        None => {
            return None;
        },
    };
    proof {
        let ghost di = d as int;
        let ghost ni = modulo as int;
        vstd::arithmetic::div_mod::lemma_mul_mod_noop_left(di, x as int, ni);
        lemma_inverse_unique(di, ni, x as int, inverse_of(di, ni));
    }
    let adj = adjugate_of(m);
    let n = m.rows.len();
    assert(adj@.len() == n);
    let mut rows: Vec<Vec<i64>> = Vec::new();
    let mut i: usize = 0;
    while i < n
        invariant
            n == m.rows@.len(),
            small(m@),
            adj@ == adjugate(m@),
            adj.rows@.len() == n,
            0 <= x < modulo,
            i <= n,
            rows@.len() == i,
            forall|r: int| 0 <= r < i ==> (#[trigger] rows@[r])@.len() == n,
            forall|r: int, c: int|
                0 <= r < i && 0 <= c < n ==> (#[trigger] rows@[r]@[c]) as int == (adjugate(
                    m@,
                )[r][c] * (x as int)) % (modulo as int),
        decreases n - i,
    {
        let mut row: Vec<i64> = Vec::new();
        let mut j: usize = 0;
        assert(adj@[i as int].len() == n);
        while j < n
            invariant
                n == m.rows@.len(),
                small(m@),
                adj@ == adjugate(m@),
                adj.rows@.len() == n,
                adj.rows@[i as int]@.len() == n,
                0 <= x < modulo,
                i < n,
                j <= n,
                row@.len() == j,
                forall|c: int|
                    0 <= c < j ==> (#[trigger] row@[c]) as int == (adjugate(m@)[i as int][c] * (
                    x as int)) % (modulo as int),
            decreases n - j,
        {
            proof {
                lemma_minor_small(m@, j as int, i as int);
                lemma_det_within(minor(m@, j as int, i as int));
                lemma_det_bound_values();
            }
            let e = adj.rows[i][j];
            assert(adj@[i as int][j as int] == e);
            assert(-300_000_000_000_000_000 <= e * x <= 300_000_000_000_000_000) by (nonlinear_arith)
                requires
                    -99_488_250 <= e <= 99_488_250,
                    0 <= x <= 2_147_483_647,
            ;
            row.push(rem_euclid(e * x as i64, modulo as i64));
            j += 1;
        }
        rows.push(row);
        i += 1;
    }
    let inv = Matrix { rows };
    assert(inv@ =~~= inverse_mod(m@, modulo as int));
    Some(inv)
}

} // verus!
