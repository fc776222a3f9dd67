use vstd::prelude::*;

use crate::scalar::Scalar;

verus! {

/// The dot product of two vectors of equal length, summed from the first
/// entry to the last starting from zero.
pub open spec fn dot<F: Scalar>(a: Seq<F>, b: Seq<F>) -> F
    decreases a.len(),
{
    if a.len() == 0 {
        F::spec_zero()
    } else {
        F::spec_plus(dot(a.drop_last(), b.drop_last()), F::spec_times(a.last(), b.last()))
    }
}

/// Row `i` of the `n × n` matrix stored row by row in `m`.
pub open spec fn row<F>(m: Seq<F>, n: int, i: int) -> Seq<F> {
    Seq::new(n as nat, |j: int| m[i * n + j])
}

/// Column `j` of the `n × n` matrix stored row by row in `m`.
pub open spec fn column<F>(m: Seq<F>, n: int, j: int) -> Seq<F> {
    Seq::new(n as nat, |i: int| m[i * n + j])
}

/// For `i < n` and `j < n`, the entry `(i, j)` lies inside an `n × n` matrix.
pub proof fn lemma_entry_in_bounds(n: int, i: int, j: int)
    requires
        0 <= i < n,
        0 <= j < n,
    ensures
        0 <= i * n + j < n * n,
        i * n + j + 1 <= n * n,
{
    assert(i * n + j < n * n) by (nonlinear_arith)
        requires
            0 <= i < n,
            0 <= j < n,
    ;
    assert(0 <= i * n) by (nonlinear_arith)
        requires
            0 <= i,
            0 <= n,
    ;
}

proof fn lemma_dot_step<F: Scalar>(a: Seq<F>, b: Seq<F>, k: int)
    requires
        0 <= k < a.len(),
        a.len() == b.len(),
    ensures
        dot(a.take(k + 1), b.take(k + 1)) == F::spec_plus(
            dot(a.take(k), b.take(k)),
            F::spec_times(a[k], b[k]),
        ),
{
    assert(a.take(k + 1).drop_last() =~= a.take(k));
    assert(b.take(k + 1).drop_last() =~= b.take(k));
}

/// The dot product of `a` and `b`.
pub fn dot_vec<F: Scalar>(a: &Vec<F>, b: &Vec<F>) -> (r: F)
    requires
        a@.len() == b@.len(),
    ensures
        r == dot(a@, b@),
{
    let mut acc = F::zero();
    let mut k: usize = 0;
    while k < a.len()
        invariant
            a@.len() == b@.len(),
            k <= a@.len(),
            acc == dot(a@.take(k as int), b@.take(k as int)),
        decreases a@.len() - k,
    {
        proof {
            lemma_dot_step(a@, b@, k as int);
        }
        acc = acc.plus(a[k].times(b[k]));
        k = k + 1;
    }
    assert(a@.take(a@.len() as int) =~= a@);
    assert(b@.take(b@.len() as int) =~= b@);
    acc
}

/// The dot product of row `i` of the `n × n` matrix `m` with `u`.
pub fn row_dot<F: Scalar>(m: &Vec<F>, n: usize, i: usize, u: &Vec<F>) -> (r: F)
    requires
        n * n <= usize::MAX,
        m@.len() == n * n,
        u@.len() == n,
        i < n,
    ensures
        r == dot(row(m@, n as int, i as int), u@),
{
    let ghost rw = row(m@, n as int, i as int);
    let mut acc = F::zero();
    let mut k: usize = 0;
    while k < n
        invariant
            n * n <= usize::MAX,
            m@.len() == n * n,
            u@.len() == n,
            i < n,
            k <= n,
            rw == row(m@, n as int, i as int),
            acc == dot(rw.take(k as int), u@.take(k as int)),
        decreases n - k,
    {
        proof {
            lemma_entry_in_bounds(n as int, i as int, k as int);
            lemma_dot_step(rw, u@, k as int);
        }
        acc = acc.plus(m[i * n + k].times(u[k]));
        k = k + 1;
    }
    assert(rw.take(n as int) =~= rw);
    assert(u@.take(n as int) =~= u@);
    acc
}

/// The dot product of column `j` of the `n × n` matrix `m` with `u`.
pub fn column_dot<F: Scalar>(m: &Vec<F>, n: usize, j: usize, u: &Vec<F>) -> (r: F)
    requires
        n * n <= usize::MAX,
        m@.len() == n * n,
        u@.len() == n,
        j < n,
    ensures
        r == dot(column(m@, n as int, j as int), u@),
{
    let ghost cl = column(m@, n as int, j as int);
    let mut acc = F::zero();
    let mut k: usize = 0;
    while k < n
        invariant
            n * n <= usize::MAX,
            m@.len() == n * n,
            u@.len() == n,
            j < n,
            k <= n,
            cl == column(m@, n as int, j as int),
            acc == dot(cl.take(k as int), u@.take(k as int)),
        decreases n - k,
    {
        proof {
            lemma_entry_in_bounds(n as int, k as int, j as int);
            lemma_dot_step(cl, u@, k as int);
        }
        acc = acc.plus(m[k * n + j].times(u[k]));
        k = k + 1;
    }
    assert(cl.take(n as int) =~= cl);
    assert(u@.take(n as int) =~= u@);
    acc
}

/// The dot product with an all-zero vector is zero, where each entry of `a`
/// times zero is zero and zero plus zero is zero.
pub proof fn lemma_dot_zero_right<F: Scalar>(a: Seq<F>, b: Seq<F>)
    requires
        a.len() == b.len(),
        forall|k: int| 0 <= k < b.len() ==> b[k] == F::spec_zero(),
        forall|k: int| 0 <= k < a.len() ==> F::spec_times(a[k], F::spec_zero()) == F::spec_zero(),
        F::spec_plus(F::spec_zero(), F::spec_zero()) == F::spec_zero(),
    ensures
        dot(a, b) == F::spec_zero(),
    decreases a.len(),
{
    if a.len() > 0 {
        lemma_dot_zero_right(a.drop_last(), b.drop_last());
    }
}

/// The dot product of two all-zero vectors is zero, where zero times zero
/// and zero plus zero are zero.
pub proof fn lemma_dot_zero_left<F: Scalar>(a: Seq<F>, b: Seq<F>)
    requires
        a.len() == b.len(),
        forall|k: int| 0 <= k < a.len() ==> a[k] == F::spec_zero(),
        forall|k: int| 0 <= k < b.len() ==> b[k] == F::spec_zero(),
        F::spec_times(F::spec_zero(), F::spec_zero()) == F::spec_zero(),
        F::spec_plus(F::spec_zero(), F::spec_zero()) == F::spec_zero(),
    ensures
        dot(a, b) == F::spec_zero(),
    decreases a.len(),
{
    if a.len() > 0 {
        lemma_dot_zero_left(a.drop_last(), b.drop_last());
    }
}

} // verus!
