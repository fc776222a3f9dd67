use vstd::arithmetic::div_mod::lemma_fundamental_div_mod_converse;
use vstd::prelude::*;

use crate::error::RlsError;
use crate::linalg::{
    column,
    column_dot,
    dot,
    dot_vec,
    lemma_dot_zero_left,
    lemma_dot_zero_right,
    lemma_entry_in_bounds,
    row,
    row_dot,
};
use crate::scalar::Scalar;

verus! {

/// The state of a recursive least squares filter with exponential
/// forgetting (see Haykin, Adaptive Filter Theory). The inverse correlation
/// matrix is `n × n`, stored row by row.
pub struct Rls<F> {
    inv_forgetting_factor: F,
    gain: Vec<F>,
    inverse_correlation: Vec<F>,
    weight: Vec<F>,
    prior_error: F,
    // Scratch space for the back-projected input of each update.
    temp_vec: Vec<F>,
}

/// The entry `(i, j)` of `δ⁻¹ · I`, formed as the identity's entry times `scale`.
pub open spec fn scaled_identity<F: Scalar>(i: int, j: int, scale: F) -> F {
    F::spec_times(if i == j { F::spec_one() } else { F::spec_zero() }, scale)
}

/// `P · u` for the `n × n` matrix `p`.
pub open spec fn mat_vec<F: Scalar>(p: Seq<F>, n: int, u: Seq<F>) -> Seq<F> {
    Seq::new(n as nat, |k: int| dot(row(p, n, k), u))
}

/// Whether `new` is the state that one update of `old` with `input` and
/// `target` gives:
/// the gain is `P·u / c` with `c = λ⁻¹ + u·(P·u)`; the prior error is
/// `target − w·u` with the weight before the update; the weight grows by the
/// prior error times the new gain; and `P` becomes
/// `λ⁻¹ · (P − gain ⊗ (Pᵀ·u))`, with `P` before the update.
pub open spec fn is_update<F: Scalar>(old: Rls<F>, new: Rls<F>, input: Seq<F>, target: F) -> bool {
    let n = old.spec_len() as int;
    let p = old.spec_inverse_correlation();
    let inv = old.spec_inv_forgetting_factor();
    let c = F::spec_plus(inv, dot(input, mat_vec(p, n, input)));
    &&& new.spec_len() == n
    &&& new.spec_inv_forgetting_factor() == inv
    &&& new.spec_gain().len() == n
    &&& forall|k: int|
        0 <= k < n ==> new.spec_gain()[k] == F::spec_over(mat_vec(p, n, input)[k], c)
    &&& new.spec_prior_error() == F::spec_minus(target, dot(old.spec_weight(), input))
    &&& forall|k: int|
        0 <= k < n ==> new.spec_weight()[k] == F::spec_plus(
            old.spec_weight()[k],
            F::spec_times(new.spec_prior_error(), new.spec_gain()[k]),
        )
    &&& new.spec_inverse_correlation().len() == n * n
    &&& forall|i: int, j: int|
        0 <= i < n && 0 <= j < n ==> new.spec_inverse_correlation()[i * n + j] == F::spec_times(
            F::spec_minus(
                p[i * n + j],
                F::spec_times(new.spec_gain()[i], dot(column(p, n, j), input)),
            ),
            inv,
        )
}

/// A vector of `n` zeros.
fn zeros<F: Scalar>(n: usize) -> (r: Vec<F>)
    ensures
        r@.len() == n,
        forall|k: int| 0 <= k < n ==> r@[k] == F::spec_zero(),
{
    let mut v: Vec<F> = Vec::new();
    while v.len() < n
        invariant
            v@.len() <= n,
            forall|k: int| 0 <= k < v@.len() ==> v@[k] == F::spec_zero(),
        decreases n - v@.len(),
    {
        v.push(F::zero());
    }
    v
}

impl<F: Scalar> Rls<F> {
    /// The filter length `n`.
    pub closed spec fn spec_len(&self) -> nat {
        self.weight@.len()
    }

    /// The inverse forgetting factor λ⁻¹.
    pub closed spec fn spec_inv_forgetting_factor(&self) -> F {
        self.inv_forgetting_factor
    }

    /// The gain vector of the latest update.
    pub closed spec fn spec_gain(&self) -> Seq<F> {
        self.gain@
    }

    /// The inverse correlation matrix `P`, row by row.
    pub closed spec fn spec_inverse_correlation(&self) -> Seq<F> {
        self.inverse_correlation@
    }

    /// The (tap) weight vector `w`.
    pub closed spec fn spec_weight(&self) -> Seq<F> {
        self.weight@
    }

    /// The prior error of the latest update.
    pub closed spec fn spec_prior_error(&self) -> F {
        self.prior_error
    }

    /// The scratch vector has the filter length.
    pub closed spec fn scratch_ok(&self) -> bool {
        self.temp_vec@.len() == self.weight@.len()
    }

    /// The gain has length `n`, the matrix `n × n` entries, and `n × n`
    /// fits in `usize`.
    pub open spec fn wf(&self) -> bool {
        let n = self.spec_len();
        &&& n * n <= usize::MAX
        &&& self.spec_weight().len() == n
        &&& self.spec_gain().len() == n
        &&& self.spec_inverse_correlation().len() == n * n
        &&& self.scratch_ok()
    }

    /// A filter with initialization factor δ, forgetting factor λ and a zero
    /// weight vector of length `n`.
    pub fn new(initialization_factor: F, forgetting_factor: F, n: usize) -> (r: Self)
        requires
            n * n <= usize::MAX,
        ensures
            r.wf(),
            r.spec_len() == n,
            forall|k: int| 0 <= k < n ==> r.spec_weight()[k] == F::spec_zero(),
            r.spec_inv_forgetting_factor() == F::spec_over(F::spec_one(), forgetting_factor),
            r.spec_prior_error() == F::spec_zero(),
            forall|k: int| 0 <= k < n ==> r.spec_gain()[k] == F::spec_zero(),
            forall|i: int, j: int|
                0 <= i < n && 0 <= j < n ==> r.spec_inverse_correlation()[i * n + j]
                    == scaled_identity(i, j, F::spec_over(F::spec_one(), initialization_factor)),
    {
        Rls::with_weight(initialization_factor, forgetting_factor, zeros(n))
    }

    /// A filter with initialization factor δ, forgetting factor λ and the
    /// given weight vector: λ⁻¹ = 1/λ, a zero gain and prior error, and
    /// `P = δ⁻¹ · I`.
    pub fn with_weight(initialization_factor: F, forgetting_factor: F, weight: Vec<F>) -> (r: Self)
        requires
            weight@.len() * weight@.len() <= usize::MAX,
        ensures
            r.wf(),
            r.spec_weight() == weight@,
            r.spec_inv_forgetting_factor() == F::spec_over(F::spec_one(), forgetting_factor),
            r.spec_prior_error() == F::spec_zero(),
            forall|k: int| 0 <= k < weight@.len() ==> r.spec_gain()[k] == F::spec_zero(),
            forall|i: int, j: int|
                0 <= i < weight@.len() && 0 <= j < weight@.len()
                    ==> r.spec_inverse_correlation()[i * weight@.len() + j] == scaled_identity(
                    i,
                    j,
                    F::spec_over(F::spec_one(), initialization_factor),
                ),
    {
        let n = weight.len();
        let one = F::one();
        let zero = F::zero();
        let inv_forgetting_factor = one.over(forgetting_factor);
        let scale = one.over(initialization_factor);
        let nn = n * n;
        assert(n > 0 || nn == 0) by (nonlinear_arith)
            requires
                nn == n * n,
        ;
        let mut inverse_correlation: Vec<F> = Vec::new();
        while inverse_correlation.len() < nn
            invariant
                nn == n * n,
                n > 0 || nn == 0,
                scale == F::spec_over(F::spec_one(), initialization_factor),
                one == F::spec_one(),
                zero == F::spec_zero(),
                inverse_correlation@.len() <= nn,
                forall|k: int|
                    0 <= k < inverse_correlation@.len() ==> inverse_correlation@[k]
                        == scaled_identity(k / (n as int), k % (n as int), scale),
            decreases nn - inverse_correlation@.len(),
        {
            let k = inverse_correlation.len();
            let e = if k / n == k % n {
                one
            } else {
                zero
            };
            inverse_correlation.push(e.times(scale));
        }
        assert forall|i: int, j: int| 0 <= i < n && 0 <= j < n implies inverse_correlation@[i
            * n + j] == scaled_identity(i, j, scale) by {
            lemma_entry_in_bounds(n as int, i, j);
            lemma_fundamental_div_mod_converse(i * n + j, n as int, i, j);
        }
        Rls {
            inv_forgetting_factor,
            gain: zeros(n),
            inverse_correlation,
            weight,
            prior_error: zero,
            temp_vec: zeros(n),
        }
    }
    /// One step of the filter on `input` and its `target`, in place; see
    /// `is_update`. An input whose length is not the filter length is
    /// refused and the state is left as it was.
    pub fn update(&mut self, input: &Vec<F>, target: F) -> (r: Result<(), RlsError>)
        requires
            old(self).wf(),
        ensures
            final(self).wf(),
            r is Err <==> input@.len() != old(self).spec_len(),
            r is Err ==> r == Err::<(), RlsError>(
                RlsError::DimensionMismatch {
                    expected: old(self).spec_len() as usize,
                    found: input@.len() as usize,
                },
            ),
            r is Err ==> *final(self) == *old(self),
            r is Ok ==> is_update(*old(self), *final(self), input@, target),
    {
        let n = self.weight.len();
        if input.len() != n {
            return Err(RlsError::DimensionMismatch { expected: n, found: input.len() });
        }
        let ghost p = self.inverse_correlation@;
        let ghost w0 = self.weight@;
        let ghost inv = self.inv_forgetting_factor;
        let ghost pu = mat_vec(p, n as int, input@);

        // The gain first holds P · u.
        let mut k: usize = 0;
        while k < n
            invariant
                n * n <= usize::MAX,
                n == self.weight@.len(),
                input@.len() == n,
                self.gain@.len() == n,
                self.inverse_correlation@ == p,
                p.len() == n * n,
                pu == mat_vec(p, n as int, input@),
                self.weight@ == w0,
                self.temp_vec@.len() == n,
                self.inv_forgetting_factor == inv,
                k <= n,
                forall|m: int| 0 <= m < k ==> self.gain@[m] == pu[m],
            decreases n - k,
        {
            let g = row_dot(&self.inverse_correlation, n, k, input);
            self.gain[k] = g;
            k = k + 1;
        }
        assert(self.gain@ =~= pu);
        let c = self.inv_forgetting_factor.plus(dot_vec(input, &self.gain));

        let mut k: usize = 0;
        while k < n
            invariant
                n == self.weight@.len(),
                self.gain@.len() == n,
                pu.len() == n,
                n * n <= usize::MAX,
                input@.len() == n,
                self.inverse_correlation@ == p,
                p.len() == n * n,
                self.weight@ == w0,
                self.temp_vec@.len() == n,
                self.inv_forgetting_factor == inv,
                c == F::spec_plus(inv, dot(input@, pu)),
                k <= n,
                forall|m: int| 0 <= m < k ==> self.gain@[m] == F::spec_over(pu[m], c),
                forall|m: int| k <= m < n ==> self.gain@[m] == pu[m],
            decreases n - k,
        {
            let g = self.gain[k].over(c);
            self.gain[k] = g;
            k = k + 1;
        }

        let ghost g = self.gain@;
        // The prior error reads the weight before it is updated.
        self.prior_error = target.minus(dot_vec(&self.weight, input));
        let ghost e = self.prior_error;

        let mut k: usize = 0;
        while k < n
            invariant
                n == self.weight@.len(),
                self.gain@.len() == n,
                w0.len() == n,
                n * n <= usize::MAX,
                input@.len() == n,
                self.inverse_correlation@ == p,
                p.len() == n * n,
                self.gain@ == g,
                self.prior_error == e,
                self.temp_vec@.len() == n,
                self.inv_forgetting_factor == inv,
                k <= n,
                forall|m: int|
                    0 <= m < k ==> self.weight@[m] == F::spec_plus(
                        w0[m],
                        F::spec_times(self.prior_error, self.gain@[m]),
                    ),
                forall|m: int| k <= m < n ==> self.weight@[m] == w0[m],
            decreases n - k,
        {
            let v = self.weight[k].plus(self.prior_error.times(self.gain[k]));
            self.weight[k] = v;
            k = k + 1;
        }

        let ghost w1 = self.weight@;
        // The back-projected input Pᵀ · u, from P before it is updated.
        let mut k: usize = 0;
        while k < n
            invariant
                n * n <= usize::MAX,
                input@.len() == n,
                self.temp_vec@.len() == n,
                self.inverse_correlation@ == p,
                p.len() == n * n,
                self.gain@ == g,
                self.prior_error == e,
                self.weight@ == w1,
                self.inv_forgetting_factor == inv,
                k <= n,
                forall|m: int|
                    0 <= m < k ==> self.temp_vec@[m] == dot(column(p, n as int, m), input@),
            decreases n - k,
        {
            let t = column_dot(&self.inverse_correlation, n, k, input);
            self.temp_vec[k] = t;
            k = k + 1;
        }

        let ghost t = self.temp_vec@;
        // P ← λ⁻¹ · (P − gain ⊗ (Pᵀ · u)), entry by entry.
        let mut idx: usize = 0;
        let mut i: usize = 0;
        while i < n
            invariant
                n * n <= usize::MAX,
                self.gain@.len() == n,
                self.temp_vec@.len() == n,
                self.inverse_correlation@.len() == n * n,
                p.len() == n * n,
                self.inv_forgetting_factor == inv,
                self.gain@ == g,
                self.temp_vec@ == t,
                self.prior_error == e,
                self.weight@ == w1,
                i <= n,
                idx == i * n,
                forall|m: int|
                    0 <= m < idx ==> self.inverse_correlation@[m] == F::spec_times(
                        F::spec_minus(
                            p[m],
                            F::spec_times(self.gain@[m / n as int], self.temp_vec@[m % n as int]),
                        ),
                        inv,
                    ),
                forall|m: int| idx <= m < n * n ==> self.inverse_correlation@[m] == p[m],
            decreases n - i,
        {
            let mut j: usize = 0;
            while j < n
                invariant
                    n * n <= usize::MAX,
                    self.gain@.len() == n,
                    self.temp_vec@.len() == n,
                    self.inverse_correlation@.len() == n * n,
                    p.len() == n * n,
                    self.inv_forgetting_factor == inv,
                    self.gain@ == g,
                    self.temp_vec@ == t,
                    self.prior_error == e,
                    self.weight@ == w1,
                    i < n,
                    j <= n,
                    idx == i * n + j,
                    forall|m: int|
                        0 <= m < idx ==> self.inverse_correlation@[m] == F::spec_times(
                            F::spec_minus(
                                p[m],
                                F::spec_times(
                                    self.gain@[m / n as int],
                                    self.temp_vec@[m % n as int],
                                ),
                            ),
                            inv,
                        ),
                    forall|m: int| idx <= m < n * n ==> self.inverse_correlation@[m] == p[m],
                decreases n - j,
            {
                proof {
                    lemma_entry_in_bounds(n as int, i as int, j as int);
                    lemma_fundamental_div_mod_converse(idx as int, n as int, i as int, j as int);
                }
                let v = self.inverse_correlation[idx].minus(
                    self.gain[i].times(self.temp_vec[j]),
                ).times(self.inv_forgetting_factor);
                self.inverse_correlation[idx] = v;
                idx = idx + 1;
                j = j + 1;
            }
            assert(idx == (i + 1) * n) by (nonlinear_arith)
                requires
                    idx == i * n + n,
            ;
            i = i + 1;
        }
        assert forall|a: int, b: int| 0 <= a < n && 0 <= b < n implies self.inverse_correlation@[a
            * n + b] == F::spec_times(
            F::spec_minus(
                p[a * n + b],
                F::spec_times(self.gain@[a], dot(column(p, n as int, b), input@)),
            ),
            inv,
        ) by {
            lemma_entry_in_bounds(n as int, a, b);
            lemma_fundamental_div_mod_converse(a * n + b, n as int, a, b);
        }
        Ok(())
    }

    /// Returns a reference to the gain vector.
    pub fn gain_ref(&self) -> (r: &Vec<F>)
        ensures
            r@ == self.spec_gain(),
    {
        &self.gain
    }

    /// Returns a reference to the inverse correlation matrix, row by row.
    pub fn inverse_correlation_ref(&self) -> (r: &Vec<F>)
        ensures
            r@ == self.spec_inverse_correlation(),
    {
        &self.inverse_correlation
    }

    /// Returns a reference to the inverse forgetting factor.
    pub fn inv_forgetting_factor_ref(&self) -> (r: &F)
        ensures
            *r == self.spec_inv_forgetting_factor(),
    {
        &self.inv_forgetting_factor
    }

    /// Returns a reference to the (tap) weight vector.
    pub fn weight_ref(&self) -> (r: &Vec<F>)
        ensures
            r@ == self.spec_weight(),
    {
        &self.weight
    }

    /// Returns a reference to the prior error.
    pub fn prior_error_ref(&self) -> (r: &F)
        ensures
            *r == self.spec_prior_error(),
    {
        &self.prior_error
    }

    /// A filter from its stored fields: the inverse forgetting factor, the
    /// gain, the inverse correlation matrix row by row, the weight and the
    /// prior error. The weight's length fixes `n`; see `parts_error`.
    pub fn from_parts(
        inv_forgetting_factor: F,
        gain: Vec<F>,
        inverse_correlation: Vec<F>,
        weight: Vec<F>,
        prior_error: F,
    ) -> (r: Result<Self, RlsError>)
        ensures
            r is Ok <==> parts_error(
                gain@.len() as int,
                inverse_correlation@.len() as int,
                weight@.len() as int,
            ) is None,
            r is Err ==> r == Err::<Self, RlsError>(
                parts_error(
                    gain@.len() as int,
                    inverse_correlation@.len() as int,
                    weight@.len() as int,
                ).unwrap(),
            ),
            r is Ok ==> {
                let f = r->Ok_0;
                &&& f.wf()
                &&& f.spec_inv_forgetting_factor() == inv_forgetting_factor
                &&& f.spec_gain() == gain@
                &&& f.spec_inverse_correlation() == inverse_correlation@
                &&& f.spec_weight() == weight@
                &&& f.spec_prior_error() == prior_error
            },
    {
        let n = weight.len();
        let nn = match n.checked_mul(n) {
            Some(nn) => nn,
            None => return Err(RlsError::TooLarge),
        };
        if gain.len() != n {
            return Err(RlsError::DimensionMismatch { expected: n, found: gain.len() });
        }
        if inverse_correlation.len() != nn {
            return Err(
                RlsError::DimensionMismatch { expected: nn, found: inverse_correlation.len() },
            );
        }
        Ok(Rls {
            inv_forgetting_factor,
            gain,
            inverse_correlation,
            weight,
            prior_error,
            temp_vec: zeros(n),
        })
    }
}

/// The error, if any, with which stored fields of these lengths are
/// refused: the gain must have the weight's length `n`, and the matrix
/// `n × n` entries.
pub open spec fn parts_error(gain_len: int, matrix_len: int, weight_len: int) -> Option<RlsError> {
    if weight_len * weight_len > usize::MAX {
        Some(RlsError::TooLarge)
    } else if gain_len != weight_len {
        Some(RlsError::DimensionMismatch { expected: weight_len as usize, found: gain_len as usize })
    } else if matrix_len != weight_len * weight_len {
        Some(
            RlsError::DimensionMismatch {
                expected: (weight_len * weight_len) as usize,
                found: matrix_len as usize,
            },
        )
    } else {
        None
    }
}

/// The stored fields of a well-formed filter, as its getters hand them out,
/// are accepted by `from_parts`, which then rebuilds a filter with exactly
/// the same inverse forgetting factor, gain, matrix, weight and prior error.
pub proof fn lemma_parts_round_trip<F: Scalar>(f: Rls<F>)
    requires
        f.wf(),
    ensures
        parts_error(
            f.spec_gain().len() as int,
            f.spec_inverse_correlation().len() as int,
            f.spec_len() as int,
        ) is None,
{
}

/// An update with an all-zero input leaves the weight unchanged and makes
/// the prior error equal to the target, wherever the values involved behave
/// as exact arithmetic would: multiplying them by zero gives zero, and adding
/// zero to the weight entries and to λ⁻¹ (or taking it from the target)
/// changes nothing. In floating point this excludes NaN, infinities and
/// negative zero.
pub proof fn lemma_zero_input_keeps_weight<F: Scalar>(
    old: Rls<F>,
    new: Rls<F>,
    input: Seq<F>,
    target: F,
)
    requires
        old.wf(),
        input.len() == old.spec_len(),
        forall|k: int| 0 <= k < input.len() ==> input[k] == F::spec_zero(),
        is_update(old, new, input, target),
        F::spec_plus(F::spec_zero(), F::spec_zero()) == F::spec_zero(),
        F::spec_times(F::spec_zero(), F::spec_zero()) == F::spec_zero(),
        forall|m: int|
            0 <= m < old.spec_inverse_correlation().len() ==> F::spec_times(
                old.spec_inverse_correlation()[m],
                F::spec_zero(),
            ) == F::spec_zero(),
        forall|k: int|
            0 <= k < old.spec_len() ==> F::spec_times(old.spec_weight()[k], F::spec_zero())
                == F::spec_zero() && F::spec_plus(old.spec_weight()[k], F::spec_zero())
                == old.spec_weight()[k],
        F::spec_times(target, F::spec_zero()) == F::spec_zero(),
        F::spec_minus(target, F::spec_zero()) == target,
        F::spec_plus(old.spec_inv_forgetting_factor(), F::spec_zero())
            == old.spec_inv_forgetting_factor(),
        F::spec_over(F::spec_zero(), old.spec_inv_forgetting_factor()) == F::spec_zero(),
    ensures
        new.spec_weight() == old.spec_weight(),
        new.spec_prior_error() == target,
{
    let n = old.spec_len() as int;
    let p = old.spec_inverse_correlation();
    let pu = mat_vec(p, n, input);
    assert forall|k: int| 0 <= k < n implies pu[k] == F::spec_zero() by {
        let rw = row(p, n, k);
        assert forall|j: int| 0 <= j < n implies F::spec_times(rw[j], F::spec_zero())
            == F::spec_zero() by {
            lemma_entry_in_bounds(n, k, j);
        }
        lemma_dot_zero_right(rw, input);
    }
    lemma_dot_zero_left(input, pu);
    lemma_dot_zero_right(old.spec_weight(), input);
    assert(new.spec_weight() =~= old.spec_weight());
}

/// Whether the `n × n` matrix `p`, stored row by row, is symmetric.
pub open spec fn is_symmetric<F>(p: Seq<F>, n: int) -> bool {
    forall|i: int, j: int| 0 <= i < n && 0 <= j < n ==> #[trigger] p[i * n + j] == #[trigger] p[j * n + i]
}

/// An update keeps the inverse correlation matrix symmetric, wherever
/// `(a / c) · b == (b / c) · a` for the entries `a`, `b` of `P · u` and the
/// update's denominator `c`, as in exact arithmetic. In floating point the
/// two sides may differ by rounding, so there symmetry holds up to it.
pub proof fn lemma_update_keeps_symmetry<F: Scalar>(
    old: Rls<F>,
    new: Rls<F>,
    input: Seq<F>,
    target: F,
)
    requires
        old.wf(),
        input.len() == old.spec_len(),
        is_symmetric(old.spec_inverse_correlation(), old.spec_len() as int),
        is_update(old, new, input, target),
        ({
            let n = old.spec_len() as int;
            let pu = mat_vec(old.spec_inverse_correlation(), n, input);
            let c = F::spec_plus(old.spec_inv_forgetting_factor(), dot(input, pu));
            forall|i: int, j: int|
                0 <= i < n && 0 <= j < n ==> F::spec_times(F::spec_over(pu[i], c), pu[j])
                    == F::spec_times(F::spec_over(pu[j], c), pu[i])
        }),
    ensures
        is_symmetric(new.spec_inverse_correlation(), old.spec_len() as int),
{
    let n = old.spec_len() as int;
    let p = old.spec_inverse_correlation();
    assert forall|j: int| 0 <= j < n implies column(p, n, j) =~= row(p, n, j) by {
        assert forall|k: int| 0 <= k < n implies column(p, n, j)[k] == row(p, n, j)[k] by {
            lemma_entry_in_bounds(n, k, j);
            lemma_entry_in_bounds(n, j, k);
        }
    }
    let q = new.spec_inverse_correlation();
    assert forall|i: int, j: int| 0 <= i < n && 0 <= j < n implies #[trigger] q[i * n + j]
        == #[trigger] q[j * n + i] by {
        let pu = mat_vec(p, n, input);
        let c = F::spec_plus(old.spec_inv_forgetting_factor(), dot(input, pu));
        let g = new.spec_gain();
        assert(column(p, n, j) =~= row(p, n, j));
        assert(column(p, n, i) =~= row(p, n, i));
        assert(dot(column(p, n, j), input) == pu[j]);
        assert(dot(column(p, n, i), input) == pu[i]);
        assert(g[i] == F::spec_over(pu[i], c));
        assert(g[j] == F::spec_over(pu[j], c));
        assert(p[i * n + j] == p[j * n + i]);
        assert(F::spec_times(g[i], pu[j]) == F::spec_times(g[j], pu[i]));
    }
}

} // verus!
