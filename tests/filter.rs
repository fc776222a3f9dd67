use rls::{Rls, RlsError, Scalar};

#[derive(Clone, Copy, Debug, PartialEq)]
struct R(f64);

impl Scalar for R {
    fn spec_zero() -> R {
        R(0.0)
    }
    fn spec_one() -> R {
        R(1.0)
    }
    fn spec_plus(a: R, b: R) -> R {
        R(a.0 + b.0)
    }
    fn spec_minus(a: R, b: R) -> R {
        R(a.0 - b.0)
    }
    fn spec_times(a: R, b: R) -> R {
        R(a.0 * b.0)
    }
    fn spec_over(a: R, b: R) -> R {
        R(a.0 / b.0)
    }
    fn zero() -> R {
        R(0.0)
    }
    fn one() -> R {
        R(1.0)
    }
    fn plus(self, b: R) -> R {
        R(self.0 + b.0)
    }
    fn minus(self, b: R) -> R {
        R(self.0 - b.0)
    }
    fn times(self, b: R) -> R {
        R(self.0 * b.0)
    }
    fn over(self, b: R) -> R {
        R(self.0 / b.0)
    }
}

fn v(xs: &[f64]) -> Vec<R> {
    xs.iter().map(|x| R(*x)).collect()
}

fn raw(xs: &[R]) -> Vec<f64> {
    xs.iter().map(|x| x.0).collect()
}

fn close(a: f64, b: f64, tol: f64) -> bool {
    (a - b).abs() <= tol
}

#[test]
fn construction_seeds_scaled_identity() {
    let f: Rls<R> = Rls::new(R(0.5), R(0.8), 2);
    assert_eq!(raw(f.weight_ref()), vec![0.0, 0.0]);
    assert_eq!(raw(f.gain_ref()), vec![0.0, 0.0]);
    assert_eq!(raw(f.inverse_correlation_ref()), vec![2.0, 0.0, 0.0, 2.0]);
    assert_eq!(f.inv_forgetting_factor_ref().0, 1.25);
    assert_eq!(f.prior_error_ref().0, 0.0);
}

#[test]
fn with_weight_keeps_the_weight() {
    let f: Rls<R> = Rls::with_weight(R(1.0), R(1.0), v(&[3.0, -1.0, 0.5]));
    assert_eq!(raw(f.weight_ref()), vec![3.0, -1.0, 0.5]);
    assert_eq!(f.inverse_correlation_ref().len(), 9);
}

#[test]
fn single_tap_scalar_update() {
    // n = 1, δ = 1, λ = 1, input 2, target 4: P·u = 2, c = 1 + 2·2 = 5,
    // gain 0.4, prior error 4, weight 0 + 4·0.4 = 1.6, P = 1 − 0.4·2 = 0.2.
    let mut f: Rls<R> = Rls::new(R(1.0), R(1.0), 1);
    assert_eq!(f.update(&v(&[2.0]), R(4.0)), Ok(()));
    assert_eq!(f.prior_error_ref().0, 4.0);
    assert!(close(f.gain_ref()[0].0, 0.4, 1e-12));
    assert!(close(f.weight_ref()[0].0, 1.6, 1e-12));
    assert!(close(f.inverse_correlation_ref()[0].0, 0.2, 1e-12));
}

#[test]
fn zero_input_leaves_weight_unchanged() {
    let mut f: Rls<R> = Rls::with_weight(R(0.01), R(0.99), v(&[1.5, -2.0, 0.25]));
    assert_eq!(f.update(&v(&[0.0, 0.0, 0.0]), R(7.0)), Ok(()));
    assert_eq!(raw(f.weight_ref()), vec![1.5, -2.0, 0.25]);
    assert_eq!(f.prior_error_ref().0, 7.0);
}

#[test]
fn one_update_moves_prediction_toward_target() {
    let mut f: Rls<R> = Rls::with_weight(R(0.1), R(1.0), v(&[0.5, 0.5]));
    let u = v(&[1.0, 2.0]);
    let target = 5.0;
    let before = 0.5 * 1.0 + 0.5 * 2.0;
    f.update(&u, R(target)).unwrap();
    let w = raw(f.weight_ref());
    let after = w[0] * 1.0 + w[1] * 2.0;
    assert!((after - target).abs() < (before - target).abs());
}

#[test]
fn noiseless_targets_recover_true_weight() {
    let w_true = [2.0, -1.0, 0.5];
    let inputs = [[1.0, 0.0, 0.0], [1.0, 1.0, 0.0], [0.0, 1.0, 1.0]];
    let mut f: Rls<R> = Rls::new(R(1e-8), R(1.0), 3);
    for u in inputs.iter() {
        let t = u[0] * w_true[0] + u[1] * w_true[1] + u[2] * w_true[2];
        f.update(&v(u), R(t)).unwrap();
    }
    let w = raw(f.weight_ref());
    for k in 0..3 {
        assert!(close(w[k], w_true[k], 1e-4), "{:?}", w);
    }
}

#[test]
fn inverse_correlation_stays_symmetric() {
    let mut f: Rls<R> = Rls::new(R(0.1), R(0.98), 3);
    let samples = [([1.0, 0.5, -0.2], 1.0), ([0.3, -1.0, 0.7], -0.5), ([0.9, 0.1, 0.4], 2.0)];
    for (u, t) in samples.iter() {
        f.update(&v(u), R(*t)).unwrap();
        let p = raw(f.inverse_correlation_ref());
        for i in 0..3 {
            for j in 0..3 {
                assert!(close(p[i * 3 + j], p[j * 3 + i], 1e-9));
            }
        }
    }
}

#[test]
fn wrong_input_length_is_refused_and_state_kept() {
    let mut f: Rls<R> = Rls::new(R(1.0), R(1.0), 2);
    f.update(&v(&[1.0, 1.0]), R(1.0)).unwrap();
    let before = (raw(f.weight_ref()), raw(f.gain_ref()), raw(f.inverse_correlation_ref()));
    assert_eq!(
        f.update(&v(&[1.0, 2.0, 3.0]), R(1.0)),
        Err(RlsError::DimensionMismatch { expected: 2, found: 3 })
    );
    let after = (raw(f.weight_ref()), raw(f.gain_ref()), raw(f.inverse_correlation_ref()));
    assert_eq!(before, after);
}

#[test]
fn stored_fields_round_trip() {
    let mut f: Rls<R> = Rls::new(R(0.2), R(0.9), 2);
    f.update(&v(&[1.0, -1.0]), R(0.5)).unwrap();
    f.update(&v(&[0.5, 2.0]), R(-1.0)).unwrap();
    let g = Rls::from_parts(
        *f.inv_forgetting_factor_ref(),
        f.gain_ref().clone(),
        f.inverse_correlation_ref().clone(),
        f.weight_ref().clone(),
        *f.prior_error_ref(),
    )
    .unwrap();
    assert_eq!(g.inv_forgetting_factor_ref(), f.inv_forgetting_factor_ref());
    assert_eq!(g.gain_ref(), f.gain_ref());
    assert_eq!(g.inverse_correlation_ref(), f.inverse_correlation_ref());
    assert_eq!(g.weight_ref(), f.weight_ref());
    assert_eq!(g.prior_error_ref(), f.prior_error_ref());
}

#[test]
fn stored_fields_with_short_gain_are_refused() {
    let r = Rls::from_parts(R(1.0), v(&[0.0]), v(&[1.0, 0.0, 0.0, 1.0]), v(&[0.0, 0.0]), R(0.0));
    assert_eq!(r.err(), Some(RlsError::DimensionMismatch { expected: 2, found: 1 }));
}

#[test]
fn stored_fields_with_wrong_matrix_are_refused() {
    let r = Rls::from_parts(R(1.0), v(&[0.0, 0.0]), v(&[1.0, 0.0, 1.0]), v(&[0.0, 0.0]), R(0.0));
    assert_eq!(r.err(), Some(RlsError::DimensionMismatch { expected: 4, found: 3 }));
}

#[test]
fn empty_stored_fields_are_accepted() {
    let r = Rls::<R>::from_parts(R(1.0), Vec::new(), Vec::new(), Vec::new(), R(0.0));
    assert!(r.is_ok());
}
