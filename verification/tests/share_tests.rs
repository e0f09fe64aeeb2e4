use mpc_snarks::{new_test_rng, Backend, Fe, MpcContext, MpcError, MpcFe};

fn honest_ctx() -> MpcContext {
    MpcContext { n_parties: 3, backend: Backend::HonestMajority, mac_key: Fe::from_u64(0) }
}

fn malicious_ctx() -> MpcContext {
    MpcContext { n_parties: 3, backend: Backend::MaliciousMajority, mac_key: Fe::from_u64(7919) }
}

fn both_contexts() -> Vec<MpcContext> {
    vec![honest_ctx(), malicious_ctx()]
}

#[test]
fn share_round_trip() {
    let mut rng = new_test_rng();
    for ctx in both_contexts() {
        let v = Fe::from_u64(123456);
        let x = ctx.king_share(&v, &mut rng);
        assert_eq!(ctx.publicize(&x).unwrap(), v);

        let w = Fe::rand(&mut rng);
        let y = ctx.king_share(&w, &mut rng);
        assert_eq!(ctx.publicize(&y).unwrap(), w);
    }
}

#[test]
fn addition_homomorphism() {
    let mut rng = new_test_rng();
    for ctx in both_contexts() {
        let a = ctx.king_share(&Fe::from_u64(37), &mut rng);
        let b = ctx.king_share(&Fe::from_u64(58), &mut rng);
        let sum = ctx.add(&a, &b);
        assert_eq!(ctx.publicize(&sum).unwrap(), Fe::from_u64(95));
    }
}

#[test]
fn public_scalar_homomorphism() {
    let mut rng = new_test_rng();
    for ctx in both_contexts() {
        let a = ctx.king_share(&Fe::from_u64(37), &mut rng);
        let c = MpcFe::Public(Fe::from_u64(1000));
        let prod = ctx.mul(&a, &c, &mut rng);
        assert_eq!(ctx.publicize(&prod).unwrap(), Fe::from_u64(37000));

        let shifted = ctx.add(&a, &c);
        assert_eq!(ctx.publicize(&shifted).unwrap(), Fe::from_u64(1037));
    }
}

#[test]
fn shared_multiplication_homomorphism() {
    let mut rng = new_test_rng();
    for ctx in both_contexts() {
        let a = ctx.king_share(&Fe::from_u64(37), &mut rng);
        let b = ctx.king_share(&Fe::from_u64(58), &mut rng);
        let prod = ctx.mul(&a, &b, &mut rng);
        assert_eq!(ctx.publicize(&prod).unwrap(), Fe::from_u64(37 * 58));
    }
}

#[test]
fn subtraction_wraps_in_field() {
    let mut rng = new_test_rng();
    for ctx in both_contexts() {
        let a = ctx.king_share(&Fe::from_u64(5), &mut rng);
        let b = ctx.king_share(&Fe::from_u64(9), &mut rng);
        let diff = ctx.sub(&a, &b);
        let expected = Fe::from_u64(5).sub_fe(&Fe::from_u64(9));
        assert_eq!(ctx.publicize(&diff).unwrap(), expected);
    }
}

#[test]
fn interactive_inversion() {
    let mut rng = new_test_rng();
    for ctx in both_contexts() {
        let a = ctx.king_share(&Fe::from_u64(6), &mut rng);
        let inv = ctx.inverse(&a, &mut rng).unwrap();
        let prod = ctx.mul(&a, &inv, &mut rng);
        assert_eq!(ctx.publicize(&prod).unwrap(), Fe::from_u64(1));
    }
}

#[test]
fn inversion_of_zero_fails() {
    let mut rng = new_test_rng();
    for ctx in both_contexts() {
        let a = ctx.king_share(&Fe::from_u64(0), &mut rng);
        match ctx.inverse(&a, &mut rng) {
            Err(MpcError::ArithmeticDomainError) => {}
            other => panic!("expected arithmetic domain error, got {:?}", other.is_ok()),
        }
    }
}

#[test]
fn tampered_share_is_detected() {
    let mut rng = new_test_rng();
    let ctx = malicious_ctx();
    let x = ctx.king_share(&Fe::from_u64(42), &mut rng);
    let corrupted = match x {
        MpcFe::Shared(mut s) => {
            s.shares[0] = s.shares[0].add_fe(&Fe::from_u64(1));
            MpcFe::Shared(s)
        }
        MpcFe::Public(_) => panic!("king share must be shared"),
    };
    match ctx.publicize(&corrupted) {
        Err(MpcError::AuthenticationFailure) => {}
        Ok(v) => panic!("tamper went undetected, opened {:?}", v),
        Err(e) => panic!("unexpected error {:?}", e),
    }
}

#[test]
fn honest_backend_sums_shares() {
    // Under the honest-majority discipline opening never fails.
    let mut rng = new_test_rng();
    let ctx = honest_ctx();
    let x = ctx.king_share(&Fe::from_u64(42), &mut rng);
    assert!(ctx.publicize(&x).is_ok());
}
