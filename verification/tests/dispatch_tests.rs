use mpc_snarks::curve::{proof_from_mpc, MpcKzgProof};
use mpc_snarks::{
    g1_generator, g1_scale, new_test_rng, proj_points_equal, reveal_point, Backend, CommitKey,
    Computation, ComputationDomain, Fe, MpcContext, MpcError, MpcFe, MpcPoint,
};

fn honest_ctx() -> MpcContext {
    MpcContext { n_parties: 3, backend: Backend::HonestMajority, mac_key: Fe::from_u64(0) }
}

fn malicious_ctx() -> MpcContext {
    MpcContext { n_parties: 3, backend: Backend::MaliciousMajority, mac_key: Fe::from_u64(7919) }
}

fn small_key(n: usize) -> CommitKey {
    let g = g1_generator();
    let mut powers_of_g = Vec::new();
    let mut powers_of_gamma_g = Vec::new();
    let mut beta_power = 1u64;
    for _ in 0..n {
        powers_of_g.push(g1_scale(&g, &Fe::from_u64(beta_power)));
        powers_of_gamma_g.push(g1_scale(&g, &Fe::from_u64(beta_power * 2)));
        beta_power *= 3;
    }
    CommitKey { powers_of_g, powers_of_gamma_g }
}

fn shared_inputs(ctx: &MpcContext, values: &[u64]) -> Vec<MpcFe> {
    let mut rng = new_test_rng();
    values
        .iter()
        .map(|v| ctx.king_share(&Fe::from_u64(*v), &mut rng))
        .collect()
}

#[test]
fn domain_mapping() {
    assert_eq!(Computation::Dh.domain(false), ComputationDomain::G1);
    assert_eq!(Computation::Dh.domain(true), ComputationDomain::G2);
    assert_eq!(Computation::NaiveMsm.domain(false), ComputationDomain::Group);
    assert_eq!(Computation::GroupOps.domain(false), ComputationDomain::Group);
    assert_eq!(Computation::PairingDh.domain(false), ComputationDomain::Pairing);
    assert_eq!(Computation::Ecdsa.domain(false), ComputationDomain::BlsPairing);
    assert_eq!(Computation::KzgCommit.domain(false), ComputationDomain::BlsPairing);
    assert_eq!(Computation::Msm.domain(true), ComputationDomain::BlsPairing);
    assert_eq!(Computation::PolyEval.domain(false), ComputationDomain::PolyField);
    assert_eq!(Computation::Sum.domain(false), ComputationDomain::Field);
    assert_eq!(Computation::Fft.domain(true), ComputationDomain::Field);
}

#[test]
fn unsupported_operation_is_refused() {
    let ctx = honest_ctx();
    let inputs = shared_inputs(&ctx, &[1, 2]);
    let key = small_key(2);
    let mut rng = new_test_rng();
    for op in [Computation::Fft, Computation::Sum, Computation::Groth16, Computation::Plonk] {
        match op.run(&ctx, &inputs, &key, &mut rng) {
            Err(MpcError::UnsupportedOperation) => {}
            other => panic!("expected unsupported operation, got ok={}", other.is_ok()),
        }
    }
}

#[test]
fn supported_operations_run_on_both_backends() {
    let mut rng = new_test_rng();
    for ctx in [honest_ctx(), malicious_ctx()] {
        let inputs = shared_inputs(&ctx, &[11, 22, 33]);
        let key = small_key(3);

        let commit = Computation::KzgCommit.run(&ctx, &inputs, &key, &mut rng).unwrap();
        assert!(commit.scalars.is_empty());
        assert_eq!(commit.points.len(), 1);
        // The commitment opens to the multi-scalar multiple of the key
        // powers (dlogs 1, 3, 9) by the input values: 11*1 + 22*3 + 33*9.
        let opened = reveal_point(&commit.points[0]);
        let expected = reveal_point(&MpcPoint::Public(g1_scale(
            &g1_generator(),
            &Fe::from_u64(11 + 22 * 3 + 33 * 9),
        )));
        assert!(proj_points_equal(&opened, &expected));

        let msm = Computation::Msm.run(&ctx, &inputs, &key, &mut rng).unwrap();
        assert!(msm.scalars.is_empty());
        assert_eq!(msm.points.len(), 1);
        let _opened_msm = reveal_point(&msm.points[0]);

        let sigs = Computation::Ecdsa.run(&ctx, &inputs, &key, &mut rng).unwrap();
        assert!(sigs.points.is_empty());
        assert_eq!(sigs.scalars.len(), inputs.len());
        for s in &sigs.scalars {
            assert!(ctx.publicize(s).is_ok());
        }
    }
}

#[test]
fn msm_bases_are_deterministic() {
    // Two runs over identically dealt inputs open to the same combined
    // point: the public bases come from a fixed seed, not the session rng.
    let ctx = honest_ctx();
    let key = small_key(2);
    let mut rng1 = new_test_rng();
    let inputs1: Vec<MpcFe> = [5u64, 8]
        .iter()
        .map(|v| ctx.king_share(&Fe::from_u64(*v), &mut rng1))
        .collect();
    let out1 = Computation::Msm.run(&ctx, &inputs1, &key, &mut rng1).unwrap();
    let mut rng2 = new_test_rng();
    let inputs2: Vec<MpcFe> = [5u64, 8]
        .iter()
        .map(|v| ctx.king_share(&Fe::from_u64(*v), &mut rng2))
        .collect();
    let out2 = Computation::Msm.run(&ctx, &inputs2, &key, &mut rng2).unwrap();
    let p1 = reveal_point(&out1.points[0]);
    let p2 = reveal_point(&out2.points[0]);
    assert!(proj_points_equal(&p1, &p2));
}

#[test]
fn proof_opening_publicizes_hiding_scalar() {
    let mut rng = new_test_rng();
    let ctx = malicious_ctx();
    let hidden = ctx.king_share(&Fe::from_u64(9), &mut rng);
    let pf = MpcKzgProof { w: MpcPoint::Public(g1_generator()), random_v: Some(hidden) };
    let (_w, opened) = proof_from_mpc(&ctx, &pf).unwrap();
    assert_eq!(opened.unwrap(), Fe::from_u64(9));

    let tampered = match ctx.king_share(&Fe::from_u64(9), &mut rng) {
        MpcFe::Shared(mut s) => {
            s.tags[2] = s.tags[2].add_fe(&Fe::from_u64(1));
            MpcFe::Shared(s)
        }
        MpcFe::Public(_) => panic!("king share must be shared"),
    };
    let bad = MpcKzgProof { w: MpcPoint::Public(g1_generator()), random_v: Some(tampered) };
    match proof_from_mpc(&ctx, &bad) {
        Err(MpcError::AuthenticationFailure) => {}
        other => panic!("expected authentication failure, got ok={}", other.is_ok()),
    }
}
