use ark_ec::{AffineCurve, ProjectiveCurve};
use ark_ff::{BigInteger, BigInteger256, Field, PrimeField};
use mpc_snarks::{
    derive_challenge, ecdsa_sign, new_test_rng, poseidon_parameters_for_test, Backend, Fe,
    MpcContext, MpcError, MpcFe, Sponge,
};

type Fr = ark_bls12_377::Fr;

fn fe_to_fr(x: &Fe) -> Fr {
    Fr::from_repr(BigInteger256::new(x.limbs())).unwrap()
}

fn honest_ctx() -> MpcContext {
    MpcContext { n_parties: 3, backend: Backend::HonestMajority, mac_key: Fe::from_u64(0) }
}

fn malicious_ctx() -> MpcContext {
    MpcContext { n_parties: 3, backend: Backend::MaliciousMajority, mac_key: Fe::from_u64(7919) }
}

fn sign_with(ctx: &MpcContext, xv: u64, kv: u64, m: &[u8]) -> Result<(Fe, Fe), MpcError> {
    let mut rng = new_test_rng();
    let x = ctx.king_share(&Fe::from_u64(xv), &mut rng);
    let k = ctx.king_share(&Fe::from_u64(kv), &mut rng);
    ecdsa_sign(ctx, &x, &k, &m.to_vec(), poseidon_parameters_for_test(), &mut rng)
}

#[test]
fn threshold_ecdsa_end_to_end() {
    for ctx in [honest_ctx(), malicious_ctx()] {
        let m = b"test";
        let (r, s) = sign_with(&ctx, 7, 5, m).unwrap();

        // The first component is the x-coordinate of the opened point k*G,
        // reduced into the scalar field.
        let g = ark_bls12_377::G1Affine::prime_subgroup_generator();
        let big_r = g.mul(BigInteger256::new([5, 0, 0, 0]));
        let xcoord_bytes = big_r.into_affine().x.into_repr().to_bytes_le();
        let expected_r = Fr::from_le_bytes_mod_order(&xcoord_bytes);
        assert_eq!(fe_to_fr(&r), expected_r);

        // The scalar form of the signature equation: s*k == e + x*r.
        let e = fe_to_fr(&derive_challenge(poseidon_parameters_for_test(), &m.to_vec()));
        let s_fr = fe_to_fr(&s);
        let r_fr = fe_to_fr(&r);
        let x_fr = Fr::from(7u64);
        let k_fr = Fr::from(5u64);
        assert_eq!(s_fr * k_fr, e + x_fr * r_fr);

        // The curve verification equation against the public key Q = x*G:
        // (e/s)*G + (r/s)*Q reconstructs R, whose x-coordinate matches r.
        let q = g.mul(BigInteger256::new([7, 0, 0, 0]));
        let s_inv = s_fr.inverse().unwrap();
        let u1 = e * s_inv;
        let u2 = r_fr * s_inv;
        let reconstructed = g.mul(u1.into_repr()) + q.mul(u2.into_repr());
        assert_eq!(
            reconstructed.into_affine().x,
            big_r.into_affine().x
        );
    }
}

#[test]
fn signing_is_deterministic() {
    let ctx = honest_ctx();
    let first = sign_with(&ctx, 7, 5, b"test").unwrap();
    let second = sign_with(&ctx, 7, 5, b"test").unwrap();
    assert_eq!(first, second);
}

#[test]
fn message_change_changes_signature() {
    let ctx = honest_ctx();
    let (r1, s1) = sign_with(&ctx, 7, 5, b"test").unwrap();
    let (r2, s2) = sign_with(&ctx, 7, 5, b"tost").unwrap();
    assert_eq!(r1, r2);
    assert_ne!(s1, s2);
}

#[test]
fn zero_nonce_fails() {
    let ctx = honest_ctx();
    match sign_with(&ctx, 7, 0, b"test") {
        Err(MpcError::ArithmeticDomainError) => {}
        other => panic!("expected arithmetic domain error, got ok={}", other.is_ok()),
    }
}

#[test]
fn tampered_nonce_fails_authentication() {
    let ctx = malicious_ctx();
    let mut rng = new_test_rng();
    let x = ctx.king_share(&Fe::from_u64(7), &mut rng);
    let k = ctx.king_share(&Fe::from_u64(5), &mut rng);
    let corrupted = match k {
        MpcFe::Shared(mut s) => {
            s.shares[1] = s.shares[1].add_fe(&Fe::from_u64(1));
            MpcFe::Shared(s)
        }
        MpcFe::Public(_) => panic!("king share must be shared"),
    };
    match ecdsa_sign(
        &ctx,
        &x,
        &corrupted,
        &b"test".to_vec(),
        poseidon_parameters_for_test(),
        &mut rng,
    ) {
        Err(MpcError::AuthenticationFailure) => {}
        other => panic!("expected authentication failure, got ok={}", other.is_ok()),
    }
}

#[test]
fn squeeze_matches_independent_permutation() {
    // Recompute the sponge's first squeeze output with direct ark field
    // arithmetic over the same parameters: rate 2, capacity 1, eight full
    // and thirty-one partial rounds, exponent seventeen, round constant
    // ark[r][i] = 101 + 3r + i + 1 and matrix entry mds[i][j] = 17 + 3i + j + 1.
    let mut state = [Fr::from(0u64); 3];
    state[1] += Fr::from(5u64);
    for r in 0..39u64 {
        for i in 0..3u64 {
            state[i as usize] += Fr::from(101 + 3 * r + i + 1);
        }
        let full = r < 4 || r >= 35;
        if full {
            for i in 0..3 {
                state[i] = state[i].pow([17u64]);
            }
        } else {
            state[0] = state[0].pow([17u64]);
        }
        let mut mixed = [Fr::from(0u64); 3];
        for i in 0..3u64 {
            for j in 0..3u64 {
                mixed[i as usize] += Fr::from(17 + 3 * i + j + 1) * state[j as usize];
            }
        }
        state = mixed;
    }
    let expected = state[1];

    let mut sponge = Sponge::new(poseidon_parameters_for_test());
    sponge.absorb_fe(&Fe::from_u64(5));
    let out = sponge.squeeze_native_field_elements(1);
    assert_eq!(fe_to_fr(&out[0]), expected);
}
