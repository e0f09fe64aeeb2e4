//! The threshold elliptic-curve signing protocol: from a shared private
//! scalar and a shared per-signature nonce, the parties produce a signature
//! over a public message. The shared point `k·G` is opened to a public
//! point before its coordinate is read, the Fiat-Shamir challenge is a
//! public scalar derived from the message alone, and the nonce is inverted
//! through the backend's inversion sub-protocol, never share by share.

use vstd::prelude::*;
use crate::field::{Fe, fr_order, add_mod, mul_mod, bytes_le_nat, fr_inv};
use crate::share::{MpcContext, MpcError, MpcFe};
use crate::sponge::{PoseidonParams, ParamsV, Sponge, absorb_all, fresh_view, squeeze_seq};
use crate::encode::pack_bytes;
use crate::curve::{open_gen_mul_xcoord, gen_mul_x_bytes};
use vstd::arithmetic::div_mod::{
    lemma_small_mod,
    lemma_mod_bound,
    lemma_mul_mod_noop_left,
    lemma_mul_mod_noop_right,
};

verus! {

/// The Fiat-Shamir challenge for a message: one element squeezed from a
/// fresh sponge that absorbed the message bytes.
pub open spec fn challenge(p: ParamsV, m: Seq<u8>) -> nat {
    squeeze_seq(p, absorb_all(p, fresh_view(p), pack_bytes(m)), 1).0[0]
}

/// The signature's first component: the x-coordinate of the opened point
/// `k·G`, reduced into the scalar field.
pub open spec fn sig_r(kv: nat) -> nat {
    bytes_le_nat(gen_mul_x_bytes(kv)) % fr_order()
}

/// The signature's second component: `(e + x·r) · k⁻¹` in the scalar field.
pub open spec fn sig_s(p: ParamsV, xv: nat, kv: nat, m: Seq<u8>) -> nat {
    mul_mod(add_mod(challenge(p, m), mul_mod(xv, sig_r(kv))), fr_inv(kv))
}

/// The challenge scalar for a message: public, derived from the message and
/// the sponge parameters alone, so that every party computes the same one.
pub fn derive_challenge(params: PoseidonParams, m: &Vec<u8>) -> (r: Fe)
    requires
        params.wf(),
    ensures
        r.wf(),
        r.as_nat() == challenge(params.pv(), m@),
{
    let mut sponge = Sponge::new(params);
    sponge.absorb_bytes(m);
    let out = sponge.squeeze_native_field_elements(1);
    out[0]
}

/// Field multiplication is associative.
proof fn lemma_mul_mod_assoc(a: nat, b: nat, c: nat)
    ensures
        mul_mod(mul_mod(a, b), c) == mul_mod(a, mul_mod(b, c)),
{
    let m = fr_order() as int;
    lemma_mul_mod_noop_left((a * b) as int, c as int, m);
    assert(a * b * c == a * (b * c)) by (nonlinear_arith);
    lemma_mul_mod_noop_right(a as int, (b * c) as int, m);
}

/// The signature equation: the signing scalar times the nonce equals the
/// challenge plus the key times the signature's first component — the
/// scalar form of the curve verification equation a verifier checks.
pub proof fn lemma_ecdsa_verification_equation(p: ParamsV, xv: nat, kv: nat, m: Seq<u8>, iv: nat)
    requires
        iv == fr_inv(kv),
        mul_mod(iv, kv) == 1,
    ensures
        mul_mod(sig_s(p, xv, kv, m), kv) == add_mod(challenge(p, m), mul_mod(xv, sig_r(kv))),
{
    let a = add_mod(challenge(p, m), mul_mod(xv, sig_r(kv)));
    lemma_mul_mod_assoc(a, iv, kv);
    assert(mul_mod(a, 1) == a % fr_order()) by {
        assert(a * 1 == a) by (nonlinear_arith);
    }
    lemma_mod_bound((challenge(p, m) + mul_mod(xv, sig_r(kv))) as int, fr_order() as int);
    lemma_small_mod(a, fr_order());
}

/// Signing determinism: the signature is a mathematical function of the
/// parameters, the shared key's value, the shared nonce's value and the
/// message, so two runs over the same inputs under the same backend yield
/// the same pair.
pub proof fn lemma_ecdsa_determinism(p: ParamsV, xv: nat, kv: nat, m1: Seq<u8>, m2: Seq<u8>)
    requires
        m1 == m2,
    ensures
        sig_s(p, xv, kv, m1) == sig_s(p, xv, kv, m2),
        challenge(p, m1) == challenge(p, m2),
{
}

/// One run of the signing protocol up to, but not including, the final
/// publicize step: `x` the shared private scalar, `k` the shared
/// per-signature nonce, `m` the public message. The pair returned is the
/// public `r` — the reduced x-coordinate of the opened `k·G` — and the
/// still-shared signature scalar whose value is `(e + x·r)·k⁻¹`. A zero
/// nonce fails explicitly, and under the malicious-majority backend a
/// tampered nonce sharing surfaces an authentication failure at the point
/// opening.
pub fn ecdsa_sign_share(
    ctx: &MpcContext,
    x: &MpcFe,
    k: &MpcFe,
    m: &Vec<u8>,
    params: PoseidonParams,
    rng: &mut rand::rngs::StdRng,
) -> (r: Result<(Fe, MpcFe), MpcError>)
    requires
        ctx.wf(),
        x.wf(*ctx),
        k.wf(*ctx),
        params.wf(),
    ensures
        !k.well_tagged(*ctx) ==> r is Err && r->Err_0 == MpcError::AuthenticationFailure,
        k.well_tagged(*ctx) && k.value() == 0 ==> r is Err && r->Err_0
            == MpcError::ArithmeticDomainError,
        k.well_tagged(*ctx) && k.value() != 0 ==> r is Ok,
        r is Ok ==> k.well_tagged(*ctx) && k.value() != 0 && r->Ok_0.0.wf() && r->Ok_0.1.wf(*ctx)
            && r->Ok_0.0.as_nat() == sig_r(k.value()) && r->Ok_0.1.value() == sig_s(
            params.pv(),
            x.value(),
            k.value(),
            m@,
        ) && (x.well_tagged(*ctx) ==> r->Ok_0.1.well_tagged(*ctx)) && (*x is Shared
            ==> r->Ok_0.1 is Shared) && mul_mod(r->Ok_0.1.value(), k.value()) == add_mod(
            challenge(params.pv(), m@),
            mul_mod(x.value(), sig_r(k.value())),
        ),
{
    let xb = match open_gen_mul_xcoord(ctx, k) {
        Ok(b) => b,
        Err(e) => {
            return Err(e);
        },
    };
    let rfe = Fe::from_le_bytes(&xb);
    let e = derive_challenge(params, m);
    let e_pub = MpcFe::Public(e);
    let r_pub = MpcFe::Public(rfe);
    let xr = ctx.mul(x, &r_pub, rng);
    let s0 = ctx.add(&e_pub, &xr);
    let kinv = match ctx.inverse(k, rng) {
        Ok(v) => v,
        Err(e2) => {
            return Err(e2);
        },
    };
    let s_sh = ctx.mul(&s0, &kinv, rng);
    proof {
        lemma_ecdsa_verification_equation(
            params.pv(),
            x.value(),
            k.value(),
            m@,
            kinv.value(),
        );
    }
    Ok((rfe, s_sh))
}

/// One complete threshold signature: the protocol above, with the shared
/// signature scalar publicized at the end. The pair returned is `(r, s)`
/// with `s = (e + x·r)·k⁻¹`. A zero nonce fails explicitly, and under the
/// malicious-majority backend a tampered sharing surfaces an
/// authentication failure, never a corrupted signature.
pub fn ecdsa_sign(
    ctx: &MpcContext,
    x: &MpcFe,
    k: &MpcFe,
    m: &Vec<u8>,
    params: PoseidonParams,
    rng: &mut rand::rngs::StdRng,
) -> (r: Result<(Fe, Fe), MpcError>)
    requires
        ctx.wf(),
        x.wf(*ctx),
        k.wf(*ctx),
        params.wf(),
    ensures
        !k.well_tagged(*ctx) ==> r is Err && r->Err_0 == MpcError::AuthenticationFailure,
        k.well_tagged(*ctx) && k.value() == 0 ==> r is Err && r->Err_0
            == MpcError::ArithmeticDomainError,
        k.well_tagged(*ctx) && x.well_tagged(*ctx) && k.value() != 0 ==> r is Ok,
        r is Ok ==> k.well_tagged(*ctx) && k.value() != 0 && r->Ok_0.0.wf() && r->Ok_0.1.wf()
            && r->Ok_0.0.as_nat() == sig_r(k.value()) && r->Ok_0.1.as_nat() == sig_s(
            params.pv(),
            x.value(),
            k.value(),
            m@,
        ) && mul_mod(r->Ok_0.1.as_nat(), k.value()) == add_mod(
            challenge(params.pv(), m@),
            mul_mod(x.value(), sig_r(k.value())),
        ),
{
    let (rfe, s_sh) = match ecdsa_sign_share(ctx, x, k, m, params, rng) {
        Ok(p) => p,
        Err(e) => {
            return Err(e);
        },
    };
    let s = match ctx.publicize(&s_sh) {
        Ok(v) => v,
        Err(e3) => {
            return Err(e3);
        },
    };
    Ok((rfe, s))
}

} // verus!
