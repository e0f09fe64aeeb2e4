//! The curve side of the protocols: BLS12-377 G1 points, held opaque behind
//! the `ark_ec` arithmetic, with the one fact the signing protocol needs —
//! the x-coordinate of a generator multiple is a function of the scalar
//! alone — given a name. Shared points carry one per-party contribution
//! each, reconstructed by summation like field sharings.

use vstd::prelude::*;
use crate::field::{Fe, fr_order, add_mod, mul_mod};
use crate::share::{
    MpcContext, MpcError, MpcFe, open_value, sum_mod, sum_from, zip_add, zip_scale,
    lemma_sum_add, lemma_sum_scale, lemma_sum_zeros, lemma_mul_mod_comm,
};
use crate::encode::vals;
use vstd::arithmetic::div_mod::lemma_small_mod;

verus! {

/// A BLS12-377 G1 point in affine form, opaque to the verifier: only the
/// `ark_ec` arithmetic behind the trusted wrappers reads it.
#[verifier::external_body]
pub struct G1Point {
    inner: ark_bls12_377::G1Affine,
}

/// A BLS12-377 G1 point in projective form, opaque to the verifier.
#[verifier::external_body]
pub struct G1Proj {
    inner: ark_bls12_377::G1Projective,
}

/// The little-endian bytes of the x-coordinate of `k·G` on BLS12-377, for
/// `0 < k` below the group order: a name for what the `ark_ec` scalar
/// multiplication and coordinate extraction return, which depend on the
/// scalar alone.
pub uninterp spec fn gen_mul_x_bytes(k: nat) -> Seq<u8>;

/// The discrete logarithm of an affine G1 point with respect to the fixed
/// generator, reduced below the group order: G1 is cyclic of prime order,
/// so every point has exactly one. A name for what the opaque point holds;
/// the trusted point operations state how each of them moves it.
pub uninterp spec fn g1_dlog(p: G1Point) -> nat;

/// The discrete logarithm of a projective G1 point, likewise.
pub uninterp spec fn g1_proj_dlog(p: G1Proj) -> nat;

/// The discrete logs a base list holds.
pub open spec fn dlogs_of(b: Seq<G1Point>) -> Seq<nat> {
    Seq::new(b.len(), |i: int| g1_dlog(b[i]))
}

/// The discrete logs a list of per-party point contributions holds.
pub open spec fn proj_dlogs(v: Seq<G1Proj>) -> Seq<nat> {
    Seq::new(v.len(), |j: int| g1_proj_dlog(v[j]))
}

/// The discrete log of a multi-scalar multiple: the field sum, from
/// position `k` on, of each scalar times its base's discrete log.
pub open spec fn msm_from(d: Seq<nat>, s: Seq<nat>, k: int) -> nat
    decreases s.len() - k,
{
    if k < 0 || k >= s.len() {
        0
    } else {
        add_mod(mul_mod(s[k], d[k]), msm_from(d, s, k + 1))
    }
}

/// The values a batch of protocol field elements stands for.
pub open spec fn mpc_values(s: Seq<MpcFe>) -> Seq<nat> {
    Seq::new(s.len(), |i: int| s[i].value())
}

/// The discrete logs a list of public shared-domain points holds.
pub open spec fn pub_dlogs(b: Seq<MpcPoint>) -> Seq<nat> {
    Seq::new(b.len(), |i: int| g1_dlog(b[i]->Public_0))
}

/// Party `j`'s share of every scalar in a shared batch.
pub open spec fn share_col(inputs: Seq<MpcFe>, j: int) -> Seq<nat> {
    Seq::new(inputs.len(), |i: int| inputs[i]->Shared_0.shares@[j].as_nat())
}

/// A multi-scalar discrete log is fully reduced.
proof fn lemma_msm_from_bound(d: Seq<nat>, s: Seq<nat>, k: int)
    ensures
        msm_from(d, s, k) < fr_order(),
{
    if k < 0 || k >= s.len() {
    } else {
        vstd::arithmetic::div_mod::lemma_mod_bound(
            (mul_mod(s[k], d[k]) + msm_from(d, s, k + 1)) as int,
            fr_order() as int,
        );
    }
}

/// Exchanging the order of summation: the field sum, over the parties, of
/// each party's multi-scalar contribution equals the multi-scalar multiple
/// of the reconstructed scalar values.
proof fn lemma_msm_exchange(d: Seq<nat>, inputs: Seq<MpcFe>, n: int, k: int)
    requires
        d.len() == inputs.len(),
        0 <= k <= inputs.len(),
        n >= 0,
        forall|i: int|
            0 <= i < inputs.len() ==> (#[trigger] inputs[i]) is Shared
                && inputs[i]->Shared_0.shares@.len() == n,
    ensures
        sum_mod(Seq::new(n as nat, |j: int| msm_from(d, share_col(inputs, j), k))) == msm_from(
            d,
            mpc_values(inputs),
            k,
        ),
    decreases inputs.len() - k,
{
    let cols = Seq::new(n as nat, |j: int| msm_from(d, share_col(inputs, j), k));
    if k == inputs.len() {
        assert(forall|j: int| 0 <= j < n ==> cols[j] == 0);
        lemma_sum_zeros(cols, 0);
    } else {
        lemma_msm_exchange(d, inputs, n, k + 1);
        let sh = inputs[k]->Shared_0.shares@;
        let colk = Seq::new(n as nat, |j: int| sh[j].as_nat());
        let scaled = zip_scale(d[k], colk);
        let tails = Seq::new(n as nat, |j: int| msm_from(d, share_col(inputs, j), k + 1));
        assert(cols =~= zip_add(scaled, tails)) by {
            assert forall|j: int| 0 <= j < n implies cols[j] == add_mod(scaled[j], tails[j]) by {
                assert(share_col(inputs, j)[k] == sh[j].as_nat());
                lemma_mul_mod_comm(sh[j].as_nat(), d[k]);
            }
        }
        lemma_sum_add(scaled, tails, 0);
        lemma_sum_scale(d[k], colk, 0);
        assert(colk =~= vals(sh));
        assert(sum_mod(colk) == inputs[k].value());
        lemma_mul_mod_comm(mpc_values(inputs)[k], d[k]);
        assert(sum_mod(tails) == msm_from(d, mpc_values(inputs), k + 1));
    }
}

/// Relies on `ark_ec::AffineCurve::mul` and the BLS12-377 G1 generator: G1
/// has prime order equal to the scalar-field order, so `k·G` is the group
/// identity exactly when the reduced scalar is zero; otherwise the affine
/// x-coordinate exists and, like the whole point, is a function of `k`
/// alone.
#[verifier::external_body]
fn g1_gen_xcoord(k: &Fe) -> (r: Option<Vec<u8>>)
    requires
        k.wf(),
    ensures
        k.as_nat() == 0 <==> r is None,
        r is Some ==> r->0@ == gen_mul_x_bytes(k.as_nat()),
{
    let g = <ark_bls12_377::G1Affine as ark_ec::AffineCurve>::prime_subgroup_generator();
    let p = ark_ec::AffineCurve::mul(&g, ark_ff::BigInteger256::new(k.limbs));
    if ark_ff::Zero::is_zero(&p) {
        None
    } else {
        let a = ark_ec::ProjectiveCurve::into_affine(&p);
        Some(ark_ff::BigInteger::to_bytes_le(&ark_ff::PrimeField::into_repr(&a.x)))
    }
}

/// Relies on `ark_ec::AffineCurve::prime_subgroup_generator` for BLS12-377
/// G1: the fixed generator point, whose discrete log with respect to itself
/// is one.
#[verifier::external_body]
pub fn g1_generator() -> (r: G1Point)
    ensures
        g1_dlog(r) == 1,
{
    G1Point { inner: <ark_bls12_377::G1Affine as ark_ec::AffineCurve>::prime_subgroup_generator() }
}

/// Relies on `ark_ec::AffineCurve::mul`: the scalar multiple of a point,
/// whose discrete log is the scalar times the point's, modulo the group
/// order.
#[verifier::external_body]
pub fn g1_scale(p: &G1Point, s: &Fe) -> (r: G1Point)
    ensures
        g1_dlog(r) == mul_mod(s.as_nat(), g1_dlog(*p)),
{
    let q = ark_ec::AffineCurve::mul(&p.inner, ark_ff::BigInteger256::new(s.limbs));
    G1Point { inner: ark_ec::ProjectiveCurve::into_affine(&q) }
}

/// Relies on the `Copy` nature of an `ark_ec` projective point: the same
/// point again.
#[verifier::external_body]
fn g1_proj_dup(p: &G1Proj) -> (r: G1Proj)
    ensures
        r == *p,
{
    G1Proj { inner: p.inner }
}

/// Relies on the `Copy` nature of an `ark_ec` affine point: the same point
/// again.
#[verifier::external_body]
pub(crate) fn g1_dup(p: &G1Point) -> (r: G1Point)
    ensures
        r == *p,
{
    G1Point { inner: p.inner }
}

/// Relies on the `ark_ec` group addition on BLS12-377 G1: the sum's
/// discrete log is the sum of the discrete logs, modulo the group order.
#[verifier::external_body]
fn g1_add(a: &G1Proj, b: &G1Proj) -> (r: G1Proj)
    ensures
        g1_proj_dlog(r) == add_mod(g1_proj_dlog(*a), g1_proj_dlog(*b)),
{
    G1Proj { inner: a.inner + b.inner }
}

/// Relies on `ark_ec::AffineCurve::into_projective`: the same point, hence
/// the same discrete log, in projective coordinates.
#[verifier::external_body]
fn g1_into_projective(p: &G1Point) -> (r: G1Proj)
    ensures
        g1_proj_dlog(r) == g1_dlog(*p),
{
    G1Proj { inner: ark_ec::AffineCurve::into_projective(&p.inner) }
}

/// Relies on `ark_ec::msm::VariableBaseMSM::multi_scalar_mul`: the combined
/// multi-scalar multiple of the bases, whose discrete log is the field sum
/// of each scalar times its base's discrete log.
#[verifier::external_body]
fn g1_msm(bases: &Vec<G1Point>, scalars: &Vec<Fe>) -> (r: G1Proj)
    requires
        bases@.len() == scalars@.len(),
    ensures
        g1_proj_dlog(r) == msm_from(dlogs_of(bases@), vals(scalars@), 0),
{
    let bs: Vec<ark_bls12_377::G1Affine> = bases.iter().map(|b| b.inner).collect();
    let reprs: Vec<ark_ff::BigInteger256> = scalars
        .iter()
        .map(|s| ark_ff::BigInteger256::new(s.limbs))
        .collect();
    G1Proj { inner: ark_ec::msm::VariableBaseMSM::multi_scalar_mul(&bs, &reprs) }
}

/// Relies on the `ark_ec` point equality on BLS12-377 G1: two points of
/// the cyclic group are equal exactly when their discrete logs agree.
#[verifier::external_body]
fn g1_proj_eq(a: &G1Proj, b: &G1Proj) -> (r: bool)
    ensures
        r <==> g1_proj_dlog(*a) == g1_proj_dlog(*b),
{
    a.inner == b.inner
}

/// Whether two opened points are the same point.
pub fn proj_points_equal(a: &G1Proj, b: &G1Proj) -> (r: bool)
    ensures
        r <==> g1_proj_dlog(*a) == g1_proj_dlog(*b),
{
    g1_proj_eq(a, b)
}

/// The bytes of the x-coordinate of the public point `k·G`, where `k` is a
/// shared scalar. The nonce sharing is reconstructed to a scalar and the
/// point computed from it — which yields the same public point that
/// opening the per-party point contributions would, this library holding
/// every party's shares in one place. The coordinate is read only from
/// that public point, never from a per-party contribution, and the
/// reconstruction authenticates under the malicious-majority discipline.
pub fn open_gen_mul_xcoord(ctx: &MpcContext, k: &MpcFe) -> (r: Result<Vec<u8>, MpcError>)
    requires
        ctx.wf(),
        k.wf(*ctx),
    ensures
        !k.well_tagged(*ctx) ==> r is Err && r->Err_0 == MpcError::AuthenticationFailure,
        k.well_tagged(*ctx) && k.value() == 0 ==> r is Err && r->Err_0
            == MpcError::ArithmeticDomainError,
        k.well_tagged(*ctx) && k.value() != 0 ==> r is Ok && r->Ok_0@ == gen_mul_x_bytes(
            k.value(),
        ),
{
    let kv = match ctx.publicize(k) {
        Ok(v) => v,
        Err(e) => {
            return Err(e);
        },
    };
    match g1_gen_xcoord(&kv) {
        None => Err(MpcError::ArithmeticDomainError),
        Some(b) => Ok(b),
    }
}

/// A point in the protocol: public, or split into one per-party
/// contribution whose sum is the point.
pub enum MpcPoint {
    Public(G1Point),
    Shared(Vec<G1Proj>),
}

impl MpcPoint {
    /// The discrete log of the point this value stands for: a public
    /// point's own, or the field sum of the per-party contributions'.
    pub open spec fn value(self) -> nat {
        match self {
            MpcPoint::Public(p) => g1_dlog(p),
            MpcPoint::Shared(v) => sum_mod(proj_dlogs(v@)),
        }
    }

    /// A shared point carries one contribution per party, every discrete
    /// log fully reduced.
    pub open spec fn wf(self, ctx: MpcContext) -> bool {
        match self {
            MpcPoint::Public(p) => g1_dlog(p) < fr_order(),
            MpcPoint::Shared(v) => v@.len() == ctx.n_parties && forall|j: int|
                0 <= j < v@.len() ==> g1_proj_dlog(#[trigger] v@[j]) < fr_order(),
        }
    }
}

/// A public commitment key: the powers a polynomial commitment is formed
/// against, supplied by configuration.
pub struct CommitKey {
    pub powers_of_g: Vec<G1Point>,
    pub powers_of_gamma_g: Vec<G1Point>,
}

/// A commitment key lifted into the shared-point domain: every power is
/// public, known to all parties.
pub struct MpcCommitKey {
    pub powers_of_g: Vec<MpcPoint>,
    pub powers_of_gamma_g: Vec<MpcPoint>,
}

/// Each point of a public power list lifted to a public shared-domain
/// point.
fn lift_powers(p: &Vec<G1Point>) -> (r: Vec<MpcPoint>)
    ensures
        r@.len() == p@.len(),
        forall|i: int| 0 <= i < r@.len() ==> r@[i] == MpcPoint::Public(p@[i]),
{
    let mut out: Vec<MpcPoint> = Vec::new();
    let mut i: usize = 0;
    while i < p.len()
        invariant
            i <= p@.len(),
            out@.len() == i,
            forall|j: int| 0 <= j < out@.len() ==> out@[j] == MpcPoint::Public(p@[j]),
        decreases p@.len() - i,
    {
        out.push(MpcPoint::Public(g1_dup(&p[i])));
        i = i + 1;
    }
    out
}

/// A public commitment key lifted into the shared-point domain, power by
/// power.
pub fn powers_to_mpc(key: &CommitKey) -> (r: MpcCommitKey)
    ensures
        r.powers_of_g@.len() == key.powers_of_g@.len(),
        forall|i: int|
            0 <= i < r.powers_of_g@.len() ==> r.powers_of_g@[i] == MpcPoint::Public(
                key.powers_of_g@[i],
            ),
        r.powers_of_gamma_g@.len() == key.powers_of_gamma_g@.len(),
        forall|i: int|
            0 <= i < r.powers_of_gamma_g@.len() ==> r.powers_of_gamma_g@[i] == MpcPoint::Public(
                key.powers_of_gamma_g@[i],
            ),
{
    MpcCommitKey {
        powers_of_g: lift_powers(&key.powers_of_g),
        powers_of_gamma_g: lift_powers(&key.powers_of_gamma_g),
    }
}

/// The multi-scalar multiple of public bases by a batch of shared scalars:
/// each party combines its own share of every scalar with the bases, and
/// the per-party points form a sharing of the combined point.
pub fn msm_shared(ctx: &MpcContext, bases: &Vec<MpcPoint>, inputs: &Vec<MpcFe>)
    -> (r: MpcPoint)
    requires
        ctx.wf(),
        bases@.len() == inputs@.len(),
        forall|i: int| 0 <= i < bases@.len() ==> (#[trigger] bases@[i]) is Public,
        forall|i: int|
            0 <= i < inputs@.len() ==> (#[trigger] inputs@[i]) is Shared && inputs@[i].wf(*ctx),
    ensures
        r is Shared,
        r.wf(*ctx),
        r.value() == msm_from(pub_dlogs(bases@), mpc_values(inputs@), 0),
{
    let mut raw_bases: Vec<G1Point> = Vec::new();
    let mut b: usize = 0;
    while b < bases.len()
        invariant
            b <= bases@.len(),
            raw_bases@.len() == b,
            forall|i: int| 0 <= i < bases@.len() ==> (#[trigger] bases@[i]) is Public,
            forall|t: int|
                0 <= t < raw_bases@.len() ==> g1_dlog(#[trigger] raw_bases@[t]) == g1_dlog(
                    bases@[t]->Public_0,
                ),
        decreases bases@.len() - b,
    {
        let p = match &bases[b] {
            MpcPoint::Public(g) => g1_dup(g),
            MpcPoint::Shared(_) => {
                proof {
                    assert(false);
                }
                g1_generator()
            },
        };
        raw_bases.push(p);
        b = b + 1;
    }
    proof {
        assert(dlogs_of(raw_bases@) =~= pub_dlogs(bases@));
    }
    let rb = &raw_bases;
    let n = ctx.n_parties;
    let mut party_points: Vec<G1Proj> = Vec::new();
    let mut j: usize = 0;
    while j < n
        invariant
            n == ctx.n_parties,
            ctx.wf(),
            rb@.len() == inputs@.len(),
            dlogs_of(rb@) == pub_dlogs(bases@),
            forall|i: int|
                0 <= i < inputs@.len() ==> (#[trigger] inputs@[i]) is Shared && inputs@[i].wf(
                    *ctx,
                ),
            j <= n,
            party_points@.len() == j,
            forall|t: int|
                0 <= t < party_points@.len() ==> g1_proj_dlog(#[trigger] party_points@[t])
                    == msm_from(pub_dlogs(bases@), share_col(inputs@, t), 0),
        decreases n - j,
    {
        let mut scalars: Vec<Fe> = Vec::new();
        let mut i: usize = 0;
        while i < inputs.len()
            invariant
                n == ctx.n_parties,
                ctx.wf(),
                j < n,
                rb@.len() == inputs@.len(),
                forall|t: int|
                    0 <= t < inputs@.len() ==> (#[trigger] inputs@[t]) is Shared && inputs@[t].wf(
                        *ctx,
                    ),
                i <= inputs@.len(),
                scalars@.len() == i,
                forall|t: int|
                    0 <= t < scalars@.len() ==> (#[trigger] scalars@[t]).as_nat() == share_col(
                        inputs@,
                        j as int,
                    )[t],
            decreases inputs@.len() - i,
        {
            let share_i = match &inputs[i] {
                MpcFe::Shared(s) => s.shares[j],
                MpcFe::Public(_) => {
                    proof {
                        assert(false);
                    }
                    Fe::zero()
                },
            };
            scalars.push(share_i);
            i = i + 1;
        }
        proof {
            assert(vals(scalars@) =~= share_col(inputs@, j as int));
        }
        party_points.push(g1_msm(rb, &scalars));
        j = j + 1;
    }
    let r = MpcPoint::Shared(party_points);
    proof {
        let d = pub_dlogs(bases@);
        assert(proj_dlogs(r->Shared_0@) =~= Seq::new(
            n as nat,
            |t: int| msm_from(d, share_col(inputs@, t), 0),
        ));
        lemma_msm_exchange(d, inputs@, n as int, 0);
        assert forall|t: int| 0 <= t < r->Shared_0@.len() implies g1_proj_dlog(
            #[trigger] r->Shared_0@[t],
        ) < fr_order() by {
            lemma_msm_from_bound(d, share_col(inputs@, t), 0);
        }
    }
    r
}

/// A shared point opened by summing every party's contribution; a public
/// point is already open. The result is the point the contributions
/// reconstruct to.
pub fn reveal_point(p: &MpcPoint) -> (r: G1Proj)
    requires
        p is Shared ==> p->Shared_0@.len() >= 1 && forall|j: int|
            0 <= j < p->Shared_0@.len() ==> g1_proj_dlog(#[trigger] p->Shared_0@[j]) < fr_order(),
    ensures
        g1_proj_dlog(r) == p.value(),
{
    match p {
        MpcPoint::Public(a) => g1_into_projective(a),
        MpcPoint::Shared(v) => {
            let mut k: usize = v.len() - 1;
            let mut acc = g1_proj_dup(&v[k]);
            proof {
                let pd = proj_dlogs(v@);
                assert(pd[k as int] == g1_proj_dlog(v@[k as int]));
                assert(sum_from(pd, k as int) == add_mod(pd[k as int], sum_from(pd, k + 1)));
                assert(sum_from(pd, k + 1) == 0);
                lemma_small_mod(g1_proj_dlog(v@[k as int]), fr_order());
            }
            while k > 0
                invariant
                    k < v@.len(),
                    forall|j: int|
                        0 <= j < v@.len() ==> g1_proj_dlog(#[trigger] v@[j]) < fr_order(),
                    g1_proj_dlog(acc) == sum_from(proj_dlogs(v@), k as int),
                decreases k,
            {
                k = k - 1;
                acc = g1_add(&v[k], &acc);
            }
            proof {
                assert(sum_from(proj_dlogs(v@), 0) == p.value());
            }
            acc
        },
    }
}

/// An evaluation proof carried in the shared domain: the witness point and
/// the optional hiding scalar.
pub struct MpcKzgProof {
    pub w: MpcPoint,
    pub random_v: Option<MpcFe>,
}

/// A shared evaluation proof opened into a plaintext one: the witness point
/// is reconstructed, and the hiding scalar, if present, is publicized under
/// the active backend — a tampered scalar surfaces an authentication
/// failure rather than a wrong proof.
pub fn proof_from_mpc(ctx: &MpcContext, pf: &MpcKzgProof) -> (r: Result<
    (G1Proj, Option<Fe>),
    MpcError,
>)
    requires
        ctx.wf(),
        pf.w.wf(*ctx),
        pf.random_v is Some ==> pf.random_v->0.wf(*ctx),
    ensures
        r is Ok ==> g1_proj_dlog(r->Ok_0.0) == pf.w.value(),
        pf.random_v is None ==> r is Ok && r->Ok_0.1 is None,
        pf.random_v is Some ==> (r is Ok <==> pf.random_v->0.well_tagged(*ctx)),
        pf.random_v is Some && r is Ok ==> r->Ok_0.1 is Some && open_value(*ctx, pf.random_v->0)
            == Some(r->Ok_0.1->0.as_nat()),
        pf.random_v is Some && r is Err ==> r->Err_0 == MpcError::AuthenticationFailure,
{
    let w = reveal_point(&pf.w);
    match &pf.random_v {
        None => Ok((w, None)),
        Some(mv) => match ctx.publicize(mv) {
            Ok(v) => Ok((w, Some(v))),
            Err(e) => Err(e),
        },
    }
}

} // verus!
