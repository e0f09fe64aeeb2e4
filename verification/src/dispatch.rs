//! The computation dispatcher: a pure routing layer from a named operation
//! to its implementation under the active sharing backend, given a batch of
//! shared inputs. Both backends implement the same operation set; an
//! operation outside it is a configuration error, never a silent no-op.

use vstd::prelude::*;
use crate::field::Fe;
use crate::share::{MpcContext, MpcError, MpcFe};
use crate::curve::{
    CommitKey, MpcPoint, powers_to_mpc, msm_shared, g1_generator, g1_scale, g1_dlog, dlogs_of,
    msm_from, mpc_values, pub_dlogs,
};
use crate::ecdsa::{ecdsa_sign_share, sig_s};
use crate::sponge::{poseidon_parameters_for_test, test_params_view};
use crate::rng::{new_test_rng, rand_bytes};

verus! {

/// The operations a run can name.
#[derive(Clone, Copy, Debug, PartialEq, Eq, Structural)]
pub enum Computation {
    Fft,
    Sum,
    Product,
    PProduct,
    Commit,
    Merkle,
    Fri,
    Dh,
    NaiveMsm,
    GroupOps,
    PairingDh,
    PairingProd,
    PairingDiv,
    Groth16,
    Marlin,
    PolyEval,
    MarlinPc,
    MarlinPcBatch,
    Msm,
    Kzg,
    KzgCommit,
    KzgZk,
    KzgZkBatch,
    PcTwoCom,
    Plonk,
    PolyDiv,
    Ecdsa,
}

/// The mathematical structure an operation works over.
#[derive(Clone, Copy, Debug, PartialEq, Eq, Structural)]
pub enum ComputationDomain {
    G1,
    G2,
    Group,
    Field,
    Pairing,
    BlsPairing,
    PolyField,
}

impl Computation {
    /// The domain each operation works over; the Diffie-Hellman exchange
    /// moves to the second curve group when the alternate-group flag is
    /// set.
    pub open spec fn domain_spec(self, use_g2: bool) -> ComputationDomain {
        match self {
            Computation::Dh => if use_g2 {
                ComputationDomain::G2
            } else {
                ComputationDomain::G1
            },
            Computation::NaiveMsm | Computation::GroupOps => ComputationDomain::Group,
            Computation::PairingDh | Computation::PairingProd | Computation::PairingDiv
                => ComputationDomain::Pairing,
            Computation::Marlin | Computation::Groth16 | Computation::Plonk | Computation::Kzg
                | Computation::KzgCommit | Computation::KzgZk | Computation::Msm
                | Computation::KzgZkBatch | Computation::MarlinPc | Computation::Ecdsa
                | Computation::MarlinPcBatch => ComputationDomain::BlsPairing,
            Computation::PolyEval => ComputationDomain::PolyField,
            _ => ComputationDomain::Field,
        }
    }

    /// The domain this operation works over.
    pub fn domain(&self, use_g2: bool) -> (r: ComputationDomain)
        ensures
            r == self.domain_spec(use_g2),
    {
        match self {
            Computation::Dh => if use_g2 {
                ComputationDomain::G2
            } else {
                ComputationDomain::G1
            },
            Computation::NaiveMsm | Computation::GroupOps => ComputationDomain::Group,
            Computation::PairingDh | Computation::PairingProd | Computation::PairingDiv
                => ComputationDomain::Pairing,
            Computation::Marlin | Computation::Groth16 | Computation::Plonk | Computation::Kzg
                | Computation::KzgCommit | Computation::KzgZk | Computation::Msm
                | Computation::KzgZkBatch | Computation::MarlinPc | Computation::Ecdsa
                | Computation::MarlinPcBatch => ComputationDomain::BlsPairing,
            Computation::PolyEval => ComputationDomain::PolyField,
            _ => ComputationDomain::Field,
        }
    }

    /// The operations this core implements, for both backends alike.
    pub open spec fn supported(self) -> bool {
        self == Computation::KzgCommit || self == Computation::Msm || self == Computation::Ecdsa
    }

    /// What one entry of the signing arm's output batch is: a well-formed,
    /// authenticated sharing of a signature scalar of the protocol, for
    /// some nonzero nonce, some key and some message of that run.
    pub open spec fn ecdsa_output_ok(ctx: MpcContext, o: MpcFe) -> bool {
        &&& o is Shared
        &&& o.wf(ctx)
        &&& o.well_tagged(ctx)
        &&& exists|kv: nat, xv: nat, msg: Seq<u8>|
            kv != 0 && o.value() == #[trigger] sig_s(test_params_view(), xv, kv, msg)
    }

    /// Routes the operation to its implementation under the context's
    /// backend and returns the operations' output shares, for the caller to
    /// publicize. The polynomial commitment lifts the public key into the
    /// shared-point domain and combines it with the shared coefficients;
    /// the multi-scalar multiplication derives public bases from a fixed
    /// seed and combines them with the shared scalars; the signing protocol
    /// runs once per input and yields one shared signature scalar each. An
    /// unsupported operation fails with `UnsupportedOperation`.
    pub fn run(
        &self,
        ctx: &MpcContext,
        inputs: &Vec<MpcFe>,
        key: &CommitKey,
        rng: &mut rand::rngs::StdRng,
    ) -> (r: Result<RunOutput, MpcError>)
        requires
            ctx.wf(),
            forall|i: int|
                0 <= i < inputs@.len() ==> (#[trigger] inputs@[i]) is Shared && inputs@[i].wf(
                    *ctx,
                ),
            *self == Computation::KzgCommit ==> inputs@.len() >= 1 && key.powers_of_g@.len()
                >= inputs@.len(),
        ensures
            !self.supported() ==> r is Err && r->Err_0 == MpcError::UnsupportedOperation,
            self.supported() && r is Err ==> r->Err_0 != MpcError::UnsupportedOperation,
            r is Ok ==> self.supported(),
            r is Ok && *self == Computation::Ecdsa ==> r->Ok_0.points@.len() == 0
                && r->Ok_0.scalars@.len() == inputs@.len() && forall|i: int|
                0 <= i < r->Ok_0.scalars@.len() ==> Computation::ecdsa_output_ok(
                    *ctx,
                    #[trigger] r->Ok_0.scalars@[i],
                ),
            r is Ok && *self == Computation::Msm ==> r->Ok_0.scalars@.len() == 0
                && r->Ok_0.points@.len() == 1 && r->Ok_0.points@[0] is Shared
                && r->Ok_0.points@[0].wf(*ctx) && exists|ds: Seq<nat>|
                ds.len() == inputs@.len() && r->Ok_0.points@[0].value() == msm_from(
                    ds,
                    mpc_values(inputs@),
                    0,
                ),
            r is Ok && *self == Computation::KzgCommit ==> r->Ok_0.scalars@.len() == 0
                && r->Ok_0.points@.len() == 1 && r->Ok_0.points@[0] is Shared
                && r->Ok_0.points@[0].wf(*ctx) && r->Ok_0.points@[0].value() == msm_from(
                dlogs_of(key.powers_of_g@.take(inputs@.len() as int)),
                mpc_values(inputs@),
                0,
            ),
    {
        match self {
            Computation::KzgCommit => {
                let mpc_key = powers_to_mpc(key);
                let mut bases: Vec<MpcPoint> = Vec::new();
                let mut i: usize = 0;
                while i < inputs.len()
                    invariant
                        i <= inputs@.len(),
                        mpc_key.powers_of_g@.len() >= inputs@.len(),
                        forall|j: int|
                            0 <= j < mpc_key.powers_of_g@.len() ==> (
                            #[trigger] mpc_key.powers_of_g@[j]) is Public,
                        forall|j: int|
                            0 <= j < mpc_key.powers_of_g@.len() ==> (
                            #[trigger] mpc_key.powers_of_g@[j])->Public_0 == key.powers_of_g@[j],
                        bases@.len() == i,
                        forall|j: int| 0 <= j < bases@.len() ==> (#[trigger] bases@[j]) is Public,
                        forall|j: int|
                            0 <= j < bases@.len() ==> g1_dlog((#[trigger] bases@[j])->Public_0)
                                == g1_dlog(key.powers_of_g@[j]),
                    decreases inputs@.len() - i,
                {
                    let p = match &mpc_key.powers_of_g[i] {
                        MpcPoint::Public(g) => MpcPoint::Public(crate::curve::g1_dup(g)),
                        MpcPoint::Shared(_) => {
                            proof {
                                assert(false);
                            }
                            MpcPoint::Public(g1_generator())
                        },
                    };
                    bases.push(p);
                    i = i + 1;
                }
                let commitment = msm_shared(ctx, &bases, inputs);
                proof {
                    assert(pub_dlogs(bases@) =~= dlogs_of(
                        key.powers_of_g@.take(inputs@.len() as int),
                    ));
                }
                Ok(RunOutput { scalars: Vec::new(), points: vec![commitment] })
            },
            Computation::Msm => {
                // The public multipliers come from a fresh fixed-seed
                // generator, so every party derives the same bases.
                let mut base_rng = new_test_rng();
                let mut bases: Vec<MpcPoint> = Vec::new();
                let mut i: usize = 0;
                let gen = g1_generator();
                while i < inputs.len()
                    invariant
                        i <= inputs@.len(),
                        bases@.len() == i,
                        forall|j: int| 0 <= j < bases@.len() ==> (#[trigger] bases@[j]) is Public,
                    decreases inputs@.len() - i,
                {
                    let c = Fe::rand(&mut base_rng);
                    bases.push(MpcPoint::Public(g1_scale(&gen, &c)));
                    i = i + 1;
                }
                let msm = msm_shared(ctx, &bases, inputs);
                proof {
                    assert(msm.value() == msm_from(pub_dlogs(bases@), mpc_values(inputs@), 0));
                    assert(pub_dlogs(bases@).len() == inputs@.len());
                }
                Ok(RunOutput { scalars: Vec::new(), points: vec![msm] })
            },
            Computation::Ecdsa => {
                let mut outs: Vec<MpcFe> = Vec::new();
                let mut i: usize = 0;
                while i < inputs.len()
                    invariant
                        ctx.wf(),
                        i <= inputs@.len(),
                        *self == Computation::Ecdsa,
                        outs@.len() == i,
                        forall|t: int|
                            0 <= t < outs@.len() ==> Computation::ecdsa_output_ok(
                                *ctx,
                                #[trigger] outs@[t],
                            ),
                    decreases inputs@.len() - i,
                {
                    let msg = rand_bytes(rng, 16);
                    let xv = Fe::rand(rng);
                    let kv = Fe::rand(rng);
                    let x = ctx.king_share(&xv, rng);
                    let k = ctx.king_share(&kv, rng);
                    let params = poseidon_parameters_for_test();
                    match ecdsa_sign_share(ctx, &x, &k, &msg, params, rng) {
                        Ok(sig) => {
                            proof {
                                assert(sig.1.value() == sig_s(
                                    test_params_view(),
                                    x.value(),
                                    k.value(),
                                    msg@,
                                ));
                                assert(Computation::ecdsa_output_ok(*ctx, sig.1));
                            }
                            outs.push(sig.1);
                        },
                        Err(e) => {
                            proof {
                                assert(k.well_tagged(*ctx));
                                assert(k.value() == 0);
                                assert(e == MpcError::ArithmeticDomainError);
                            }
                            return Err(e);
                        },
                    }
                    i = i + 1;
                }
                Ok(RunOutput { scalars: outs, points: Vec::new() })
            },
            _ => Err(MpcError::UnsupportedOperation),
        }
    }
}

/// What a run hands back: the operations' output shares — shared field
/// elements from the signing protocol, shared points from the combined
/// multiplications — for the caller to publicize.
pub struct RunOutput {
    pub scalars: Vec<MpcFe>,
    pub points: Vec<MpcPoint>,
}

} // verus!
