//! Secret-shared arithmetic over the BLS12-377 scalar field, a Poseidon-style
//! sponge for Fiat-Shamir challenges, and a threshold elliptic-curve signing
//! protocol built on both, together with the dispatcher that routes a named
//! computation to its implementation under the active sharing backend.

pub mod ecdsa;
pub mod encode;
pub mod field;
pub mod curve;
pub mod dispatch;
pub mod rng;
pub mod share;
pub mod sponge;

pub use field::Fe;
pub use share::{Backend, MpcContext, MpcError, MpcFe, Sharing};
pub use sponge::{PoseidonParams, Sponge, poseidon_parameters_for_test};
pub use ecdsa::{ecdsa_sign, ecdsa_sign_share, derive_challenge};
pub use dispatch::{Computation, ComputationDomain, RunOutput};
pub use curve::{CommitKey, G1Point, G1Proj, MpcPoint, g1_generator, g1_scale, powers_to_mpc, msm_shared, proj_points_equal, reveal_point};
pub use rng::new_test_rng;
