//! A Poseidon-style cryptographic sponge over the scalar field: a fixed-width
//! state absorbs encoded inputs and, once switched to squeezing, emits any
//! number of pseudorandom field elements. Every transition is pinned to a
//! mathematical transition function, so two sponges with the same parameters
//! and the same absorbed sequence agree on every squeeze output.

use vstd::prelude::*;
use crate::field::{Fe, add_mod, mul_mod, fr_order, lemma_le_bytes_roundtrip};
use crate::encode::{vals, pack_bytes, enc_bytes_with_len, bytes_to_fes, lemma_order_below_pow256_32};

verus! {

/// The mathematical content of a parameter set: round constants, mixing
/// matrix, exponent, and the rate/capacity split.
#[verifier::ext_equal]
pub struct ParamsV {
    pub rate: nat,
    pub capacity: nat,
    pub full_rounds: nat,
    pub partial_rounds: nat,
    pub alpha: nat,
    pub mds: Seq<Seq<nat>>,
    pub ark: Seq<Seq<nat>>,
}

/// A Poseidon parameter set: fixed configuration for a given field, supplied
/// by the caller, never derived at runtime.
pub struct PoseidonParams {
    pub rate: usize,
    pub capacity: usize,
    pub full_rounds: usize,
    pub partial_rounds: usize,
    pub alpha: u64,
    pub mds: Vec<Vec<Fe>>,
    pub ark: Vec<Vec<Fe>>,
}

impl PoseidonParams {
    /// The mathematical view of this parameter set.
    pub open spec fn pv(self) -> ParamsV {
        ParamsV {
            rate: self.rate as nat,
            capacity: self.capacity as nat,
            full_rounds: self.full_rounds as nat,
            partial_rounds: self.partial_rounds as nat,
            alpha: self.alpha as nat,
            mds: Seq::new(self.mds@.len(), |i: int| vals(self.mds@[i]@)),
            ark: Seq::new(self.ark@.len(), |i: int| vals(self.ark@[i]@)),
        }
    }

    /// Dimensions are consistent, all constants are reduced, and the counts
    /// are small enough that no index computation can overflow.
    pub open spec fn wf(self) -> bool {
        &&& self.rate >= 1
        &&& self.capacity >= 1
        &&& self.rate + self.capacity <= 4096
        &&& self.full_rounds + self.partial_rounds <= 65536
        &&& self.mds@.len() == self.rate + self.capacity
        &&& forall|i: int|
            0 <= i < self.mds@.len() ==> (#[trigger] self.mds@[i]@).len() == self.rate
                + self.capacity
        &&& forall|i: int, j: int|
            0 <= i < self.mds@.len() && 0 <= j < self.mds@[i]@.len() ==> (
            #[trigger] self.mds@[i]@[j]).wf()
        &&& self.ark@.len() == self.full_rounds + self.partial_rounds
        &&& forall|i: int|
            0 <= i < self.ark@.len() ==> (#[trigger] self.ark@[i]@).len() == self.rate
                + self.capacity
        &&& forall|i: int, j: int|
            0 <= i < self.ark@.len() && 0 <= j < self.ark@[i]@.len() ==> (
            #[trigger] self.ark@[i]@[j]).wf()
    }
}

/// Exponentiation in the scalar field.
pub open spec fn pow_mod(x: nat, e: nat) -> nat
    decreases e,
{
    if e == 0 {
        1
    } else {
        mul_mod(x, pow_mod(x, (e - 1) as nat))
    }
}

/// The state after the round constants of round `r` are added.
pub open spec fn apply_ark_spec(p: ParamsV, st: Seq<nat>, r: int) -> Seq<nat> {
    Seq::new(st.len(), |i: int| add_mod(st[i], p.ark[r][i]))
}

/// The state after the S-box is applied to every element.
pub open spec fn sbox_full_spec(p: ParamsV, st: Seq<nat>) -> Seq<nat> {
    Seq::new(st.len(), |i: int| pow_mod(st[i], p.alpha))
}

/// The state after the S-box is applied to the first element only.
pub open spec fn sbox_partial_spec(p: ParamsV, st: Seq<nat>) -> Seq<nat> {
    st.update(0, pow_mod(st[0], p.alpha))
}

/// The tail of the inner product of a matrix row with the state, from
/// position `k` on.
pub open spec fn dot_from(row: Seq<nat>, st: Seq<nat>, k: int) -> nat
    decreases st.len() - k,
{
    if k < 0 || k >= st.len() {
        0
    } else {
        add_mod(mul_mod(row[k], st[k]), dot_from(row, st, k + 1))
    }
}

/// The state after multiplication by the mixing matrix.
pub open spec fn mix_spec(p: ParamsV, st: Seq<nat>) -> Seq<nat> {
    Seq::new(st.len(), |i: int| dot_from(p.mds[i], st, 0))
}

/// Whether round `r` applies the S-box to the whole state: the partial
/// rounds sit between the two halves of the full rounds.
pub open spec fn is_full_round(p: ParamsV, r: int) -> bool {
    r < p.full_rounds / 2 || r >= p.full_rounds / 2 + p.partial_rounds
}

/// One permutation round: constants, S-box, mixing.
pub open spec fn round_spec(p: ParamsV, st: Seq<nat>, r: int) -> Seq<nat> {
    let a = apply_ark_spec(p, st, r);
    let s = if is_full_round(p, r) {
        sbox_full_spec(p, a)
    } else {
        sbox_partial_spec(p, a)
    };
    mix_spec(p, s)
}

/// The state after the first `k` permutation rounds.
pub open spec fn after_rounds(p: ParamsV, st: Seq<nat>, k: nat) -> Seq<nat>
    decreases k,
{
    if k == 0 {
        st
    } else {
        round_spec(p, after_rounds(p, st, (k - 1) as nat), k - 1)
    }
}

/// The full permutation.
pub open spec fn permute_spec(p: ParamsV, st: Seq<nat>) -> Seq<nat> {
    after_rounds(p, st, p.full_rounds + p.partial_rounds)
}

/// The mathematical state of a sponge: its elements, its direction, and the
/// cursor within the rate portion.
#[verifier::ext_equal]
pub struct SpongeV {
    pub state: Seq<nat>,
    pub absorbing: bool,
    pub pos: nat,
}

/// A freshly constructed sponge: all zeros, absorbing from the start of the
/// rate portion.
pub open spec fn fresh_view(p: ParamsV) -> SpongeV {
    SpongeV { state: Seq::new(p.rate + p.capacity, |i: int| 0nat), absorbing: true, pos: 0 }
}

/// Absorbing one already-encoded element: switch to absorbing if needed,
/// permute when the rate portion is exhausted, then add into the state.
pub open spec fn absorb_one(p: ParamsV, v: SpongeV, x: nat) -> SpongeV {
    let v1 = if !v.absorbing {
        SpongeV { state: permute_spec(p, v.state), absorbing: true, pos: 0 }
    } else {
        v
    };
    let v2 = if v1.pos >= p.rate {
        SpongeV { state: permute_spec(p, v1.state), absorbing: true, pos: 0 }
    } else {
        v1
    };
    SpongeV {
        state: v2.state.update(
            p.capacity + v2.pos as int,
            add_mod(v2.state[p.capacity + v2.pos as int], x),
        ),
        absorbing: true,
        pos: v2.pos + 1,
    }
}

/// Absorbing a sequence of encoded elements in order.
pub open spec fn absorb_all(p: ParamsV, v: SpongeV, xs: Seq<nat>) -> SpongeV
    decreases xs.len(),
{
    if xs.len() == 0 {
        v
    } else {
        absorb_one(p, absorb_all(p, v, xs.drop_last()), xs.last())
    }
}

/// Entering squeeze mode: a sponge that was absorbing is permuted once.
pub open spec fn to_squeezing(p: ParamsV, v: SpongeV) -> SpongeV {
    if v.absorbing {
        SpongeV { state: permute_spec(p, v.state), absorbing: false, pos: 0 }
    } else {
        v
    }
}

/// Emitting one element from a sponge already in squeeze mode; a fresh
/// permutation refills the rate portion when it is exhausted.
pub open spec fn squeeze_step(p: ParamsV, v: SpongeV) -> (nat, SpongeV) {
    let v1 = if v.pos >= p.rate {
        SpongeV { state: permute_spec(p, v.state), absorbing: false, pos: 0 }
    } else {
        v
    };
    (v1.state[p.capacity + v1.pos as int], SpongeV { state: v1.state, absorbing: false, pos: v1.pos + 1 })
}

/// The `n` elements squeezed from a sponge, and the sponge left behind:
/// extra elements produced by one permutation stay buffered for the next
/// request through the surviving cursor.
pub open spec fn squeeze_seq(p: ParamsV, v: SpongeV, n: nat) -> (Seq<nat>, SpongeV)
    decreases n,
{
    if n == 0 {
        (Seq::empty(), to_squeezing(p, v))
    } else {
        let prev = squeeze_seq(p, v, (n - 1) as nat);
        let step = squeeze_step(p, prev.1);
        (prev.0.push(step.0), step.1)
    }
}

/// Sponge determinism: two freshly constructed sponges with identical
/// parameters that absorb identical sequences agree on every squeeze output.
pub proof fn lemma_sponge_determinism(
    p1: ParamsV,
    p2: ParamsV,
    v1: SpongeV,
    v2: SpongeV,
    ins1: Seq<nat>,
    ins2: Seq<nat>,
    n: nat,
)
    requires
        p1 == p2,
        v1 == fresh_view(p1),
        v2 == fresh_view(p2),
        ins1 == ins2,
    ensures
        squeeze_seq(p1, absorb_all(p1, v1, ins1), n).0 == squeeze_seq(
            p2,
            absorb_all(p2, v2, ins2),
            n,
        ).0,
{
}

/// Batching invariance: feeding one logical sequence through any split into
/// successive absorb calls leaves the sponge in the same state.
pub proof fn lemma_absorb_batching(p: ParamsV, v: SpongeV, a: Seq<nat>, b: Seq<nat>)
    ensures
        absorb_all(p, v, a + b) == absorb_all(p, absorb_all(p, v, a), b),
    decreases b.len(),
{
    if b.len() == 0 {
        assert(a + b =~= a);
    } else {
        lemma_absorb_batching(p, v, a, b.drop_last());
        assert((a + b).drop_last() =~= a + b.drop_last());
        assert((a + b).last() == b.last());
        assert(absorb_all(p, v, a + b) == absorb_one(
            p,
            absorb_all(p, v, (a + b).drop_last()),
            (a + b).last(),
        ));
    }
}

/// Updating one entry of a list of field elements updates its values alike.
proof fn lemma_vals_update(s: Seq<Fe>, i: int, x: Fe)
    requires
        0 <= i < s.len(),
    ensures
        vals(s.update(i, x)) == vals(s).update(i, x.as_nat()),
{
    assert(vals(s.update(i, x)) =~= vals(s).update(i, x.as_nat()));
}

/// `x` raised to the power `e` in the scalar field, by iterated
/// multiplication.
fn pow_fe(x: &Fe, e: u64) -> (r: Fe)
    requires
        x.wf(),
    ensures
        r.wf(),
        r.as_nat() == pow_mod(x.as_nat(), e as nat),
{
    let mut acc = Fe::from_u64(1);
    let mut i: u64 = 0;
    while i < e
        invariant
            x.wf(),
            acc.wf(),
            i <= e,
            acc.as_nat() == pow_mod(x.as_nat(), i as nat),
        decreases e - i,
    {
        acc = acc.mul_fe(x);
        proof {
            assert(pow_mod(x.as_nat(), (i + 1) as nat) == mul_mod(
                x.as_nat(),
                pow_mod(x.as_nat(), i as nat),
            ));
            assert(pow_mod(x.as_nat(), i as nat) * x.as_nat() == x.as_nat() * pow_mod(
                x.as_nat(),
                i as nat,
            ));
        }
        i = i + 1;
    }
    acc
}

/// The state with the round constants of round `r` added in.
fn ark_round(p: &PoseidonParams, st: &Vec<Fe>, r: usize) -> (out: Vec<Fe>)
    requires
        p.wf(),
        st@.len() == p.rate + p.capacity,
        r < p.full_rounds + p.partial_rounds,
        forall|i: int| 0 <= i < st@.len() ==> (#[trigger] st@[i]).wf(),
    ensures
        out@.len() == st@.len(),
        forall|i: int| 0 <= i < out@.len() ==> (#[trigger] out@[i]).wf(),
        vals(out@) == apply_ark_spec(p.pv(), vals(st@), r as int),
{
    let width = p.rate + p.capacity;
    let mut out: Vec<Fe> = Vec::new();
    let mut i: usize = 0;
    while i < width
        invariant
            p.wf(),
            st@.len() == width,
            width == p.rate + p.capacity,
            r < p.full_rounds + p.partial_rounds,
            forall|j: int| 0 <= j < st@.len() ==> (#[trigger] st@[j]).wf(),
            i <= width,
            out@.len() == i,
            forall|j: int| 0 <= j < out@.len() ==> (#[trigger] out@[j]).wf(),
            forall|j: int|
                0 <= j < out@.len() ==> (#[trigger] out@[j]).as_nat() == add_mod(
                    st@[j].as_nat(),
                    p.ark@[r as int]@[j].as_nat(),
                ),
        decreases width - i,
    {
        out.push(st[i].add_fe(&p.ark[r][i]));
        i = i + 1;
    }
    proof {
        assert(vals(out@) =~= apply_ark_spec(p.pv(), vals(st@), r as int));
    }
    out
}

/// The state with the S-box applied, to every element in a full round, to
/// the first element alone in a partial round.
fn sbox_round(p: &PoseidonParams, st: &Vec<Fe>, full: bool) -> (out: Vec<Fe>)
    requires
        p.wf(),
        st@.len() == p.rate + p.capacity,
        forall|i: int| 0 <= i < st@.len() ==> (#[trigger] st@[i]).wf(),
    ensures
        out@.len() == st@.len(),
        forall|i: int| 0 <= i < out@.len() ==> (#[trigger] out@[i]).wf(),
        vals(out@) == if full {
            sbox_full_spec(p.pv(), vals(st@))
        } else {
            sbox_partial_spec(p.pv(), vals(st@))
        },
{
    let width = p.rate + p.capacity;
    let mut out: Vec<Fe> = Vec::new();
    let mut i: usize = 0;
    while i < width
        invariant
            p.wf(),
            st@.len() == width,
            width == p.rate + p.capacity,
            forall|j: int| 0 <= j < st@.len() ==> (#[trigger] st@[j]).wf(),
            i <= width,
            out@.len() == i,
            forall|j: int| 0 <= j < out@.len() ==> (#[trigger] out@[j]).wf(),
            forall|j: int|
                0 <= j < out@.len() ==> (#[trigger] out@[j]).as_nat() == if full || j == 0 {
                    pow_mod(st@[j].as_nat(), p.alpha as nat)
                } else {
                    st@[j].as_nat()
                },
        decreases width - i,
    {
        if full || i == 0 {
            out.push(pow_fe(&st[i], p.alpha));
        } else {
            out.push(st[i]);
        }
        i = i + 1;
    }
    proof {
        if full {
            assert(vals(out@) =~= sbox_full_spec(p.pv(), vals(st@)));
        } else {
            assert(vals(out@) =~= sbox_partial_spec(p.pv(), vals(st@)));
        }
    }
    out
}

/// The state multiplied by the mixing matrix.
fn mix_round(p: &PoseidonParams, st: &Vec<Fe>) -> (out: Vec<Fe>)
    requires
        p.wf(),
        st@.len() == p.rate + p.capacity,
        forall|i: int| 0 <= i < st@.len() ==> (#[trigger] st@[i]).wf(),
    ensures
        out@.len() == st@.len(),
        forall|i: int| 0 <= i < out@.len() ==> (#[trigger] out@[i]).wf(),
        vals(out@) == mix_spec(p.pv(), vals(st@)),
{
    let width = p.rate + p.capacity;
    let mut out: Vec<Fe> = Vec::new();
    let mut i: usize = 0;
    while i < width
        invariant
            p.wf(),
            st@.len() == width,
            width == p.rate + p.capacity,
            forall|j: int| 0 <= j < st@.len() ==> (#[trigger] st@[j]).wf(),
            i <= width,
            out@.len() == i,
            forall|j: int| 0 <= j < out@.len() ==> (#[trigger] out@[j]).wf(),
            forall|j: int|
                0 <= j < out@.len() ==> (#[trigger] out@[j]).as_nat() == dot_from(
                    vals(p.mds@[j]@),
                    vals(st@),
                    0,
                ),
        decreases width - i,
    {
        let mut acc = Fe::zero();
        let mut k: usize = width;
        while k > 0
            invariant
                p.wf(),
                st@.len() == width,
                width == p.rate + p.capacity,
                i < width,
                forall|j: int| 0 <= j < st@.len() ==> (#[trigger] st@[j]).wf(),
                k <= width,
                acc.wf(),
                acc.as_nat() == dot_from(vals(p.mds@[i as int]@), vals(st@), k as int),
            decreases k,
        {
            k = k - 1;
            acc = p.mds[i][k].mul_fe(&st[k]).add_fe(&acc);
        }
        out.push(acc);
        i = i + 1;
    }
    proof {
        assert(vals(out@) =~= mix_spec(p.pv(), vals(st@)));
    }
    out
}

/// The permuted state.
fn permute_vec(p: &PoseidonParams, st: &Vec<Fe>) -> (out: Vec<Fe>)
    requires
        p.wf(),
        st@.len() == p.rate + p.capacity,
        forall|i: int| 0 <= i < st@.len() ==> (#[trigger] st@[i]).wf(),
    ensures
        out@.len() == st@.len(),
        forall|i: int| 0 <= i < out@.len() ==> (#[trigger] out@[i]).wf(),
        vals(out@) == permute_spec(p.pv(), vals(st@)),
{
    let total = p.full_rounds + p.partial_rounds;
    let mut cur: Vec<Fe> = Vec::new();
    let mut i: usize = 0;
    while i < st.len()
        invariant
            i <= st@.len(),
            cur@ == st@.take(i as int),
        decreases st@.len() - i,
    {
        cur.push(st[i]);
        assert(cur@ =~= st@.take(i + 1));
        i = i + 1;
    }
    assert(cur@ =~= st@);
    let mut r: usize = 0;
    while r < total
        invariant
            p.wf(),
            total == p.full_rounds + p.partial_rounds,
            r <= total,
            cur@.len() == p.rate + p.capacity,
            forall|j: int| 0 <= j < cur@.len() ==> (#[trigger] cur@[j]).wf(),
            st@.len() == p.rate + p.capacity,
            forall|j: int| 0 <= j < st@.len() ==> (#[trigger] st@[j]).wf(),
            vals(cur@) == after_rounds(p.pv(), vals(st@), r as nat),
        decreases total - r,
    {
        let full = r < p.full_rounds / 2 || r >= p.full_rounds / 2 + p.partial_rounds;
        let a = ark_round(p, &cur, r);
        let s = sbox_round(p, &a, full);
        cur = mix_round(p, &s);
        proof {
            assert(full == is_full_round(p.pv(), r as int));
            assert(after_rounds(p.pv(), vals(st@), (r + 1) as nat) == round_spec(
                p.pv(),
                after_rounds(p.pv(), vals(st@), r as nat),
                r as int,
            ));
        }
        r = r + 1;
    }
    cur
}

/// A small deterministic matrix of reduced constants.
fn build_matrix(rows: usize, cols: usize, salt: u64) -> (r: Vec<Vec<Fe>>)
    requires
        rows <= 4096,
        cols <= 4096,
        salt <= 1000000,
    ensures
        r@.len() == rows,
        forall|i: int| 0 <= i < r@.len() ==> (#[trigger] r@[i]@).len() == cols,
        forall|i: int, j: int|
            0 <= i < r@.len() && 0 <= j < r@[i]@.len() ==> (#[trigger] r@[i]@[j]).wf(),
        forall|i: int, j: int|
            0 <= i < r@.len() && 0 <= j < r@[i]@.len() ==> (#[trigger] r@[i]@[j]).as_nat() == salt
                + i * cols + j + 1,
{
    let mut out: Vec<Vec<Fe>> = Vec::new();
    let mut i: usize = 0;
    while i < rows
        invariant
            rows <= 4096,
            cols <= 4096,
            salt <= 1000000,
            i <= rows,
            out@.len() == i,
            forall|a: int| 0 <= a < out@.len() ==> (#[trigger] out@[a]@).len() == cols,
            forall|a: int, b: int|
                0 <= a < out@.len() && 0 <= b < out@[a]@.len() ==> (#[trigger] out@[a]@[b]).wf(),
            forall|a: int, b: int|
                0 <= a < out@.len() && 0 <= b < out@[a]@.len() ==> (
                #[trigger] out@[a]@[b]).as_nat() == salt + a * cols + b + 1,
        decreases rows - i,
    {
        let mut row: Vec<Fe> = Vec::new();
        let mut j: usize = 0;
        proof {
            assert((i as u64) * (cols as u64) <= 4096 * 4096) by (nonlinear_arith)
                requires
                    i <= 4096,
                    cols <= 4096,
            ;
        }
        while j < cols
            invariant
                rows <= 4096,
                cols <= 4096,
                salt <= 1000000,
                i < rows,
                (i as u64) * (cols as u64) <= 4096 * 4096,
                j <= cols,
                row@.len() == j,
                forall|b: int| 0 <= b < row@.len() ==> (#[trigger] row@[b]).wf(),
                forall|b: int|
                    0 <= b < row@.len() ==> (#[trigger] row@[b]).as_nat() == salt + i * cols + b
                        + 1,
            decreases cols - j,
        {
            let entry = Fe::from_u64(salt + (i as u64) * (cols as u64) + (j as u64) + 1);
            row.push(entry);
            j = j + 1;
        }
        out.push(row);
        i = i + 1;
    }
    out
}

/// The mathematical view of the fixed test parameter set: every call of
/// the builder below yields exactly these constants, so two independently
/// built sponges provably agree.
pub open spec fn test_params_view() -> ParamsV {
    ParamsV {
        rate: 2,
        capacity: 1,
        full_rounds: 8,
        partial_rounds: 31,
        alpha: 17,
        mds: Seq::new(3, |i: int| Seq::new(3, |j: int| (17 + i * 3 + j + 1) as nat)),
        ark: Seq::new(39, |i: int| Seq::new(3, |j: int| (101 + i * 3 + j + 1) as nat)),
    }
}

/// A fixed small parameter set for exercising the sponge: two rate
/// elements, one capacity element, eight full and thirty-one partial
/// rounds, exponent seventeen, with deterministic constants.
pub fn poseidon_parameters_for_test() -> (r: PoseidonParams)
    ensures
        r.wf(),
        r.pv() == test_params_view(),
{
    let mds = build_matrix(3, 3, 17);
    let ark = build_matrix(39, 3, 101);
    let r = PoseidonParams {
        rate: 2,
        capacity: 1,
        full_rounds: 8,
        partial_rounds: 31,
        alpha: 17,
        mds,
        ark,
    };
    proof {
        assert forall|i: int| 0 <= i < 3 implies r.pv().mds[i] =~= test_params_view().mds[i] by {
            assert(vals(r.mds@[i]@) =~= test_params_view().mds[i]);
        }
        assert(r.pv().mds =~= test_params_view().mds);
        assert forall|i: int| 0 <= i < 39 implies r.pv().ark[i] =~= test_params_view().ark[i] by {
            assert(vals(r.ark@[i]@) =~= test_params_view().ark[i]);
        }
        assert(r.pv().ark =~= test_params_view().ark);
        assert(r.pv() =~= test_params_view());
    }
    r
}

/// The sponge: parameters, state, and the cursor that distinguishes absorb
/// mode from squeeze mode.
pub struct Sponge {
    pub params: PoseidonParams,
    pub state: Vec<Fe>,
    pub absorbing: bool,
    pub pos: usize,
}

impl Sponge {
    /// The mathematical state of this sponge.
    pub open spec fn sv(self) -> SpongeV {
        SpongeV { state: vals(self.state@), absorbing: self.absorbing, pos: self.pos as nat }
    }

    /// Parameters are well-formed, the state has the right width with every
    /// element reduced, and the cursor stays within the rate portion.
    pub open spec fn wf(self) -> bool {
        &&& self.params.wf()
        &&& self.state@.len() == self.params.rate + self.params.capacity
        &&& forall|i: int| 0 <= i < self.state@.len() ==> (#[trigger] self.state@[i]).wf()
        &&& self.pos <= self.params.rate
    }

    /// A fresh sponge over the given parameters; construction is pure.
    pub fn new(params: PoseidonParams) -> (r: Sponge)
        requires
            params.wf(),
        ensures
            r.wf(),
            r.params.pv() == params.pv(),
            r.sv() == fresh_view(params.pv()),
    {
        let width = params.rate + params.capacity;
        let mut st: Vec<Fe> = Vec::new();
        let mut i: usize = 0;
        while i < width
            invariant
                i <= width,
                st@.len() == i,
                forall|j: int| 0 <= j < st@.len() ==> (#[trigger] st@[j]).as_nat() == 0,
                forall|j: int| 0 <= j < st@.len() ==> (#[trigger] st@[j]).wf(),
            decreases width - i,
        {
            st.push(Fe::zero());
            i = i + 1;
        }
        let s = Sponge { params, state: st, absorbing: true, pos: 0 };
        proof {
            assert(s.sv().state =~= fresh_view(s.params.pv()).state);
            assert(s.sv() =~= fresh_view(s.params.pv()));
        }
        s
    }

    /// Absorbs a list of already-encoded field elements, in order.
    pub fn absorb_elems(&mut self, xs: &Vec<Fe>)
        requires
            old(self).wf(),
            forall|i: int| 0 <= i < xs@.len() ==> (#[trigger] xs@[i]).wf(),
        ensures
            final(self).wf(),
            final(self).params == old(self).params,
            final(self).sv() == absorb_all(old(self).params.pv(), old(self).sv(), vals(xs@)),
    {
        let ghost v0 = self.sv();
        let ghost pv = self.params.pv();
        let n = xs.len();
        let mut i: usize = 0;
        while i < n
            invariant
                self.wf(),
                self.params == old(self).params,
                n == xs@.len(),
                forall|j: int| 0 <= j < xs@.len() ==> (#[trigger] xs@[j]).wf(),
                i <= n,
                pv == self.params.pv(),
                self.sv() == absorb_all(pv, v0, vals(xs@).take(i as int)),
            decreases n - i,
        {
            let ghost vpre = self.sv();
            if !self.absorbing {
                self.state = permute_vec(&self.params, &self.state);
                self.absorbing = true;
                self.pos = 0;
            }
            if self.pos == self.params.rate {
                self.state = permute_vec(&self.params, &self.state);
                self.pos = 0;
            }
            let idx = self.params.capacity + self.pos;
            let newv = self.state[idx].add_fe(&xs[i]);
            proof {
                lemma_vals_update(self.state@, idx as int, newv);
            }
            self.state.set(idx, newv);
            self.pos = self.pos + 1;
            proof {
                assert(self.sv() =~= absorb_one(pv, vpre, xs@[i as int].as_nat()));
                assert(vals(xs@).take(i + 1).drop_last() =~= vals(xs@).take(i as int));
                assert(vals(xs@).take(i + 1).last() == xs@[i as int].as_nat());
                assert(self.sv() == absorb_all(pv, v0, vals(xs@).take(i + 1)));
            }
            i = i + 1;
        }
        proof {
            assert(vals(xs@).take(n as int) =~= vals(xs@));
        }
    }

    /// Absorbs one field element.
    pub fn absorb_fe(&mut self, x: &Fe)
        requires
            old(self).wf(),
            x.wf(),
        ensures
            final(self).wf(),
            final(self).params == old(self).params,
            final(self).sv() == absorb_all(old(self).params.pv(), old(self).sv(), seq![x.as_nat()]),
    {
        let mut v: Vec<Fe> = Vec::new();
        v.push(*x);
        proof {
            assert(vals(v@) =~= seq![x.as_nat()]);
        }
        self.absorb_elems(&v);
    }

    /// Absorbs a byte string through its native-field-element encoding.
    pub fn absorb_bytes(&mut self, b: &Vec<u8>)
        requires
            old(self).wf(),
        ensures
            final(self).wf(),
            final(self).params == old(self).params,
            final(self).sv() == absorb_all(old(self).params.pv(), old(self).sv(), pack_bytes(b@)),
    {
        let elems = bytes_to_fes(b);
        self.absorb_elems(&elems);
    }

    /// Absorbs a variable-length byte string: its length first, then its
    /// packed content, so that different lengths can never collide.
    pub fn absorb_bytes_with_length(&mut self, b: &Vec<u8>)
        requires
            old(self).wf(),
        ensures
            final(self).wf(),
            final(self).params == old(self).params,
            final(self).sv() == absorb_all(old(self).params.pv(), old(self).sv(), enc_bytes_with_len(b@)),
    {
        let mut elems: Vec<Fe> = Vec::new();
        elems.push(Fe::from_u64(b.len() as u64));
        let packed = bytes_to_fes(b);
        let mut j: usize = 0;
        while j < packed.len()
            invariant
                j <= packed@.len(),
                elems@.len() == 1 + j,
                elems@[0].as_nat() == b@.len(),
                forall|t: int| 0 <= t < elems@.len() ==> (#[trigger] elems@[t]).wf(),
                forall|t: int| 0 <= t < j ==> elems@[t + 1] == packed@[t],
                forall|t: int| 0 <= t < packed@.len() ==> (#[trigger] packed@[t]).wf(),
                vals(packed@) == pack_bytes(b@),
            decreases packed@.len() - j,
        {
            elems.push(packed[j]);
            j = j + 1;
        }
        proof {
            assert(vals(elems@) =~= enc_bytes_with_len(b@));
        }
        self.absorb_elems(&elems);
    }

    /// Squeezes `n` field elements in the sponge's own field.
    pub fn squeeze_native_field_elements(&mut self, n: usize) -> (out: Vec<Fe>)
        requires
            old(self).wf(),
        ensures
            final(self).wf(),
            final(self).params == old(self).params,
            out@.len() == n,
            forall|i: int| 0 <= i < out@.len() ==> (#[trigger] out@[i]).wf(),
            vals(out@) == squeeze_seq(old(self).params.pv(), old(self).sv(), n as nat).0,
            final(self).sv() == squeeze_seq(old(self).params.pv(), old(self).sv(), n as nat).1,
    {
        let ghost v0 = self.sv();
        let ghost pv = self.params.pv();
        if self.absorbing {
            self.state = permute_vec(&self.params, &self.state);
            self.absorbing = false;
            self.pos = 0;
        }
        proof {
            assert(self.sv() =~= to_squeezing(pv, v0));
        }
        let mut out: Vec<Fe> = Vec::new();
        let mut i: usize = 0;
        while i < n
            invariant
                self.wf(),
                self.params == old(self).params,
                pv == self.params.pv(),
                i <= n,
                out@.len() == i,
                forall|j: int| 0 <= j < out@.len() ==> (#[trigger] out@[j]).wf(),
                !self.absorbing,
                vals(out@) == squeeze_seq(pv, v0, i as nat).0,
                self.sv() == squeeze_seq(pv, v0, i as nat).1,
            decreases n - i,
        {
            let ghost vpre = self.sv();
            if self.pos == self.params.rate {
                self.state = permute_vec(&self.params, &self.state);
                self.pos = 0;
            }
            let x = self.state[self.params.capacity + self.pos];
            self.pos = self.pos + 1;
            out.push(x);
            proof {
                assert(squeeze_step(pv, vpre).0 == x.as_nat());
                assert(self.sv() =~= squeeze_step(pv, vpre).1);
                assert(vals(out@) =~= squeeze_seq(pv, v0, (i + 1) as nat).0);
            }
            i = i + 1;
        }
        out
    }

    /// Squeezes `n` field elements through the generic typed path: each
    /// native element is carried through its byte encoding into the target
    /// field. When the target field is the native one, as here, the result
    /// agrees bit for bit with the native path, and the sponge is left in
    /// the same state.
    pub fn squeeze_field_elements(&mut self, n: usize) -> (out: Vec<Fe>)
        requires
            old(self).wf(),
        ensures
            final(self).wf(),
            final(self).params == old(self).params,
            out@.len() == n,
            forall|i: int| 0 <= i < out@.len() ==> (#[trigger] out@[i]).wf(),
            vals(out@) == squeeze_seq(old(self).params.pv(), old(self).sv(), n as nat).0,
            final(self).sv() == squeeze_seq(old(self).params.pv(), old(self).sv(), n as nat).1,
    {
        let native = self.squeeze_native_field_elements(n);
        let mut out: Vec<Fe> = Vec::new();
        let mut i: usize = 0;
        while i < n
            invariant
                i <= n,
                native@.len() == n,
                forall|j: int| 0 <= j < native@.len() ==> (#[trigger] native@[j]).wf(),
                out@.len() == i,
                forall|j: int| 0 <= j < out@.len() ==> (#[trigger] out@[j]).wf(),
                forall|j: int|
                    0 <= j < out@.len() ==> (#[trigger] out@[j]).as_nat() == native@[j].as_nat(),
            decreases n - i,
        {
            let b = native[i].to_le_bytes();
            let e = Fe::from_le_bytes(&b);
            proof {
                lemma_order_below_pow256_32();
                lemma_le_bytes_roundtrip(native@[i as int].as_nat(), 32);
                vstd::arithmetic::div_mod::lemma_small_mod(
                    native@[i as int].as_nat(),
                    fr_order(),
                );
                assert(e.as_nat() == native@[i as int].as_nat());
            }
            out.push(e);
            i = i + 1;
        }
        proof {
            assert(vals(out@) =~= vals(native@));
        }
        out
    }
}

} // verus!
