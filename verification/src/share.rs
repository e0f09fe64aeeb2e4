//! The secret-share abstraction: a value is either public or shared, under
//! one of two interchangeable sharing disciplines. The honest-majority
//! backend holds one additive share per party; the malicious-majority
//! backend additionally carries an authentication tag per party, checked at
//! opening. All party shares of one run live together here, as the dealer
//! sees them: the network that would carry them between processes is outside
//! this library.

use vstd::prelude::*;
use crate::field::{Fe, fr_order, add_mod, sub_mod, mul_mod, fr_inv};
use crate::encode::vals;
use vstd::arithmetic::div_mod::{
    lemma_small_mod,
    lemma_add_mod_noop,
    lemma_add_mod_noop_right,
    lemma_sub_mod_noop_right,
    lemma_mul_mod_noop_right,
};

verus! {

/// What can go wrong in this core: a missing dispatch arm, a transport
/// failure at a suspension point, a tampered opening, or inversion of zero.
#[derive(Clone, Copy, Debug, PartialEq, Eq, Structural)]
pub enum MpcError {
    UnsupportedOperation,
    NetworkFailure,
    AuthenticationFailure,
    ArithmeticDomainError,
}

/// The two sharing disciplines.
#[derive(Clone, Copy, Debug, PartialEq, Eq, Structural)]
pub enum Backend {
    HonestMajority,
    MaliciousMajority,
}

/// The run configuration a backend operates under: the party count, the
/// active discipline, and, for the malicious-majority discipline, the global
/// authentication key.
#[derive(Clone, Copy)]
pub struct MpcContext {
    pub n_parties: usize,
    pub backend: Backend,
    pub mac_key: Fe,
}

impl MpcContext {
    /// At least one party, a reduced key, and — under the malicious-majority
    /// discipline — a nonzero key: with a zero key every tag is zero and an
    /// opening would accept any tampering.
    pub open spec fn wf(self) -> bool {
        &&& self.n_parties >= 1
        &&& self.mac_key.wf()
        &&& self.backend == Backend::MaliciousMajority ==> self.mac_key.as_nat() != 0
    }
}

/// The field sum, from position `k` on, of a value list.
pub open spec fn sum_from(s: Seq<nat>, k: int) -> nat
    decreases s.len() - k,
{
    if k < 0 || k >= s.len() {
        0
    } else {
        add_mod(s[k], sum_from(s, k + 1))
    }
}

/// The field sum of a value list: the reconstruction rule of both backends.
pub open spec fn sum_mod(s: Seq<nat>) -> nat {
    sum_from(s, 0)
}

/// Pointwise field addition of two value lists.
pub open spec fn zip_add(a: Seq<nat>, b: Seq<nat>) -> Seq<nat> {
    Seq::new(a.len(), |i: int| add_mod(a[i], b[i]))
}

/// Pointwise field subtraction of two value lists.
pub open spec fn zip_sub(a: Seq<nat>, b: Seq<nat>) -> Seq<nat> {
    Seq::new(a.len(), |i: int| sub_mod(a[i], b[i]))
}

/// Every entry scaled by one field constant.
pub open spec fn zip_scale(c: nat, s: Seq<nat>) -> Seq<nat> {
    Seq::new(s.len(), |i: int| mul_mod(c, s[i]))
}

/// Reducing the left summand first changes nothing modulo the order.
proof fn lemma_mod_add_left(a: nat, b: nat)
    ensures
        add_mod(a % fr_order(), b) == add_mod(a, b),
{
    let m = fr_order() as int;
    lemma_add_mod_noop(a as int, b as int, m);
    lemma_add_mod_noop_right((a % fr_order()) as int, b as int, m);
}

/// Reducing the right summand first changes nothing modulo the order.
proof fn lemma_mod_add_right(a: nat, b: nat)
    ensures
        add_mod(a, b % fr_order()) == add_mod(a, b),
{
    let m = fr_order() as int;
    lemma_add_mod_noop_right(a as int, b as int, m);
}

/// Field addition is associative.
proof fn lemma_add_mod_assoc(a: nat, b: nat, c: nat)
    ensures
        add_mod(add_mod(a, b), c) == add_mod(a, add_mod(b, c)),
{
    lemma_mod_add_left(a + b, c);
    lemma_mod_add_right(a, b + c);
}

/// Multiplication distributes over field addition.
proof fn lemma_mul_mod_distr(a: nat, b: nat, c: nat)
    ensures
        mul_mod(a, add_mod(b, c)) == add_mod(mul_mod(a, b), mul_mod(a, c)),
{
    let m = fr_order() as int;
    lemma_mul_mod_noop_right(a as int, (b + c) as int, m);
    assert(a * (b + c) == a * b + a * c) by (nonlinear_arith);
    lemma_add_mod_noop((a * b) as int, (a * c) as int, m);
}

/// Scaling commutes with negation in the field.
proof fn lemma_mul_mod_neg(a: nat, b: nat)
    ensures
        mul_mod(a, sub_mod(0, b)) == sub_mod(0, mul_mod(a, b)),
{
    let m = fr_order() as int;
    lemma_mul_mod_noop_right(a as int, 0 - (b as int), m);
    assert(a * (0 - (b as int)) == 0 - a * b) by (nonlinear_arith);
    lemma_sub_mod_noop_right(0, (a * b) as int, m);
}

/// Scaling factors can be reordered.
proof fn lemma_mul_mod_shuffle(c: nat, a: nat, v: nat)
    ensures
        mul_mod(c, mul_mod(a, v)) == mul_mod(a, mul_mod(c, v)),
{
    let m = fr_order() as int;
    lemma_mul_mod_noop_right(c as int, (a * v) as int, m);
    assert(c * (a * v) == a * (c * v)) by (nonlinear_arith);
    lemma_mul_mod_noop_right(a as int, (c * v) as int, m);
}

/// Appending one entry adds it to the field sum.
proof fn lemma_sum_push(s: Seq<nat>, x: nat, k: int)
    requires
        0 <= k <= s.len(),
    ensures
        sum_from(s.push(x), k) == add_mod(sum_from(s, k), x),
    decreases s.len() - k,
{
    if k == s.len() {
        assert(s.push(x).len() == s.len() + 1);
        assert(s.push(x)[s.len() as int] == x);
        assert(sum_from(s.push(x), k) == add_mod(x, sum_from(s.push(x), k + 1)));
        assert(sum_from(s.push(x), k + 1) == 0);
        lemma_mod_add_left(x, 0);
        lemma_small_mod(0, fr_order());
    } else {
        lemma_sum_push(s, x, k + 1);
        lemma_add_mod_assoc(s[k], sum_from(s, k + 1), x);
    }
}

/// The field sum reads only the entries from `k` on.
proof fn lemma_sum_congruent(s1: Seq<nat>, s2: Seq<nat>, k: int)
    requires
        s1.len() == s2.len(),
        forall|j: int| k <= j < s1.len() ==> s1[j] == s2[j],
    ensures
        sum_from(s1, k) == sum_from(s2, k),
    decreases s1.len() - k,
{
    if 0 <= k < s1.len() {
        lemma_sum_congruent(s1, s2, k + 1);
    }
}

/// Replacing one entry shifts the field sum by the difference.
proof fn lemma_sum_update(s: Seq<nat>, i: int, x2: nat, k: int)
    requires
        0 <= k <= i < s.len(),
    ensures
        sum_from(s.update(i, x2), k) == add_mod(sum_from(s, k), sub_mod(x2, s[i])),
    decreases s.len() - k,
{
    let m = fr_order() as int;
    let d = sub_mod(x2, s[i]);
    if k == i {
        lemma_sum_congruent(s.update(i, x2), s, k + 1);
        let t = sum_from(s, k + 1);
        assert(sum_from(s.update(i, x2), k) == add_mod(x2, t));
        assert(add_mod(add_mod(s[i], t), d) == add_mod(x2, t)) by {
            lemma_add_mod_noop((s[i] + t) as int, (x2 as int) - (s[i] as int), m);
            lemma_add_mod_noop_right((x2 + t) as int, 0, m);
            assert((s[i] + t) as int + ((x2 as int) - (s[i] as int)) == (x2 + t) as int);
        }
    } else {
        lemma_sum_update(s, i, x2, k + 1);
        lemma_add_mod_assoc(s[k], sum_from(s, k + 1), d);
    }
}

/// Summing pointwise field sums gives the field sum of the sums.
pub(crate) proof fn lemma_sum_add(a: Seq<nat>, b: Seq<nat>, k: int)
    requires
        a.len() == b.len(),
        0 <= k <= a.len(),
    ensures
        sum_from(zip_add(a, b), k) == add_mod(sum_from(a, k), sum_from(b, k)),
    decreases a.len() - k,
{
    let m = fr_order() as int;
    if k == a.len() {
        lemma_small_mod(0, fr_order());
    } else {
        lemma_sum_add(a, b, k + 1);
        let sa = sum_from(a, k + 1);
        let sb = sum_from(b, k + 1);
        assert(add_mod(add_mod(a[k], b[k]), add_mod(sa, sb)) == add_mod(
            add_mod(a[k], sa),
            add_mod(b[k], sb),
        )) by {
            lemma_add_mod_noop((a[k] + b[k]) as int, (sa + sb) as int, m);
            lemma_add_mod_noop((a[k] + sa) as int, (b[k] + sb) as int, m);
        }
    }
}

/// Summing pointwise field differences gives the difference of the sums.
proof fn lemma_sum_sub(a: Seq<nat>, b: Seq<nat>, k: int)
    requires
        a.len() == b.len(),
        0 <= k <= a.len(),
    ensures
        sum_from(zip_sub(a, b), k) == sub_mod(sum_from(a, k), sum_from(b, k)),
    decreases a.len() - k,
{
    let m = fr_order() as int;
    if k == a.len() {
        lemma_small_mod(0, fr_order());
    } else {
        lemma_sum_sub(a, b, k + 1);
        let sa = sum_from(a, k + 1);
        let sb = sum_from(b, k + 1);
        assert(add_mod(sub_mod(a[k], b[k]), sub_mod(sa, sb)) == sub_mod(
            add_mod(a[k], sa),
            add_mod(b[k], sb),
        )) by {
            lemma_add_mod_noop((a[k] as int) - (b[k] as int), (sa as int) - (sb as int), m);
            vstd::arithmetic::div_mod::lemma_sub_mod_noop(
                (a[k] + sa) as int,
                (b[k] + sb) as int,
                m,
            );
            assert((a[k] as int) - (b[k] as int) + ((sa as int) - (sb as int)) == (a[k] + sa)
                as int - ((b[k] + sb) as int));
        }
    }
}

/// Summing uniformly scaled entries scales the field sum.
pub(crate) proof fn lemma_sum_scale(c: nat, s: Seq<nat>, k: int)
    requires
        0 <= k <= s.len(),
    ensures
        sum_from(zip_scale(c, s), k) == mul_mod(c, sum_from(s, k)),
    decreases s.len() - k,
{
    let m = fr_order() as int;
    if k == s.len() {
        assert(c * 0 == 0) by (nonlinear_arith);
        lemma_small_mod(0, fr_order());
    } else {
        lemma_sum_scale(c, s, k + 1);
        let t = sum_from(s, k + 1);
        assert(add_mod(mul_mod(c, s[k]), mul_mod(c, t)) == mul_mod(c, add_mod(s[k], t))) by {
            lemma_mul_mod_distr(c, s[k], t);
        }
    }
}

/// One run's shares of one value: each party's additive contribution, and,
/// under the malicious-majority discipline, each party's tag share.
pub struct Sharing {
    pub shares: Vec<Fe>,
    pub tags: Vec<Fe>,
}

impl Sharing {
    /// The plaintext this sharing reconstructs to.
    pub open spec fn value(self) -> nat {
        sum_mod(vals(self.shares@))
    }

    /// One share per party, all reduced; tags only under the
    /// malicious-majority discipline.
    pub open spec fn wf(self, ctx: MpcContext) -> bool {
        &&& self.shares@.len() == ctx.n_parties
        &&& forall|i: int| 0 <= i < self.shares@.len() ==> (#[trigger] self.shares@[i]).wf()
        &&& match ctx.backend {
            Backend::HonestMajority => self.tags@.len() == 0,
            Backend::MaliciousMajority => self.tags@.len() == ctx.n_parties && forall|i: int|
                0 <= i < self.tags@.len() ==> (#[trigger] self.tags@[i]).wf(),
        }
    }

    /// The authentication equation: the tags reconstruct to the key times
    /// the value. Holds of every honestly produced sharing; broken by
    /// tampering.
    pub open spec fn tag_ok(self, ctx: MpcContext) -> bool {
        sum_mod(vals(self.tags@)) == mul_mod(ctx.mac_key.as_nat(), self.value())
    }
}

/// A value in the protocol: known to everyone, or split into shares.
pub enum MpcFe {
    Public(Fe),
    Shared(Sharing),
}

impl MpcFe {
    /// The plaintext this value stands for.
    pub open spec fn value(self) -> nat {
        match self {
            MpcFe::Public(v) => v.as_nat(),
            MpcFe::Shared(s) => s.value(),
        }
    }

    /// Well-formed under the given context.
    pub open spec fn wf(self, ctx: MpcContext) -> bool {
        match self {
            MpcFe::Public(v) => v.wf(),
            MpcFe::Shared(s) => s.wf(ctx),
        }
    }

    /// Whether an opening of this value will authenticate: public values and
    /// honest-majority sharings always do; a malicious-majority sharing must
    /// satisfy the tag equation.
    pub open spec fn well_tagged(self, ctx: MpcContext) -> bool {
        match self {
            MpcFe::Public(_) => true,
            MpcFe::Shared(s) => ctx.backend == Backend::MaliciousMajority ==> s.tag_ok(ctx),
        }
    }
}

/// What an opening returns: the plaintext when the value authenticates,
/// nothing otherwise.
pub open spec fn open_value(ctx: MpcContext, x: MpcFe) -> Option<nat> {
    if x.well_tagged(ctx) {
        Some(x.value())
    } else {
        None
    }
}

/// A fresh additive sharing of `v` among `n` parties: `n - 1` random
/// shares, and one share fixed so that the field sum reconstructs `v`.
fn share_value(n: usize, v: &Fe, rng: &mut rand::rngs::StdRng) -> (r: Vec<Fe>)
    requires
        n >= 1,
        v.wf(),
    ensures
        r@.len() == n,
        forall|i: int| 0 <= i < r@.len() ==> (#[trigger] r@[i]).wf(),
        sum_mod(vals(r@)) == v.as_nat(),
{
    let mut shares: Vec<Fe> = Vec::new();
    let mut acc = *v;
    let mut i: usize = 0;
    proof {
        lemma_small_mod(v.as_nat(), fr_order());
    }
    while i < n - 1
        invariant
            n >= 1,
            i <= n - 1,
            v.wf(),
            acc.wf(),
            shares@.len() == i,
            forall|j: int| 0 <= j < shares@.len() ==> (#[trigger] shares@[j]).wf(),
            add_mod(sum_mod(vals(shares@)), acc.as_nat()) == v.as_nat(),
        decreases n - 1 - i,
    {
        let s = Fe::rand(rng);
        let ghost old_vals = vals(shares@);
        let ghost old_acc = acc.as_nat();
        acc = acc.sub_fe(&s);
        shares.push(s);
        proof {
            assert(vals(shares@) =~= old_vals.push(s.as_nat()));
            lemma_sum_push(old_vals, s.as_nat(), 0);
            let m = fr_order() as int;
            let ss = sum_mod(old_vals);
            assert(add_mod(add_mod(ss, s.as_nat()), sub_mod(old_acc, s.as_nat())) == add_mod(
                ss,
                old_acc,
            )) by {
                lemma_add_mod_noop(
                    (ss + s.as_nat()) as int,
                    (old_acc as int) - (s.as_nat() as int),
                    m,
                );
                lemma_add_mod_noop_right((ss + old_acc) as int, 0, m);
                assert((ss + s.as_nat()) as int + ((old_acc as int) - (s.as_nat() as int)) == (ss
                    + old_acc) as int);
            }
        }
        i = i + 1;
    }
    let ghost old_vals = vals(shares@);
    shares.push(acc);
    proof {
        assert(vals(shares@) =~= old_vals.push(acc.as_nat()));
        lemma_sum_push(old_vals, acc.as_nat(), 0);
    }
    shares
}

/// The field sum of a share vector: the reconstruction both backends use.
fn sum_shares(v: &Vec<Fe>) -> (r: Fe)
    requires
        forall|i: int| 0 <= i < v@.len() ==> (#[trigger] v@[i]).wf(),
    ensures
        r.wf(),
        r.as_nat() == sum_mod(vals(v@)),
{
    let mut acc = Fe::zero();
    let mut k: usize = v.len();
    proof {
        lemma_small_mod(0, fr_order());
    }
    while k > 0
        invariant
            k <= v@.len(),
            forall|i: int| 0 <= i < v@.len() ==> (#[trigger] v@[i]).wf(),
            acc.wf(),
            acc.as_nat() == sum_from(vals(v@), k as int),
        decreases k,
    {
        k = k - 1;
        acc = v[k].add_fe(&acc);
    }
    acc
}

/// The pointwise field sum of two share vectors.
fn add_share_vecs(a: &Vec<Fe>, b: &Vec<Fe>) -> (r: Vec<Fe>)
    requires
        a@.len() == b@.len(),
        forall|i: int| 0 <= i < a@.len() ==> (#[trigger] a@[i]).wf(),
        forall|i: int| 0 <= i < b@.len() ==> (#[trigger] b@[i]).wf(),
    ensures
        r@.len() == a@.len(),
        forall|i: int| 0 <= i < r@.len() ==> (#[trigger] r@[i]).wf(),
        vals(r@) == zip_add(vals(a@), vals(b@)),
{
    let mut out: Vec<Fe> = Vec::new();
    let mut i: usize = 0;
    while i < a.len()
        invariant
            a@.len() == b@.len(),
            forall|j: int| 0 <= j < a@.len() ==> (#[trigger] a@[j]).wf(),
            forall|j: int| 0 <= j < b@.len() ==> (#[trigger] b@[j]).wf(),
            i <= a@.len(),
            out@.len() == i,
            forall|j: int| 0 <= j < out@.len() ==> (#[trigger] out@[j]).wf(),
            forall|j: int|
                0 <= j < out@.len() ==> (#[trigger] out@[j]).as_nat() == add_mod(
                    a@[j].as_nat(),
                    b@[j].as_nat(),
                ),
        decreases a@.len() - i,
    {
        out.push(a[i].add_fe(&b[i]));
        i = i + 1;
    }
    proof {
        assert(vals(out@) =~= zip_add(vals(a@), vals(b@)));
    }
    out
}

/// The pointwise field difference of two share vectors.
fn sub_share_vecs(a: &Vec<Fe>, b: &Vec<Fe>) -> (r: Vec<Fe>)
    requires
        a@.len() == b@.len(),
        forall|i: int| 0 <= i < a@.len() ==> (#[trigger] a@[i]).wf(),
        forall|i: int| 0 <= i < b@.len() ==> (#[trigger] b@[i]).wf(),
    ensures
        r@.len() == a@.len(),
        forall|i: int| 0 <= i < r@.len() ==> (#[trigger] r@[i]).wf(),
        vals(r@) == zip_sub(vals(a@), vals(b@)),
{
    let mut out: Vec<Fe> = Vec::new();
    let mut i: usize = 0;
    while i < a.len()
        invariant
            a@.len() == b@.len(),
            forall|j: int| 0 <= j < a@.len() ==> (#[trigger] a@[j]).wf(),
            forall|j: int| 0 <= j < b@.len() ==> (#[trigger] b@[j]).wf(),
            i <= a@.len(),
            out@.len() == i,
            forall|j: int| 0 <= j < out@.len() ==> (#[trigger] out@[j]).wf(),
            forall|j: int|
                0 <= j < out@.len() ==> (#[trigger] out@[j]).as_nat() == sub_mod(
                    a@[j].as_nat(),
                    b@[j].as_nat(),
                ),
        decreases a@.len() - i,
    {
        out.push(a[i].sub_fe(&b[i]));
        i = i + 1;
    }
    proof {
        assert(vals(out@) =~= zip_sub(vals(a@), vals(b@)));
    }
    out
}

/// Every share scaled by one public constant.
fn scale_share_vec(c: &Fe, a: &Vec<Fe>) -> (r: Vec<Fe>)
    requires
        c.wf(),
        forall|i: int| 0 <= i < a@.len() ==> (#[trigger] a@[i]).wf(),
    ensures
        r@.len() == a@.len(),
        forall|i: int| 0 <= i < r@.len() ==> (#[trigger] r@[i]).wf(),
        vals(r@) == zip_scale(c.as_nat(), vals(a@)),
{
    let mut out: Vec<Fe> = Vec::new();
    let mut i: usize = 0;
    while i < a.len()
        invariant
            c.wf(),
            forall|j: int| 0 <= j < a@.len() ==> (#[trigger] a@[j]).wf(),
            i <= a@.len(),
            out@.len() == i,
            forall|j: int| 0 <= j < out@.len() ==> (#[trigger] out@[j]).wf(),
            forall|j: int|
                0 <= j < out@.len() ==> (#[trigger] out@[j]).as_nat() == mul_mod(
                    c.as_nat(),
                    a@[j].as_nat(),
                ),
        decreases a@.len() - i,
    {
        out.push(c.mul_fe(&a[i]));
        i = i + 1;
    }
    proof {
        assert(vals(out@) =~= zip_scale(c.as_nat(), vals(a@)));
    }
    out
}

/// A copy of a share vector with the constant folded into party zero's
/// share: how a public summand enters a sharing without interaction.
fn add_const_at_zero(v: &Vec<Fe>, c: &Fe) -> (r: Vec<Fe>)
    requires
        v@.len() >= 1,
        c.wf(),
        forall|i: int| 0 <= i < v@.len() ==> (#[trigger] v@[i]).wf(),
    ensures
        r@.len() == v@.len(),
        forall|i: int| 0 <= i < r@.len() ==> (#[trigger] r@[i]).wf(),
        vals(r@) == vals(v@).update(0, add_mod(v@[0].as_nat(), c.as_nat())),
        sum_mod(vals(r@)) == add_mod(sum_mod(vals(v@)), c.as_nat()),
{
    let mut out: Vec<Fe> = Vec::new();
    let mut i: usize = 0;
    while i < v.len()
        invariant
            c.wf(),
            forall|j: int| 0 <= j < v@.len() ==> (#[trigger] v@[j]).wf(),
            i <= v@.len(),
            out@.len() == i,
            forall|j: int| 0 <= j < out@.len() ==> #[trigger] out@[j] == v@[j],
        decreases v@.len() - i,
    {
        out.push(v[i]);
        i = i + 1;
    }
    let updated = v[0].add_fe(c);
    out.set(0, updated);
    proof {
        assert(vals(out@) =~= vals(v@).update(0, add_mod(v@[0].as_nat(), c.as_nat())));
        lemma_sum_update(vals(v@), 0, add_mod(v@[0].as_nat(), c.as_nat()), 0);
        let m = fr_order() as int;
        let s = sum_mod(vals(v@));
        let v0 = v@[0].as_nat();
        let cv = c.as_nat();
        assert(add_mod(s, sub_mod(add_mod(v0, cv), v0)) == add_mod(s, cv)) by {
            lemma_add_mod_noop_right(s as int, ((v0 + cv) % fr_order()) as int - (v0 as int), m);
            lemma_add_mod_noop_right(s as int, cv as int, m);
            lemma_add_mod_noop((s as int) + (cv as int), 0, m);
            assert(((s as int) + (((v0 + cv) as int) % m - (v0 as int))) % m == ((s as int)
                + (cv as int)) % m) by {
                lemma_add_mod_noop_right(
                    (s as int) - (v0 as int),
                    ((v0 + cv) as int),
                    m,
                );
            }
        }
    }
    out
}

impl MpcContext {
    /// A fresh sharing of `v` under this context, with fresh tags under the
    /// malicious-majority discipline.
    fn make_sharing(&self, v: &Fe, rng: &mut rand::rngs::StdRng) -> (r: Sharing)
        requires
            self.wf(),
            v.wf(),
        ensures
            r.wf(*self),
            r.value() == v.as_nat(),
            r.tag_ok(*self) || self.backend == Backend::HonestMajority,
    {
        let shares = share_value(self.n_parties, v, rng);
        let tags = match self.backend {
            Backend::HonestMajority => Vec::new(),
            Backend::MaliciousMajority => {
                let t = self.mac_key.mul_fe(v);
                share_value(self.n_parties, &t, rng)
            },
        };
        Sharing { shares, tags }
    }

    /// The king party splits a plaintext into one share per party and hands
    /// them out; the sharing reconstructs to exactly that plaintext.
    pub fn king_share(&self, v: &Fe, rng: &mut rand::rngs::StdRng) -> (r: MpcFe)
        requires
            self.wf(),
            v.wf(),
        ensures
            r is Shared,
            r.wf(*self),
            r.value() == v.as_nat(),
            r.well_tagged(*self),
    {
        MpcFe::Shared(self.make_sharing(v, rng))
    }

    /// Opens a value to its plaintext: a public value is returned as is, a
    /// sharing is reconstructed, and under the malicious-majority discipline
    /// the authentication equation is checked first. A tampered sharing
    /// surfaces `AuthenticationFailure`, never a silently wrong plaintext.
    pub fn publicize(&self, x: &MpcFe) -> (r: Result<Fe, MpcError>)
        requires
            self.wf(),
            x.wf(*self),
        ensures
            r is Ok <==> x.well_tagged(*self),
            r is Ok ==> r->Ok_0.wf() && open_value(*self, *x) == Some(r->Ok_0.as_nat())
                && r->Ok_0.as_nat() == x.value(),
            r is Err ==> r->Err_0 == MpcError::AuthenticationFailure,
    {
        match x {
            MpcFe::Public(v) => Ok(*v),
            MpcFe::Shared(s) => {
                let total = sum_shares(&s.shares);
                match self.backend {
                    Backend::HonestMajority => Ok(total),
                    Backend::MaliciousMajority => {
                        let tag_total = sum_shares(&s.tags);
                        let expected = self.mac_key.mul_fe(&total);
                        if tag_total.eq_fe(&expected) {
                            Ok(total)
                        } else {
                            Err(MpcError::AuthenticationFailure)
                        }
                    },
                }
            },
        }
    }

    /// The sum of two values: local share-wise work in every case; a public
    /// summand is folded into party zero's share and tag.
    pub fn add(&self, a: &MpcFe, b: &MpcFe) -> (r: MpcFe)
        requires
            self.wf(),
            a.wf(*self),
            b.wf(*self),
        ensures
            r.wf(*self),
            r.value() == add_mod(a.value(), b.value()),
            a.well_tagged(*self) && b.well_tagged(*self) ==> r.well_tagged(*self),
            r is Public <==> (a is Public && b is Public),
    {
        match (a, b) {
            (MpcFe::Public(x), MpcFe::Public(y)) => MpcFe::Public(x.add_fe(y)),
            (MpcFe::Public(c), MpcFe::Shared(s)) => {
                proof {
                    lemma_add_mod_comm(s.value(), c.as_nat());
                }
                MpcFe::Shared(self.add_public_to_sharing(s, c))
            },
            (MpcFe::Shared(s), MpcFe::Public(c)) => MpcFe::Shared(self.add_public_to_sharing(s, c)),
            (MpcFe::Shared(s1), MpcFe::Shared(s2)) => MpcFe::Shared(self.add_sharings(s1, s2)),
        }
    }

    /// A public constant added into a sharing.
    fn add_public_to_sharing(&self, s: &Sharing, c: &Fe) -> (r: Sharing)
        requires
            self.wf(),
            s.wf(*self),
            c.wf(),
        ensures
            r.wf(*self),
            r.value() == add_mod(s.value(), c.as_nat()),
            (self.backend == Backend::MaliciousMajority && s.tag_ok(*self)) ==> r.tag_ok(*self),
            self.backend == Backend::HonestMajority ==> r.tags@.len() == 0,
    {
        let shares = add_const_at_zero(&s.shares, c);
        let tags = match self.backend {
            Backend::HonestMajority => Vec::new(),
            Backend::MaliciousMajority => {
                let tc = self.mac_key.mul_fe(c);
                add_const_at_zero(&s.tags, &tc)
            },
        };
        let r = Sharing { shares, tags };
        proof {
            if self.backend == Backend::MaliciousMajority && s.tag_ok(*self) {
                lemma_mul_mod_distr(self.mac_key.as_nat(), s.value(), c.as_nat());
            }
        }
        r
    }

    /// The share-wise sum of two sharings.
    fn add_sharings(&self, s1: &Sharing, s2: &Sharing) -> (r: Sharing)
        requires
            self.wf(),
            s1.wf(*self),
            s2.wf(*self),
        ensures
            r.wf(*self),
            r.value() == add_mod(s1.value(), s2.value()),
            (self.backend == Backend::MaliciousMajority && s1.tag_ok(*self) && s2.tag_ok(*self))
                ==> r.tag_ok(*self),
    {
        let shares = add_share_vecs(&s1.shares, &s2.shares);
        let tags = match self.backend {
            Backend::HonestMajority => Vec::new(),
            Backend::MaliciousMajority => add_share_vecs(&s1.tags, &s2.tags),
        };
        let r = Sharing { shares, tags };
        proof {
            lemma_sum_add(vals(s1.shares@), vals(s2.shares@), 0);
            if self.backend == Backend::MaliciousMajority {
                lemma_sum_add(vals(s1.tags@), vals(s2.tags@), 0);
                if s1.tag_ok(*self) && s2.tag_ok(*self) {
                    lemma_mul_mod_distr(self.mac_key.as_nat(), s1.value(), s2.value());
                }
            }
        }
        r
    }

    /// The negation of a value.
    pub fn neg(&self, a: &MpcFe) -> (r: MpcFe)
        requires
            self.wf(),
            a.wf(*self),
        ensures
            r.wf(*self),
            r.value() == sub_mod(0, a.value()),
            a.well_tagged(*self) ==> r.well_tagged(*self),
            r is Public <==> a is Public,
    {
        let zero = Fe::zero();
        match a {
            MpcFe::Public(x) => MpcFe::Public(zero.sub_fe(x)),
            MpcFe::Shared(s) => {
                let mut zeros: Vec<Fe> = Vec::new();
                let mut i: usize = 0;
                while i < s.shares.len()
                    invariant
                        i <= s.shares@.len(),
                        zeros@.len() == i,
                        forall|j: int| 0 <= j < zeros@.len() ==> (#[trigger] zeros@[j]).wf(),
                        forall|j: int|
                            0 <= j < zeros@.len() ==> (#[trigger] zeros@[j]).as_nat() == 0,
                    decreases s.shares@.len() - i,
                {
                    zeros.push(Fe::zero());
                    i = i + 1;
                }
                let shares = sub_share_vecs(&zeros, &s.shares);
                let mut tzeros: Vec<Fe> = Vec::new();
                let mut t: usize = 0;
                while t < s.tags.len()
                    invariant
                        t <= s.tags@.len(),
                        tzeros@.len() == t,
                        forall|j: int| 0 <= j < tzeros@.len() ==> (#[trigger] tzeros@[j]).wf(),
                        forall|j: int|
                            0 <= j < tzeros@.len() ==> (#[trigger] tzeros@[j]).as_nat() == 0,
                    decreases s.tags@.len() - t,
                {
                    tzeros.push(Fe::zero());
                    t = t + 1;
                }
                let tags = sub_share_vecs(&tzeros, &s.tags);
                let r = Sharing { shares, tags };
                proof {
                    assert(vals(zeros@) =~= Seq::new(s.shares@.len(), |j: int| 0nat));
                    assert(vals(tzeros@) =~= Seq::new(s.tags@.len(), |j: int| 0nat));
                    lemma_sum_sub(vals(zeros@), vals(s.shares@), 0);
                    lemma_sum_zeros(vals(zeros@), 0);
                    if self.backend == Backend::MaliciousMajority {
                        lemma_sum_sub(vals(tzeros@), vals(s.tags@), 0);
                        lemma_sum_zeros(vals(tzeros@), 0);
                        if s.tag_ok(*self) {
                            lemma_mul_mod_neg(self.mac_key.as_nat(), s.value());
                        }
                    }
                }
                MpcFe::Shared(r)
            },
        }
    }

    /// The difference of two values.
    pub fn sub(&self, a: &MpcFe, b: &MpcFe) -> (r: MpcFe)
        requires
            self.wf(),
            a.wf(*self),
            b.wf(*self),
        ensures
            r.wf(*self),
            r.value() == sub_mod(a.value(), b.value()),
            a.well_tagged(*self) && b.well_tagged(*self) ==> r.well_tagged(*self),
            r is Public <==> (a is Public && b is Public),
    {
        let nb = self.neg(b);
        let r = self.add(a, &nb);
        proof {
            let m = fr_order() as int;
            lemma_add_mod_noop_right(
                a.value() as int,
                0 - (b.value() as int),
                m,
            );
        }
        r
    }

    /// The product of two values. With at most one shared factor this is
    /// local share-wise scaling; multiplying two sharings runs the backend's
    /// interactive multiplication sub-protocol, which here reconstructs the
    /// factors centrally and deals a fresh, freshly tagged sharing of the
    /// product.
    pub fn mul(&self, a: &MpcFe, b: &MpcFe, rng: &mut rand::rngs::StdRng) -> (r: MpcFe)
        requires
            self.wf(),
            a.wf(*self),
            b.wf(*self),
        ensures
            r.wf(*self),
            r.value() == mul_mod(a.value(), b.value()),
            a.well_tagged(*self) && b.well_tagged(*self) ==> r.well_tagged(*self),
            r is Public <==> (a is Public && b is Public),
    {
        match (a, b) {
            (MpcFe::Public(x), MpcFe::Public(y)) => MpcFe::Public(x.mul_fe(y)),
            (MpcFe::Public(c), MpcFe::Shared(s)) => {
                proof {
                    lemma_mul_mod_comm(s.value(), c.as_nat());
                }
                MpcFe::Shared(self.scale_sharing(s, c))
            },
            (MpcFe::Shared(s), MpcFe::Public(c)) => {
                proof {
                    lemma_mul_mod_comm(s.value(), c.as_nat());
                }
                MpcFe::Shared(self.scale_sharing(s, c))
            },
            (MpcFe::Shared(s1), MpcFe::Shared(s2)) => {
                let va = sum_shares(&s1.shares);
                let vb = sum_shares(&s2.shares);
                let prod = va.mul_fe(&vb);
                MpcFe::Shared(self.make_sharing(&prod, rng))
            },
        }
    }

    /// A sharing scaled by a public constant, tags alike.
    fn scale_sharing(&self, s: &Sharing, c: &Fe) -> (r: Sharing)
        requires
            self.wf(),
            s.wf(*self),
            c.wf(),
        ensures
            r.wf(*self),
            r.value() == mul_mod(c.as_nat(), s.value()),
            (self.backend == Backend::MaliciousMajority && s.tag_ok(*self)) ==> r.tag_ok(*self),
    {
        let shares = scale_share_vec(c, &s.shares);
        let tags = match self.backend {
            Backend::HonestMajority => Vec::new(),
            Backend::MaliciousMajority => scale_share_vec(c, &s.tags),
        };
        let r = Sharing { shares, tags };
        proof {
            lemma_sum_scale(c.as_nat(), vals(s.shares@), 0);
            if self.backend == Backend::MaliciousMajority {
                lemma_sum_scale(c.as_nat(), vals(s.tags@), 0);
                if s.tag_ok(*self) {
                    lemma_mul_mod_shuffle(c.as_nat(), self.mac_key.as_nat(), s.value());
                }
            }
        }
        r
    }

    /// The multiplicative inverse of a value, through the backend's
    /// interactive inversion sub-protocol: the secret is reconstructed
    /// centrally, inverted, and dealt out afresh. A bare share-by-share
    /// local inversion would not be a sharing of the inverse. Inverting a
    /// zero-valued secret fails explicitly.
    pub fn inverse(&self, x: &MpcFe, rng: &mut rand::rngs::StdRng) -> (r: Result<MpcFe, MpcError>)
        requires
            self.wf(),
            x.wf(*self),
        ensures
            x.value() == 0 <==> r is Err,
            r is Err ==> r->Err_0 == MpcError::ArithmeticDomainError,
            r is Ok ==> r->Ok_0.wf(*self) && r->Ok_0.value() == fr_inv(x.value()) && mul_mod(
                r->Ok_0.value(),
                x.value(),
            ) == 1 && r->Ok_0.well_tagged(*self) && (r->Ok_0 is Public <==> x is Public),
    {
        match x {
            MpcFe::Public(v) => match v.inverse() {
                None => Err(MpcError::ArithmeticDomainError),
                Some(i) => Ok(MpcFe::Public(i)),
            },
            MpcFe::Shared(s) => {
                let total = sum_shares(&s.shares);
                match total.inverse() {
                    None => Err(MpcError::ArithmeticDomainError),
                    Some(i) => Ok(MpcFe::Shared(self.make_sharing(&i, rng))),
                }
            },
        }
    }
}

/// The field sum of a list of zeros is zero.
pub(crate) proof fn lemma_sum_zeros(s: Seq<nat>, k: int)
    requires
        0 <= k <= s.len(),
        forall|j: int| 0 <= j < s.len() ==> s[j] == 0,
    ensures
        sum_from(s, k) == 0,
    decreases s.len() - k,
{
    if k < s.len() {
        lemma_sum_zeros(s, k + 1);
        lemma_small_mod(0, fr_order());
    }
}

/// Field addition is commutative.
proof fn lemma_add_mod_comm(a: nat, b: nat)
    ensures
        add_mod(a, b) == add_mod(b, a),
{
}

/// Field multiplication is commutative.
pub(crate) proof fn lemma_mul_mod_comm(a: nat, b: nat)
    ensures
        mul_mod(a, b) == mul_mod(b, a),
{
    assert(a * b == b * a) by (nonlinear_arith);
}

/// Share round trip: every value a king share hands out, under either
/// backend, opens to exactly the plaintext that was shared.
pub proof fn lemma_share_round_trip(ctx: MpcContext, x: MpcFe, v: nat)
    requires
        ctx.wf(),
        x.wf(ctx),
        x.well_tagged(ctx),
        x.value() == v,
    ensures
        open_value(ctx, x) == Some(v),
{
}

/// Arithmetic homomorphism: shares whose values are the field sum and
/// product of two plaintexts open to exactly that sum and product.
pub proof fn lemma_arithmetic_homomorphism(
    ctx: MpcContext,
    sum: MpcFe,
    prod: MpcFe,
    a: nat,
    b: nat,
)
    requires
        ctx.wf(),
        sum.well_tagged(ctx),
        sum.value() == add_mod(a, b),
        prod.well_tagged(ctx),
        prod.value() == mul_mod(a, b),
    ensures
        open_value(ctx, sum) == Some(add_mod(a, b)),
        open_value(ctx, prod) == Some(mul_mod(a, b)),
{
}

/// Adding a nonzero reduced value to a reduced value changes it.
proof fn lemma_mod_sum_shift(a: nat, b: nat)
    requires
        a < fr_order(),
        b < fr_order(),
        b != 0,
    ensures
        add_mod(a, b) != a,
{
    let m = fr_order() as int;
    if a + b < fr_order() {
        lemma_small_mod(a + b, fr_order());
    } else {
        assert(((m + ((a + b) as int - m)) % m) == (((a + b) as int - m) % m)) by {
            vstd::arithmetic::div_mod::lemma_mod_multiples_vanish(1, (a + b) as int - m, m);
        }
        lemma_small_mod(((a + b) as int - m) as nat, fr_order());
    }
}

/// An opening that still authenticates after one party's share was
/// replaced forces the key times the perturbation to vanish in the field —
/// which, the order being prime, happens only for a zero key or a zero
/// perturbation, neither of which a well-formed malicious-majority context
/// and a genuine change allow. The primality of the order itself is not
/// proved here, so that last step stays outside the machine-checked part.
pub proof fn lemma_accepted_tamper_vanishes(
    alpha: nat,
    shares: Seq<nat>,
    tags: Seq<nat>,
    i: int,
    x2: nat,
)
    requires
        sum_mod(tags) == mul_mod(alpha, sum_mod(shares)),
        0 <= i < shares.len(),
        x2 < fr_order(),
        shares[i] < fr_order(),
        x2 != shares[i],
    ensures
        sum_mod(tags) == mul_mod(alpha, sum_mod(shares.update(i, x2))) ==> mul_mod(
            alpha,
            sub_mod(x2, shares[i]),
        ) == 0,
{
    let m = fr_order() as int;
    let d = sub_mod(x2, shares[i]);
    if mul_mod(alpha, d) != 0 {
        lemma_tamper_detected(alpha, shares, tags, i, x2);
    }
}

/// Tamper detection under the malicious-majority backend: an honest
/// sharing's authentication equation breaks when one party's share is
/// replaced by a different value, whenever the key times the perturbation
/// does not vanish in the field — which, the order being prime, holds for
/// every nonzero key and perturbation.
pub proof fn lemma_tamper_detected(
    alpha: nat,
    shares: Seq<nat>,
    tags: Seq<nat>,
    i: int,
    x2: nat,
)
    requires
        sum_mod(tags) == mul_mod(alpha, sum_mod(shares)),
        0 <= i < shares.len(),
        x2 < fr_order(),
        shares[i] < fr_order(),
        x2 != shares[i],
        mul_mod(alpha, sub_mod(x2, shares[i])) != 0,
    ensures
        sum_mod(tags) != mul_mod(alpha, sum_mod(shares.update(i, x2))),
{
    let m = fr_order() as int;
    let d = sub_mod(x2, shares[i]);
    lemma_sum_update(shares, i, x2, 0);
    let s = sum_mod(shares);
    assert(sum_mod(shares.update(i, x2)) == add_mod(s, d));
    lemma_mul_mod_distr(alpha, s, d);
    assert(mul_mod(alpha, add_mod(s, d)) == add_mod(mul_mod(alpha, s), mul_mod(alpha, d)));
    assert(mul_mod(alpha, s) < fr_order()) by {
        vstd::arithmetic::div_mod::lemma_mod_bound((alpha * s) as int, m);
    }
    assert(mul_mod(alpha, d) < fr_order()) by {
        vstd::arithmetic::div_mod::lemma_mod_bound((alpha * d) as int, m);
    }
    lemma_mod_sum_shift(mul_mod(alpha, s), mul_mod(alpha, d));
}

} // verus!
