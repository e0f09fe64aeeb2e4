//! The canonical encodings of absorbable values: every value the sponge takes
//! supplies a byte encoding and a native-field-element encoding, and
//! variable-length byte strings carry their own length so that different
//! logical values cannot collide.

use vstd::prelude::*;
use crate::field::{Fe, fr_order, bytes_le_nat, nat_to_le_bytes, pow256, lemma_le_bytes_roundtrip};

verus! {

/// The field elements a byte string packs into, 31 bytes to an element,
/// little-endian, starting at byte `k`.
pub open spec fn pack_bytes_from(b: Seq<u8>, k: int) -> Seq<nat>
    decreases b.len() - k,
{
    if k < 0 || k >= b.len() {
        Seq::empty()
    } else {
        let end = if k + 31 <= b.len() {
            k + 31
        } else {
            b.len() as int
        };
        seq![bytes_le_nat(b.subrange(k, end))] + pack_bytes_from(b, end)
    }
}

/// The native-field-element encoding of a byte string.
pub open spec fn pack_bytes(b: Seq<u8>) -> Seq<nat> {
    pack_bytes_from(b, 0)
}

/// The native-field-element encoding of a variable-length byte string: its
/// length, then its packed content.
pub open spec fn enc_bytes_with_len(b: Seq<u8>) -> Seq<nat> {
    seq![b.len() as nat] + pack_bytes(b)
}

/// The byte encoding of one field element.
pub open spec fn enc_fe_bytes(v: nat) -> Seq<u8> {
    nat_to_le_bytes(v, 32)
}

/// The byte encoding of a list of field elements.
pub open spec fn enc_fe_list_bytes(s: Seq<nat>) -> Seq<u8>
    decreases s.len(),
{
    if s.len() == 0 {
        Seq::empty()
    } else {
        enc_fe_bytes(s[0]) + enc_fe_list_bytes(s.drop_first())
    }
}

/// The byte encoding of a variable-length byte string: its length in eight
/// little-endian bytes, then the bytes themselves.
pub open spec fn enc_bytes_with_len_bytes(b: Seq<u8>) -> Seq<u8> {
    nat_to_le_bytes(b.len(), 8) + b
}

/// The byte encoding of a list of variable-length byte strings.
pub open spec fn enc_byte_list_bytes(l: Seq<Seq<u8>>) -> Seq<u8>
    decreases l.len(),
{
    if l.len() == 0 {
        Seq::empty()
    } else {
        enc_bytes_with_len_bytes(l[0]) + enc_byte_list_bytes(l.drop_first())
    }
}

/// A byte string's value is below the count of values its length can hold.
pub proof fn lemma_bytes_le_nat_bound(b: Seq<u8>)
    ensures
        bytes_le_nat(b) < pow256(b.len()),
    decreases b.len(),
{
    if b.len() == 0 {
    } else {
        lemma_bytes_le_nat_bound(b.drop_first());
    }
}

/// Longer byte strings can hold at least as many values.
pub proof fn lemma_pow256_mono(a: nat, b: nat)
    requires
        a <= b,
    ensures
        pow256(a) <= pow256(b),
    decreases b,
{
    if a < b && b > 0 {
        lemma_pow256_mono(a, (b - 1) as nat);
        assert(pow256(b) == 256 * pow256((b - 1) as nat));
    }
}

/// Every packed chunk, hence every element of a packed byte string, lies
/// below the field order.
pub proof fn lemma_chunk_below_order(b: Seq<u8>)
    requires
        b.len() <= 31,
    ensures
        bytes_le_nat(b) < fr_order(),
{
    lemma_bytes_le_nat_bound(b);
    lemma_pow256_mono(b.len(), 31);
    assert(pow256(31) < fr_order()) by {
        reveal_with_fuel(pow256, 32);
    }
}

/// The count of values held by 32 bytes exceeds the field order.
pub proof fn lemma_order_below_pow256_32()
    ensures
        fr_order() < pow256(32),
{
    assert(fr_order() < pow256(32)) by {
        reveal_with_fuel(pow256, 33);
    }
}

/// Distinct field elements have distinct byte encodings.
pub proof fn lemma_enc_fe_bytes_distinct(a: nat, b: nat)
    requires
        a < fr_order(),
        b < fr_order(),
        a != b,
    ensures
        enc_fe_bytes(a) != enc_fe_bytes(b),
{
    lemma_order_below_pow256_32();
    if enc_fe_bytes(a) == enc_fe_bytes(b) {
        lemma_le_bytes_roundtrip(a, 32);
        lemma_le_bytes_roundtrip(b, 32);
        assert(false);
    }
}

/// Two lists of field elements of one length that differ in one entry have
/// distinct byte encodings.
pub proof fn lemma_enc_fe_list_bytes_distinct(s1: Seq<nat>, s2: Seq<nat>, i: int)
    requires
        s1.len() == s2.len(),
        0 <= i < s1.len(),
        s1[i] != s2[i],
        forall|j: int| 0 <= j < s1.len() ==> s1[j] < fr_order(),
        forall|j: int| 0 <= j < s2.len() ==> s2[j] < fr_order(),
    ensures
        enc_fe_list_bytes(s1) != enc_fe_list_bytes(s2),
    decreases i,
{
    let e1 = enc_fe_list_bytes(s1);
    let e2 = enc_fe_list_bytes(s2);
    if i == 0 {
        lemma_enc_fe_bytes_distinct(s1[0], s2[0]);
        if e1 == e2 {
            assert(enc_fe_bytes(s1[0]).len() == 32 && enc_fe_bytes(s2[0]).len() == 32) by {
                lemma_nat_to_le_bytes_len(s1[0], 32);
                lemma_nat_to_le_bytes_len(s2[0], 32);
            }
            assert(e1.subrange(0, 32) =~= enc_fe_bytes(s1[0]));
            assert(e2.subrange(0, 32) =~= enc_fe_bytes(s2[0]));
            assert(false);
        }
    } else {
        lemma_enc_fe_list_bytes_distinct(s1.drop_first(), s2.drop_first(), i - 1);
        if e1 == e2 {
            assert(enc_fe_bytes(s1[0]).len() == 32 && enc_fe_bytes(s2[0]).len() == 32) by {
                lemma_nat_to_le_bytes_len(s1[0], 32);
                lemma_nat_to_le_bytes_len(s2[0], 32);
            }
            if enc_fe_bytes(s1[0]) == enc_fe_bytes(s2[0]) {
                assert(e1.subrange(32, e1.len() as int) =~= enc_fe_list_bytes(s1.drop_first()));
                assert(e2.subrange(32, e2.len() as int) =~= enc_fe_list_bytes(s2.drop_first()));
                assert(false);
            } else {
                assert(e1.subrange(0, 32) =~= enc_fe_bytes(s1[0]));
                assert(e2.subrange(0, 32) =~= enc_fe_bytes(s2[0]));
                assert(false);
            }
        }
    }
}

/// The byte encoding of an integer has the requested length.
pub proof fn lemma_nat_to_le_bytes_len(v: nat, len: nat)
    ensures
        nat_to_le_bytes(v, len).len() == len,
    decreases len,
{
    if len > 0 {
        lemma_nat_to_le_bytes_len(v / 256, (len - 1) as nat);
    }
}

/// Two lists of variable-length byte strings whose first entries differ in
/// length have distinct byte encodings, no matter how the remaining content
/// is shifted across the boundary: the length prefix separates them.
pub proof fn lemma_enc_byte_list_distinct(l1: Seq<Seq<u8>>, l2: Seq<Seq<u8>>)
    requires
        l1.len() > 0,
        l2.len() > 0,
        l1[0].len() != l2[0].len(),
        l1[0].len() < 0x10000000000000000,
        l2[0].len() < 0x10000000000000000,
    ensures
        enc_byte_list_bytes(l1) != enc_byte_list_bytes(l2),
{
    let e1 = enc_byte_list_bytes(l1);
    let e2 = enc_byte_list_bytes(l2);
    let p1 = nat_to_le_bytes(l1[0].len(), 8);
    let p2 = nat_to_le_bytes(l2[0].len(), 8);
    lemma_nat_to_le_bytes_len(l1[0].len(), 8);
    lemma_nat_to_le_bytes_len(l2[0].len(), 8);
    assert(l1[0].len() < pow256(8) && l2[0].len() < pow256(8)) by {
        assert(pow256(8) == 0x10000000000000000) by {
            reveal_with_fuel(pow256, 9);
        }
    }
    if p1 == p2 {
        lemma_le_bytes_roundtrip(l1[0].len(), 8);
        lemma_le_bytes_roundtrip(l2[0].len(), 8);
        assert(false);
    }
    if e1 == e2 {
        assert(e1.subrange(0, 8) =~= p1);
        assert(e2.subrange(0, 8) =~= p2);
        assert(false);
    }
}

/// Two variable-length byte strings of different lengths have distinct
/// native-field-element encodings: the leading length element differs.
pub proof fn lemma_enc_bytes_with_len_distinct(b1: Seq<u8>, b2: Seq<u8>)
    requires
        b1.len() != b2.len(),
    ensures
        enc_bytes_with_len(b1) != enc_bytes_with_len(b2),
{
    assert(enc_bytes_with_len(b1)[0] == b1.len() as nat);
    assert(enc_bytes_with_len(b2)[0] == b2.len() as nat);
}

/// The field elements a byte string packs into, 31 bytes to an element.
pub fn bytes_to_fes(b: &Vec<u8>) -> (r: Vec<Fe>)
    ensures
        vals(r@) == pack_bytes(b@),
        forall|i: int| 0 <= i < r@.len() ==> r@[i].wf(),
{
    let mut out: Vec<Fe> = Vec::new();
    let mut k: usize = 0;
    while k < b.len()
        invariant
            k <= b@.len(),
            forall|i: int| 0 <= i < out@.len() ==> out@[i].wf(),
            pack_bytes(b@) == vals(out@) + pack_bytes_from(b@, k as int),
        decreases b@.len() - k,
    {
        let end = if b.len() - k > 31 {
            k + 31
        } else {
            b.len()
        };
        let mut chunk: Vec<u8> = Vec::new();
        let mut j: usize = k;
        while j < end
            invariant
                k <= j <= end <= b@.len(),
                chunk@ == b@.subrange(k as int, j as int),
            decreases end - j,
        {
            chunk.push(b[j]);
            assert(chunk@ =~= b@.subrange(k as int, j + 1));
            j = j + 1;
        }
        let e = Fe::from_le_bytes(&chunk);
        proof {
            lemma_chunk_below_order(chunk@);
            vstd::arithmetic::div_mod::lemma_small_mod(bytes_le_nat(chunk@), fr_order());
            assert(pack_bytes_from(b@, k as int) == seq![bytes_le_nat(
                b@.subrange(k as int, end as int),
            )] + pack_bytes_from(b@, end as int));
        }
        out.push(e);
        proof {
            assert(vals(out@) =~= vals(out@.drop_last()) + seq![e.as_nat()]);
            assert(pack_bytes(b@) =~= vals(out@) + pack_bytes_from(b@, end as int));
        }
        k = end;
    }
    proof {
        assert(pack_bytes_from(b@, k as int) =~= Seq::<nat>::empty());
        assert(pack_bytes(b@) =~= vals(out@));
    }
    out
}

/// The views of a list of byte strings.
pub open spec fn views(l: Seq<Vec<u8>>) -> Seq<Seq<u8>> {
    Seq::new(l.len(), |i: int| l[i]@)
}

/// Extending one encoded list entry extends its byte encoding.
proof fn lemma_enc_fe_list_take(s: Seq<nat>, i: int)
    requires
        0 <= i < s.len(),
    ensures
        enc_fe_list_bytes(s.take(i + 1)) == enc_fe_list_bytes(s.take(i)) + enc_fe_bytes(s[i]),
    decreases i,
{
    if i == 0 {
        assert(s.take(1).drop_first() =~= Seq::<nat>::empty());
        assert(s.take(1)[0] == s[0]);
        assert(enc_fe_list_bytes(s.take(1)) == enc_fe_bytes(s.take(1)[0]) + enc_fe_list_bytes(
            s.take(1).drop_first(),
        ));
        assert(enc_fe_list_bytes(Seq::<nat>::empty()) =~= Seq::<u8>::empty());
        assert(enc_fe_list_bytes(s.take(1)) =~= enc_fe_bytes(s[0]));
        assert(enc_fe_list_bytes(s.take(0)) + enc_fe_bytes(s[0]) =~= enc_fe_bytes(s[0]));
    } else {
        let sdf = s.drop_first();
        lemma_enc_fe_list_take(sdf, i - 1);
        assert(s.take(i + 1).drop_first() =~= sdf.take(i));
        assert(s.take(i).drop_first() =~= sdf.take(i - 1));
        assert(s.take(i + 1)[0] == s[0]);
        assert(s.take(i)[0] == s[0]);
        assert(sdf[i - 1] == s[i]);
        assert(enc_fe_list_bytes(s.take(i + 1)) == enc_fe_bytes(s[0]) + enc_fe_list_bytes(
            sdf.take(i),
        ));
        assert(enc_fe_bytes(s[0]) + (enc_fe_list_bytes(sdf.take(i - 1)) + enc_fe_bytes(s[i]))
            =~= (enc_fe_bytes(s[0]) + enc_fe_list_bytes(sdf.take(i - 1))) + enc_fe_bytes(s[i]));
    }
}

/// Extending one encoded list entry extends its byte encoding.
proof fn lemma_enc_byte_list_take(l: Seq<Seq<u8>>, i: int)
    requires
        0 <= i < l.len(),
    ensures
        enc_byte_list_bytes(l.take(i + 1)) == enc_byte_list_bytes(l.take(i))
            + enc_bytes_with_len_bytes(l[i]),
    decreases i,
{
    if i == 0 {
        assert(l.take(1).drop_first() =~= Seq::<Seq<u8>>::empty());
        assert(l.take(1)[0] == l[0]);
        assert(enc_byte_list_bytes(l.take(1)) == enc_bytes_with_len_bytes(l.take(1)[0])
            + enc_byte_list_bytes(l.take(1).drop_first()));
        assert(enc_byte_list_bytes(Seq::<Seq<u8>>::empty()) =~= Seq::<u8>::empty());
        assert(enc_byte_list_bytes(l.take(1)) =~= enc_bytes_with_len_bytes(l[0]));
        assert(enc_byte_list_bytes(l.take(0)) + enc_bytes_with_len_bytes(l[0])
            =~= enc_bytes_with_len_bytes(l[0]));
    } else {
        let ldf = l.drop_first();
        lemma_enc_byte_list_take(ldf, i - 1);
        assert(l.take(i + 1).drop_first() =~= ldf.take(i));
        assert(l.take(i).drop_first() =~= ldf.take(i - 1));
        assert(l.take(i + 1)[0] == l[0]);
        assert(l.take(i)[0] == l[0]);
        assert(ldf[i - 1] == l[i]);
        assert(enc_byte_list_bytes(l.take(i + 1)) == enc_bytes_with_len_bytes(l[0])
            + enc_byte_list_bytes(ldf.take(i)));
        assert(enc_bytes_with_len_bytes(l[0]) + (enc_byte_list_bytes(ldf.take(i - 1))
            + enc_bytes_with_len_bytes(l[i])) =~= (enc_bytes_with_len_bytes(l[0])
            + enc_byte_list_bytes(ldf.take(i - 1))) + enc_bytes_with_len_bytes(l[i]));
    }
}

/// Appends one byte string to another.
fn append_bytes(dst: &mut Vec<u8>, src: &Vec<u8>)
    ensures
        final(dst)@ == old(dst)@ + src@,
{
    let mut j: usize = 0;
    while j < src.len()
        invariant
            j <= src@.len(),
            dst@ == old(dst)@ + src@.take(j as int),
        decreases src@.len() - j,
    {
        dst.push(src[j]);
        proof {
            assert(old(dst)@ + src@.take(j + 1) =~= (old(dst)@ + src@.take(j as int)).push(
                src@[j as int],
            ));
        }
        j = j + 1;
    }
    proof {
        assert(src@.take(src@.len() as int) =~= src@);
    }
}

/// The byte encoding of one field element: its 32 little-endian bytes.
pub fn fe_to_sponge_bytes(x: &Fe) -> (r: Vec<u8>)
    ensures
        r@ == enc_fe_bytes(x.as_nat()),
{
    x.to_le_bytes()
}

/// The byte encoding of a list of field elements, element by element.
pub fn fe_list_to_sponge_bytes(v: &Vec<Fe>) -> (r: Vec<u8>)
    ensures
        r@ == enc_fe_list_bytes(vals(v@)),
{
    let mut out: Vec<u8> = Vec::new();
    let mut i: usize = 0;
    while i < v.len()
        invariant
            i <= v@.len(),
            out@ == enc_fe_list_bytes(vals(v@).take(i as int)),
        decreases v@.len() - i,
    {
        let b = v[i].to_le_bytes();
        append_bytes(&mut out, &b);
        proof {
            lemma_enc_fe_list_take(vals(v@), i as int);
        }
        i = i + 1;
    }
    proof {
        assert(vals(v@).take(v@.len() as int) =~= vals(v@));
    }
    out
}

/// The eight little-endian bytes of a length.
fn len_to_bytes(n: u64) -> (r: Vec<u8>)
    ensures
        r@ == nat_to_le_bytes(n as nat, 8),
{
    let mut out: Vec<u8> = Vec::new();
    let mut cur: u64 = n;
    let mut i: usize = 0;
    while i < 8
        invariant
            i <= 8,
            out@.len() == i,
            nat_to_le_bytes(n as nat, 8) == out@ + nat_to_le_bytes(cur as nat, (8 - i) as nat),
        decreases 8 - i,
    {
        let b = (cur % 256) as u8;
        let ghost prev = cur;
        out.push(b);
        cur = cur / 256;
        proof {
            assert(nat_to_le_bytes(prev as nat, (8 - i) as nat) == seq![(prev as nat % 256) as u8]
                + nat_to_le_bytes(prev as nat / 256, (7 - i) as nat));
            assert(out@ + nat_to_le_bytes(cur as nat, (7 - i) as nat) =~= out@.drop_last()
                + nat_to_le_bytes(prev as nat, (8 - i) as nat));
        }
        i = i + 1;
    }
    proof {
        assert(nat_to_le_bytes(cur as nat, 0) =~= Seq::<u8>::empty());
        assert(out@ + Seq::<u8>::empty() =~= out@);
    }
    out
}

/// The byte encoding of a variable-length byte string: eight length bytes,
/// then the bytes themselves.
pub fn bytes_with_len_to_sponge_bytes(b: &Vec<u8>) -> (r: Vec<u8>)
    ensures
        r@ == enc_bytes_with_len_bytes(b@),
{
    let mut out = len_to_bytes(b.len() as u64);
    append_bytes(&mut out, b);
    out
}

/// The byte encoding of a list of variable-length byte strings.
pub fn byte_list_to_sponge_bytes(l: &Vec<Vec<u8>>) -> (r: Vec<u8>)
    ensures
        r@ == enc_byte_list_bytes(views(l@)),
{
    let mut out: Vec<u8> = Vec::new();
    let mut i: usize = 0;
    while i < l.len()
        invariant
            i <= l@.len(),
            out@ == enc_byte_list_bytes(views(l@).take(i as int)),
        decreases l@.len() - i,
    {
        let e = bytes_with_len_to_sponge_bytes(&l[i]);
        append_bytes(&mut out, &e);
        proof {
            lemma_enc_byte_list_take(views(l@), i as int);
        }
        i = i + 1;
    }
    proof {
        assert(views(l@).take(l@.len() as int) =~= views(l@));
    }
    out
}

/// The values a list of field elements holds; the native-field-element
/// encoding of a field element is the element itself.
pub open spec fn vals(s: Seq<Fe>) -> Seq<nat> {
    Seq::new(s.len(), |i: int| s[i].as_nat())
}

} // verus!
