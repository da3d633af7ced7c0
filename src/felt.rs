use starknet_crypto::{poseidon_hash_many, FieldElement};
use vstd::prelude::*;

verus! {

/// The prime modulus of the Stark field: 2^251 + 17 * 2^192 + 1.
pub open spec fn field_prime() -> nat {
    0x0800000000000011nat * pow256(24) + 1
}

/// The number that a big-endian byte string denotes.
pub open spec fn be_value(s: Seq<u8>) -> nat
    decreases s.len(),
{
    if s.len() == 0 {
        0
    } else {
        be_value(s.drop_last()) * 256 + s.last() as nat
    }
}

/// A byte string that the field accepts as an element: at most 32 bytes,
/// denoting a value below the modulus.
pub open spec fn fits_felt(s: Seq<u8>) -> bool {
    s.len() <= 32 && be_value(s) < field_prime()
}

/// The values of a sequence of 32-byte field elements.
pub open spec fn felt_values(v: Seq<[u8; 32]>) -> Seq<nat> {
    v.map_values(|a: [u8; 32]| be_value(a@))
}

/// A sequence of 32-byte words that are all canonical field elements.
pub open spec fn all_canonical(v: Seq<[u8; 32]>) -> bool {
    forall|i: int| 0 <= i < v.len() ==> be_value(#[trigger] v[i]@) < field_prime()
}

/// The Poseidon hash (Starknet's variant) of a sequence of field elements.
pub uninterp spec fn poseidon_hash_of(xs: Seq<nat>) -> nat;

pub proof fn lemma_felt_values_push(v: Seq<[u8; 32]>, a: [u8; 32])
    ensures
        felt_values(v.push(a)) == felt_values(v).push(be_value(a@)),
{
    assert(felt_values(v.push(a)) =~= felt_values(v).push(be_value(a@)));
}

/// 256 to the power n.
pub open spec fn pow256(n: nat) -> nat
    decreases n,
{
    if n == 0 {
        1
    } else {
        pow256((n - 1) as nat) * 256
    }
}

/// A string of n bytes denotes a value below 256^n.
pub proof fn lemma_be_value_bound(s: Seq<u8>)
    ensures
        be_value(s) < pow256(s.len()),
    decreases s.len(),
{
    if s.len() > 0 {
        lemma_be_value_bound(s.drop_last());
        let p = pow256((s.len() - 1) as nat);
        assert(be_value(s.drop_last()) + 1 <= p);
        assert((be_value(s.drop_last()) + 1) * 256 <= p * 256) by (nonlinear_arith)
            requires
                be_value(s.drop_last()) + 1 <= p,
        ;
    }
}

/// Relies on starknet_ff's `FieldElement::from_byte_slice_be`: it accepts a
/// slice of at most 32 bytes whose big-endian value is below the modulus, and
/// keeps that value; `to_bytes_be` gives it back as 32 big-endian bytes.
#[verifier::external_body]
pub(crate) fn felt_from_be_slice(bytes: &[u8]) -> (r: Option<[u8; 32]>)
    ensures
        r.is_some() <==> fits_felt(bytes@),
        r matches Some(f) ==> be_value(f@) == be_value(bytes@),
{
    FieldElement::from_byte_slice_be(bytes).ok().map(|f| f.to_bytes_be())
}

/// Relies on starknet_ff's `From<usize> for FieldElement`: the element has the
/// integer's value; `to_bytes_be` gives it as 32 big-endian bytes.
#[verifier::external_body]
pub(crate) fn felt_from_usize(n: usize) -> (r: [u8; 32])
    ensures
        be_value(r@) == n as nat,
{
    FieldElement::from(n).to_bytes_be()
}

/// Relies on starknet_crypto's `poseidon_hash_many`, which the crate documents
/// as equal to feeding each element to a `PoseidonHasher` and finalising. The
/// result is a field element, so below the modulus.
#[verifier::external_body]
pub(crate) fn poseidon_many(xs: &Vec<[u8; 32]>) -> (r: [u8; 32])
    requires
        all_canonical(xs@),
    ensures
        be_value(r@) == poseidon_hash_of(felt_values(xs@)),
        be_value(r@) < field_prime(),
{
    let felts: Vec<FieldElement> = xs.iter().map(|b| FieldElement::from_bytes_be(b).unwrap()).collect();
    poseidon_hash_many(&felts).to_bytes_be()
}

} // verus!
