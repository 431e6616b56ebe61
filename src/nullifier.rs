use vstd::prelude::*;

use crate::encoding::{
    fq_modulus, le_value, lemma_le_value_injective, lemma_le_value_lt, to_array, DecodeError,
};
use std::cmp::Ordering;
use vstd::string::StringSliceAdditionalSpecFns;

verus! {

/// What BLAKE2b-512 (default parameters, 64-byte digest) gives for a message.
pub uninterp spec fn blake2b_512(message: Seq<u8>) -> Seq<u8>;

/// Relies on `blake2b_simd::blake2b`: the BLAKE2b digest of the input with the
/// default parameters, whose output length is 64 bytes.
#[verifier::external_body]
fn blake2b(message: &[u8]) -> (r: Vec<u8>)
    ensures
        r@ == blake2b_512(message@),
        r@.len() == 64,
{
    blake2b_simd::blake2b(message).as_bytes().to_vec()
}

/// Relies on `decaf377::Fq::from_le_bytes_mod_order`, read back through
/// `Fq::to_bytes`: the bytes taken as a little-endian integer, reduced modulo
/// the field order, in the canonical 32-byte little-endian encoding.
#[verifier::external_body]
fn fq_from_le_bytes_mod_order(bytes: &[u8]) -> (r: [u8; 32])
    ensures
        le_value(r@) == le_value(bytes@) % fq_modulus(),
{
    decaf377::Fq::from_le_bytes_mod_order(bytes).to_bytes()
}

/// Relies on `decaf377::Fq::from_bytes_checked`: it accepts exactly the
/// little-endian encodings of integers below the field order.
#[verifier::external_body]
fn fq_from_bytes_checked(bytes: &[u8; 32]) -> (r: Result<(), decaf377::EncodingError>)
    ensures
        r is Ok <==> le_value(bytes@) < fq_modulus(),
{
    decaf377::Fq::from_bytes_checked(bytes).map(|_| ())
}

/// The label that nullifiers are domain-separated under.
pub open spec fn nullifier_label() -> Seq<u8> {
    "penumbra.nullifier".spec_bytes()
}

/// The field element that a label is hashed to: the BLAKE2b-512 digest of the
/// label, read little-endian and reduced modulo the field order.
pub open spec fn domain_separator_value(label: Seq<u8>) -> nat {
    le_value(blake2b_512(label)) % fq_modulus()
}

/// Hashes a label into a field element, given in its canonical encoding.
pub fn domain_separator(label: &[u8]) -> (r: [u8; 32])
    ensures
        le_value(r@) == domain_separator_value(label@),
        le_value(r@) < fq_modulus(),
{
    let digest = blake2b(label);
    fq_from_le_bytes_mod_order(digest.as_slice())
}

/// The domain separator used to derive nullifiers, in its canonical encoding.
pub fn nullifier_domain_sep() -> (r: [u8; 32])
    ensures
        le_value(r@) == domain_separator_value(nullifier_label()),
        le_value(r@) < fq_modulus(),
{
    let label: &str = "penumbra.nullifier";
    domain_separator(label.as_bytes())
}

/// An identifier of spent value: one element of `Fq`, held in its canonical
/// 32-byte little-endian encoding.
#[derive(Clone, Copy, Debug, PartialEq, Eq, Hash)]
pub struct Nullifier {
    bytes: [u8; 32],
}

impl View for Nullifier {
    type V = Seq<u8>;

    closed spec fn view(&self) -> Seq<u8> {
        self.bytes@
    }
}

/// Whether bytes are the canonical encoding of an element of `Fq`.
pub open spec fn is_canonical_fq(s: Seq<u8>) -> bool {
    s.len() == 32 && le_value(s) < fq_modulus()
}

/// What decoding gives for a byte string: the encoding itself where it is
/// canonical, else the reason it is refused.
pub open spec fn decoded(s: Seq<u8>) -> Result<Seq<u8>, DecodeError> {
    if s.len() != 32 {
        Err(DecodeError::WrongLength)
    } else if le_value(s) >= fq_modulus() {
        Err(DecodeError::NonCanonicalEncoding)
    } else {
        Ok(s)
    }
}

impl Nullifier {
    #[verifier::type_invariant]
    closed spec fn canonical(self) -> bool {
        le_value(self.bytes@) < fq_modulus()
    }

    /// The canonical 32-byte encoding of the field element.
    pub fn to_bytes(&self) -> (r: [u8; 32])
        ensures
            r@ == self@,
            is_canonical_fq(r@),
    {
        proof {
            use_type_invariant(self);
        }
        self.bytes
    }

    /// Decodes a nullifier from its canonical encoding.
    pub fn from_bytes(slice: &[u8]) -> (r: Result<Nullifier, DecodeError>)
        ensures
            match r {
                Ok(n) => decoded(slice@) == Ok::<Seq<u8>, DecodeError>(n@),
                Err(e) => decoded(slice@) == Err::<Seq<u8>, DecodeError>(e),
            },
    {
        if slice.len() != 32 {
            return Err(DecodeError::WrongLength);
        }
        let bytes = to_array(slice);
        match fq_from_bytes_checked(&bytes) {
            Ok(()) => Ok(Nullifier { bytes }),
            Err(_) => Err(DecodeError::NonCanonicalEncoding),
        }
    }
}

impl PartialOrd for Nullifier {
    /// Orders nullifiers by the field elements they hold.
    fn partial_cmp(&self, other: &Nullifier) -> (r: Option<Ordering>) {
        let mut i: usize = 32;
        while i > 0
            invariant
                i <= 32,
                forall|j: int| i <= j < 32 ==> self.bytes@[j] == other.bytes@[j],
            decreases i,
        {
            i = i - 1;
            if self.bytes[i] < other.bytes[i] {
                proof {
                    lemma_le_value_lt(self.bytes@, other.bytes@, i as int);
                }
                return Some(Ordering::Less);
            } else if self.bytes[i] > other.bytes[i] {
                proof {
                    lemma_le_value_lt(other.bytes@, self.bytes@, i as int);
                }
                return Some(Ordering::Greater);
            }
        }
        assert(self.bytes@ =~= other.bytes@);
        Some(Ordering::Equal)
    }
}

impl vstd::std_specs::cmp::PartialOrdSpecImpl for Nullifier {
    open spec fn obeys_partial_cmp_spec() -> bool {
        true
    }

    open spec fn partial_cmp_spec(&self, other: &Nullifier) -> Option<Ordering> {
        if le_value(self@) < le_value(other@) {
            Some(Ordering::Less)
        } else if le_value(self@) == le_value(other@) {
            Some(Ordering::Equal)
        } else {
            Some(Ordering::Greater)
        }
    }
}

/// Nullifiers that hold the same field element are the same nullifier, so the
/// order by field element is total and agrees with equality.
pub proof fn lemma_order_agrees_with_equality(n: Nullifier, m: Nullifier)
    requires
        n@.len() == 32,
        m@.len() == 32,
        le_value(n@) == le_value(m@),
    ensures
        n == m,
{
    lemma_le_value_injective(n@, m@);
    assert(n.bytes == m.bytes);
}

/// The domain separator is a single value: any two 32-byte encodings of the
/// element that the nullifier label hashes to are the same bytes.
pub proof fn lemma_domain_separator_deterministic(a: Seq<u8>, b: Seq<u8>)
    requires
        a.len() == 32,
        b.len() == 32,
        le_value(a) == domain_separator_value(nullifier_label()),
        le_value(b) == domain_separator_value(nullifier_label()),
    ensures
        a == b,
{
    lemma_le_value_injective(a, b);
}

/// Decoding the encoding of a nullifier gives that nullifier back: the
/// encoding is accepted as it stands, and a nullifier is determined by it.
pub proof fn lemma_round_trip(n: Nullifier)
    requires
        is_canonical_fq(n@),
    ensures
        decoded(n@) == Ok::<Seq<u8>, DecodeError>(n@),
        forall|m: Nullifier| m@ == n@ ==> m == n,
{
    assert forall|m: Nullifier| m@ == n@ implies m == n by {
        assert(m.bytes@ == n.bytes@);
        assert(m.bytes == n.bytes);
    }
}

/// Every 32-byte string at or above the field order is refused as non-canonical.
pub proof fn lemma_rejects_non_canonical(s: Seq<u8>)
    requires
        s.len() == 32,
        le_value(s) >= fq_modulus(),
    ensures
        decoded(s) == Err::<Seq<u8>, DecodeError>(DecodeError::NonCanonicalEncoding),
{
}

/// Every input whose length is not 32 is refused for its length.
pub proof fn lemma_rejects_wrong_length(s: Seq<u8>)
    requires
        s.len() != 32,
    ensures
        decoded(s) == Err::<Seq<u8>, DecodeError>(DecodeError::WrongLength),
{
}

} // verus!
