use vstd::prelude::*;

use crate::encoding::{fr_modulus, le_value, to_array, DecodeError};

verus! {

#[verifier::external_type_specification]
#[verifier::external_body]
pub struct ExOsRng(rand_core::OsRng);

/// The compressed decaf377 encoding of `k` times the group's generator.
pub uninterp spec fn generator_multiple(k: nat) -> Seq<u8>;

/// Relies on `decaf377::Fr::rand`, read back through `Fr::to_bytes`: a scalar
/// drawn from the operating system's generator, in its canonical
/// little-endian encoding. `OsRng` is a unit struct that keeps no state.
#[verifier::external_body]
fn fr_rand(rng: &mut rand_core::OsRng) -> (r: [u8; 32])
    ensures
        le_value(r@) < fr_modulus(),
        *final(rng) == *old(rng),
{
    decaf377::Fr::rand(rng).to_bytes()
}

/// Relies on `decaf377::Fr::from_bytes_checked`: it accepts exactly the
/// little-endian encodings of integers below the group order.
#[verifier::external_body]
fn fr_from_bytes_checked(bytes: &[u8; 32]) -> (r: Result<(), decaf377::EncodingError>)
    ensures
        r is Ok <==> le_value(bytes@) < fr_modulus(),
{
    decaf377::Fr::from_bytes_checked(bytes).map(|_| ())
}

/// Relies on `decaf377::Element::GENERATOR`, written through
/// `Element::vartime_compress`: the compressed encoding of the generator.
#[verifier::external_body]
fn generator_encoding() -> (r: [u8; 32])
    ensures
        r@ == generator_multiple(1),
{
    decaf377::Element::GENERATOR.vartime_compress().0
}

/// Relies on `Fr * Element`, with the point read through
/// `decaf377::Encoding::vartime_decompress` and the product written through
/// `Element::vartime_compress`: `s` times the point `k * G` is `(k * s) * G`.
#[verifier::external_body]
fn scalar_mul(scalar: &[u8; 32], point: &[u8; 32]) -> (r: [u8; 32])
    requires
        le_value(scalar@) < fr_modulus(),
        exists|k: nat| point@ == generator_multiple(k),
    ensures
        forall|k: nat| point@ == #[trigger] generator_multiple(k) ==> r@ == generator_multiple(
            k * le_value(scalar@),
        ),
{
    let s = decaf377::Fr::from_bytes_checked(scalar).expect("scalar is canonical");
    let p = decaf377::Encoding(*point).vartime_decompress().expect("point is valid");
    (s * p).vartime_compress().0
}

/// Relies on `decaf377::Encoding::vartime_decompress`: it accepts exactly the
/// compressed encodings of group elements, each a multiple of the generator.
#[verifier::external_body]
fn element_decompress(bytes: &[u8; 32]) -> (r: Result<(), decaf377::EncodingError>)
    ensures
        r is Ok <==> exists|k: nat| bytes@ == generator_multiple(k),
{
    decaf377::Encoding(*bytes).vartime_decompress().map(|_| ())
}

/// The shared secret computed with own scalar `s` against the public key
/// `k * G`: the compressed encoding of `(k * s) * G`.
pub open spec fn agreed(s: nat, k: nat) -> Seq<u8> {
    generator_multiple(k * s)
}

/// A `SharedSecret` derived at the end of the key agreement protocol.
#[derive(Clone, Copy, Debug, PartialEq, Eq)]
pub struct SharedSecret(pub [u8; 32]);

/// An `EphemeralSecretKey` is used once and consumed when forming a
/// `SharedSecret`. It holds a scalar in its canonical encoding.
pub struct EphemeralSecretKey {
    bytes: [u8; 32],
}

/// An `EphemeralPublicKey` sent to the other participant in the key agreement
/// protocol. It holds the compressed encoding of a group element.
#[derive(Clone, Copy, Debug, PartialEq, Eq)]
pub struct EphemeralPublicKey {
    encoding: [u8; 32],
}

impl View for EphemeralSecretKey {
    type V = nat;

    /// The scalar.
    closed spec fn view(&self) -> nat {
        le_value(self.bytes@)
    }
}

impl View for EphemeralPublicKey {
    type V = Seq<u8>;

    /// The compressed encoding of the point.
    closed spec fn view(&self) -> Seq<u8> {
        self.encoding@
    }
}

impl EphemeralSecretKey {
    #[verifier::type_invariant]
    closed spec fn in_range(self) -> bool {
        le_value(self.bytes@) < fr_modulus()
    }

    /// Draws a scalar from the operating system's generator.
    pub fn generate(rng: &mut rand_core::OsRng) -> (r: EphemeralSecretKey)
        ensures
            r@ < fr_modulus(),
            *final(rng) == *old(rng),
    {
        let bytes = fr_rand(rng);
        EphemeralSecretKey { bytes }
    }

    /// Decodes a secret key from the canonical encoding of a scalar.
    pub fn from_bytes(bytes: [u8; 32]) -> (r: Result<EphemeralSecretKey, DecodeError>)
        ensures
            match r {
                Ok(k) => le_value(bytes@) < fr_modulus() && k@ == le_value(bytes@),
                Err(e) => le_value(bytes@) >= fr_modulus() && e == DecodeError::NonCanonicalEncoding,
            },
    {
        match fr_from_bytes_checked(&bytes) {
            Ok(()) => Ok(EphemeralSecretKey { bytes }),
            Err(_) => Err(DecodeError::NonCanonicalEncoding),
        }
    }

    /// The public key: the scalar times the generator.
    pub fn derive_public(&self) -> (r: EphemeralPublicKey)
        ensures
            r@ == generator_multiple(self@),
    {
        proof {
            use_type_invariant(self);
        }
        let generator = generator_encoding();
        let encoding = scalar_mul(&self.bytes, &generator);
        assert(1 * self@ == self@);
        EphemeralPublicKey { encoding }
    }

    /// Consumes the secret key and computes the secret shared with the holder
    /// of `other`.
    pub fn key_agreement_with(self, other: &EphemeralPublicKey) -> (r: SharedSecret)
        ensures
            forall|k: nat| other@ == generator_multiple(k) ==> r.0@ == agreed(self@, k),
    {
        proof {
            use_type_invariant(&self);
            use_type_invariant(other);
        }
        SharedSecret(scalar_mul(&self.bytes, &other.encoding))
    }
}

impl EphemeralPublicKey {
    #[verifier::type_invariant]
    closed spec fn in_group(self) -> bool {
        exists|k: nat| self.encoding@ == generator_multiple(k)
    }

    /// The compressed encoding of the point.
    pub fn to_bytes(&self) -> (r: [u8; 32])
        ensures
            r@ == self@,
            exists|k: nat| r@ == generator_multiple(k),
    {
        proof {
            use_type_invariant(self);
        }
        self.encoding
    }

    /// Decodes a public key from the compressed encoding of a group element.
    pub fn from_bytes(slice: &[u8]) -> (r: Result<EphemeralPublicKey, DecodeError>)
        ensures
            slice@.len() != 32 ==> r == Err::<EphemeralPublicKey, DecodeError>(
                DecodeError::WrongLength,
            ),
            slice@.len() == 32 ==> match r {
                Ok(p) => p@ == slice@ && exists|k: nat| slice@ == generator_multiple(k),
                Err(e) => e == DecodeError::InvalidGroupElement && !exists|k: nat|
                    slice@ == generator_multiple(k),
            },
    {
        if slice.len() != 32 {
            return Err(DecodeError::WrongLength);
        }
        let encoding = to_array(slice);
        match element_decompress(&encoding) {
            Ok(()) => Ok(EphemeralPublicKey { encoding }),
            Err(_) => Err(DecodeError::InvalidGroupElement),
        }
    }
}

/// Both parties arrive at the same secret: agreeing with scalar `a` against
/// the public key of scalar `b` gives what agreeing with `b` against the
/// public key of `a` gives.
pub proof fn lemma_agreement_symmetric(a: nat, b: nat)
    ensures
        agreed(a, b) == agreed(b, a),
{
    assert(b * a == a * b) by (nonlinear_arith);
}

} // verus!
