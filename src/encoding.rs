use vstd::prelude::*;

verus! {

/// Two to the power 128.
pub open spec fn pow2_128() -> nat {
    0x1_0000_0000_0000_0000 * 0x1_0000_0000_0000_0000
}

/// Order of the prime field `Fq` over which decaf377 is defined (the scalar
/// field of BLS12-377).
pub open spec fn fq_modulus() -> nat {
    24816042705469851428715921836879622145 * pow2_128() + 119186395603467824967552807397668945921
}

/// Order of the decaf377 group, the modulus of its scalar field `Fr`.
pub open spec fn fr_modulus() -> nat {
    6204010676367462857178980459219905536 * pow2_128() + 109763283250993810317608736122728339967
}

/// The unsigned integer that a byte string denotes, least significant byte first.
pub open spec fn le_value(s: Seq<u8>) -> nat
    decreases s.len(),
{
    if s.len() == 0 {
        0
    } else {
        s[0] as nat + 256 * le_value(s.drop_first())
    }
}

/// Byte strings of one length that agree above index `i` and differ at `i`
/// compare as integers as they compare at `i`.
pub proof fn lemma_le_value_lt(a: Seq<u8>, b: Seq<u8>, i: int)
    requires
        a.len() == b.len(),
        0 <= i < a.len(),
        a[i] < b[i],
        forall|j: int| i < j < a.len() ==> a[j] == b[j],
    ensures
        le_value(a) < le_value(b),
    decreases i,
{
    let ra = a.drop_first();
    let rb = b.drop_first();
    if i == 0 {
        assert(ra =~= rb);
    } else {
        assert forall|j: int| i - 1 < j < ra.len() implies ra[j] == rb[j] by {
            assert(ra[j] == a[j + 1]);
            assert(rb[j] == b[j + 1]);
        }
        lemma_le_value_lt(ra, rb, i - 1);
        assert(a[0] as nat + 256 * le_value(ra) < b[0] as nat + 256 * le_value(rb))
            by (nonlinear_arith)
            requires
                le_value(ra) < le_value(rb),
                a[0] < 256,
        ;
    }
}

/// Byte strings of one length that denote the same integer are equal.
pub proof fn lemma_le_value_injective(a: Seq<u8>, b: Seq<u8>)
    requires
        a.len() == b.len(),
        le_value(a) == le_value(b),
    ensures
        a == b,
{
    if a != b {
        let i = choose|i: int| 0 <= i < a.len() && a[i] != b[i] && forall|j: int|
            i < j < a.len() ==> a[j] == b[j];
        assert(false) by {
            lemma_highest_difference(a, b);
            if a[i] < b[i] {
                lemma_le_value_lt(a, b, i);
            } else {
                lemma_le_value_lt(b, a, i);
            }
        }
    }
}

/// Two distinct byte strings of one length differ at a highest index.
proof fn lemma_highest_difference(a: Seq<u8>, b: Seq<u8>)
    requires
        a.len() == b.len(),
        a != b,
    ensures
        exists|i: int| 0 <= i < a.len() && a[i] != b[i] && forall|j: int|
            i < j < a.len() ==> a[j] == b[j],
    decreases a.len(),
{
    let n = a.len() as int;
    if n == 0 {
        assert(a =~= b);
    } else if a[n - 1] != b[n - 1] {
        assert(0 <= n - 1 < a.len() && a[n - 1] != b[n - 1] && forall|j: int|
            n - 1 < j < a.len() ==> a[j] == b[j]);
    } else {
        let da = a.drop_last();
        let db = b.drop_last();
        if da =~= db {
            assert forall|j: int| 0 <= j < n implies a[j] == b[j] by {
                if j < n - 1 {
                    assert(a[j] == da[j] && b[j] == db[j]);
                }
            }
            assert(a =~= b);
        }
        lemma_highest_difference(da, db);
        let i = choose|i: int| 0 <= i < da.len() && da[i] != db[i] && forall|j: int|
            i < j < da.len() ==> da[j] == db[j];
        assert(a[i] == da[i] && b[i] == db[i]);
        assert forall|j: int| i < j < a.len() implies a[j] == b[j] by {
            if j < n - 1 {
                assert(a[j] == da[j] && b[j] == db[j]);
            }
        }
    }
}

/// Why a byte string was refused as the encoding of a value.
#[derive(Clone, Copy, Debug, PartialEq, Eq, Structural)]
pub enum DecodeError {
    /// The input is not exactly 32 bytes long.
    WrongLength,
    /// The integer the bytes denote is not below the relevant modulus.
    NonCanonicalEncoding,
    /// The bytes are not the encoding of a point of the prime-order group.
    InvalidGroupElement,
}

#[verifier::external_type_specification]
#[verifier::external_body]
pub struct ExEncodingError(decaf377::EncodingError);

/// Copies a slice of exactly 32 bytes into an array.
pub fn to_array(slice: &[u8]) -> (r: [u8; 32])
    requires
        slice@.len() == 32,
    ensures
        r@ == slice@,
{
    let mut r: [u8; 32] = [0u8; 32];
    let mut i: usize = 0;
    while i < 32
        invariant
            0 <= i <= 32,
            slice@.len() == 32,
            forall|j: int| 0 <= j < i ==> r@[j] == slice@[j],
        decreases 32 - i,
    {
        r[i] = slice[i];
        i = i + 1;
    }
    assert(r@ =~= slice@);
    r
}

} // verus!
