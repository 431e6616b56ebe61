use nullifier_ka::encoding::DecodeError;
use nullifier_ka::key_agreement::{EphemeralPublicKey, EphemeralSecretKey};
use rand_core::OsRng;

const GROUP_ORDER_LE: [u8; 32] = [255, 217, 63, 195, 154, 238, 90, 185, 254, 138, 60, 196, 175, 163, 147, 82, 0, 236, 13, 151, 71, 19, 45, 152, 85, 41, 139, 166, 87, 217, 170, 4];

fn scalar(n: u8) -> EphemeralSecretKey {
    let mut bytes = [0u8; 32];
    bytes[0] = n;
    EphemeralSecretKey::from_bytes(bytes).expect("small scalars are canonical")
}

#[test]
fn test_key_agreement_happy_path() {
    let mut rng = OsRng;
    let alice_secret = EphemeralSecretKey::generate(&mut rng);
    let bob_secret = EphemeralSecretKey::generate(&mut rng);

    let alice_pubkey = alice_secret.derive_public();
    let bob_pubkey = bob_secret.derive_public();

    let alice_sharedsecret = alice_secret.key_agreement_with(&bob_pubkey);
    let bob_sharedsecret = bob_secret.key_agreement_with(&alice_pubkey);

    assert_eq!(alice_sharedsecret, bob_sharedsecret);
}

#[test]
fn key_agreement_from_fixed_scalars() {
    let mut alice_bytes = [7u8; 32];
    alice_bytes[31] = 0;
    let mut bob_bytes = [3u8; 32];
    bob_bytes[31] = 0;
    let alice_secret = EphemeralSecretKey::from_bytes(alice_bytes).expect("alice secret is valid");
    let bob_secret = EphemeralSecretKey::from_bytes(bob_bytes).expect("bob secret is valid");

    let alice_pubkey = alice_secret.derive_public();
    let bob_pubkey = bob_secret.derive_public();

    let alice_sharedsecret = alice_secret.key_agreement_with(&bob_pubkey);
    let bob_sharedsecret = bob_secret.key_agreement_with(&alice_pubkey);

    assert_eq!(alice_sharedsecret, bob_sharedsecret);
}

#[test]
fn shared_secret_is_product_times_generator() {
    let two_with_three = scalar(2).key_agreement_with(&scalar(3).derive_public());
    let three_with_two = scalar(3).key_agreement_with(&scalar(2).derive_public());
    let six = scalar(6).derive_public().to_bytes();
    assert_eq!(two_with_three.0, six);
    assert_eq!(three_with_two.0, six);
}

#[test]
fn public_key_of_scalar_one_is_not_the_scalar() {
    let mut one = [0u8; 32];
    one[0] = 1;
    let public = scalar(1).derive_public().to_bytes();
    assert_ne!(public, one);
    assert_ne!(public, scalar(2).derive_public().to_bytes());
}

#[test]
fn public_key_of_zero_is_identity_encoding() {
    assert_eq!(scalar(0).derive_public().to_bytes(), [0u8; 32]);
}

#[test]
fn generated_secrets_differ() {
    let mut rng = OsRng;
    let a = EphemeralSecretKey::generate(&mut rng).derive_public().to_bytes();
    let b = EphemeralSecretKey::generate(&mut rng).derive_public().to_bytes();
    let c = EphemeralSecretKey::generate(&mut rng).derive_public().to_bytes();
    assert_ne!(a, b);
    assert_ne!(b, c);
    assert_ne!(a, c);
}

#[test]
fn group_order_is_refused_as_secret() {
    assert!(matches!(
        EphemeralSecretKey::from_bytes(GROUP_ORDER_LE),
        Err(DecodeError::NonCanonicalEncoding)
    ));
    assert!(matches!(
        EphemeralSecretKey::from_bytes([0xff; 32]),
        Err(DecodeError::NonCanonicalEncoding)
    ));
}

#[test]
fn largest_scalar_is_accepted_as_secret() {
    let mut bytes = GROUP_ORDER_LE;
    bytes[0] -= 1;
    assert!(EphemeralSecretKey::from_bytes(bytes).is_ok());
}

#[test]
fn alice_and_bob_exchange_and_tampering_is_seen() {
    let mut rng = OsRng;
    let alice_secret = EphemeralSecretKey::generate(&mut rng);
    let bob_secret = EphemeralSecretKey::generate(&mut rng);
    let mallory_secret = EphemeralSecretKey::generate(&mut rng);

    let alice_wire = alice_secret.derive_public().to_bytes();
    let bob_wire = bob_secret.derive_public().to_bytes();
    let mallory_wire = mallory_secret.derive_public().to_bytes();

    let alice_pubkey = EphemeralPublicKey::from_bytes(&alice_wire).expect("valid point");
    let bob_pubkey = EphemeralPublicKey::from_bytes(&bob_wire).expect("valid point");
    let tampered = EphemeralPublicKey::from_bytes(&mallory_wire).expect("valid point");

    let bob_view = bob_secret.key_agreement_with(&alice_pubkey);
    let alice_view = alice_secret.key_agreement_with(&bob_pubkey);
    assert_eq!(alice_view, bob_view);

    let mut carol_bytes = [9u8; 32];
    carol_bytes[31] = 0;
    let honest = EphemeralSecretKey::from_bytes(carol_bytes)
        .expect("valid scalar")
        .key_agreement_with(&alice_pubkey);
    let fooled = EphemeralSecretKey::from_bytes(carol_bytes)
        .expect("valid scalar")
        .key_agreement_with(&tampered);
    assert_ne!(honest, fooled);
}

#[test]
fn public_key_round_trips_through_bytes() {
    let public = scalar(5).derive_public();
    let decoded = EphemeralPublicKey::from_bytes(&public.to_bytes()).expect("valid point");
    assert_eq!(decoded, public);
}

#[test]
fn public_key_refuses_wrong_length() {
    assert_eq!(EphemeralPublicKey::from_bytes(&[0u8; 31]), Err(DecodeError::WrongLength));
    assert_eq!(EphemeralPublicKey::from_bytes(&[0u8; 33]), Err(DecodeError::WrongLength));
    assert_eq!(EphemeralPublicKey::from_bytes(&[]), Err(DecodeError::WrongLength));
}

#[test]
fn public_key_refuses_invalid_point() {
    assert_eq!(
        EphemeralPublicKey::from_bytes(&[0xff; 32]),
        Err(DecodeError::InvalidGroupElement)
    );
}
