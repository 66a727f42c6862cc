use ecc::curve::Curve;
use ecc::point::Point;
use ecc::protocols::diffie_hellman::DiffieHellman;
use ecc::protocols::elgamal::{Ciphertext, ElGamal};

fn setup_test_curve() -> (Curve, Point) {
    let curve = Curve::new(0, 7, 223).unwrap(); // y^2 = x^3 + 7
    let generator = curve.point(15, 86).unwrap();
    (curve, generator)
}

#[test]
fn test_diffie_hellman_key_exchange() {
    // small prime for the test
    let curve = Curve::new(0, 7, 223).unwrap();
    let generator = curve.point(15, 86).unwrap();

    // Alice and Bob
    let alice = DiffieHellman::new(curve.clone(), generator.clone()).unwrap();
    let bob = DiffieHellman::new(curve.clone(), generator.clone()).unwrap();

    // shared secrets
    let alice_shared = alice.compute_shared_secret(bob.public_key()).unwrap();
    let bob_shared = bob.compute_shared_secret(alice.public_key()).unwrap();

    // both parties agree
    assert_eq!(alice_shared.x, bob_shared.x);
    assert_eq!(alice_shared.y, bob_shared.y);
}

#[test]
fn test_different_private_keys_same_shared_secret() {
    let curve = Curve::new(0, 7, 223).unwrap();
    let generator = curve.point(15, 86).unwrap();

    // fixed, distinct private keys
    let dh1 = DiffieHellman { private_key: 7, public_key: generator.clone().mul(7).unwrap() };

    let dh2 = DiffieHellman { private_key: 13, public_key: generator.clone().mul(13).unwrap() };

    assert_ne!(dh1.private_key, dh2.private_key);

    let shared1 = dh1.compute_shared_secret(dh2.public_key()).unwrap();
    let shared2 = dh2.compute_shared_secret(dh1.public_key()).unwrap();

    assert_eq!(shared1.x, shared2.x);
    assert_eq!(shared1.y, shared2.y);
}

#[test]
fn test_encryption_decryption() {
    let (curve, generator) = setup_test_curve();

    // Alice is the recipient
    let alice = ElGamal::new(curve.clone(), generator.clone()).unwrap();

    // the message, as a point of the curve
    let message = curve.point(192, 105).unwrap();

    // a fixed ephemeral scalar keeps the test deterministic
    let ciphertext = alice.encrypt(&message, Some(17)).unwrap();

    let decrypted = alice.decrypt(&ciphertext).unwrap();

    assert_eq!(decrypted.x, message.x);
    assert_eq!(decrypted.y, message.y);
}

#[test]
fn test_different_random_values() {
    let (curve, generator) = setup_test_curve();
    let alice = ElGamal::new(curve.clone(), generator.clone()).unwrap();
    let message = curve.point(192, 105).unwrap();

    // encrypt under two different ephemeral scalars
    let ciphertext1 = alice.encrypt(&message, Some(17)).unwrap();
    let ciphertext2 = alice.encrypt(&message, Some(19)).unwrap();

    // the ciphertexts differ
    assert_ne!(ciphertext1.c1.x, ciphertext2.c1.x);
    assert_ne!(ciphertext1.c2.x, ciphertext2.c2.x);

    // but both decrypt to the message
    let decrypted1 = alice.decrypt(&ciphertext1).unwrap();
    let decrypted2 = alice.decrypt(&ciphertext2).unwrap();
    assert_eq!(decrypted1.x, decrypted2.x);
    assert_eq!(decrypted1.y, decrypted2.y);
}

#[test]
fn test_encryption_homomorphism() {
    let (curve, generator) = setup_test_curve();
    let alice = ElGamal::new(curve.clone(), generator.clone()).unwrap();

    // two messages
    let m1 = curve.point(192, 105).unwrap();
    let m2 = curve.point(17, 56).unwrap();

    // encrypted separately
    let c1 = alice.encrypt(&m1, Some(17)).unwrap();
    let c2 = alice.encrypt(&m2, Some(19)).unwrap();

    // component-wise sum of the ciphertexts
    let sum_encrypted = Ciphertext {
        c1: c1.c1.clone().add(c2.c1.clone()).unwrap(),
        c2: c1.c2.clone().add(c2.c2.clone()).unwrap(),
    };

    let sum_decrypted = alice.decrypt(&sum_encrypted).unwrap();
    let expected_sum = m1.add(m2).unwrap();

    assert_eq!(sum_decrypted.x, expected_sum.x);
    assert_eq!(sum_decrypted.y, expected_sum.y);
}
