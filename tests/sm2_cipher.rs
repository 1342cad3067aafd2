use libsm::sm2::ecc::EccCtx;
use libsm::sm3::hash::Sm3Hash;
use sm2_cipher::cipher::{
    is_degenerate_mask, open_with_mask, seal_with_mask, xor_bytes, CipherError, DecryptCtx,
    EncryptCtx, POINT_LEN,
};
use sm2_cipher::kdf::{kdf, DIGEST_LEN};

fn keypair() -> (Vec<u8>, Vec<u8>) {
    let ecc = EccCtx::new();
    let sk = ecc.random_uint();
    let pk = ecc.mul(&sk, &ecc.generator().unwrap()).unwrap();
    let pk_bytes = ecc.point_to_bytes(&pk, false).unwrap();
    (pk_bytes, sk.to_bytes_be())
}

fn sm3(data: &[u8]) -> Vec<u8> {
    Sm3Hash::new(data).get_hash().to_vec()
}

const GENERATOR: [u8; 65] = [
    0x04, 0x32, 0xc4, 0xae, 0x2c, 0x1f, 0x19, 0x81, 0x19, 0x5f, 0x99, 0x04, 0x46, 0x6a, 0x39,
    0xc9, 0x94, 0x8f, 0xe3, 0x0b, 0xbf, 0xf2, 0x66, 0x0b, 0xe1, 0x71, 0x5a, 0x45, 0x89, 0x33,
    0x4c, 0x74, 0xc7, 0xbc, 0x37, 0x36, 0xa2, 0xf4, 0xf6, 0x77, 0x9c, 0x59, 0xbd, 0xce, 0xe3,
    0x6b, 0x69, 0x21, 0x53, 0xd0, 0xa9, 0x87, 0x7c, 0xc6, 0x2a, 0x47, 0x40, 0x02, 0xdf, 0x32,
    0xe5, 0x21, 0x39, 0xf0, 0xa0,
];

#[test]
fn sm2_encrypt_decrypt_test() {
    let msg = "aaaaaaaaaaa123aabb".as_bytes();
    let klen = msg.len();
    let (pk_b, sk_b) = keypair();

    let encrypt_ctx = EncryptCtx::new(klen, pk_b);
    let cipher = encrypt_ctx.encrypt(msg).unwrap();

    let decrypt_ctx = DecryptCtx::new(klen, sk_b);
    let plain = decrypt_ctx.decrypt(&cipher).unwrap();
    assert_eq!(msg, plain.as_slice());
}

#[test]
fn concrete_sixteen_byte_message() {
    let msg = "0123456789ABCDEF".as_bytes();
    let (pk_b, sk_b) = keypair();
    let cipher = EncryptCtx::new(16, pk_b).encrypt(msg).unwrap();
    assert_eq!(cipher.len(), 65 + 16 + 32);
    assert_eq!(cipher[0], 0x04);
    let plain = DecryptCtx::new(16, sk_b).decrypt(&cipher).unwrap();
    assert_eq!(plain, b"0123456789ABCDEF".to_vec());
}

#[test]
fn round_trip_various_lengths() {
    let (pk_b, sk_b) = keypair();
    for klen in [1usize, 2, 31, 32, 33, 64, 100] {
        let msg: Vec<u8> = (0..klen).map(|i| (i * 7 + 3) as u8).collect();
        let cipher = EncryptCtx::new(klen, pk_b.clone()).encrypt(&msg).unwrap();
        assert_eq!(cipher.len(), POINT_LEN + klen + DIGEST_LEN);
        let plain = DecryptCtx::new(klen, sk_b.clone()).decrypt(&cipher).unwrap();
        assert_eq!(plain, msg);
    }
}

#[test]
fn ciphertexts_differ_plaintexts_agree() {
    let msg = b"same message".to_vec();
    let (pk_b, sk_b) = keypair();
    let enc = EncryptCtx::new(msg.len(), pk_b);
    let c_a = enc.encrypt(&msg).unwrap();
    let c_b = enc.encrypt(&msg).unwrap();
    assert_ne!(c_a, c_b);
    let dec = DecryptCtx::new(msg.len(), sk_b);
    assert_eq!(dec.decrypt(&c_a).unwrap(), msg);
    assert_eq!(dec.decrypt(&c_b).unwrap(), msg);
}

#[test]
fn flipped_bit_in_body_is_detected() {
    let msg = b"tamper with the body".to_vec();
    let (pk_b, sk_b) = keypair();
    let mut cipher = EncryptCtx::new(msg.len(), pk_b).encrypt(&msg).unwrap();
    cipher[POINT_LEN + 3] ^= 0x10;
    let r = DecryptCtx::new(msg.len(), sk_b).decrypt(&cipher);
    assert_eq!(r, Err(CipherError::IntegrityMismatch));
}

#[test]
fn flipped_bit_in_tag_is_detected() {
    let msg = b"tamper with the tag".to_vec();
    let (pk_b, sk_b) = keypair();
    let cipher = EncryptCtx::new(msg.len(), pk_b).encrypt(&msg).unwrap();
    let dec = DecryptCtx::new(msg.len(), sk_b);
    for i in [POINT_LEN + msg.len(), cipher.len() - 1] {
        let mut bad = cipher.clone();
        bad[i] ^= 0x01;
        assert_eq!(dec.decrypt(&bad), Err(CipherError::IntegrityMismatch));
    }
}

#[test]
fn point_off_curve_is_refused() {
    let msg = b"off curve".to_vec();
    let (pk_b, sk_b) = keypair();
    let mut cipher = EncryptCtx::new(msg.len(), pk_b).encrypt(&msg).unwrap();
    cipher[64] ^= 0x01;
    let r = DecryptCtx::new(msg.len(), sk_b).decrypt(&cipher);
    assert_eq!(r, Err(CipherError::Malformed));
}

#[test]
fn bad_point_tag_is_malformed() {
    let msg = b"tag".to_vec();
    let (pk_b, sk_b) = keypair();
    let mut cipher = EncryptCtx::new(msg.len(), pk_b).encrypt(&msg).unwrap();
    cipher[0] = 0x05;
    let r = DecryptCtx::new(msg.len(), sk_b).decrypt(&cipher);
    assert_eq!(r, Err(CipherError::Malformed));
}

#[test]
fn length_mismatch_is_refused() {
    let msg = b"sixteen bytes!!!".to_vec();
    let (pk_b, sk_b) = keypair();
    let cipher = EncryptCtx::new(16, pk_b).encrypt(&msg).unwrap();
    assert_eq!(DecryptCtx::new(15, sk_b.clone()).decrypt(&cipher), Err(CipherError::Malformed));
    assert_eq!(DecryptCtx::new(17, sk_b.clone()).decrypt(&cipher), Err(CipherError::Malformed));
    assert_eq!(DecryptCtx::new(16, sk_b).decrypt(&cipher[..50]), Err(CipherError::Malformed));
}

#[test]
fn empty_and_long_ciphertexts_are_malformed() {
    let (_pk_b, sk_b) = keypair();
    let dec = DecryptCtx::new(4, sk_b);
    assert_eq!(dec.decrypt(&[]), Err(CipherError::Malformed));
    assert_eq!(dec.decrypt(&vec![0u8; 65 + 4 + 33]), Err(CipherError::Malformed));
}

#[test]
fn undecodable_public_key_is_invalid_point() {
    let enc = EncryptCtx::new(3, vec![0x04, 1, 2, 3]);
    assert_eq!(enc.encrypt(b"abc"), Err(CipherError::InvalidPoint));
}

#[test]
fn scalar_one_gives_generator_as_c1() {
    let msg = b"fixed scalar".to_vec();
    let (pk_b, sk_b) = keypair();
    let enc = EncryptCtx::new(msg.len(), pk_b);
    let c_a = enc.encrypt_with_scalar(&msg, &[1u8]).unwrap();
    let c_b = enc.encrypt_with_scalar(&msg, &[1u8]).unwrap();
    assert_eq!(c_a, c_b);
    assert_eq!(&c_a[..POINT_LEN], &GENERATOR[..]);
    assert_eq!(DecryptCtx::new(msg.len(), sk_b).decrypt(&c_a).unwrap(), msg);
}

#[test]
fn zero_mask_is_degenerate_then_nonzero_seals() {
    let c1 = GENERATOR.to_vec();
    let x2 = vec![7u8; 32];
    let y2 = vec![9u8; 32];
    let msg = b"abcd".to_vec();
    let zero = vec![0u8; 4];
    assert_eq!(
        seal_with_mask(&c1, &x2, &y2, &msg, &zero),
        Err(CipherError::DegenerateMask)
    );
    let t = vec![0u8, 0, 0, 1];
    let c = seal_with_mask(&c1, &x2, &y2, &msg, &t).unwrap();
    assert_eq!(&c[..65], &c1[..]);
    assert_eq!(&c[65..69], &[b'a', b'b', b'c', b'd' ^ 1][..]);
    let mut tagged = x2.clone();
    tagged.extend_from_slice(&msg);
    tagged.extend_from_slice(&y2);
    assert_eq!(&c[69..], &sm3(&tagged)[..]);
    assert_eq!(
        open_with_mask(&x2, &y2, &c[65..69], &c[69..], &zero),
        Err(CipherError::DegenerateMask)
    );
    assert_eq!(open_with_mask(&x2, &y2, &c[65..69], &c[69..], &t).unwrap(), msg);
    let mut bad_tag = c[69..].to_vec();
    bad_tag[0] ^= 0x80;
    assert_eq!(
        open_with_mask(&x2, &y2, &c[65..69], &bad_tag, &t),
        Err(CipherError::IntegrityMismatch)
    );
}

#[test]
fn sm3_known_digest_through_tag() {
    let c = seal_with_mask(&[], b"a", b"c", b"b", &[1u8]).unwrap();
    assert_eq!(
        c[1..].to_vec(),
        vec![
            0x66, 0xc7, 0xf0, 0xf4, 0x62, 0xee, 0xed, 0xd9, 0xd1, 0xf2, 0xd4, 0x6b, 0xdc, 0x10,
            0xe4, 0xe2, 0x41, 0x67, 0xc4, 0x87, 0x5c, 0xf2, 0xf7, 0xa2, 0x29, 0x7d, 0xa0, 0x2b,
            0x8f, 0x4b, 0xa8, 0xe0
        ]
    );
    assert_eq!(c[0], b'b' ^ 1);
}

#[test]
fn kdf_concatenates_counter_digests() {
    let z = b"shared secret seed".to_vec();
    let mut s1 = z.clone();
    s1.extend_from_slice(&[0, 0, 0, 1]);
    let mut s2 = z.clone();
    s2.extend_from_slice(&[0, 0, 0, 2]);
    let mut expected = sm3(&s1);
    expected.extend_from_slice(&sm3(&s2)[..8]);
    assert_eq!(kdf(&z, 40), expected);
    assert_eq!(kdf(&z, 32), sm3(&s1));
    assert_eq!(kdf(&z, 5), sm3(&s1)[..5].to_vec());
    assert_eq!(kdf(&z, 0), Vec::<u8>::new());
}

#[test]
fn zero_length_message_never_seals() {
    let (pk_b, _sk_b) = keypair();
    let enc = EncryptCtx::new(0, pk_b);
    assert_eq!(enc.encrypt(&[]), Err(CipherError::DegenerateMask));
}

#[test]
fn mask_helpers_exact() {
    assert!(is_degenerate_mask(&[]));
    assert!(is_degenerate_mask(&[0, 0, 0]));
    assert!(!is_degenerate_mask(&[0, 0, 1]));
    assert_eq!(xor_bytes(&[0x0f, 0xf0, 0xaa], &[0xff, 0xff, 0x55, 0x99]), vec![0xf0, 0x0f, 0xff]);
}
