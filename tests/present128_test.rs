use present::present128;
use present::present128::KeyRegister;

#[test]
fn present128_test_key_register_from_key1() {
    let key = present128::Key::new(&[0, 0, 0, 0, 0, 1]);
    let key_register = KeyRegister::from(key);
    assert_eq!(key_register.a, 1u64 << 16);
    assert_eq!(key_register.b, 0u64);
}

#[test]
fn present128_test_key_register_from_key2() {
    let key = present128::Key::new(&[0, 0, 0, 0, 0, 0, 0, 1, 0, 0]);
    let key_register = KeyRegister::from(key);
    assert_eq!(key_register.a, 1u64);
    assert_eq!(key_register.b, 0u64);
}

#[test]
fn present128_test_key_register_from_key3() {
    let key = present128::Key::new(&[0, 0, 0, 0, 0, 0, 0, 1, 0, 1]);
    let key_register = KeyRegister::from(key);
    assert_eq!(key_register.a, 1u64);
    assert_eq!(key_register.b, 1u64 << 48);
}

#[test]
fn present128_test_key_register_from_key4() {
    let key = present128::Key::new(&[0, 0, 0, 0, 0, 0, 0, 1, 0, 0, 0, 0, 0, 0, 0, 1]);
    let key_register = KeyRegister::from(key);
    assert_eq!(key_register.a, 1u64);
    assert_eq!(key_register.b, 1u64);
}

#[test]
fn test_key_register_from_key5() {
    let key = present128::Key::new(&[0, 0, 0, 0, 0, 0, 0, 1, 0, 0, 0, 0, 0, 0, 0, 1, 0, 1]);
    let key_register = KeyRegister::from(key);
    assert_eq!(key_register.a, 1u64);
    assert_eq!(key_register.b, 1u64);
}

#[test]
fn present128_key_register_steps() {
    let mut key_register = KeyRegister { a: 0, b: 0b1000 };
    key_register.rotate();
    assert_eq!(key_register.a, 1);
    assert_eq!(key_register.b, 0);

    let mut key_register = KeyRegister { a: 0, b: 0 };
    key_register.update2();
    assert_eq!(key_register.a, 0xCC << 56);

    let mut key_register = KeyRegister { a: 0, b: 0 };
    key_register.update3(0b10011);
    assert_eq!(key_register.a, 0b100);
    assert_eq!(key_register.b, 0b11 << 62);
}

fn encrypt_hex(key: &str, plaintext: &str) -> String {
    let key = present128::Key::new(&hex::decode(key).unwrap());
    let block = present128::encrypt_block(&hex::decode(plaintext).unwrap(), key);
    hex::encode_upper(&block[..])
}

#[test]
fn present128_known_answers() {
    let zero = "00000000000000000000000000000000";
    let ones = "FFFFFFFFFFFFFFFFFFFFFFFFFFFFFFFF";
    assert_eq!(encrypt_hex(zero, "0000000000000000"), "96DB702A2E6900AF");
    assert_eq!(encrypt_hex(ones, "0000000000000000"), "13238C710272A5D8");
    assert_eq!(encrypt_hex(zero, "FFFFFFFFFFFFFFFF"), "3C6019E5E5EDD563");
    assert_eq!(encrypt_hex(ones, "FFFFFFFFFFFFFFFF"), "628D9FBD4218E5B4");
}

#[test]
fn present128_round_trip_and_parallel() {
    let key = present128::Key::new(&[7u8; 16]);
    let data: Vec<u8> = (0..100u32).map(|i| (i * 7) as u8).collect();
    let encrypted = present128::ecb_encrypt(&data, key);
    assert_eq!(encrypted.len(), 104);
    assert_eq!(present128::par_ecb_encrypt(&data, key), encrypted);
    let decrypted = present128::ecb_decrypt(&encrypted, key).unwrap();
    assert_eq!(present128::par_ecb_decrypt(&encrypted, key).unwrap(), decrypted);
    assert_eq!(&decrypted[..100], &data[..]);

    let block = present128::encrypt_block(&data[..8], key);
    assert_eq!(present128::decrypt_block(&block, key).unwrap()[..], data[..8]);
}
