use present::present80;
use present::present80::KeyRegister;
use present::CipherError;

#[test]
fn test_encrypt_block1() {
    let input = hex::decode("0000000000000000").unwrap();
    let key_bytes = hex::decode("00000000000000000000").unwrap();
    let key = present80::Key::new(&key_bytes[..]);

    let crypted = present80::encrypt_block(&input[..], key);
    let output = hex::encode_upper(&crypted[..]);

    let expected = "5579C1387B228445";
    assert_eq!(expected, output);
}

#[test]
fn test_decrypt_block1() {
    let input = hex::decode("5579C1387B228445").unwrap();
    let key_bytes = hex::decode("00000000000000000000").unwrap();
    let key = present80::Key::new(&key_bytes[..]);

    let crypted = present80::decrypt_block(&input[..], key).unwrap();
    let output = hex::encode_upper(&crypted[..]);

    let expected = "0000000000000000";
    assert_eq!(expected, output);
}

#[test]
fn test_encrypt_block2() {
    let input = hex::decode("0000000000000000").unwrap();
    let key_bytes = hex::decode("FFFFFFFFFFFFFFFFFFFF").unwrap();
    let key = present80::Key::new(&key_bytes[..]);

    let crypted = present80::encrypt_block(&input[..], key);
    let output = hex::encode_upper(&crypted[..]);

    let expected = "E72C46C0F5945049";
    assert_eq!(expected, output);
}

#[test]
fn test_decrypt_block2() {
    let input = hex::decode("E72C46C0F5945049").unwrap();
    let key_bytes = hex::decode("FFFFFFFFFFFFFFFFFFFF").unwrap();
    let key = present80::Key::new(&key_bytes[..]);

    let crypted = present80::decrypt_block(&input[..], key).unwrap();
    let output = hex::encode_upper(&crypted[..]);

    let expected = "0000000000000000";
    assert_eq!(expected, output);
}

#[test]
fn test_encrypt_block3() {
    let input = hex::decode("FFFFFFFFFFFFFFFF").unwrap();
    let key_bytes = hex::decode("00000000000000000000").unwrap();
    let key = present80::Key::new(&key_bytes[..]);

    let crypted = present80::encrypt_block(&input[..], key);
    let output = hex::encode_upper(&crypted[..]);

    let expected = "A112FFC72F68417B";
    assert_eq!(expected, output);
}

#[test]
fn test_decrypt_block3() {
    let input = hex::decode("A112FFC72F68417B").unwrap();
    let key_bytes = hex::decode("00000000000000000000").unwrap();
    let key = present80::Key::new(&key_bytes[..]);

    let crypted = present80::decrypt_block(&input[..], key).unwrap();
    let output = hex::encode_upper(&crypted[..]);

    let expected = "FFFFFFFFFFFFFFFF";
    assert_eq!(expected, output);
}

#[test]
fn test_encrypt_block4() {
    let input = hex::decode("FFFFFFFFFFFFFFFF").unwrap();
    let key_bytes = hex::decode("FFFFFFFFFFFFFFFFFFFF").unwrap();
    let key = present80::Key::new(&key_bytes[..]);

    let crypted = present80::encrypt_block(&input[..], key);
    let output = hex::encode_upper(&crypted[..]);

    let expected = "3333DCD3213210D2";
    assert_eq!(expected, output);
}

#[test]
fn test_decrypt_block4() {
    let input = hex::decode("3333DCD3213210D2").unwrap();
    let key_bytes = hex::decode("FFFFFFFFFFFFFFFFFFFF").unwrap();
    let key = present80::Key::new(&key_bytes[..]);

    let crypted = present80::decrypt_block(&input[..], key).unwrap();
    let output = hex::encode_upper(&crypted[..]);

    let expected = "FFFFFFFFFFFFFFFF";
    assert_eq!(expected, output);
}

#[test]
fn test_ecb_encrypt1() {
    let input = hex::decode("0000000000000000FFFFFFFFFFFFFFFF").unwrap();
    let key_bytes = hex::decode("00000000000000000000").unwrap();
    let key = present80::Key::new(&key_bytes[..]);

    let crypted = present80::ecb_encrypt(&input[..], key);
    let output = hex::encode_upper(&crypted[..]);

    let expected = "5579C1387B228445A112FFC72F68417B";
    assert_eq!(expected, output);
}

#[test]
fn test_ecb_decrypt1() {
    let input = hex::decode("5579C1387B228445A112FFC72F68417B").unwrap();
    let key_bytes = hex::decode("00000000000000000000").unwrap();
    let key = present80::Key::new(&key_bytes[..]);

    let crypted = present80::ecb_decrypt(&input[..], key).unwrap();
    let output = hex::encode_upper(&crypted[..]);

    let expected = "0000000000000000FFFFFFFFFFFFFFFF";
    assert_eq!(expected, output);
}

#[test]
fn test_par_ecb_encrypt1() {
    let input = hex::decode("0000000000000000FFFFFFFFFFFFFFFF").unwrap();
    let key_bytes = hex::decode("00000000000000000000").unwrap();
    let key = present80::Key::new(&key_bytes[..]);

    let crypted = present80::par_ecb_encrypt(&input[..], key);
    let output = hex::encode_upper(&crypted[..]);

    let expected = "5579C1387B228445A112FFC72F68417B";
    assert_eq!(expected, output);
}

#[test]
fn test_par_ecb_decrypt1() {
    let input = hex::decode("5579C1387B228445A112FFC72F68417B").unwrap();
    let key_bytes = hex::decode("00000000000000000000").unwrap();
    let key = present80::Key::new(&key_bytes[..]);

    let crypted = present80::par_ecb_decrypt(&input[..], key).unwrap();
    let output = hex::encode_upper(&crypted[..]);

    let expected = "0000000000000000FFFFFFFFFFFFFFFF";
    assert_eq!(expected, output);
}

#[test]
fn test_ecb_encrypt2() {
    let input = hex::decode("0000000000000000FFFFFFFFFFFFFFFF").unwrap();
    let key_bytes = hex::decode("FFFFFFFFFFFFFFFFFFFF").unwrap();
    let key = present80::Key::new(&key_bytes[..]);

    let crypted = present80::ecb_encrypt(&input[..], key);
    let output = hex::encode_upper(&crypted[..]);

    let expected = "E72C46C0F59450493333DCD3213210D2";
    assert_eq!(expected, output);
}

#[test]
fn test_ecb_decrypt2() {
    let input = hex::decode("E72C46C0F59450493333DCD3213210D2").unwrap();
    let key_bytes = hex::decode("FFFFFFFFFFFFFFFFFFFF").unwrap();
    let key = present80::Key::new(&key_bytes[..]);

    let crypted = present80::ecb_decrypt(&input[..], key).unwrap();
    let output = hex::encode_upper(&crypted[..]);

    let expected = "0000000000000000FFFFFFFFFFFFFFFF";
    assert_eq!(expected, output);
}

#[test]
fn test_par_ecb_encrypt2() {
    let input = hex::decode("0000000000000000FFFFFFFFFFFFFFFF").unwrap();
    let key_bytes = hex::decode("FFFFFFFFFFFFFFFFFFFF").unwrap();
    let key = present80::Key::new(&key_bytes[..]);

    let crypted = present80::par_ecb_encrypt(&input[..], key);
    let output = hex::encode_upper(&crypted[..]);

    let expected = "E72C46C0F59450493333DCD3213210D2";
    assert_eq!(expected, output);
}

#[test]
fn test_par_ecb_decrypt2() {
    let input = hex::decode("E72C46C0F59450493333DCD3213210D2").unwrap();
    let key_bytes = hex::decode("FFFFFFFFFFFFFFFFFFFF").unwrap();
    let key = present80::Key::new(&key_bytes[..]);

    let crypted = present80::par_ecb_decrypt(&input[..], key).unwrap();
    let output = hex::encode_upper(&crypted[..]);

    let expected = "0000000000000000FFFFFFFFFFFFFFFF";
    assert_eq!(expected, output);
}

#[test]
fn present80_test_key_register_from_key1() {
    let key = present80::Key::new(&[0, 0, 0, 0, 0, 1]);
    let key_register = KeyRegister::from(key);
    assert_eq!(key_register.a, 1u64 << 16);
    assert_eq!(key_register.b, 0u64);
}

#[test]
fn present80_test_key_register_from_key2() {
    let key = present80::Key::new(&[0, 0, 0, 0, 0, 0, 0, 1, 0, 0]);
    let key_register = KeyRegister::from(key);
    assert_eq!(key_register.a, 1u64);
    assert_eq!(key_register.b, 0u64);
}

#[test]
fn present80_test_key_register_from_key3() {
    let key = present80::Key::new(&[0, 0, 0, 0, 0, 0, 0, 1, 0, 1]);
    let key_register = KeyRegister::from(key);
    assert_eq!(key_register.a, 1u64);
    assert_eq!(key_register.b, 1u64 << 48);
}

#[test]
fn present80_test_key_register_from_key4() {
    let key = present80::Key::new(&[0, 0, 0, 0, 0, 0, 0, 1, 0, 1, 0, 1]);
    let key_register = KeyRegister::from(key);
    assert_eq!(key_register.a, 1u64);
    assert_eq!(key_register.b, 1u64 << 48);
}

#[test]
fn test_key_register_rotate() {
    let mut key_register = KeyRegister { a: 0b1100, b: 0 };
    key_register.rotate();

    let a: u64 = 1 << 63;
    let b: u64 = 1 << 48;

    assert_eq!(a, key_register.a);
    assert_eq!(b, key_register.b);
}

#[test]
fn test_key_register_update1() {
    let mut key_register = KeyRegister { a: 0, b: 0 };
    key_register.update(1);

    let a: u64 = 0b11 << 62;
    let b: u64 = 1 << 63;

    assert_eq!(a, key_register.a);
    assert_eq!(b, key_register.b);
}

#[test]
fn key_register_update_steps() {
    let mut key_register = KeyRegister { a: 0, b: 0 };
    key_register.update2();
    assert_eq!(key_register.a, 0xC << 60);
    assert_eq!(key_register.b, 0);

    let mut key_register = KeyRegister { a: 0, b: 0 };
    key_register.update3(0b10011);
    assert_eq!(key_register.a, 0b1001);
    assert_eq!(key_register.b, 1 << 63);
}

#[test]
fn round_keys_start_with_the_key() {
    let key = present80::Key::new(&[0x11, 0x22, 0x33, 0x44, 0x55, 0x66, 0x77, 0x88, 0x99, 0xAA]);
    let keys = present80::round_keys(key);
    assert_eq!(keys.len(), 32);
    assert_eq!(keys[0], 0x1122_3344_5566_7788);

    let mut key_register = KeyRegister::from(key);
    key_register.update(1);
    assert_eq!(keys[1], key_register.a);
}

#[test]
fn decrypt_block_refuses_other_lengths() {
    let key = present80::Key::new(&[0u8; 10]);
    assert_eq!(present80::decrypt_block(&[0u8; 7], key), Err(CipherError::InvalidBlockLength));
    assert_eq!(present80::decrypt_block(&[0u8; 9], key), Err(CipherError::InvalidBlockLength));
    assert_eq!(present80::decrypt_block(&[], key), Err(CipherError::InvalidBlockLength));
}

#[test]
fn ecb_decrypt_refuses_partial_blocks() {
    let key = present80::Key::new(&[0u8; 10]);
    assert_eq!(present80::ecb_decrypt(&[0u8; 12], key), Err(CipherError::InvalidBlockLength));
    assert_eq!(present80::par_ecb_decrypt(&[0u8; 1], key), Err(CipherError::InvalidBlockLength));
    assert_eq!(present80::ecb_decrypt(&[], key), Ok(Vec::new()));
}

#[test]
fn encrypt_block_pads_short_input() {
    let key = present80::Key::new(&[]);
    let short = present80::encrypt_block(&[], key);
    assert_eq!(hex::encode_upper(&short[..]), "5579C1387B228445");
    let long = present80::encrypt_block(&[0xFF; 12], key);
    assert_eq!(hex::encode_upper(&long[..]), "A112FFC72F68417B");
}

#[test]
fn ecb_encrypt_pads_the_last_block() {
    let key = present80::Key::new(&[0u8; 10]);
    let encrypted = present80::ecb_encrypt(&[0u8; 3], key);
    assert_eq!(hex::encode_upper(&encrypted[..]), "5579C1387B228445");
    assert!(present80::ecb_encrypt(&[], key).is_empty());
}

#[test]
fn block_round_trip() {
    let key = present80::Key::new(&[0x13, 0x57, 0x9B, 0xDF, 0x02, 0x46, 0x8A, 0xCE, 0xF1, 0x23]);
    for block in [[0u8; 8], [0xFF; 8], [1, 2, 3, 4, 5, 6, 7, 8]] {
        let encrypted = present80::encrypt_block(&block, key);
        assert_ne!(encrypted, block);
        assert_eq!(present80::decrypt_block(&encrypted, key), Ok(block));
    }
}

#[test]
fn parallel_matches_sequential() {
    let key = present80::Key::new(&[9, 8, 7, 6, 5, 4, 3, 2, 1, 0]);
    for len in [0usize, 1, 7, 8, 9, 64, 1000, 4097] {
        let data: Vec<u8> = (0..len).map(|i| (i * 31 % 251) as u8).collect();
        let sequential = present80::ecb_encrypt(&data, key);
        let parallel = present80::par_ecb_encrypt(&data, key);
        assert_eq!(sequential, parallel);
        assert_eq!(
            present80::ecb_decrypt(&sequential, key),
            present80::par_ecb_decrypt(&parallel, key)
        );
        let decrypted = present80::ecb_decrypt(&sequential, key).unwrap();
        assert_eq!(&decrypted[..len], &data[..]);
        assert!(decrypted[len..].iter().all(|b| *b == 0));
    }
}
