use envbuddel::crypto::{join_nonce, split_nonce, Key};
use envbuddel::error::VaultError;
use envbuddel::filepacker::EnvironmentPack;

fn hex(text: &str) -> Vec<u8> {
    let digits: Vec<u32> = text.chars().map(|c| c.to_digit(16).unwrap()).collect();
    digits.chunks(2).map(|pair| (pair[0] * 16 + pair[1]) as u8).collect()
}

fn error_of<T>(r: Result<T, VaultError>) -> VaultError {
    match r {
        Ok(_) => panic!("expected an error"),
        Err(e) => e,
    }
}

#[test]
fn test_encrypt_decrypt_roundtrip() {
    let data: Vec<u8> = vec![0, 1, 2, 42];
    let key = Key::generate();
    let pack = EnvironmentPack::File(data.clone());

    let ciphertext = key.encrypt(&pack.to_bytes()).unwrap();
    let decrypted = key.decrypt(&ciphertext).unwrap();
    assert_eq!(
        EnvironmentPack::from_bytes(&decrypted).unwrap(),
        EnvironmentPack::File(data)
    );
}

#[test]
fn test_decrypt_base64_corrupted() {
    let key = Key::generate();
    let result = key.decrypt_base64("thisisnotbase64");
    assert!(result.is_err());
}

#[test]
fn known_answer_empty_plaintext() {
    let key = Key::from_bytes(&[0u8; 32]).unwrap();
    let out = key.encrypt_with_nonce(&[0u8; 12], &[]).unwrap();
    let mut expected = vec![0u8; 12];
    expected.extend(hex("530f8afbc74536b9a963b4f1c4cb738b"));
    assert_eq!(out, expected);
}

#[test]
fn known_answer_one_block() {
    let key = Key::from_bytes(&[0u8; 32]).unwrap();
    let out = key.encrypt_with_nonce(&[0u8; 12], &[0u8; 16]).unwrap();
    let mut expected = vec![0u8; 12];
    expected.extend(hex("cea7403d4d606b6e074ec5d3baf39d18"));
    expected.extend(hex("d0d1c8a799996bf0265b98b5d48ab919"));
    assert_eq!(out, expected);
    assert_eq!(key.decrypt(&expected).unwrap(), vec![0u8; 16]);
}

#[test]
fn known_answer_with_key_and_nonce() {
    let key = Key::from_bytes(&hex(
        "feffe9928665731c6d6a8f9467308308feffe9928665731c6d6a8f9467308308",
    ))
    .unwrap();
    let nonce: [u8; 12] = hex("cafebabefacedbaddecaf888").try_into().unwrap();
    let plaintext = hex(
        "d9313225f88406e5a55909c5aff5269a86a7a9531534f7da2e4c303d8a318a72\
         1c3c0c95956809532fcf0e2449a6b525b16aedf5aa0de657ba637b391aafd255",
    );
    let out = key.encrypt_with_nonce(&nonce, &plaintext).unwrap();
    let mut expected = nonce.to_vec();
    expected.extend(hex(
        "522dc1f099567d07f47f37a32a84427d643a8cdcbfe5c0c97598a2bd2555d1aa\
         8cb08e48590dbb3da7b08b1056828838c5f61e6393ba7a0abcc9f662898015ad",
    ));
    expected.extend(hex("b094dac5d93471bdec1a502270e3cc6c"));
    assert_eq!(out, expected);
    assert_eq!(key.decrypt(&out).unwrap(), plaintext);
}

#[test]
fn encrypt_with_nonce_puts_the_nonce_first() {
    let key = Key::from_bytes(&[3u8; 32]).unwrap();
    let nonce = [1u8, 2, 3, 4, 5, 6, 7, 8, 9, 10, 11, 12];
    let out = key.encrypt_with_nonce(&nonce, b"secret").unwrap();
    assert_eq!(out.len(), 12 + 6 + 16);
    assert_eq!(&out[..12], &nonce);
    assert_ne!(&out[12..18], b"secret");
}

#[test]
fn encrypt_round_trip() {
    let key = Key::from_bytes(&[5u8; 32]).unwrap();
    let long = vec![0xabu8; 100_000];
    for plaintext in [&b""[..], &b"a"[..], &b"FOO=bar\nBAZ=qux\n"[..], &long[..]] {
        let out = key.encrypt(plaintext).unwrap();
        assert_eq!(out.len(), plaintext.len() + 28);
        assert_eq!(key.decrypt(&out).unwrap(), plaintext);
    }
}

#[test]
fn encrypt_draws_a_fresh_nonce() {
    let key = Key::from_bytes(&[5u8; 32]).unwrap();
    let a = key.encrypt(b"same input").unwrap();
    let b = key.encrypt(b"same input").unwrap();
    assert_ne!(&a[..12], &b[..12]);
    assert_ne!(a, b);
}

#[test]
fn any_flipped_bit_is_detected() {
    let key = Key::from_bytes(&[8u8; 32]).unwrap();
    let out = key.encrypt(b"API_TOKEN=12345").unwrap();
    for byte in 0..out.len() {
        for bit in 0..8 {
            let mut changed = out.clone();
            changed[byte] ^= 1 << bit;
            assert_eq!(
                error_of(key.decrypt(&changed)),
                VaultError::AuthenticationFailed
            );
        }
    }
}

#[test]
fn wrong_key_is_detected() {
    let key = Key::from_bytes(&[8u8; 32]).unwrap();
    let other = Key::from_bytes(&[9u8; 32]).unwrap();
    let out = key.encrypt(b"API_TOKEN=12345").unwrap();
    assert_eq!(error_of(other.decrypt(&out)), VaultError::AuthenticationFailed);
}

#[test]
fn short_input_is_truncated() {
    let key = Key::from_bytes(&[8u8; 32]).unwrap();
    for len in 0..12 {
        let data = vec![0u8; len];
        assert_eq!(error_of(key.decrypt(&data)), VaultError::TruncatedInput);
    }
}

#[test]
fn input_without_room_for_a_tag_fails_authentication() {
    let key = Key::from_bytes(&[8u8; 32]).unwrap();
    for len in 12..28 {
        let data = vec![0u8; len];
        assert_eq!(error_of(key.decrypt(&data)), VaultError::AuthenticationFailed);
    }
}

#[test]
fn cut_off_ciphertext_is_detected() {
    let key = Key::from_bytes(&[8u8; 32]).unwrap();
    let out = key.encrypt(b"API_TOKEN=12345").unwrap();
    assert_eq!(
        error_of(key.decrypt(&out[..out.len() - 1])),
        VaultError::AuthenticationFailed
    );
    let mut longer = out.clone();
    longer.push(0);
    assert_eq!(error_of(key.decrypt(&longer)), VaultError::AuthenticationFailed);
}

#[test]
fn split_nonce_takes_twelve_bytes() {
    let data: Vec<u8> = (0u8..20).collect();
    let (nonce, rest) = split_nonce(&data).unwrap();
    assert_eq!(nonce, [0u8, 1, 2, 3, 4, 5, 6, 7, 8, 9, 10, 11]);
    assert_eq!(rest, &[12u8, 13, 14, 15, 16, 17, 18, 19]);
    let exact: Vec<u8> = (0u8..12).collect();
    let (nonce, rest) = split_nonce(&exact).unwrap();
    assert_eq!(nonce.to_vec(), exact);
    assert!(rest.is_empty());
    assert_eq!(error_of(split_nonce(&exact[..11])), VaultError::TruncatedInput);
    assert_eq!(error_of(split_nonce(&[])), VaultError::TruncatedInput);
}

#[test]
fn join_nonce_puts_the_nonce_first() {
    let nonce = [9u8; 12];
    let out = join_nonce(&nonce, &[1, 2, 3]);
    assert_eq!(out, vec![9, 9, 9, 9, 9, 9, 9, 9, 9, 9, 9, 9, 1, 2, 3]);
    assert_eq!(join_nonce(&nonce, &[]), nonce.to_vec());
}

#[test]
fn vault_text_round_trip() {
    let key = Key::from_bytes(&[11u8; 32]).unwrap();
    let packs = [
        EnvironmentPack::File(Vec::new()),
        EnvironmentPack::File(b"A=1\nB=2\n".to_vec()),
        EnvironmentPack::Folder(vec![0u8; 1024]),
        EnvironmentPack::File(vec![7u8; 300]),
    ];
    for pack in packs {
        let text = key.encrypt_base64(&pack).unwrap();
        assert_eq!(key.decrypt_base64(&text).unwrap(), pack);
    }
}

#[test]
fn vault_text_has_lines_of_64() {
    let key = Key::from_bytes(&[11u8; 32]).unwrap();
    // 2 + 100 bytes of pack, 28 of nonce and tag: 130 bytes, 176 characters
    let text = key
        .encrypt_base64(&EnvironmentPack::File(vec![1u8; 100]))
        .unwrap();
    let lines: Vec<&str> = text.split('\n').collect();
    assert_eq!(lines.len(), 3);
    assert_eq!(lines[0].len(), 64);
    assert_eq!(lines[1].len(), 64);
    assert_eq!(lines[2].len(), 48);
    assert!(!text.ends_with('\n'));
}

#[test]
fn vault_text_survives_other_line_endings() {
    let key = Key::from_bytes(&[11u8; 32]).unwrap();
    let pack = EnvironmentPack::File(vec![1u8; 100]);
    let text = key.encrypt_base64(&pack).unwrap();
    let windows = format!("{}\r\n", text.replace('\n', "\r\n"));
    assert_eq!(key.decrypt_base64(&windows).unwrap(), pack);
    let joined = text.replace('\n', "");
    assert_eq!(key.decrypt_base64(&joined).unwrap(), pack);
}

#[test]
fn vault_text_errors() {
    let key = Key::from_bytes(&[11u8; 32]).unwrap();
    let other = Key::from_bytes(&[12u8; 32]).unwrap();
    assert_eq!(
        error_of(key.decrypt_base64("thisisnotbase64")),
        VaultError::EncodingError
    );
    assert_eq!(error_of(key.decrypt_base64("")), VaultError::TruncatedInput);
    assert_eq!(error_of(key.decrypt_base64("AAAA")), VaultError::TruncatedInput);
    let text = key
        .encrypt_base64(&EnvironmentPack::File(b"x".to_vec()))
        .unwrap();
    assert_eq!(
        error_of(other.decrypt_base64(&text)),
        VaultError::AuthenticationFailed
    );
}

#[test]
fn vault_text_with_plaintext_that_is_no_pack() {
    let key = Key::from_bytes(&[11u8; 32]).unwrap();
    let data = key.encrypt(&[9, 9, 9]).unwrap();
    let text = envbuddel::transport::wrap(&data);
    assert_eq!(error_of(key.decrypt_base64(&text)), VaultError::EncodingError);
}

#[test]
fn directory_archive_survives_the_vault() {
    let mut builder = tar::Builder::new(Vec::new());
    let mut header = tar::Header::new_gnu();
    header.set_size(2);
    header.set_mode(0o644);
    header.set_cksum();
    builder
        .append_data(&mut header, "a/b.txt", &b"hi"[..])
        .unwrap();
    let archive = builder.into_inner().unwrap();

    let key = Key::from_bytes(&[21u8; 32]).unwrap();
    let pack = EnvironmentPack::from_path(envbuddel::filepacker::PathKind::Folder, archive).unwrap();
    let text = key.encrypt_base64(&pack).unwrap();
    let restored = match key.decrypt_base64(&text).unwrap() {
        EnvironmentPack::Folder(bytes) => bytes,
        EnvironmentPack::File(_) => panic!("a directory came back as a file"),
    };

    let mut reader = tar::Archive::new(std::io::Cursor::new(restored));
    let mut found = Vec::new();
    for entry in reader.entries().unwrap() {
        let mut entry = entry.unwrap();
        let path = entry.path().unwrap().to_string_lossy().to_string();
        let mut content = Vec::new();
        std::io::Read::read_to_end(&mut entry, &mut content).unwrap();
        found.push((path, content));
    }
    assert_eq!(found, vec![("a/b.txt".to_string(), b"hi".to_vec())]);
}
