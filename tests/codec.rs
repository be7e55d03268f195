use sevenz_aes::kdf::get_aes_key;
use sevenz_aes::{Aes256Sha256Decoder, Aes256Sha256Encoder, AesEncoderOptions, Error, SeekFrom};

fn hex(s: &str) -> Vec<u8> {
    (0..s.len() / 2)
        .map(|i| u8::from_str_radix(&s[2 * i..2 * i + 2], 16).unwrap())
        .collect()
}

fn utf16le(s: &str) -> Vec<u8> {
    s.encode_utf16().flat_map(|u| u.to_le_bytes()).collect()
}

fn payload(len: usize) -> Vec<u8> {
    (0..len).map(|i| (i * 31 + 7) as u8).collect()
}

fn fixed_options(password: &[u8]) -> AesEncoderOptions {
    AesEncoderOptions {
        password: password.to_vec(),
        iv: [0x11; 16],
        salt: [0x22; 16],
        num_cycles_power: 4,
    }
}

fn encrypt_stream(options: &AesEncoderOptions, data: &[u8], chunk: usize) -> Vec<u8> {
    let mut enc = Aes256Sha256Encoder::new(options).unwrap();
    let mut out = Vec::new();
    for piece in data.chunks(chunk.max(1)) {
        assert_eq!(enc.write(piece, &mut out), piece.len());
    }
    assert_eq!(enc.write(&[], &mut out), 0);
    assert_eq!(enc.write_size() as usize, out.len());
    out
}

fn decrypt_stream(props: &[u8], password: &[u8], ct: &[u8], chunk: usize) -> Result<Vec<u8>, Error> {
    let mut dec = Aes256Sha256Decoder::new(props, password)?;
    let mut src = ct;
    let mut out = Vec::new();
    let mut buf = [0u8; 100];
    loop {
        while dec.needs_input() {
            let n = chunk.min(src.len());
            dec.get_more_data(&src[..n])?;
            src = &src[n..];
        }
        let n = dec.read(&mut buf);
        if n == 0 {
            break;
        }
        out.extend_from_slice(&buf[..n]);
    }
    Ok(out)
}

#[test]
fn test_aes_codec() {
    let pwd = utf16le("1234");
    let options = AesEncoderOptions::new(pwd.clone());
    let plain: Vec<u8> = "encode data with the streaming AES-256 codec\n"
        .bytes()
        .cycle()
        .take(12_345)
        .collect();
    let encoded = encrypt_stream(&options, &plain, 1000);
    let decoded = decrypt_stream(&options.properties(), &pwd, &encoded, 512).unwrap();
    assert_eq!(&decoded[..plain.len()], &plain[..]);
}

#[test]
fn round_trip_at_block_boundaries() {
    let options = fixed_options(b"secret");
    for len in [0usize, 1, 15, 16, 17, 4095, 4096, 4097] {
        let data = payload(len);
        let ct = encrypt_stream(&options, &data, 7);
        assert_eq!(ct.len(), (len + 15) / 16 * 16);
        let pt = decrypt_stream(&options.properties(), b"secret", &ct, 512).unwrap();
        assert_eq!(pt.len(), ct.len());
        assert_eq!(&pt[..len], &data[..]);
        assert!(pt[len..].iter().all(|&b| b == 0));
    }
}

#[test]
fn key_derivation_is_deterministic() {
    let props = fixed_options(b"pw").properties();
    let a = get_aes_key(&props, b"pw").unwrap();
    let b = get_aes_key(&props, b"pw").unwrap();
    assert_eq!(a, b);
    assert_eq!(b.1, [0x11; 16]);
}

#[test]
fn wrong_password_does_not_give_the_plaintext() {
    let options = fixed_options(b"right");
    let data = payload(1000);
    let ct = encrypt_stream(&options, &data, 64);
    match decrypt_stream(&options.properties(), b"wrong", &ct, 512) {
        Ok(pt) => assert_ne!(&pt[..data.len()], &data[..]),
        Err(e) => assert!(matches!(e, Error::IllegalBlockSize)),
    }
}

#[test]
fn encoder_chunking_gives_same_ciphertext() {
    let options = fixed_options(b"chunks");
    let data = payload(1000);
    let whole = encrypt_stream(&options, &data, data.len());
    let bytewise = encrypt_stream(&options, &data, 1);
    let odd = encrypt_stream(&options, &data, 23);
    assert_eq!(whole, bytewise);
    assert_eq!(whole, odd);
}

#[test]
fn decoder_chunking_gives_same_plaintext() {
    let options = fixed_options(b"chunks");
    let data = payload(777);
    let ct = encrypt_stream(&options, &data, 100);
    let props = options.properties();
    let whole = decrypt_stream(&props, b"chunks", &ct, ct.len()).unwrap();
    let bytewise = decrypt_stream(&props, b"chunks", &ct, 1).unwrap();
    let odd = decrypt_stream(&props, b"chunks", &ct, 37).unwrap();
    assert_eq!(whole, bytewise);
    assert_eq!(whole, odd);
    assert_eq!(&whole[..777], &data[..]);
}

fn opened_decoder(data: &[u8]) -> Aes256Sha256Decoder {
    let options = fixed_options(b"seek");
    let ct = encrypt_stream(&options, data, 64);
    let mut dec = Aes256Sha256Decoder::new(&options.properties(), b"seek").unwrap();
    assert!(dec.needs_input());
    assert_eq!(dec.get_more_data(&ct[..64]).unwrap(), 64);
    dec
}

#[test]
fn seek_forward_within_window() {
    let data = payload(200);
    let mut dec = opened_decoder(&data);
    let mut buf = [0u8; 10];
    assert_eq!(dec.read(&mut buf), 10);
    assert_eq!(&buf[..], &data[..10]);
    assert_eq!(dec.seek(SeekFrom::Start(20)).unwrap(), 20);
    assert_eq!(dec.position(), 20);
    assert_eq!(dec.read(&mut buf), 10);
    assert_eq!(&buf[..], &data[20..30]);
    assert_eq!(dec.seek(SeekFrom::Current(4)).unwrap(), 34);
    assert_eq!(dec.read(&mut buf), 10);
    assert_eq!(&buf[..], &data[34..44]);
    assert_eq!(dec.seek(SeekFrom::Start(64)).unwrap(), 64);
    assert_eq!(dec.available(), 0);
}

#[test]
fn seek_past_window_or_from_end_fails() {
    let data = payload(200);
    let mut dec = opened_decoder(&data);
    assert!(matches!(dec.seek(SeekFrom::Start(65)), Err(Error::Unsupported(_))));
    assert!(matches!(dec.seek(SeekFrom::Current(65)), Err(Error::Unsupported(_))));
    assert!(matches!(dec.seek(SeekFrom::End(0)), Err(Error::Unsupported(_))));
    assert_eq!(dec.position(), 0);
    let mut buf = [0u8; 16];
    assert_eq!(dec.read(&mut buf), 16);
    assert_eq!(&buf[..], &data[..16]);
}

#[test]
fn seek_backward_is_a_no_op() {
    let data = payload(200);
    let mut dec = opened_decoder(&data);
    let mut buf = [0u8; 8];
    assert_eq!(dec.read(&mut buf), 8);
    assert_eq!(dec.seek(SeekFrom::Start(3)).unwrap(), 0);
    assert_eq!(dec.seek(SeekFrom::Current(-2)).unwrap(), 0);
    assert_eq!(dec.position(), 8);
    assert_eq!(dec.read(&mut buf), 8);
    assert_eq!(&buf[..], &data[8..16]);
}

#[test]
fn short_parameter_block_is_rejected() {
    assert!(matches!(get_aes_key(&[], b"pw"), Err(Error::Other(_))));
    assert!(matches!(get_aes_key(&[0x13], b"pw"), Err(Error::Other(_))));
    assert!(matches!(Aes256Sha256Decoder::new(&[0x13], b"pw"), Err(Error::Other(_))));
}

#[test]
fn overrunning_salt_and_iv_are_rejected() {
    // salt 2 + iv 3 declared, but only 4 bytes follow the header
    let props = [0x00, 0x23, 1, 2, 3, 4];
    assert!(matches!(get_aes_key(&props, b"pw"), Err(Error::Other(_))));
    // both high bits set: 16 + 16 declared, 33 bytes follow
    let mut long = vec![0xffu8, 0xff];
    long.extend_from_slice(&[0u8; 31]);
    assert!(matches!(get_aes_key(&long, b"pw"), Err(Error::Other(_))));
    long.push(0);
    assert!(get_aes_key(&long, b"pw").is_ok());
}

#[test]
fn empty_password_is_rejected() {
    let props = fixed_options(b"x").properties();
    assert!(matches!(get_aes_key(&props, b""), Err(Error::PasswordRequired)));
    assert!(matches!(Aes256Sha256Decoder::new(&props, b""), Err(Error::PasswordRequired)));
    assert!(matches!(Aes256Sha256Encoder::new(&fixed_options(b"")), Err(Error::PasswordRequired)));
}

#[test]
fn raw_key_mode_uses_salt_then_password() {
    let props = [0x3f, 0x20, 0xaa, 0xbb];
    let (key, iv) = get_aes_key(&props, &[1, 2, 3]).unwrap();
    let mut expected = [0u8; 32];
    expected[..5].copy_from_slice(&[0xaa, 0xbb, 1, 2, 3]);
    assert_eq!(key, expected);
    assert_eq!(iv, [0u8; 16]);
}

#[test]
fn raw_key_mode_drops_password_bytes_that_do_not_fit() {
    let mut props = vec![0xbf, 0xf0];
    props.extend(1..=16u8);
    let password: Vec<u8> = (100..120u8).collect();
    let (key, _) = get_aes_key(&props, &password).unwrap();
    let expected: Vec<u8> = (1..=16u8).chain(100..116u8).collect();
    assert_eq!(&key[..], &expected[..]);
}

#[test]
fn iv_is_zero_extended() {
    let props = [0x00, 0x13, 0x5a, 7, 8, 9];
    let (_, iv) = get_aes_key(&props, b"pw").unwrap();
    let mut expected = [0u8; 16];
    expected[..3].copy_from_slice(&[7, 8, 9]);
    assert_eq!(iv, expected);
}

#[test]
fn hash_mode_single_round() {
    let (key, _) = get_aes_key(&[0x00, 0x00], b"abc").unwrap();
    assert_eq!(
        key.to_vec(),
        hex("4b5c6fd314d0d83d29a1e129033092289834a2b50da22f2c0f74177dc3e7525e")
    );
}

#[test]
fn hash_mode_counts_rounds() {
    let (two, _) = get_aes_key(&[0x01, 0x10, 0x5a], b"pw").unwrap();
    assert_eq!(
        two.to_vec(),
        hex("32a6e8f589c958e21f094d090848281850a9ed9d4594291d5d81cf160842d320")
    );
    let (many, _) = get_aes_key(&[0x08, 0x10, 0x5a], b"pw").unwrap();
    assert_eq!(
        many.to_vec(),
        hex("eda82b4403ff6ead33d0a6056e475fdf4ebcb9ea693af94930cb0480760606fb")
    );
    let (carried, _) = get_aes_key(&[0x09, 0x10, 0x5a], b"pw").unwrap();
    assert_eq!(
        carried.to_vec(),
        hex("72ae3e4bc00b82e551250b57ceaa1a72e5375667e7aa40e97033241812bb2019")
    );
}

fn nist_options() -> AesEncoderOptions {
    let key = hex("603deb1015ca71be2b73aef0857d77811f352c073b6108d72d9810a30914dff4");
    let mut salt = [0u8; 16];
    salt.copy_from_slice(&key[..16]);
    let mut iv = [0u8; 16];
    iv.copy_from_slice(&hex("000102030405060708090a0b0c0d0e0f"));
    AesEncoderOptions {
        password: key[16..].to_vec(),
        iv,
        salt,
        num_cycles_power: 0x3f,
    }
}

const NIST_PLAIN: &str = "6bc1bee22e409f96e93d7e117393172aae2d8a571e03ac9c9eb76fac45af8e51\
30c81c46a35ce411e5fbc1191a0a52eff69f2445df4f9b17ad2b417be66c3710";
const NIST_CIPHER: &str = "f58c4c04d6e5f1ba779eabfb5f7bfbd69cfc4e967edb808d679f777bc6702c7d\
39f23369a9d9bacfa530e26304231461b2eb05e2c39be9fcda6c19078c6a9d1b";

#[test]
fn encrypts_the_published_cbc_vector() {
    let options = nist_options();
    assert_eq!(options.properties()[0], 0xff);
    let ct = encrypt_stream(&options, &hex(NIST_PLAIN), 5);
    assert_eq!(ct, hex(NIST_CIPHER));
}

#[test]
fn decrypts_the_published_cbc_vector() {
    let options = nist_options();
    let pt = decrypt_stream(&options.properties(), &options.password, &hex(NIST_CIPHER), 9).unwrap();
    assert_eq!(pt, hex(NIST_PLAIN));
}

#[test]
fn properties_layout() {
    let options = AesEncoderOptions {
        password: b"pw".to_vec(),
        iv: [0x33; 16],
        salt: [0x44; 16],
        num_cycles_power: 0x47,
    };
    let props = options.properties();
    assert_eq!(props[0], 0xc7);
    assert_eq!(props[1], 0xff);
    assert_eq!(&props[2..18], &[0x44; 16]);
    assert_eq!(&props[18..34], &[0x33; 16]);
    let mut longer = [0xeeu8; 40];
    options.write_properties(&mut longer);
    assert_eq!(&longer[..34], &props[..]);
    assert_eq!(&longer[34..], &[0xee; 6]);
}

#[test]
fn new_options_draw_salt_and_iv() {
    let a = AesEncoderOptions::new(b"pw".to_vec());
    let b = AesEncoderOptions::new(b"pw".to_vec());
    assert_eq!(a.num_cycles_power, 8);
    assert_eq!(a.password, b"pw".to_vec());
    assert!(a.salt != b.salt || a.iv != b.iv);
}

#[test]
fn truncated_ciphertext_fails_with_illegal_block_size() {
    let options = fixed_options(b"cut");
    let ct = encrypt_stream(&options, &payload(40), 40);
    let r = decrypt_stream(&options.properties(), b"cut", &ct[..ct.len() - 5], 512);
    assert!(matches!(r, Err(Error::IllegalBlockSize)));
}

#[test]
fn end_of_source_is_reported_once() {
    let options = fixed_options(b"end");
    let ct = encrypt_stream(&options, &payload(16), 16);
    let mut dec = Aes256Sha256Decoder::new(&options.properties(), b"end").unwrap();
    assert_eq!(dec.get_more_data(&ct).unwrap(), 16);
    let mut buf = [0u8; 32];
    assert_eq!(dec.read(&mut buf), 16);
    assert!(dec.needs_input());
    assert_eq!(dec.get_more_data(&[]).unwrap(), 0);
    assert!(dec.is_done());
    assert!(!dec.needs_input());
    assert_eq!(dec.get_more_data(&ct).unwrap(), 0);
    assert_eq!(dec.read(&mut buf), 0);
}

#[test]
fn writes_after_finalize_are_refused() {
    let options = fixed_options(b"done");
    let mut enc = Aes256Sha256Encoder::new(&options).unwrap();
    let mut out = Vec::new();
    assert_eq!(enc.write(&[1, 2, 3], &mut out), 3);
    assert!(out.is_empty());
    assert_eq!(enc.write(&[], &mut out), 0);
    assert_eq!(out.len(), 16);
    assert_eq!(enc.write(&[4, 5], &mut out), 0);
    assert_eq!(enc.write(&[], &mut out), 0);
    assert_eq!(out.len(), 16);
    assert_eq!(enc.write_size(), 16);
}

#[test]
fn error_constructors() {
    assert!(matches!(Error::other("bad"), Error::Other(m) if m == "bad"));
    assert!(matches!(Error::unsupported("no"), Error::Unsupported(m) if m == "no"));
    let e = std::io::Error::new(std::io::ErrorKind::Other, "x");
    assert!(matches!(Error::io(e), Error::Io(_, m) if m.is_empty()));
    let e = std::io::Error::new(std::io::ErrorKind::Other, "x");
    assert!(matches!(Error::io_msg(e, "ctx"), Error::Io(_, m) if m == "ctx"));
    let e = std::io::Error::new(std::io::ErrorKind::Other, "x");
    assert!(matches!(Error::file_open(e, "a.7z"), Error::Io(_, m) if m == "a.7z"));
    let e = std::io::Error::new(std::io::ErrorKind::Other, "x");
    assert!(matches!(Error::bad_password(e, true), Error::MaybeBadPassword(_)));
    let e = std::io::Error::new(std::io::ErrorKind::Other, "x");
    assert!(matches!(Error::bad_password(e, false), Error::Io(_, m) if m.is_empty()));
}

#[test]
fn maybe_bad_password_reclassifies_on_encrypted_streams() {
    let io = || std::io::Error::new(std::io::ErrorKind::InvalidData, "x");
    assert!(matches!(Error::io(io()).maybe_bad_password(true), Error::MaybeBadPassword(_)));
    assert!(matches!(Error::io(io()).maybe_bad_password(false), Error::Io(..)));
    assert!(matches!(Error::io_msg(io(), "ctx").maybe_bad_password(true), Error::Io(..)));
    match Error::IllegalBlockSize.maybe_bad_password(true) {
        Error::MaybeBadPassword(e) => assert_eq!(e.kind(), std::io::ErrorKind::InvalidData),
        other => panic!("unexpected {:?}", other),
    }
    assert!(matches!(Error::IllegalBlockSize.maybe_bad_password(false), Error::IllegalBlockSize));
    assert!(matches!(Error::PasswordRequired.maybe_bad_password(true), Error::PasswordRequired));
}
