use b64codec::dispatch::{decode_with, encode_with, select_engine, Engine};
use b64codec::scalar;
use b64codec::wide;
use b64codec::{
    decode, decode_len, decode_mut, encode, encode_len, encode_mut, CodecError, DecodeOptions,
    EncodeOptions,
};

fn sample(n: usize) -> Vec<u8> {
    (0..n).map(|i| (i * 37 + 11) as u8).collect()
}

const LENGTHS: [usize; 13] = [0, 1, 2, 3, 23, 24, 25, 31, 32, 33, 47, 48, 49];

#[test]
fn round_trip_many_lengths() {
    for n in 0..200 {
        let b = sample(n);
        let text = encode(&b);
        assert_eq!(decode(text.as_bytes()).unwrap(), b);
    }
}

#[test]
fn round_trip_all_byte_values() {
    let b: Vec<u8> = (0..=255u8).collect();
    assert_eq!(decode(encode(&b).as_bytes()).unwrap(), b);
}

#[test]
fn length_law() {
    for n in 0..100 {
        let b = sample(n);
        let text = encode(&b);
        assert_eq!(text.len(), encode_len(n));
        let decoded = decode(text.as_bytes()).unwrap();
        assert!(decode_len(text.len()) >= decoded.len());
        assert!(decode_len(text.len()) <= decoded.len() + 2);
    }
}

#[test]
fn length_formulas() {
    assert_eq!(encode_len(0), 0);
    assert_eq!(decode_len(0), 0);
    assert_eq!(encode_len(1), 4);
    assert_eq!(encode_len(2), 4);
    assert_eq!(encode_len(3), 4);
    assert_eq!(encode_len(4), 8);
    assert_eq!(encode_len(24), 32);
    assert_eq!(decode_len(4), 3);
    assert_eq!(decode_len(7), 3);
    assert_eq!(decode_len(32), 24);
    for n in 0..1000 {
        assert_eq!(encode_len(n) % 4, 0);
    }
}

#[test]
fn engines_agree_on_encode() {
    for &n in LENGTHS.iter() {
        let b = sample(n);
        let mut a = vec![0u8; encode_len(n)];
        let mut w = vec![0u8; encode_len(n)];
        assert_eq!(scalar::encode(&b, &mut a), encode_len(n));
        assert_eq!(wide::encode(&b, &mut w), encode_len(n));
        assert_eq!(a, w);
    }
}

#[test]
fn engines_agree_on_decode() {
    for &n in LENGTHS.iter() {
        let text = encode(&sample(n));
        let t = text.as_bytes();
        let mut a = vec![0u8; decode_len(t.len())];
        let mut w = vec![0u8; decode_len(t.len())];
        let ra = scalar::decode(t, &mut a).unwrap();
        let rw = wide::decode(t, &mut w).unwrap();
        assert_eq!(ra, n);
        assert_eq!(rw, n);
        assert_eq!(&a[..ra], &w[..rw]);
        assert_eq!(&a[..ra], &sample(n)[..]);
    }
}

#[test]
fn engines_agree_on_errors() {
    let mut text = encode(&sample(60)).into_bytes();
    text[37] = b'*';
    let mut a = vec![0u8; decode_len(text.len())];
    let mut w = vec![0u8; decode_len(text.len())];
    assert_eq!(scalar::decode(&text, &mut a), Err(CodecError::InvalidInput(37, b'*')));
    assert_eq!(wide::decode(&text, &mut w), Err(CodecError::InvalidInput(37, b'*')));
}

#[test]
fn dispatch_routes_both_ways() {
    assert_eq!(select_engine(true, 24, 24), Engine::Lanes);
    assert_eq!(select_engine(true, 23, 24), Engine::Scalar);
    assert_eq!(select_engine(false, 100, 24), Engine::Scalar);
    let b = sample(50);
    let mut a = vec![0u8; encode_len(50)];
    let mut w = vec![0u8; encode_len(50)];
    encode_with(Engine::Scalar, &b, &mut a);
    encode_with(Engine::Lanes, &b, &mut w);
    assert_eq!(a, w);
    let mut d = vec![0u8; decode_len(a.len())];
    assert_eq!(decode_with(Engine::Lanes, &a, &mut d), Ok(50));
    assert_eq!(&d[..50], &b[..]);
}

#[test]
fn lane_mapping_matches_scalar_mapping() {
    for x in 0..64u8 {
        assert_eq!(wide::lane_sym(x), scalar::sym_of(x));
    }
    for c in 0..=255u8 {
        let (v, ok) = wide::lane_sextet(c);
        assert_eq!(ok, scalar::is_sym_byte(c));
        if ok {
            assert_eq!(v, scalar::sextet_of(c));
        }
    }
}

#[test]
fn invalid_length_rejected() {
    for n in [1usize, 2, 3, 5, 6, 7] {
        let text = vec![b'A'; n];
        assert_eq!(decode(&text), Err(CodecError::InputLengthInvalid(n)));
    }
}

#[test]
fn misplaced_pad_rejected() {
    assert_eq!(decode(b"A=AA"), Err(CodecError::InvalidInput(1, b'=')));
    assert_eq!(decode(b"AB=A"), Err(CodecError::InvalidInput(2, b'=')));
    assert_eq!(decode(b"A==="), Err(CodecError::InvalidInput(1, b'=')));
    assert_eq!(decode(b"Zg==Zg=="), Err(CodecError::InvalidInput(2, b'=')));
}

#[test]
fn non_alphabet_byte_rejected() {
    assert_eq!(decode(b"AB@D"), Err(CodecError::InvalidInput(2, b'@')));
    assert_eq!(decode(b"Zm9v\nZm9v"), Err(CodecError::InputLengthInvalid(9)));
    assert_eq!(decode(b"Zm9v Zm9"), Err(CodecError::InvalidInput(4, b' ')));
}

#[test]
fn encode_buffer_too_small() {
    let mut buf = [7u8; 3];
    assert_eq!(encode_mut(b"abc", &mut buf), Err(CodecError::OutputLengthTooShort(3, 4)));
    assert_eq!(buf, [7u8; 3]);
}

#[test]
fn decode_buffer_too_small() {
    let mut buf = [7u8; 2];
    assert_eq!(decode_mut(b"Zg==", &mut buf), Err(CodecError::OutputLengthTooShort(2, 3)));
    assert_eq!(buf, [7u8; 2]);
}

#[test]
fn encode_mut_writes_exactly() {
    let mut buf = [b'#'; 10];
    assert_eq!(encode_mut(b"fo", &mut buf), Ok(4));
    assert_eq!(&buf, b"Zm8=######");
}

#[test]
fn decode_mut_returns_true_length() {
    let mut buf = [0u8; 6];
    assert_eq!(decode_mut(b"Zm9vYg==", &mut buf), Ok(4));
    assert_eq!(&buf[..4], b"foob");
    assert_eq!(decode_mut(b"Zm9vYmE=", &mut buf), Ok(5));
    assert_eq!(&buf[..5], b"fooba");
}

#[test]
fn concrete_vectors() {
    assert_eq!(encode(b""), "");
    assert_eq!(encode(b"f"), "Zg==");
    assert_eq!(encode(b"fo"), "Zm8=");
    assert_eq!(encode(b"foo"), "Zm9v");
    assert_eq!(encode(b"foob"), "Zm9vYg==");
    assert_eq!(encode(b"fooba"), "Zm9vYmE=");
    assert_eq!(encode(b"foobar"), "Zm9vYmFy");
    assert_eq!(encode(b"fobar"), "Zm9iYXI=");
    assert_eq!(decode(b"Zm9vYmFy").unwrap(), b"foobar".to_vec());
    assert_eq!(decode(b"").unwrap(), Vec::<u8>::new());
}

#[test]
fn whole_alphabet() {
    let b: Vec<u8> = vec![0x00, 0x10, 0x83, 0x10, 0x51, 0x87, 0x20, 0x92, 0x8b, 0x30, 0xd3, 0x8f,
        0x41, 0x14, 0x93, 0x51, 0x55, 0x97, 0x61, 0x96, 0x9b, 0x71, 0xd7, 0x9f, 0x82, 0x18, 0xa3,
        0x92, 0x59, 0xa7, 0xa2, 0x9a, 0xab, 0xb2, 0xdb, 0xaf, 0xc3, 0x1c, 0xb3, 0xd3, 0x5d, 0xb7,
        0xe3, 0x9e, 0xbb, 0xf3, 0xdf, 0xbf];
    let text = encode(&b);
    assert_eq!(text, "ABCDEFGHIJKLMNOPQRSTUVWXYZabcdefghijklmnopqrstuvwxyz0123456789+/");
}

#[test]
fn options_objects() {
    assert_eq!(EncodeOptions::default().encode(b"foo"), "Zm9v");
    let mut out = [0u8; 4];
    assert_eq!(EncodeOptions::default().encode_mut(b"foo", &mut out), Ok(4));
    assert_eq!(DecodeOptions::default().decode(b"Zm9v").unwrap(), b"foo".to_vec());
    let mut back = [0u8; 3];
    assert_eq!(DecodeOptions::default().decode_mut(&out, &mut back), Ok(3));
    assert_eq!(&back, b"foo");
}
