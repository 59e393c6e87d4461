//! MessagePack, hashing, stamps and the frame of bzip2 streams.

use hmac::Mac;
use lxmfchat::bzip2::decoder::{BlockRead, BlockState, Decoder, DecoderError, ReadState, WriteState};
use lxmfchat::bzip2::header::{Header, HeaderError, MAX_SUPPORTED_BLOCKSIZE};
use lxmfchat::float::{double_to_u64, int_to_double, u64_to_double, widen};
use lxmfchat::hex::{hash_from_hex, hex, unhex};
use lxmfchat::msgpack::{decode, encode, IntMap, Value};
use lxmfchat::sha256::{
    compress, digest_bytes, digest_leading_zeros, full_hash, hkdf, hmac as keyed, truncated_hash, H0,
};
use lxmfchat::stamp::{
    find_stamp, generate_stamp, stamp_workblock, STAMP_SIZE, WORKBLOCK_EXPAND_ROUNDS_PN,
};
use sha2::Digest;

#[test]
fn roundtrip_lxmf_shape() {
    let v = Value::Array(vec![
        Value::F64(1_700_000_000.5f64.to_bits()),
        Value::Bin(b"title".to_vec()),
        Value::Bin(b"hello world".to_vec()),
        Value::Dict(IntMap::new()),
    ]);
    let enc = encode(&v);
    let dec = decode(&enc).unwrap();
    assert_eq!(v, dec);
}

#[test]
fn strmap_matches_umsgpack() {
    // Reference bytes from python umsgpack.packb({"var_g": "mirrors"}) —
    // the request-data dict NomadNet sends for a page URL variable.
    let v = Value::StrMap(vec![("var_g".to_string(), Value::Str("mirrors".to_string()))]);
    assert_eq!(hex(&encode(&v)), "81a57661725f67a76d6972726f7273");
}

#[test]
fn ints_and_floats() {
    for n in [0i64, 1, 127, 128, 255, 256, 65535, 70000, -1, -32, -33, -200, -70000] {
        assert_eq!(decode(&encode(&Value::Int(n))).unwrap(), Value::Int(n));
    }
    assert_eq!(
        decode(&encode(&Value::F64(3.5f64.to_bits()))).unwrap(),
        Value::F64(3.5f64.to_bits())
    );
}

#[test]
fn extreme_integers_take_the_widest_form() {
    assert_eq!(hex(&encode(&Value::Int(i64::MIN))), "d38000000000000000");
    assert_eq!(hex(&encode(&Value::Int(i64::MAX))), "cf7fffffffffffffff");
    assert_eq!(hex(&encode(&Value::Int(-32))), "e0");
    assert_eq!(hex(&encode(&Value::Int(-33))), "d0df");
    assert_eq!(hex(&encode(&Value::Int(127))), "7f");
    assert_eq!(hex(&encode(&Value::Int(128))), "cc80");
    for n in [i64::MIN, i64::MAX, i32::MIN as i64, u32::MAX as i64] {
        assert_eq!(decode(&encode(&Value::Int(n))).unwrap(), Value::Int(n));
    }
}

#[test]
fn map_keys_come_in_order_and_once() {
    let mut m = IntMap::new();
    m.insert(5, Value::Nil);
    m.insert(-1, Value::Bool(true));
    m.insert(5, Value::Int(2));
    assert_eq!(m.len(), 2);
    assert!(!m.is_empty());
    assert_eq!(m.get(5), Some(&Value::Int(2)));
    assert_eq!(m.get(4), None);
    let b = encode(&Value::Dict(m));
    assert_eq!(hex(&b), "82ffc30502");
    match decode(&b).unwrap() {
        Value::Dict(d) => assert_eq!(d.entries, vec![(-1, Value::Bool(true)), (5, Value::Int(2))]),
        _ => panic!("not a map"),
    }
}

#[test]
fn short_floats_are_widened() {
    let mut b = vec![0xca];
    b.extend_from_slice(&1.25f32.to_bits().to_be_bytes());
    assert_eq!(decode(&b).unwrap(), Value::F64(1.25f64.to_bits()));
}

#[test]
fn bytes_that_are_no_value_are_refused() {
    for b in [&[][..], &[0xc1], &[0xcd, 1], &[0xc4, 5, 1], &[0x91], &[0x81, 0xc0, 1], &[0xdd, 0xff, 0xff, 0xff, 0xff]] {
        assert!(decode(b).is_err());
    }
}

#[test]
fn text_in_a_value_is_repaired() {
    assert_eq!(decode(&[0xa2, 0xff, b'a']).unwrap(), Value::Str("\u{fffd}a".to_string()));
}

#[test]
fn compress_matches_full_hash_of_one_block() {
    // SHA-256 of a single padded block must equal full_hash of the message.
    // message = "abc" (3 bytes) → one padded block.
    let msg = b"abc";
    let mut block = [0u8; 64];
    block[..3].copy_from_slice(msg);
    block[3] = 0x80;
    let bit_len = (msg.len() as u64) * 8;
    block[56..].copy_from_slice(&bit_len.to_be_bytes());
    let mut state = H0;
    compress(&mut state, &block);
    let mut out = [0u8; 32];
    for i in 0..8 {
        out[4 * i..4 * i + 4].copy_from_slice(&state[i].to_be_bytes());
    }
    assert_eq!(out, full_hash(msg));
    assert_eq!(out, digest_bytes(&state));
}

#[test]
fn generated_stamp_validates() {
    // Generate a low-cost stamp and confirm SHA256(workblock||stamp) has the
    // required leading zeros.
    let material = [0x42u8; 32];
    let cost = 8;
    // The streaming (never-materialized) midstate fold must agree with a
    // hash of the materialized workblock — this asserts both the stamp
    // and that equivalence.
    let stamp = generate_stamp(&material, cost, WORKBLOCK_EXPAND_ROUNDS_PN);
    let workblock = stamp_workblock(&material, WORKBLOCK_EXPAND_ROUNDS_PN);
    let mut combined = workblock;
    combined.extend_from_slice(&stamp);
    let digest = full_hash(&combined);
    let mut lz = 0u32;
    for b in digest {
        if b == 0 {
            lz += 8;
        } else {
            lz += b.leading_zeros(); // u8::leading_zeros is 0..=8
            break;
        }
    }
    assert!(lz >= cost, "stamp only had {lz} leading zero bits, need {cost}");
}

#[test]
fn workblock_follows_the_derivation() {
    let material = [1u8; 32];
    let wb = stamp_workblock(&material, 3);
    assert_eq!(wb.len(), 3 * 256);
    for n in 0..3u8 {
        let mut salted = material.to_vec();
        salted.push(n);
        let salt = sha2::Sha256::digest(&salted);
        let mut want = [0u8; 256];
        hkdf::Hkdf::<sha2::Sha256>::new(Some(&salt[..]), &material).expand(&[], &mut want).unwrap();
        let at = n as usize * 256;
        assert_eq!(&wb[at..at + 256], &want[..]);
    }
}

#[test]
fn free_stamps_are_the_first_counted() {
    let s = find_stamp(&[0; 32], 0, 1).unwrap();
    assert_eq!(s.len(), STAMP_SIZE);
    assert_eq!(Some(s), find_stamp(&[1; 32], 0, 1));
}

#[test]
fn digests_agree_with_the_standard_vectors() {
    assert_eq!(
        hex(&full_hash(b"abc")),
        "ba7816bf8f01cfea414140de5dae2223b00361a396177a9cb410ff61f20015ad"
    );
    assert_eq!(
        hex(&full_hash(b"")),
        "e3b0c44298fc1c149afbf4c8996fb92427ae41e4649b934ca495991b7852b855"
    );
    assert_eq!(hex(&truncated_hash(b"abc")), "ba7816bf8f01cfea414140de5dae2223");
    for n in [1usize, 55, 56, 63, 64, 65, 119, 120, 128, 1000] {
        let m = vec![0xa5u8; n];
        assert_eq!(full_hash(&m)[..], sha2::Sha256::digest(&m)[..]);
    }
}

#[test]
fn leading_zeros_are_counted_over_the_whole_digest() {
    assert_eq!(digest_leading_zeros(&[0, 0x0000_8000, 1, 0, 0, 0, 0, 0]), 48);
    assert_eq!(digest_leading_zeros(&[0; 8]), 256);
    assert_eq!(digest_leading_zeros(&[0x8000_0000, 0, 0, 0, 0, 0, 0, 0]), 0);
}

#[test]
fn keyed_digests_agree_with_a_second_source() {
    for k in [0usize, 5, 64, 65, 200] {
        let key = vec![3u8; k];
        let mut mac = hmac::Hmac::<sha2::Sha256>::new_from_slice(&key).unwrap();
        mac.update(b"message");
        assert_eq!(keyed(&key, b"message")[..], mac.finalize().into_bytes()[..]);
    }
    for n in [0usize, 1, 32, 33, 256, 8160] {
        let mut want = vec![0u8; n];
        hkdf::Hkdf::<sha2::Sha256>::new(Some(b"salt"), b"key").expand(b"info", &mut want).unwrap();
        assert_eq!(hkdf(n, b"key", b"salt", b"info"), want);
    }
}

#[test]
fn whole_numbers_become_doubles_as_the_machine_does() {
    for n in [0i64, 1, -1, 3, 1_700_000_000, i64::MAX, i64::MIN, (1 << 53) + 1, (1 << 53) + 3] {
        assert_eq!(int_to_double(n), (n as f64).to_bits());
    }
    for n in [0u64, 1, u64::MAX, (1 << 63) + 1024, (1 << 63) + 1025] {
        assert_eq!(u64_to_double(n), (n as f64).to_bits());
    }
}

#[test]
fn doubles_become_seconds_as_the_machine_does() {
    for x in [0.0f64, -0.0, 0.5, 1.0, 1.999, -3.0, 1e18, 1e20, 1e300, f64::INFINITY, f64::NEG_INFINITY, f64::NAN, 5e-324] {
        assert_eq!(double_to_u64(x.to_bits()), x as u64);
    }
    for x in [0.0f32, -0.0, 1.5, -2.25, f32::MIN_POSITIVE, 1e-45, f32::MAX, f32::INFINITY] {
        assert_eq!(widen(x.to_bits()), (x as f64).to_bits());
    }
}

#[test]
fn hex_reads_back_what_it_wrote() {
    assert_eq!(hex(&[0x00, 0xff, 0x1a]), "00ff1a");
    let chars: Vec<char> = "00FF1a".chars().collect();
    assert_eq!(unhex(&chars), Some(vec![0x00, 0xff, 0x1a]));
    let odd: Vec<char> = "00F".chars().collect();
    assert_eq!(unhex(&odd), None);
    let bad: Vec<char> = "zz".chars().collect();
    assert_eq!(unhex(&bad), None);
    let signed: Vec<char> = "+a".chars().collect();
    assert_eq!(unhex(&signed), None);
    let chars: Vec<char> = hex(&[9; 16]).chars().collect();
    assert_eq!(hash_from_hex(&chars), Some([9; 16]));
    assert_eq!(hash_from_hex(&chars[..30]), None);
}

#[test]
fn valid_9k() {
    let header = Header::parse(*b"BZh9").unwrap();
    assert_eq!(header.raw_blocksize(), 9);
    // A "BZh9" header does not mean a 3.6 MB working array: the supported block
    // content is clamped.
    assert_eq!(header.max_blocksize(), MAX_SUPPORTED_BLOCKSIZE);
}

#[test]
fn read_state_is_exported() {
    let _ = core::mem::size_of::<ReadState>();
}

#[test]
fn other_headers_are_refused() {
    assert!(matches!(Header::parse(*b"XZh9"), Err(HeaderError::InvalidSignature)));
    assert!(matches!(Header::parse(*b"BZ09"), Err(HeaderError::UnsupportedVersion)));
    assert!(matches!(Header::parse(*b"BZh0"), Err(HeaderError::InvalidBlockSize)));
    assert!(matches!(Header::from_raw_blocksize(10), Err(HeaderError::InvalidBlockSize)));
}

#[test]
fn decoder_asks_for_data_first() {
    let mut d = Decoder::new();
    assert_eq!(d.space(), d.space());
    assert!(!d.wants_block());
    let none = BlockRead { read: Some(0), position: 0, state: BlockState::NotReady };
    match d.read(10, none) {
        Ok(ReadState::NeedsWrite(n)) => assert_eq!(n, d.space()),
        other => panic!("{:?}", other),
    }
    assert_eq!(d.write(b"BZh9"), Ok(WriteState::Written(4)));
    let mut bad = Decoder::new();
    assert_eq!(
        bad.write(b"XZh9"),
        Err(DecoderError::Header(HeaderError::InvalidSignature))
    );
}

#[test]
fn a_value_that_is_cut_short_is_refused() {
    let mut m = IntMap::new();
    m.insert(7, Value::Str("text".to_string()));
    m.insert(300, Value::Array(vec![Value::Nil, Value::Int(-70000)]));
    let v = Value::Array(vec![
        Value::F64(1.5f64.to_bits()),
        Value::Bin(vec![1; 300]),
        Value::Dict(m),
        Value::Array(vec![Value::Bool(true); 20]),
    ]);
    let b = encode(&v);
    for n in 0..b.len() {
        assert!(decode(&b[..n]).is_err());
    }
    let mut longer = b.clone();
    longer.extend_from_slice(&[1, 2, 3]);
    assert_eq!(decode(&longer).unwrap(), v);
}

#[test]
fn a_decoder_takes_the_data_that_it_asked_for() {
    let mut d = Decoder::new();
    let none = BlockRead { read: Some(0), position: 0, state: BlockState::NotReady };
    let Ok(ReadState::NeedsWrite(space)) = d.read(10, none) else { panic!("nothing asked for") };
    let mut data = b"BZh9".to_vec();
    data.resize(space, 0);
    assert_eq!(d.write(&data), Ok(WriteState::Written(space)));
}

#[test]
fn a_header_may_come_in_pieces() {
    let mut d = Decoder::new();
    assert_eq!(d.write(b"BZh"), Ok(WriteState::Written(3)));
    let none = BlockRead { read: Some(0), position: 0, state: BlockState::NotReady };
    let Ok(ReadState::NeedsWrite(space)) = d.read(10, none) else { panic!("nothing asked for") };
    assert_eq!(space, 65540);
    let mut data = b"9".to_vec();
    data.resize(space, 0);
    assert_eq!(d.write(&data), Ok(WriteState::Written(space)));
    // The buffer is full now, so the next write takes nothing and the block is ready.
    assert_eq!(d.space(), 0);
    assert_eq!(d.write(&[1, 2, 3]), Ok(WriteState::Written(0)));
    assert!(d.wants_block());
}

#[test]
fn a_bad_header_is_refused_again() {
    let mut d = Decoder::new();
    let bad = Err(DecoderError::Header(HeaderError::InvalidSignature));
    assert_eq!(d.write(b"XZh9"), bad);
    assert_eq!(d.write(b"BZh9"), bad);
}
