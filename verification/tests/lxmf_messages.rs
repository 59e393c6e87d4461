//! LXMF messages: packing, parsing, signatures, tickets and propagation.

use aes::cipher::block_padding::Pkcs7;
use aes::cipher::{BlockDecryptMut, BlockEncryptMut, KeyIvInit};
use ed25519_dalek::{Signature, Signer, SigningKey, Verifier, VerifyingKey};
use hmac::Mac;
use lxmfchat::message::{
    append_stamp, extract_ticket, pack, pack_payload, pack_propagation, parse, signed_part, Fields,
    PackedMessage, ParseError, ParsedMessage, DEST_LEN, FIELD_TICKET, HEADER_LENGTH, SIG_LENGTH,
    TICKET_LENGTH,
};
use lxmfchat::msgpack::{decode, encode, Value};
use lxmfchat::sha256::{full_hash, hkdf, truncated_hash};
use lxmfchat::stamp::WORKBLOCK_EXPAND_ROUNDS_PN;

const KEY_HALF: usize = 32;
const IV_LENGTH: usize = 16;

/// A key pair to encrypt to and one to sign with.
struct PrivateIdentity {
    x: x25519_dalek::StaticSecret,
    ed: SigningKey,
}

impl PrivateIdentity {
    fn from_bytes(x: &[u8; 32], ed: &[u8; 32]) -> Self {
        Self { x: x25519_dalek::StaticSecret::from(*x), ed: SigningKey::from_bytes(ed) }
    }

    fn public_bytes(&self) -> Vec<u8> {
        let mut v = x25519_dalek::PublicKey::from(&self.x).as_bytes().to_vec();
        v.extend_from_slice(self.ed.verifying_key().as_bytes());
        v
    }

    fn hash(&self) -> [u8; 16] {
        truncated_hash(&self.public_bytes())
    }

    fn public(&self) -> VerifyingKey {
        self.ed.verifying_key()
    }

    fn decrypt(&self, token: &[u8]) -> Option<Vec<u8>> {
        let mut peer = [0u8; 32];
        peer.copy_from_slice(&token[..32]);
        let shared = self.x.diffie_hellman(&x25519_dalek::PublicKey::from(peer));
        let keys = hkdf(64, shared.as_bytes(), &self.hash(), &[]);
        let (body, tag) = token[32..].split_at(token.len() - 64);
        let mut mac = hmac::Hmac::<sha2::Sha256>::new_from_slice(&keys[..32]).unwrap();
        mac.update(body);
        if mac.verify_slice(tag).is_err() {
            return None;
        }
        cbc::Decryptor::<aes::Aes256>::new_from_slices(&keys[32..], &body[..IV_LENGTH])
            .unwrap()
            .decrypt_padded_vec_mut::<Pkcs7>(&body[IV_LENGTH..])
            .ok()
    }
}

/// Encrypts to an identity, with a given ephemeral key and initialisation vector.
fn encrypt(to: &PrivateIdentity, plain: &[u8], eph: &[u8; 32], iv: &[u8; 16]) -> Vec<u8> {
    let eph = x25519_dalek::StaticSecret::from(*eph);
    let shared = eph.diffie_hellman(&x25519_dalek::PublicKey::from(&to.x));
    let keys = hkdf(64, shared.as_bytes(), &to.hash(), &[]);
    let mut body = iv.to_vec();
    body.extend(
        cbc::Encryptor::<aes::Aes256>::new_from_slices(&keys[32..], iv)
            .unwrap()
            .encrypt_padded_vec_mut::<Pkcs7>(plain),
    );
    let mut mac = hmac::Hmac::<sha2::Sha256>::new_from_slice(&keys[..32]).unwrap();
    mac.update(&body);
    let tag = mac.finalize().into_bytes();
    let mut out = x25519_dalek::PublicKey::from(&eph).as_bytes().to_vec();
    out.extend(body);
    out.extend_from_slice(&tag);
    out
}

fn single_destination_hash(identity: &[u8; 16]) -> [u8; 16] {
    let mut v = full_hash(b"lxmf.delivery")[..10].to_vec();
    v.extend_from_slice(identity);
    truncated_hash(&v)
}

#[allow(clippy::too_many_arguments)]
fn packed(
    source: &PrivateIdentity,
    dest: &[u8; 16],
    src: &[u8; 16],
    ts: f64,
    title: &[u8],
    content: &[u8],
    fields: &Fields,
    ticket: Option<&[u8; 16]>,
) -> PackedMessage {
    let part = signed_part(dest, src, ts.to_bits(), title, content, fields);
    let sig = source.ed.sign(&part).to_bytes();
    pack(&sig, dest, src, ts.to_bits(), title, content, fields, ticket)
}

/// Parses, and judges the signature by an identity.
fn parse_from(bytes: &[u8], key: Option<VerifyingKey>) -> Result<ParsedMessage, ParseError> {
    let mut m = parse(bytes)?;
    let verdict = key.map(|k| {
        let mut sig = [0u8; 64];
        sig.copy_from_slice(&m.signature);
        k.verify(&m.signed_part, &Signature::from_bytes(&sig)).is_ok()
    });
    m.judge(verdict);
    Ok(m)
}

#[test]
fn pack_parse_roundtrip_verifies() {
    let source = PrivateIdentity::from_bytes(&[0x05; KEY_HALF], &[0x06; KEY_HALF]);
    let recipient = PrivateIdentity::from_bytes(&[0x07; KEY_HALF], &[0x08; KEY_HALF]);
    let dest_hash = single_destination_hash(&recipient.hash());
    let source_hash = single_destination_hash(&source.hash());

    let fields = Fields::new();
    let msg =
        packed(&source, &dest_hash, &source_hash, 1_700_000_000.0, b"Hi", b"Hello!", &fields, None);

    let parsed = parse_from(&msg.packed, Some(source.public())).unwrap();
    assert!(parsed.signature_validated);
    assert_eq!(parsed.message_id, msg.message_id);
    assert_eq!(parsed.content, b"Hello!");
    assert_eq!(parsed.title, b"Hi");
    assert_eq!(parsed.destination_hash, dest_hash);
    assert_eq!(parsed.source_hash, source_hash);
}

#[test]
fn wrong_source_fails_verification() {
    let source = PrivateIdentity::from_bytes(&[1; KEY_HALF], &[2; KEY_HALF]);
    let other = PrivateIdentity::from_bytes(&[3; KEY_HALF], &[4; KEY_HALF]);
    let dh = [0xAA; DEST_LEN];
    let sh = [0xBB; DEST_LEN];
    let msg = packed(&source, &dh, &sh, 1.0, b"", b"x", &Fields::new(), None);
    let parsed = parse_from(&msg.packed, Some(other.public())).unwrap();
    assert!(!parsed.signature_validated);
}

#[test]
fn propagation_envelope_shape_and_recipient_decrypts() {
    let source = PrivateIdentity::from_bytes(&[0x21; KEY_HALF], &[0x22; KEY_HALF]);
    let recipient = PrivateIdentity::from_bytes(&[0x23; KEY_HALF], &[0x24; KEY_HALF]);
    let dest_hash = single_destination_hash(&recipient.hash());
    let source_hash = single_destination_hash(&source.hash());

    let msg = packed(
        &source, &dest_hash, &source_hash, 1_700_000_000.0, b"", b"stored", &Fields::new(), None,
    );
    let encrypted = encrypt(
        &recipient, msg.opportunistic_plaintext(), &[0x31; KEY_HALF], &[0x32; IV_LENGTH],
    );
    let env = pack_propagation(&dest_hash, &encrypted, 1_700_000_001.0f64.to_bits(), 0).unwrap();

    // Envelope is [transfer_ts, [lxmf_data]].
    let arr = match decode(&env).unwrap() {
        Value::Array(a) => a,
        _ => panic!("not an array"),
    };
    assert_eq!(arr.len(), 2);
    assert_eq!(f64::from_bits(arr[0].as_f64().unwrap()), 1_700_000_001.0);
    let list = arr[1].as_array().unwrap();
    assert_eq!(list.len(), 1);
    let lxmf_data = list[0].as_bin().unwrap();

    // lxmf_data = dest_hash(16) || encrypted(source||sig||payload); the recipient
    // decrypts the tail and recovers a verifiable message.
    assert_eq!(&lxmf_data[..DEST_LEN], &dest_hash[..]);
    let inner = recipient.decrypt(&lxmf_data[DEST_LEN..]).unwrap();
    let mut full = dest_hash.to_vec();
    full.extend_from_slice(&inner);
    let parsed = parse_from(&full, Some(source.public())).unwrap();
    assert!(parsed.signature_validated);
    assert_eq!(parsed.content, b"stored");
    assert_eq!(parsed.message_id, msg.message_id);
}

#[test]
fn ticket_stamp_is_appended_and_roundtrips() {
    let source = PrivateIdentity::from_bytes(&[0x09; KEY_HALF], &[0x0a; KEY_HALF]);
    let recipient = PrivateIdentity::from_bytes(&[0x0b; KEY_HALF], &[0x0c; KEY_HALF]);
    let dest_hash = single_destination_hash(&recipient.hash());
    let source_hash = single_destination_hash(&source.hash());

    let ticket = [0x42u8; TICKET_LENGTH];
    let msg = packed(
        &source, &dest_hash, &source_hash, 1_700_000_000.0, b"", b"hi", &Fields::new(),
        Some(&ticket),
    );

    // The wire payload carries a 5th element: stamp = H(ticket || message_id).
    let payload = &msg.packed[2 * DEST_LEN + SIG_LENGTH..];
    let arr = match decode(payload).unwrap() {
        Value::Array(a) => a,
        _ => panic!("payload is not an array"),
    };
    assert_eq!(arr.len(), 5, "stamp should be appended as the 5th element");
    let mut expected = Vec::new();
    expected.extend_from_slice(&ticket);
    expected.extend_from_slice(&msg.message_id);
    assert_eq!(arr[4].as_bin().unwrap(), &truncated_hash(&expected)[..]);

    // The recipient strips the stamp and the signature still verifies, and the
    // message id is unchanged from the no-ticket case.
    let parsed = parse_from(&msg.packed, Some(source.public())).unwrap();
    assert!(parsed.signature_validated);
    assert_eq!(parsed.content, b"hi");
    let no_ticket = packed(
        &source, &dest_hash, &source_hash, 1_700_000_000.0, b"", b"hi", &Fields::new(), None,
    );
    assert_eq!(parsed.message_id, no_ticket.message_id);
}

#[test]
fn packed_bytes_are_laid_out_in_order() {
    let sig = [0x77u8; 64];
    let m = pack(&sig, &[1; 16], &[2; 16], 1.5f64.to_bits(), b"t", b"c", &Fields::new(), None);
    assert_eq!(&m.packed[..16], &[1u8; 16]);
    assert_eq!(&m.packed[16..32], &[2u8; 16]);
    assert_eq!(&m.packed[32..96], &sig[..]);
    let payload = pack_payload(1.5f64.to_bits(), b"t", b"c", &Fields::new());
    assert_eq!(&m.packed[HEADER_LENGTH..], &payload[..]);
    // [1.5, b"t", b"c", {}]
    assert_eq!(
        payload,
        vec![0x94, 0xcb, 0x3f, 0xf8, 0, 0, 0, 0, 0, 0, 0xc4, 1, b't', 0xc4, 1, b'c', 0x80]
    );
    let mut hashed = vec![1u8; 16];
    hashed.extend_from_slice(&[2; 16]);
    hashed.extend_from_slice(&payload);
    assert_eq!(m.message_id, full_hash(&hashed));
    assert_eq!(m.opportunistic_plaintext(), &m.packed[16..]);
    hashed.extend_from_slice(&m.message_id);
    assert_eq!(
        signed_part(&[1; 16], &[2; 16], 1.5f64.to_bits(), b"t", b"c", &Fields::new()),
        hashed
    );
}

#[test]
fn unreadable_messages_are_refused() {
    assert_eq!(parse(&[0; 95]).err(), Some(ParseError::TooShort));
    assert_eq!(parse(&[0; 96]).err(), Some(ParseError::BadPayload));
    let mut b = vec![0u8; 96];
    b.extend(encode(&Value::Array(vec![Value::Int(1)])));
    assert_eq!(parse(&b).err(), Some(ParseError::BadPayload));
    let mut b = vec![0u8; 96];
    b.extend(encode(&Value::Nil));
    assert_eq!(parse(&b).err(), Some(ParseError::BadPayload));
}

#[test]
fn without_an_identity_nothing_is_validated() {
    let m = pack(&[0; 64], &[1; 16], &[2; 16], 0, b"", b"x", &Fields::new(), None);
    let p = parse_from(&m.packed, None).unwrap();
    assert!(!p.signature_validated);
}

#[test]
fn text_that_is_not_utf8_is_repaired() {
    let m = pack(&[0; 64], &[1; 16], &[2; 16], 0, b"\xff", b"a\xffb", &Fields::new(), None);
    let p = parse(&m.packed).unwrap();
    assert_eq!(p.title_string(), "\u{fffd}");
    assert_eq!(p.content_string(), "a\u{fffd}b");
    assert_eq!(p.content, b"a\xffb");
}

#[test]
fn tickets_are_read_from_their_field() {
    let mut f = Fields::new();
    assert!(extract_ticket(&f).is_none());
    f.insert(
        FIELD_TICKET,
        Value::Array(vec![Value::F64(1_700_000_000.75f64.to_bits()), Value::Bin(vec![7; 16])]),
    );
    let t = extract_ticket(&f).unwrap();
    assert_eq!(t.expires, 1_700_000_000);
    assert_eq!(t.ticket, [7; 16]);
    // Whole numbers stand for seconds too.
    f.insert(FIELD_TICKET, Value::Array(vec![Value::Int(12), Value::Bin(vec![7; 16])]));
    assert_eq!(extract_ticket(&f).unwrap().expires, 12);
    // A ticket of another length is none.
    f.insert(FIELD_TICKET, Value::Array(vec![Value::Int(12), Value::Bin(vec![7; 15])]));
    assert!(extract_ticket(&f).is_none());
    f.insert(FIELD_TICKET, Value::Array(vec![Value::Int(12)]));
    assert!(extract_ticket(&f).is_none());
}

#[test]
fn appended_stamp_leaves_the_message_as_it_was() {
    let m = pack(&[5; 64], &[1; 16], &[2; 16], 1.0f64.to_bits(), b"t", b"c", &Fields::new(), None);
    let stamped = append_stamp(&m.packed, &[9; 32]).unwrap();
    let p = parse(&stamped).unwrap();
    assert_eq!(p.message_id, m.message_id);
    assert_eq!(p.content, b"c");
    let arr = decode(&stamped[HEADER_LENGTH..]).unwrap();
    assert_eq!(arr.as_array().unwrap()[4], Value::Bin(vec![9; 32]));
    assert!(append_stamp(&[0; 40], &[9; 32]).is_none());
}

#[test]
fn propagation_stamp_is_worth_its_cost() {
    let cost = 6;
    let env = pack_propagation(&[3; 16], &[4; 50], 2.0f64.to_bits(), cost).unwrap();
    let v = decode(&env).unwrap();
    let data = v.as_array().unwrap()[1].as_array().unwrap()[0].as_bin().unwrap().to_vec();
    assert_eq!(data.len(), 16 + 50 + 32);
    let material = full_hash(&data[..66]);
    let mut all = lxmfchat::stamp::stamp_workblock(&material, WORKBLOCK_EXPAND_ROUNDS_PN);
    all.extend_from_slice(&data[66..]);
    let digest = full_hash(&all);
    assert_eq!(digest[0] >> 2, 0);
}
