//! LXMF messages on the wire.
//!
//! A packed message is the destination's hash, the source's hash, a signature
//! and a payload: the MessagePack array of a timestamp, a title, a content and a
//! map of fields. The message's identifier is the SHA-256 digest of both hashes
//! and the payload; the signature covers what is hashed and the identifier.
//!
//! A stamp for the recipient rides as a fifth element of the payload. Neither the
//! identifier nor the signature covers it.
use vstd::prelude::*;
use vstd::slice::slice_subrange;

use crate::bytes::{first16, push_all, to_vec};
use crate::float::{positive_finite, positive_whole, whole_part};
use crate::msgpack::{
    bin_of, decode, decoded, decoded_keys_ascend, double_of, encode, encoded, encoded_reads_back,
    keys_ascend, lookup, model, storable, IntMap, Model, Value,
};
use crate::sha256::{full_hash, sha256, sha256_truncated, truncated_hash};
use crate::stamp::{find_stamp, first_stamp, counter_stamp, stamp_valid, WORKBLOCK_EXPAND_ROUNDS_PN};
use crate::text::{lossy_string, text_of};

verus! {

/// Bytes in a destination's hash.
pub const DEST_LEN: usize = 16;

/// Bytes in a ticket.
pub const TICKET_LENGTH: usize = 16;

/// Bytes in a signature.
pub const SIG_LENGTH: usize = 64;

/// Bytes before the payload of a packed message.
pub const HEADER_LENGTH: usize = 96;

/// The field that hands a ticket over: when it expires, in seconds since the
/// epoch, and its bytes. Whoever holds a ticket stamps messages with the
/// truncated hash of ticket and message identifier in place of a proof of work.
pub const FIELD_TICKET: i64 = 0x0C;

/// Structured fields by number.
pub type Fields = IntMap;

/// A ticket from an inbound message.
pub struct InboundTicket {
    /// Seconds since the epoch after which the ticket is no longer valid.
    pub expires: u64,
    pub ticket: [u8; 16],
}

/// The expiry and the bytes of the ticket in `fields`, if there is one and it is
/// well formed.
pub open spec fn ticket_in(fields: Seq<(i64, Model)>) -> Option<(nat, Seq<u8>)> {
    match lookup(fields, FIELD_TICKET) {
        Some(Model::Array(a)) => if a.len() < 2 {
            None
        } else {
            match (double_of(a[0]), bin_of(a[1])) {
                (Some(expires), Some(ticket)) => if positive_finite(expires) && ticket.len()
                    == TICKET_LENGTH {
                    Some((whole_part(expires), ticket))
                } else {
                    None
                },
                _ => None,
            }
        },
        _ => None,
    }
}

/// The ticket in a message's fields. Trust it only where the message's signature
/// was valid.
pub fn extract_ticket(fields: &Fields) -> (r: Option<InboundTicket>)
    ensures
        match r {
            Some(t) => ticket_in(fields@) == Some((t.expires as nat, t.ticket@)),
            None => ticket_in(fields@) is None,
        },
{
    let entry = match fields.get(FIELD_TICKET) {
        Some(v) => v,
        None => {
            return None;
        },
    };
    let arr = match entry.as_array() {
        Some(a) => a,
        None => {
            return None;
        },
    };
    if arr.len() < 2 {
        return None;
    }
    let bits = match arr[0].as_f64() {
        Some(f) => f,
        None => {
            return None;
        },
    };
    let expires = match positive_whole(bits) {
        Some(e) => e,
        None => {
            return None;
        },
    };
    let tb = match arr[1].as_bin() {
        Some(b) => b,
        None => {
            return None;
        },
    };
    if tb.len() != TICKET_LENGTH {
        return None;
    }
    let ticket = first16(tb);
    assert(ticket@ =~= tb@);
    Some(InboundTicket { expires, ticket })
}

/// A packed outbound message.
pub struct PackedMessage {
    pub message_id: [u8; 32],
    /// Destination, source, signature and payload.
    pub packed: Vec<u8>,
}

impl PackedMessage {
    /// What is encrypted for opportunistic delivery: everything behind the
    /// destination's hash, which the packet's header carries.
    pub fn opportunistic_plaintext(&self) -> (r: &[u8])
        requires
            self.packed@.len() >= DEST_LEN,
        ensures
            r@ == self.packed@.skip(DEST_LEN as int),
    {
        let r = slice_subrange(self.packed.as_slice(), DEST_LEN, self.packed.len());
        assert(r@ =~= self.packed@.skip(DEST_LEN as int));
        r
    }
}

/// The four elements of a payload.
pub open spec fn payload(
    timestamp: u64,
    title: Seq<u8>,
    content: Seq<u8>,
    fields: Seq<(i64, Model)>,
) -> Seq<Model> {
    seq![Model::F64(timestamp), Model::Bin(title), Model::Bin(content), Model::Dict(fields)]
}

/// What a message's identifier is the digest of.
pub open spec fn hashed_part(dest: Seq<u8>, source: Seq<u8>, payload_bytes: Seq<u8>) -> Seq<u8> {
    dest + source + payload_bytes
}

/// A message's identifier.
pub open spec fn id_of(dest: Seq<u8>, source: Seq<u8>, payload_bytes: Seq<u8>) -> Seq<u8> {
    sha256(hashed_part(dest, source, payload_bytes))
}

/// What a message's signature covers.
pub open spec fn signed_bytes(dest: Seq<u8>, source: Seq<u8>, payload_bytes: Seq<u8>) -> Seq<u8> {
    hashed_part(dest, source, payload_bytes) + id_of(dest, source, payload_bytes)
}

/// The stamp that a ticket pays for a message.
pub open spec fn ticket_stamp(ticket: Seq<u8>, id: Seq<u8>) -> Seq<u8> {
    sha256_truncated(ticket + id)
}

/// A message on the wire, with the stamp of a ticket where one is given.
pub open spec fn packed_bytes(
    signature: Seq<u8>,
    dest: Seq<u8>,
    source: Seq<u8>,
    p: Seq<Model>,
    ticket: Option<Seq<u8>>,
) -> Seq<u8> {
    let id = id_of(dest, source, encoded(Model::Array(p)));
    let wire = match ticket {
        Some(t) => p.push(Model::Bin(ticket_stamp(t, id))),
        None => p,
    };
    dest + source + signature + encoded(Model::Array(wire))
}

/// The elements of a payload, as a value.
fn payload_value(timestamp: u64, title: &[u8], content: &[u8], fields: &Fields) -> (r: Vec<Value>)
    ensures
        Value::Array(r)@ == Model::Array(payload(timestamp, title@, content@, fields@)),
        r@.len() == 4,
{
    let mut a: Vec<Value> = Vec::new();
    a.push(Value::F64(timestamp));
    a.push(Value::Bin(to_vec(title)));
    a.push(Value::Bin(to_vec(content)));
    a.push(fields_value(fields));
    proof {
        reveal_with_fuel(model, 2);
        assert(Value::Array(a)@->Array_0 =~= payload(timestamp, title@, content@, fields@));
    }
    a
}

/// A copy of the fields, as a value.
fn fields_value(fields: &Fields) -> (r: Value)
    ensures
        r@ == Model::Dict(fields@),
{
    let r = Value::Dict(fields.clone());
    assert(r@->Dict_0 =~= fields@);
    r
}

/// The payload of a message.
pub fn pack_payload(timestamp: u64, title: &[u8], content: &[u8], fields: &Fields) -> (r: Vec<u8>)
    ensures
        r@ == encoded(Model::Array(payload(timestamp, title@, content@, fields@))),
{
    encode(&Value::Array(payload_value(timestamp, title, content, fields)))
}

fn join3(a: &[u8], b: &[u8], c: &[u8]) -> (r: Vec<u8>)
    ensures
        r@ == a@ + b@ + c@,
{
    let mut r = to_vec(a);
    push_all(&mut r, b);
    push_all(&mut r, c);
    r
}

/// What the sender signs.
pub fn signed_part(
    destination_hash: &[u8; 16],
    source_hash: &[u8; 16],
    timestamp: u64,
    title: &[u8],
    content: &[u8],
    fields: &Fields,
) -> (r: Vec<u8>)
    ensures
        r@ == signed_bytes(
            destination_hash@,
            source_hash@,
            encoded(Model::Array(payload(timestamp, title@, content@, fields@))),
        ),
{
    let bytes = pack_payload(timestamp, title, content, fields);
    let mut part = join3(destination_hash.as_slice(), source_hash.as_slice(), bytes.as_slice());
    let id = full_hash(part.as_slice());
    push_all(&mut part, id.as_slice());
    part
}

/// Packs a message. `signature` is the sender's over `signed_part` of the same
/// message; the hashes are those of the recipient's and the sender's delivery
/// destinations. With a ticket from the recipient, its stamp is added behind what
/// the signature covers.
pub fn pack(
    signature: &[u8; 64],
    destination_hash: &[u8; 16],
    source_hash: &[u8; 16],
    timestamp: u64,
    title: &[u8],
    content: &[u8],
    fields: &Fields,
    outbound_ticket: Option<&[u8; 16]>,
) -> (r: PackedMessage)
    ensures
        ({
            let p = payload(timestamp, title@, content@, fields@);
            let ticket = match outbound_ticket {
                Some(t) => Some(t@),
                None => None,
            };
            &&& r.message_id@ == id_of(
                destination_hash@,
                source_hash@,
                encoded(Model::Array(p)),
            )
            &&& r.packed@ == packed_bytes(
                signature@,
                destination_hash@,
                source_hash@,
                p,
                ticket,
            )
        }),
{
    let ghost p = payload(timestamp, title@, content@, fields@);
    let mut elements = payload_value(timestamp, title, content, fields);
    let bare = Value::Array(elements);
    let bytes = encode(&bare);
    let hashed = join3(destination_hash.as_slice(), source_hash.as_slice(), bytes.as_slice());
    let message_id = full_hash(hashed.as_slice());
    let wire = match outbound_ticket {
        Some(ticket) => {
            let mut stamp_input = to_vec(ticket.as_slice());
            push_all(&mut stamp_input, message_id.as_slice());
            let stamp = truncated_hash(stamp_input.as_slice());
            let mut longer = payload_value(timestamp, title, content, fields);
            let ghost four = longer@;
            assert(Value::Array(longer)@->Array_0 == p);
            longer.push(Value::Bin(to_vec(stamp.as_slice())));
            let v = Value::Array(longer);
            proof {
                reveal_with_fuel(model, 2);
                let m = v@->Array_0;
                assert forall|i: int| 0 <= i < 4 implies #[trigger] m[i] == p[i] by {
                    assert(longer@[i] == four[i]);
                }
                assert(m =~= p.push(Model::Bin(ticket_stamp(ticket@, message_id@))));
            }
            encode(&v)
        },
        None => bytes,
    };
    let mut packed = join3(destination_hash.as_slice(), source_hash.as_slice(), signature.as_slice());
    push_all(&mut packed, wire.as_slice());
    PackedMessage { message_id, packed }
}

// ---------------------------------------------------------------------------
// Propagation
// ---------------------------------------------------------------------------

/// A message as a propagation node stores it: the recipient's hash and the
/// message encrypted to the recipient.
pub open spec fn stored_form(dest: Seq<u8>, encrypted: Seq<u8>) -> Seq<u8> {
    dest + encrypted
}

/// The transfer of one stored message.
pub open spec fn transfer(timestamp: u64, lxmf_data: Seq<u8>) -> Model {
    Model::Array(seq![Model::F64(timestamp), Model::Array(seq![Model::Bin(lxmf_data)])])
}

/// Packs a message for a propagation node. `encrypted` is the message's
/// opportunistic plaintext encrypted to the recipient. A node that asks for
/// `propagation_cost` zero bits gets a stamp over the digest of what it stores,
/// behind it. Nothing comes where no such stamp exists.
pub fn pack_propagation(
    recipient_dest_hash: &[u8; 16],
    encrypted: &[u8],
    transfer_timestamp: u64,
    propagation_cost: u32,
) -> (r: Option<Vec<u8>>)
    ensures
        ({
            let data = stored_form(recipient_dest_hash@, encrypted@);
            let material = sha256(data);
            let rounds = WORKBLOCK_EXPAND_ROUNDS_PN as nat;
            match r {
                Some(envelope) => if propagation_cost == 0 {
                    envelope@ == encoded(transfer(transfer_timestamp, data))
                } else {
                    exists|stamp: Seq<u8>|
                        {
                            &&& first_stamp(material, propagation_cost as int, rounds, stamp)
                            &&& envelope@ == #[trigger] encoded(
                                transfer(transfer_timestamp, data + stamp),
                            )
                        }
                },
                None => propagation_cost > 0 && forall|c: u64|
                    !stamp_valid(
                        material,
                        propagation_cost as int,
                        rounds,
                        #[trigger] counter_stamp(c),
                    ),
            }
        }),
{
    let mut data = to_vec(recipient_dest_hash.as_slice());
    push_all(&mut data, encrypted);
    let ghost plain = data@;
    let ghost mut added: Seq<u8> = Seq::empty();
    assert(plain =~= stored_form(recipient_dest_hash@, encrypted@));
    if propagation_cost > 0 {
        let transient_id = full_hash(data.as_slice());
        match find_stamp(transient_id.as_slice(), propagation_cost, WORKBLOCK_EXPAND_ROUNDS_PN) {
            Some(stamp) => {
                push_all(&mut data, stamp.as_slice());
                proof {
                    added = stamp@;
                }
            },
            None => {
                return None;
            },
        }
    }
    let ghost stored = data@;
    let mut inner: Vec<Value> = Vec::new();
    inner.push(Value::Bin(data));
    let mut outer: Vec<Value> = Vec::new();
    outer.push(Value::F64(transfer_timestamp));
    outer.push(Value::Array(inner));
    let v = Value::Array(outer);
    proof {
        reveal_with_fuel(model, 3);
        assert(outer@[1]@->Array_0 =~= seq![Model::Bin(stored)]);
        assert(v@->Array_0 =~= transfer(transfer_timestamp, stored)->Array_0);
        if propagation_cost == 0 {
            assert(stored == plain);
        } else {
            assert(stored == plain + added);
        }
    }
    Some(encode(&v))
}

// ---------------------------------------------------------------------------
// Inbound
// ---------------------------------------------------------------------------

/// A parsed inbound message.
pub struct ParsedMessage {
    pub message_id: [u8; 32],
    pub destination_hash: [u8; 16],
    pub source_hash: [u8; 16],
    /// Seconds since the epoch, as the bits of a double.
    pub timestamp: u64,
    pub title: Vec<u8>,
    pub content: Vec<u8>,
    pub fields: Fields,
    /// The signature that came with the message.
    pub signature: Vec<u8>,
    /// What the signature should cover.
    pub signed_part: Vec<u8>,
    /// True if and only if the signature was checked against the source's
    /// identity and held.
    pub signature_validated: bool,
}

#[derive(Debug, Clone, Copy, PartialEq, Eq, Structural)]
pub enum ParseError {
    TooShort,
    BadPayload,
}

/// A parsed message as plain mathematics.
#[verifier::ext_equal]
pub struct MessageModel {
    pub message_id: Seq<u8>,
    pub destination_hash: Seq<u8>,
    pub source_hash: Seq<u8>,
    pub timestamp: nat,
    pub title: Seq<u8>,
    pub content: Seq<u8>,
    pub fields: Seq<(i64, Model)>,
    pub signature: Seq<u8>,
    pub signed_part: Seq<u8>,
    pub signature_validated: bool,
}

impl View for ParsedMessage {
    type V = MessageModel;

    open spec fn view(&self) -> MessageModel {
        MessageModel {
            message_id: self.message_id@,
            destination_hash: self.destination_hash@,
            source_hash: self.source_hash@,
            timestamp: self.timestamp as nat,
            title: self.title@,
            content: self.content@,
            fields: self.fields@,
            signature: self.signature@,
            signed_part: self.signed_part@,
            signature_validated: self.signature_validated,
        }
    }
}

/// The bytes of a title or a content; none where the element is neither a byte
/// string nor a string.
pub open spec fn bytes_or_none(m: Model) -> Seq<u8> {
    match bin_of(m) {
        Some(b) => b,
        None => Seq::empty(),
    }
}

/// The fields, none where the element is no map.
pub open spec fn fields_of(m: Model) -> Seq<(i64, Model)> {
    match m {
        Model::Dict(e) => e,
        _ => Seq::empty(),
    }
}

/// The payload bytes that identifier and signature cover: all of them, or where a
/// stamp follows, the first four elements packed anew.
pub open spec fn covered(raw: Seq<u8>, elements: Seq<Model>) -> Seq<u8> {
    if elements.len() > 4 {
        encoded(Model::Array(elements.take(4)))
    } else {
        raw
    }
}

/// The message that `bytes` hold.
pub open spec fn parsed(bytes: Seq<u8>) -> Result<MessageModel, ParseError> {
    if bytes.len() < HEADER_LENGTH {
        Err(ParseError::TooShort)
    } else {
        let dest = bytes.subrange(0, 16);
        let source = bytes.subrange(16, 32);
        let raw = bytes.skip(HEADER_LENGTH as int);
        match decoded(raw, 0) {
            Ok((Model::Array(a), _)) => if a.len() < 4 {
                Err(ParseError::BadPayload)
            } else {
                match double_of(a[0]) {
                    Some(timestamp) => Ok(
                        MessageModel {
                            message_id: id_of(dest, source, covered(raw, a)),
                            destination_hash: dest,
                            source_hash: source,
                            timestamp,
                            title: bytes_or_none(a[1]),
                            content: bytes_or_none(a[2]),
                            fields: fields_of(a[3]),
                            signature: bytes.subrange(32, 96),
                            signed_part: signed_bytes(dest, source, covered(raw, a)),
                            signature_validated: false,
                        },
                    ),
                    None => Err(ParseError::BadPayload),
                }
            },
            _ => Err(ParseError::BadPayload),
        }
    }
}

impl ParsedMessage {
    /// The title as text.
    pub fn title_string(&self) -> (r: String)
        ensures
            r@ == text_of(self.title@),
    {
        lossy_string(self.title.as_slice())
    }

    /// The content as text.
    pub fn content_string(&self) -> (r: String)
        ensures
            r@ == text_of(self.content@),
    {
        lossy_string(self.content.as_slice())
    }

    /// Takes the verdict on the signature, from a check of `signature` over
    /// `signed_part` against the source's identity; none where that is unknown.
    pub fn judge(&mut self, verdict: Option<bool>)
        ensures
            final(self)@ == (MessageModel {
                signature_validated: verdict == Some(true),
                ..old(self)@
            }),
            final(self).fields == old(self).fields,
    {
        self.signature_validated = match verdict {
            Some(b) => b,
            None => false,
        };
    }
}

fn bytes_of(v: &Value) -> (r: Vec<u8>)
    ensures
        r@ == bytes_or_none(v@),
{
    match v.as_bin() {
        Some(b) => to_vec(b),
        None => {
            let r: Vec<u8> = Vec::new();
            assert(r@ =~= Seq::<u8>::empty());
            r
        },
    }
}

/// Parses a whole message: destination, source, signature, payload. Of an
/// opportunistic packet, put the destination's hash before the plaintext first.
/// The signature is left to be judged.
pub fn parse(lxmf_bytes: &[u8]) -> (r: Result<ParsedMessage, ParseError>)
    ensures
        match r {
            Ok(m) => parsed(lxmf_bytes@) == Ok::<MessageModel, ParseError>(m@) && m.fields.wf(),
            Err(e) => parsed(lxmf_bytes@) == Err::<MessageModel, ParseError>(e),
        },
{
    if lxmf_bytes.len() < HEADER_LENGTH {
        return Err(ParseError::TooShort);
    }
    let dest_bytes = slice_subrange(lxmf_bytes, 0, 16);
    let source_bytes = slice_subrange(lxmf_bytes, 16, 32);
    let destination_hash = first16(dest_bytes);
    let source_hash = first16(source_bytes);
    assert(destination_hash@ =~= dest_bytes@);
    assert(source_hash@ =~= source_bytes@);
    let signature = to_vec(slice_subrange(lxmf_bytes, 32, 96));
    let raw = slice_subrange(lxmf_bytes, HEADER_LENGTH, lxmf_bytes.len());
    assert(raw@ =~= lxmf_bytes@.skip(HEADER_LENGTH as int));
    proof {
        decoded_keys_ascend(raw@, 0);
    }
    let mut a = match decode(raw) {
        Ok(Value::Array(a)) => a,
        _ => {
            return Err(ParseError::BadPayload);
        },
    };
    let ghost all = Value::Array(a)@->Array_0;
    assert(forall|i: int| 0 <= i < all.len() ==> #[trigger] all[i] == a@[i]@);
    if a.len() < 4 {
        return Err(ParseError::BadPayload);
    }
    let covered_bytes = if a.len() > 4 {
        a.truncate(4);
        let v = Value::Array(a);
        assert(v@->Array_0 =~= all.take(4));
        let bytes = encode(&v);
        a = match v {
            Value::Array(x) => x,
            _ => Vec::new(),
        };
        bytes
    } else {
        to_vec(raw)
    };
    assert(forall|i: int| 0 <= i < 4 ==> #[trigger] all[i] == a@[i]@);
    assert(covered_bytes@ == covered(raw@, all));
    let timestamp = match a[0].as_f64() {
        Some(t) => t,
        None => {
            return Err(ParseError::BadPayload);
        },
    };
    let title = bytes_of(&a[1]);
    let content = bytes_of(&a[2]);
    let fields = match &a[3] {
        Value::Dict(m) => {
            assert(all[3]->Dict_0 =~= m@);
            assert(keys_ascend(all[3]));
            m.clone()
        },
        _ => Fields::new(),
    };
    let mut part = join3(
        destination_hash.as_slice(),
        source_hash.as_slice(),
        covered_bytes.as_slice(),
    );
    let message_id = full_hash(part.as_slice());
    push_all(&mut part, message_id.as_slice());
    let m = ParsedMessage {
        message_id,
        destination_hash,
        source_hash,
        timestamp,
        title,
        content,
        fields,
        signature,
        signed_part: part,
        signature_validated: false,
    };
    assert(m@ =~= parsed(lxmf_bytes@)->Ok_0);
    Ok(m)
}

/// The packed message with `stamp` as the fifth element of its payload; nothing
/// where the payload is not an array of four elements.
pub open spec fn with_stamp(packed: Seq<u8>, stamp: Seq<u8>) -> Option<Seq<u8>> {
    if packed.len() < HEADER_LENGTH {
        None
    } else {
        match decoded(packed.skip(HEADER_LENGTH as int), 0) {
            Ok((Model::Array(a), _)) => if a.len() == 4 {
                Some(
                    packed.take(HEADER_LENGTH as int) + encoded(
                        Model::Array(a.push(Model::Bin(stamp))),
                    ),
                )
            } else {
                None
            },
            _ => None,
        }
    }
}

/// Adds a stamp to a packed message as the fifth element of its payload.
pub fn append_stamp(packed: &[u8], stamp: &[u8]) -> (r: Option<Vec<u8>>)
    ensures
        match r {
            Some(b) => with_stamp(packed@, stamp@) == Some(b@),
            None => with_stamp(packed@, stamp@) is None,
        },
{
    if packed.len() < HEADER_LENGTH {
        return None;
    }
    let raw = slice_subrange(packed, HEADER_LENGTH, packed.len());
    assert(raw@ =~= packed@.skip(HEADER_LENGTH as int));
    let mut a = match decode(raw) {
        Ok(Value::Array(a)) => a,
        _ => {
            return None;
        },
    };
    if a.len() != 4 {
        return None;
    }
    let ghost all = Value::Array(a)@->Array_0;
    let ghost four = a@;
    assert(forall|i: int| 0 <= i < all.len() ==> #[trigger] all[i] == a@[i]@);
    a.push(Value::Bin(to_vec(stamp)));
    let v = Value::Array(a);
    proof {
        reveal_with_fuel(model, 2);
        assert forall|i: int| 0 <= i < 4 implies #[trigger] v@->Array_0[i] == all[i] by {
            assert(a@[i] == four[i]);
        }
        assert(v@->Array_0 =~= all.push(Model::Bin(stamp@)));
    }
    let mut out = to_vec(slice_subrange(packed, 0, HEADER_LENGTH));
    let bytes = encode(&v);
    push_all(&mut out, bytes.as_slice());
    assert(packed@.subrange(0, HEADER_LENGTH as int) =~= packed@.take(HEADER_LENGTH as int));
    Some(out)
}

// ---------------------------------------------------------------------------
// What is packed reads back
// ---------------------------------------------------------------------------

/// The message that a payload makes, before its signature is judged.
pub open spec fn message_of(
    signature: Seq<u8>,
    dest: Seq<u8>,
    source: Seq<u8>,
    timestamp: u64,
    title: Seq<u8>,
    content: Seq<u8>,
    fields: Seq<(i64, Model)>,
) -> MessageModel {
    let bytes = encoded(Model::Array(payload(timestamp, title, content, fields)));
    MessageModel {
        message_id: id_of(dest, source, bytes),
        destination_hash: dest,
        source_hash: source,
        timestamp: timestamp as nat,
        title,
        content,
        fields,
        signature,
        signed_part: signed_bytes(dest, source, bytes),
        signature_validated: false,
    }
}

/// The sizes and the key order that a payload needs to be read back.
pub open spec fn packable(title: Seq<u8>, content: Seq<u8>, fields: Seq<(i64, Model)>) -> bool {
    &&& title.len() < 0x1_0000_0000
    &&& content.len() < 0x1_0000_0000
    &&& storable(Model::Dict(fields))
}

/// A packed message parses to what was packed, with a ticket's stamp or without:
/// the identifier, the signature and what it covers are those of the sender, so
/// the signature is judged as it was made.
pub proof fn packed_message_reads_back(
    signature: Seq<u8>,
    dest: Seq<u8>,
    source: Seq<u8>,
    timestamp: u64,
    title: Seq<u8>,
    content: Seq<u8>,
    fields: Seq<(i64, Model)>,
    ticket: Option<Seq<u8>>,
)
    requires
        signature.len() == SIG_LENGTH,
        dest.len() == DEST_LEN,
        source.len() == DEST_LEN,
        packable(title, content, fields),
    ensures
        parsed(
            packed_bytes(signature, dest, source, payload(timestamp, title, content, fields), ticket),
        ) == Ok::<MessageModel, ParseError>(
            message_of(signature, dest, source, timestamp, title, content, fields),
        ),
{
    let p = payload(timestamp, title, content, fields);
    let id = id_of(dest, source, encoded(Model::Array(p)));
    let wire = match ticket {
        Some(t) => p.push(Model::Bin(ticket_stamp(t, id))),
        None => p,
    };
    if ticket is Some {
        crate::sha256::lemma_sha256_len(ticket->0 + id);
    }
    let raw = encoded(Model::Array(wire));
    let bytes = packed_bytes(signature, dest, source, p, ticket);
    assert(storable(Model::Array(wire))) by {
        assert forall|i: int| 0 <= i < wire.len() implies storable(#[trigger] wire[i]) by {
            if i < 4 {
                assert(wire[i] == p[i]);
            }
        }
    }
    encoded_reads_back(Model::Array(wire), Seq::empty());
    assert(raw + Seq::<u8>::empty() =~= raw);
    assert(bytes.skip(HEADER_LENGTH as int) =~= raw);
    assert(bytes.subrange(0, 16) =~= dest);
    assert(bytes.subrange(16, 32) =~= source);
    assert(bytes.subrange(32, 96) =~= signature);
    assert(wire.take(4) =~= p) by {
        assert forall|i: int| 0 <= i < 4 implies #[trigger] wire[i] == p[i] by {}
    }
    if ticket is None {
        assert(wire == p);
    }
    assert(covered(raw, wire) == encoded(Model::Array(p)));
}

/// A stamp added to a packed message changes nothing of what it parses to.
pub proof fn stamped_message_reads_back(
    signature: Seq<u8>,
    dest: Seq<u8>,
    source: Seq<u8>,
    timestamp: u64,
    title: Seq<u8>,
    content: Seq<u8>,
    fields: Seq<(i64, Model)>,
    stamp: Seq<u8>,
)
    requires
        signature.len() == SIG_LENGTH,
        dest.len() == DEST_LEN,
        source.len() == DEST_LEN,
        packable(title, content, fields),
        stamp.len() < 0x1_0000_0000,
    ensures
        ({
            let p = payload(timestamp, title, content, fields);
            let bare = packed_bytes(signature, dest, source, p, None);
            &&& with_stamp(bare, stamp) is Some
            &&& parsed(with_stamp(bare, stamp)->0) == parsed(bare)
        }),
{
    let p = payload(timestamp, title, content, fields);
    let bare = packed_bytes(signature, dest, source, p, None);
    let head = dest + source + signature;
    let raw = encoded(Model::Array(p));
    packed_message_reads_back(signature, dest, source, timestamp, title, content, fields, None);
    assert(bare.skip(HEADER_LENGTH as int) =~= raw);
    assert(bare.take(HEADER_LENGTH as int) =~= head);
    assert(storable(Model::Array(p))) by {
        assert forall|i: int| 0 <= i < p.len() implies storable(#[trigger] p[i]) by {}
    }
    encoded_reads_back(Model::Array(p), Seq::empty());
    assert(raw + Seq::<u8>::empty() =~= raw);
    let wire = p.push(Model::Bin(stamp));
    let longer = encoded(Model::Array(wire));
    assert(with_stamp(bare, stamp) == Some(head + longer));
    assert(storable(Model::Array(wire))) by {
        assert forall|i: int| 0 <= i < wire.len() implies storable(#[trigger] wire[i]) by {
            if i < 4 {
                assert(wire[i] == p[i]);
            }
        }
    }
    encoded_reads_back(Model::Array(wire), Seq::empty());
    assert(longer + Seq::<u8>::empty() =~= longer);
    let bytes = head + longer;
    assert(bytes.skip(HEADER_LENGTH as int) =~= longer);
    assert(bytes.subrange(0, 16) =~= dest);
    assert(bytes.subrange(16, 32) =~= source);
    assert(bytes.subrange(32, 96) =~= signature);
    assert(wire.take(4) =~= p);
}

} // verus!
