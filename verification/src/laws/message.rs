//! The bytes of a message: what stands where, what names it and what is signed; and the
//! stamps that are mined for it.
use vstd::prelude::*;

use crate::announce::{announced_node_name, display_name, elements, is_packed, stamp_cost};
use crate::bytes::{bit_length, of_be};
use crate::float::{
    double_of_int, lemma_significand, lemma_two_to_values, positive_finite, two_to, whole_part,
};
use crate::hex::hex_text;
use crate::laws::float::whole_numbers_are_kept;
use crate::laws::msgpack::{eight, numbers_stand_highest_byte_first};
use crate::laws::text::{all_white, solid, trimming_takes_the_ends};
use crate::message::{
    bytes_or_none, fields_of, id_of, packed_bytes, parsed, payload, signed_bytes, stored_form,
    ticket_in, ticket_stamp, transfer, with_stamp, MessageModel, ParseError,
};
use crate::msgpack::{decoded, encoded, encoded_reads_back, lookup, storable, Model};
use crate::sha256::{sha256, zeros};
use crate::stamp::{counter_stamp, stamp_valid, workblock, workblock_round};
use crate::text::{text_of, trimmed};

verus! {

/// A packed message is whom it is for, whom it is from, the signature and the payload,
/// of 16, 16, 64 and any number of bytes. The payload is an array of the time, the
/// title, the content and the fields, with the stamp as a fifth where a ticket makes
/// one: the first 16 bytes of the digest of the ticket and the identifier.
pub proof fn a_packed_message_is_laid_out(
    signature: Seq<u8>,
    dest: Seq<u8>,
    source: Seq<u8>,
    timestamp: u64,
    title: Seq<u8>,
    content: Seq<u8>,
    fields: Seq<(i64, Model)>,
    ticket: Seq<u8>,
)
    requires
        signature.len() == 64,
        dest.len() == 16,
        source.len() == 16,
    ensures
        ({
            let p = seq![
                Model::F64(timestamp),
                Model::Bin(title),
                Model::Bin(content),
                Model::Dict(fields),
            ];
            let id = sha256(dest + source + encoded(Model::Array(p)));
            let stamp = sha256(ticket + id).take(16);
            let bare = packed_bytes(
                signature,
                dest,
                source,
                payload(timestamp, title, content, fields),
                None,
            );
            let stamped = packed_bytes(
                signature,
                dest,
                source,
                payload(timestamp, title, content, fields),
                Some(ticket),
            );
            &&& bare.take(16) == dest && stamped.take(16) == dest
            &&& bare.subrange(16, 32) == source && stamped.subrange(16, 32) == source
            &&& bare.subrange(32, 96) == signature && stamped.subrange(32, 96) == signature
            &&& bare.skip(96) == encoded(Model::Array(p))
            &&& stamped.skip(96) == encoded(Model::Array(p.push(Model::Bin(stamp))))
        }),
{
    let p = payload(timestamp, title, content, fields);
    assert(p =~= seq![
        Model::F64(timestamp),
        Model::Bin(title),
        Model::Bin(content),
        Model::Dict(fields),
    ]);
    let bare = packed_bytes(signature, dest, source, p, None);
    let stamped = packed_bytes(signature, dest, source, p, Some(ticket));
    assert(bare.take(16) =~= dest && stamped.take(16) =~= dest);
    assert(bare.subrange(16, 32) =~= source && stamped.subrange(16, 32) =~= source);
    assert(bare.subrange(32, 96) =~= signature && stamped.subrange(32, 96) =~= signature);
    assert(bare.skip(96) =~= encoded(Model::Array(p)));
    let stamp = ticket_stamp(ticket, id_of(dest, source, encoded(Model::Array(p))));
    assert(stamped.skip(96) =~= encoded(Model::Array(p.push(Model::Bin(stamp)))));
}

/// The identifier of a message is the digest of the two addresses and the payload; what
/// is signed are these bytes and the identifier behind them.
pub proof fn the_identifier_is_a_digest(dest: Seq<u8>, source: Seq<u8>, bytes: Seq<u8>)
    ensures
        id_of(dest, source, bytes) == sha256(dest + source + bytes),
        signed_bytes(dest, source, bytes) == dest + source + bytes + sha256(
            dest + source + bytes,
        ),
{
}

/// What is parsed out of bytes stands in them: the addresses and the signature in the
/// first 96 bytes, the time, the title, the content and the fields in the array behind
/// them. Fewer bytes are too short; what is no array of four with a number in front is
/// no payload. A message is parsed as not verified yet.
pub proof fn a_message_is_parsed_from_its_places(bytes: Seq<u8>)
    ensures
        bytes.len() < 96 <==> parsed(bytes) == Err::<MessageModel, ParseError>(
            ParseError::TooShort,
        ),
        bytes.len() >= 96 ==> match decoded(bytes.skip(96), 0) {
            Ok((Model::Array(a), _)) => if a.len() >= 4 && (a[0] is F64 || a[0] is Int) {
                &&& parsed(bytes) matches Ok(m)
                &&& m.destination_hash == bytes.take(16)
                &&& m.source_hash == bytes.subrange(16, 32)
                &&& m.signature == bytes.subrange(32, 96)
                &&& a[0] matches Model::F64(bits) ==> m.timestamp == bits
                &&& a[0] matches Model::Int(n) ==> m.timestamp == double_of_int(n as int)
                &&& m.title == bytes_or_none(a[1])
                &&& m.content == bytes_or_none(a[2])
                &&& m.fields == fields_of(a[3])
                &&& a.len() == 4 ==> m.message_id == sha256(bytes.take(32) + bytes.skip(96))
                &&& a.len() > 4 ==> m.message_id == sha256(
                    bytes.take(32) + encoded(Model::Array(a.take(4))),
                )
                &&& a.len() == 4 ==> m.signed_part == bytes.take(32) + bytes.skip(96) + m.message_id
                &&& a.len() > 4 ==> m.signed_part == bytes.take(32) + encoded(
                    Model::Array(a.take(4)),
                ) + m.message_id
                &&& !m.signature_validated
            } else {
                parsed(bytes) == Err::<MessageModel, ParseError>(ParseError::BadPayload)
            },
            _ => parsed(bytes) == Err::<MessageModel, ParseError>(ParseError::BadPayload),
        },
{
    if bytes.len() >= 96 {
        assert(bytes.subrange(0, 16) =~= bytes.take(16));
        assert(bytes.subrange(0, 16) + bytes.subrange(16, 32) =~= bytes.take(32));
        match parsed(bytes) {
            Ok(m) => {
                let a = decoded(bytes.skip(96), 0)->Ok_0.0->Array_0;
                let c = crate::message::covered(bytes.skip(96), a);
                let hashed = bytes.subrange(0, 16) + bytes.subrange(16, 32) + c;
                assert(m.signed_part =~= hashed + m.message_id);
            },
            Err(_) => {},
        }
    }
}

/// A title or a content that is a text counts as its bytes, and anything else as
/// nothing.
pub proof fn texts_count_as_their_bytes(m: Model)
    ensures
        bytes_or_none(m) == (match m {
            Model::Bin(b) => b,
            Model::Str(s) => vstd::utf8::encode_utf8(s),
            _ => Seq::empty(),
        }),
        fields_of(m) == (match m {
            Model::Dict(e) => e,
            _ => Seq::empty(),
        }),
{
}

/// A ticket stands in field 12 as an array of its end and its 16 bytes. Anything else
/// there, or in another field, is no ticket.
pub proof fn a_ticket_stands_in_its_field(fields: Seq<(i64, Model)>)
    ensures
        ticket_in(fields) matches Some((end, ticket)) ==> ticket.len() == 16,
        match lookup(fields, 12) {
            Some(Model::Array(a)) => {
                &&& a.len() >= 2 && a[0] is F64 && a[1] is Bin ==> ticket_in(fields) == (
                if a[1]->Bin_0.len() == 16 && positive_finite(a[0]->F64_0 as nat) {
                    Some((whole_part(a[0]->F64_0 as nat), a[1]->Bin_0))
                } else {
                    None
                })
                &&& a.len() >= 2 && a[0] is Int && a[1] is Bin && a[1]->Bin_0.len() == 16 && 0
                    < a[0]->Int_0 < 0x20_0000_0000_0000 ==> ticket_in(fields) == Some(
                    (a[0]->Int_0 as nat, a[1]->Bin_0),
                )
                &&& a.len() >= 2 && a[0] is Int && a[0]->Int_0 <= 0 ==> ticket_in(fields) is None
                &&& a.len() < 2 ==> ticket_in(fields) is None
            },
            _ => ticket_in(fields) is None,
        },
{
    if let Some(Model::Array(a)) = lookup(fields, 12) {
        if a.len() >= 2 && a[0] is Int {
            let n = a[0]->Int_0;
            if 0 < n < 0x20_0000_0000_0000 {
                whole_numbers_are_kept(n as nat);
            } else if n < 0 {
                let m = (-n) as nat;
                lemma_two_to_values();
                lemma_significand(m);
            }
        }
    }
}

/// A stamp goes into the payload of a packed message as its fifth element, once; the
/// rest of the message stays as it is.
pub proof fn a_stamp_is_the_fifth_element(packed: Seq<u8>, stamp: Seq<u8>)
    ensures
        with_stamp(packed, stamp) matches Some(stamped) ==> {
            &&& packed.len() >= 96
            &&& stamped.take(96) == packed.take(96)
            &&& decoded(packed.skip(96), 0) matches Ok((Model::Array(a), _)) && a.len() == 4
                && stamped.skip(96) == encoded(Model::Array(a.push(Model::Bin(stamp))))
        },
        packed.len() >= 96 && (decoded(packed.skip(96), 0) matches Ok((Model::Array(a), _))
            && a.len() == 4) ==> with_stamp(packed, stamp) is Some,
{
    if let Some(stamped) = with_stamp(packed, stamp) {
        let a = decoded(packed.skip(96), 0)->Ok_0.0->Array_0;
        assert(stamped.take(96) =~= packed.take(96));
        assert(stamped.skip(96) =~= encoded(Model::Array(a.push(Model::Bin(stamp)))));
    }
}

/// What is left at the propagation node is whom it is for and what is encrypted to
/// them; it goes there as an array of the time and an array of that alone.
pub proof fn the_node_takes_address_and_seal(dest: Seq<u8>, sealed: Seq<u8>, timestamp: u64)
    requires
        dest.len() == 16,
    ensures
        stored_form(dest, sealed).take(16) == dest,
        stored_form(dest, sealed).skip(16) == sealed,
        transfer(timestamp, sealed) matches Model::Array(t) && {
            &&& t.len() == 2
            &&& t[0] == Model::F64(timestamp)
            &&& t[1] matches Model::Array(d) && d.len() == 1 && d[0] == Model::Bin(sealed)
        },
{
    assert(stored_form(dest, sealed).take(16) =~= dest);
    assert(stored_form(dest, sealed).skip(16) =~= sealed);
}

proof fn lemma_bit_length(n: nat, k: nat)
    ensures
        bit_length(n) <= k <==> n < two_to(k),
    decreases k,
{
    if k == 0 {
        assert(n > 0 ==> bit_length(n) >= 1);
    } else if n > 0 {
        lemma_bit_length(n / 2, (k - 1) as nat);
    } else {
        lemma_two_to_positive(k);
    }
}

proof fn lemma_two_to_positive(k: nat)
    ensures
        two_to(k) >= 1,
    decreases k,
{
    if k > 0 {
        lemma_two_to_positive((k - 1) as nat);
    }
}

/// A stamp is valid where the digest of the workblock and the stamp, as a number,
/// begins with as many zero bits as it costs: it is under two to the power of 256 less
/// the cost.
pub proof fn a_stamp_is_worth_its_zero_bits(
    material: Seq<u8>,
    cost: int,
    rounds: nat,
    stamp: Seq<u8>,
)
    requires
        0 <= cost <= 256,
    ensures
        stamp_valid(material, cost, rounds, stamp) <==> of_be(
            sha256(workblock(material, rounds) + stamp),
        ) < two_to((256 - cost) as nat),
        two_to(0) == 1,
        forall|k: nat| #[trigger] two_to(k + 1) == 2 * two_to(k),
{
    let digest = sha256(workblock(material, rounds) + stamp);
    crate::sha256::lemma_sha256_len(workblock(material, rounds) + stamp);
    lemma_bit_length(of_be(digest), (256 - cost) as nat);
}

/// The workblock grows by 256 bytes a round, each derived from the material and its own
/// number. The candidates for a stamp are a counter in eight bytes and 24 zeros.
pub proof fn the_workblock_grows_by_rounds(material: Seq<u8>, rounds: nat, c: u64)
    ensures
        workblock(material, 0) == Seq::<u8>::empty(),
        workblock(material, rounds + 1) == workblock(material, rounds) + workblock_round(
            material,
            rounds,
        ),
        workblock_round(material, rounds) == crate::sha256::hkdf_sha256(
            256,
            material,
            sha256(material + crate::msgpack::int_bytes(rounds as int)),
            Seq::empty(),
        ),
        workblock(material, rounds).len() == 256 * rounds,
        counter_stamp(c) == eight(c as int) + Seq::new(24, |i: int| 0u8),
        counter_stamp(c).len() == 32,
{
    crate::stamp::lemma_workblock_len(material, rounds);
    numbers_stand_highest_byte_first(c as nat);
    assert(zeros(24) =~= Seq::new(24, |i: int| 0u8));
}

/// What the constants of the wire are.
pub proof fn the_rounds_and_sizes_are()
    ensures
        crate::stamp::WORKBLOCK_EXPAND_ROUNDS_PN == 1000,
        crate::stamp::WORKBLOCK_EXPAND_ROUNDS_DELIVERY == 3000,
        crate::stamp::STAMP_SIZE == 32,
        crate::outbox::MAX_DELIVERY_STAMP_COST == 20,
        crate::sync::SYNC_DELIVERY_LIMIT == 128,
        crate::message::FIELD_TICKET == 12,
        crate::message::HEADER_LENGTH == 96,
        crate::storage::KEYSIZE == 64,
        crate::storage::RATCHET_SIZE == 32,
        crate::micron::MAX_INPUT_BYTES == 65536,
        crate::inbox::MAX_RECENT == 64,
        crate::inbox::MAX_FOUND_ADDRS == 16,
        crate::transfer::MAX_IN_RESOURCES == 4,
        crate::picker::ANNOUNCE_LIST_MAX == 32,
        crate::picker::DISPLAY_NAME_MAX == 32,
        crate::chat_api::POST_TEXT_MAX == 3072,
        crate::dialogue::MAX_BYTES == 65536,
        crate::document::DOC_MAX_LINES == 2048,
        crate::document::DOC_DIVIDER_HEIGHT == 12,
        crate::layout::BUSY_ANIMATION_RATE_MS == 200,
        crate::connection::TICK_SECS == 5,
        crate::sync::SYNC_GET_PATH@ == "/get"@,
        crate::commands::SERVER_NAME_LXMFCHAT@ == "_LXMF chat_"@,
        crate::chat_api::F1 == '\u{11}',
        crate::chat_api::F2 == '\u{12}',
        crate::chat_api::F3 == '\u{13}',
        crate::chat_api::F4 == '\u{14}',
{
}

/// An announcement in the packed form is told by its first byte, and gives the name
/// and the cost of a stamp: an array of the name, as bytes or as a text, and a number
/// over zero. The name stands without white space at its ends and without zeros.
pub proof fn an_announcement_gives_name_and_cost(
    white: Seq<char>,
    name: Seq<char>,
    cost: i64,
    rest: Seq<Model>,
)
    requires
        all_white(white),
        solid(name),
        forall|i: int| 0 <= i < name.len() ==> #[trigger] name[i] != '\0',
        vstd::utf8::encode_utf8(white + name + white).len() < 0x1_0000_0000,
        rest.len() < 14,
        forall|i: int| 0 <= i < rest.len() ==> storable(#[trigger] rest[i]),
    ensures
        ({
            let text = Model::Str(white + name + white);
            let bytes = Model::Bin(vstd::utf8::encode_utf8(white + name + white));
            let as_text = encoded(Model::Array(seq![text, Model::Int(cost)] + rest));
            let as_bytes = encoded(Model::Array(seq![bytes, Model::Int(cost)] + rest));
            let asked = if cost > 0 {
                Some(cost as u32)
            } else {
                None
            };
            &&& is_packed(as_text) && is_packed(as_bytes)
            &&& display_name(as_text) == Some(name) && display_name(as_bytes) == Some(name)
            &&& stamp_cost(as_text) == asked && stamp_cost(as_bytes) == asked
        }),
{
    let whole = white + name + white;
    crate::text::text_reads_back(whole);
    lemma_announcement(Model::Str(whole), white, name, cost, rest);
    lemma_announcement(Model::Bin(vstd::utf8::encode_utf8(whole)), white, name, cost, rest);
}

proof fn lemma_name_kept(white: Seq<char>, name: Seq<char>)
    requires
        all_white(white),
        solid(name),
        forall|i: int| 0 <= i < name.len() ==> #[trigger] name[i] != '\0',
    ensures
        trimmed(crate::announce::without_zeros(white + name + white)) == name,
{
    let whole = white + name + white;
    assert(crate::announce::without_zeros(whole) == whole) by {
        assert forall|i: int| 0 <= i < whole.len() implies #[trigger] whole[i] != '\0' by {
            if i < white.len() {
                assert(whole[i] == white[i]);
                assert(crate::text::white_space(white[i]));
            } else if i < white.len() + name.len() {
                assert(whole[i] == name[i - white.len()]);
            } else {
                assert(whole[i] == white[i - white.len() - name.len()]);
                assert(crate::text::white_space(white[i - white.len() - name.len()]));
            }
        }
        lemma_filter_keeps(whole);
    }
    trimming_takes_the_ends(white, name, white);
}

proof fn lemma_announcement(
    first: Model,
    white: Seq<char>,
    name: Seq<char>,
    cost: i64,
    rest: Seq<Model>,
)
    requires
        all_white(white),
        solid(name),
        forall|i: int| 0 <= i < name.len() ==> #[trigger] name[i] != '\0',
        storable(first),
        first == Model::Str(white + name + white) || (first matches Model::Bin(b) && text_of(b)
            == white + name + white),
        rest.len() < 14,
        forall|i: int| 0 <= i < rest.len() ==> storable(#[trigger] rest[i]),
    ensures
        ({
            let packed = encoded(Model::Array(seq![first, Model::Int(cost)] + rest));
            &&& is_packed(packed)
            &&& display_name(packed) == Some(name)
            &&& stamp_cost(packed) == (if cost > 0 {
                Some(cost as u32)
            } else {
                None
            })
        }),
{
    let whole = white + name + white;
    let a = seq![first, Model::Int(cost)] + rest;
    let packed = encoded(Model::Array(a));
    assert forall|i: int| 0 <= i < a.len() implies storable(#[trigger] a[i]) by {
        if i >= 2 {
            assert(a[i] == rest[i - 2]);
        }
    }
    encoded_reads_back(Model::Array(a), Seq::empty());
    assert(packed + Seq::<u8>::empty() =~= packed);
    assert(packed[0] == 0x90 + a.len());
    assert(a[0] == first && a[1] == Model::Int(cost));
    lemma_name_kept(white, name);
}

proof fn lemma_filter_keeps(s: Seq<char>)
    requires
        forall|i: int| 0 <= i < s.len() ==> #[trigger] s[i] != '\0',
    ensures
        crate::announce::without_zeros(s) == s,
    decreases s.len(),
{
    reveal(Seq::filter);
    if s.len() > 0 {
        let t = s.drop_last();
        assert forall|i: int| 0 <= i < t.len() implies #[trigger] t[i] != '\0' by {
            assert(t[i] == s[i]);
        }
        lemma_filter_keeps(t);
        assert(crate::announce::without_zeros(s) =~= t.push(s.last()));
        assert(t.push(s.last()) =~= s);
    }
}

/// Zeros are taken out of a name, wherever they stand.
pub proof fn zeros_are_taken_out(s: Seq<char>, c: char)
    ensures
        crate::announce::without_zeros(Seq::empty()) == Seq::<char>::empty(),
        crate::announce::without_zeros(s.push(c)) == (if c == '\0' {
            crate::announce::without_zeros(s)
        } else {
            crate::announce::without_zeros(s).push(c)
        }),
{
    reveal(Seq::filter);
    assert(s.push(c).drop_last() =~= s);
}

/// The packed form begins with one of the heads `90` to `9f` or with `dc`; anything
/// else is the name itself and gives no cost. Nothing at all gives no name.
pub proof fn other_announcements_are_names(app_data: Seq<u8>)
    ensures
        is_packed(app_data) <==> app_data.len() > 0 && (0x90 <= app_data[0] <= 0x9f
            || app_data[0] == 0xdc),
        !is_packed(app_data) ==> stamp_cost(app_data) is None,
        app_data.len() == 0 ==> display_name(app_data) is None,
        !is_packed(app_data) && app_data.len() > 0 && solid(text_of(app_data)) && !text_of(
            app_data,
        ).contains('\0') ==> display_name(app_data) == Some(text_of(app_data)),
        is_packed(app_data) && elements(app_data) is None ==> display_name(app_data) is None
            && stamp_cost(app_data) is None,
{
    let name = text_of(app_data);
    if solid(name) && !name.contains('\0') {
        assert forall|i: int| 0 <= i < name.len() implies #[trigger] name[i] != '\0' by {
            assert(name.contains(name[i]));
        }
        lemma_filter_keeps(name);
        trimming_takes_the_ends(Seq::empty(), name, Seq::empty());
    }
}

/// A node is named by its announcement, or by its address where that is blank.
pub proof fn a_node_is_named_by_its_announcement(app_data: Seq<u8>, node: Seq<u8>)
    ensures
        solid(text_of(app_data)) ==> announced_node_name(app_data, node) == text_of(app_data),
        all_white(text_of(app_data)) ==> announced_node_name(app_data, node) == hex_text(node),
{
    let name = text_of(app_data);
    if solid(name) {
        trimming_takes_the_ends(Seq::empty(), name, Seq::empty());
    }
    if all_white(name) {
        trimming_takes_the_ends(name, seq!['x'], Seq::empty());
    }
}

} // verus!
