//! The records that are kept between runs, byte by byte.
use vstd::prelude::*;
use vstd::utf8::encode_utf8;

use crate::hex::hex_text;
use crate::laws::msgpack::{eight, four, numbers_stand_highest_byte_first};
use crate::laws::text::{all_white, solid, trimming_takes_the_ends};
use crate::storage::{
    all_found_bytes, all_held_bytes, all_update_bytes, contact_text, found_bytes, held_bytes,
    node_name_of, part_bytes, sized_text, ticket_bytes, update_bytes, FoundModel, HeldModel,
    UpdateModel,
};
use crate::text::text_of;

verus! {

/// A text is kept as its length in four bytes and its UTF-8 bytes; a message that waits
/// as its time in eight bytes, its author and its text; an address that was found as its
/// bytes, the time in eight and whom it came from; a mark as the time of its bubble in
/// eight bytes, its status in one and its text; a ticket as its end in eight bytes and
/// the ticket.
pub proof fn records_are_laid_out(
    text: Seq<char>,
    h: HeldModel,
    x: FoundModel,
    u: UpdateModel,
    expiry: u64,
    ticket: Seq<u8>,
)
    ensures
        sized_text(text) == four(encode_utf8(text).len() as int) + encode_utf8(text),
        held_bytes(h) == eight(h.1 as int) + sized_text(h.0) + sized_text(h.2),
        found_bytes(x) == x.0 + eight(x.2 as int) + sized_text(x.1),
        update_bytes(u) == eight(u.0 as int).push(u.1) + sized_text(u.2),
        ticket_bytes(expiry, ticket) == eight(expiry as int) + ticket,
{
    numbers_stand_highest_byte_first(encode_utf8(text).len());
    numbers_stand_highest_byte_first(h.1 as nat);
    numbers_stand_highest_byte_first(x.2 as nat);
    numbers_stand_highest_byte_first(u.0 as nat);
    numbers_stand_highest_byte_first(expiry as nat);
    assert(update_bytes(u) =~= eight(u.0 as int).push(u.1) + sized_text(u.2));
}

/// Records stand one after the other in their order.
pub proof fn records_stand_in_order(
    held: Seq<HeldModel>,
    h: HeldModel,
    found: Seq<FoundModel>,
    x: FoundModel,
    updates: Seq<UpdateModel>,
    u: UpdateModel,
)
    ensures
        all_held_bytes(Seq::empty()) == Seq::<u8>::empty(),
        all_held_bytes(held.push(h)) == all_held_bytes(held) + held_bytes(h),
        all_found_bytes(Seq::empty()) == Seq::<u8>::empty(),
        all_found_bytes(found.push(x)) == all_found_bytes(found) + found_bytes(x),
        all_update_bytes(Seq::empty()) == Seq::<u8>::empty(),
        all_update_bytes(updates.push(u)) == all_update_bytes(updates) + update_bytes(u),
{
    assert(held.push(h).drop_last() =~= held);
    assert(found.push(x).drop_last() =~= found);
    assert(updates.push(u).drop_last() =~= updates);
}

/// A contact is kept as the name, and behind zeros the key and the ratchet in
/// hexadecimal digits, as far as they are known; a ratchet alone is not kept.
pub proof fn a_contact_is_name_key_and_ratchet(name: Seq<char>, key: Seq<u8>, ratchet: Seq<u8>)
    ensures
        contact_text(name, None, None) == name,
        contact_text(name, None, Some(ratchet)) == name,
        contact_text(name, Some(key), None) == name.push('\0') + hex_text(key),
        contact_text(name, Some(key), Some(ratchet)) == (name.push('\0') + hex_text(key)).push(
            '\0',
        ) + hex_text(ratchet),
{
    assert(contact_text(name, Some(key), None) =~= name.push('\0') + hex_text(key));
    assert(contact_text(name, Some(key), Some(ratchet)) =~= (name.push('\0') + hex_text(key)).push(
        '\0',
    ) + hex_text(ratchet));
}

/// A key counts only where its part is there, has its length, and holds digits alone.
pub proof fn a_key_counts_whole(parts: Seq<Seq<char>>, k: int, n: nat)
    requires
        0 <= k,
    ensures
        part_bytes(parts, k, n) is Some <==> k < parts.len() && parts[k].len() == 2 * n
            && forall|i: int|
            0 <= i < parts[k].len() ==> (#[trigger] crate::hex::hex_value(parts[k][i])) is Some,
        part_bytes(parts, k, n) matches Some(b) ==> b == crate::hex::hex_bytes(parts[k])
            && b.len() == n,
{
}

/// A saved node bears the name that is kept, or its key where that is blank.
pub proof fn a_saved_node_has_a_name(key: Seq<char>, record: Seq<u8>)
    ensures
        solid(text_of(record)) ==> node_name_of(key, record) == text_of(record),
        all_white(text_of(record)) ==> node_name_of(key, record) == key,
{
    let name = text_of(record);
    if solid(name) {
        trimming_takes_the_ends(Seq::empty(), name, Seq::empty());
    }
    if all_white(name) {
        trimming_takes_the_ends(name, seq!['x'], Seq::empty());
    }
}

} // verus!
