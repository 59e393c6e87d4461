//! How the values that are computed with are seen in what is stated of them.
use vstd::prelude::*;

use crate::address::{
    address_bytes, addresses_from, addresses_in, lemma_same_bytes_same_addresses, Address,
};
use crate::autoiface::{oldest_of, Contact};
use crate::book::{in_order, listed, pages, spot};
use crate::browser::{draws, BrowserState, PageAddr};
use crate::bzip2::decoder::Decoder;
use crate::chat_api::DocLine;
use crate::dialogue::{found_at, post_models, Post};
use crate::laws::msgpack::{numbers_are_read_highest_byte_first, of_four};
use crate::message::ParsedMessage;
use crate::micron::{Document, Kind, Line, LineModel, Link, LinkTarget, Style, TargetModel};
use crate::msgpack::{decoded, items_at, map_at, model, put, Fault, IntMap, Model, Value};
use crate::outbox::DeliveryUpdate;
use crate::picker::{Entry, EntryModel};
use crate::stamp::{counter_stamp, first_stamp, stamp_valid};
use crate::storage::{found_model, held_model, text_at, update_model, Found, Held};
use crate::text::text_of;
use crate::threads::{longest_waiting, mark_held, marks_for, waiting_since};
use crate::ui::{last_of, Posted, Ui};

verus! {

/// A page's address, lines, links and targets are seen part by part.
pub proof fn pages_are_seen_as_they_are(a: PageAddr, l: Line, k: Link, d: Document, i: int)
    ensures
        a@.node == a.node && a@.path == a.path@ && a@.vars.len() == a.vars@.len(),
        0 <= i < a.vars@.len() ==> a@.vars[i] == (a.vars@[i].0@, a.vars@[i].1@),
        l@.text == l.text@ && l@.style == l.style && l@.align == l.align && l@.kind == l.kind,
        k@.label == k.label@ && k@.url == k.url@ && k@.fields.len() == k.fields@.len(),
        0 <= i < k.fields@.len() ==> k@.fields[i] == (k.fields@[i].0@, k.fields@[i].1@),
        d@.cache_secs == d.cache_secs,
        d@.lines.len() == d.lines@.len() && d@.links.len() == d.links@.len(),
        0 <= i < d.lines@.len() ==> d@.lines[i] == d.lines@[i]@,
        0 <= i < d.links@.len() ==> d@.links[i] == d.links@[i]@,
{
}

/// The browser is seen part by part.
pub proof fn the_browser_is_seen_as_it_is(b: BrowserState, i: int)
    ensures
        b@.phase == b.phase && b@.node == b.node && b@.path == b.path@ && b@.link_id == b.link_id,
        b@.receiving == b.receiving && b@.deadline == b.deadline,
        b@.next_attempt == b.next_attempt && b@.route_tries == b.route_tries,
        b@.link_tries == b.link_tries && b@.viewing == b.viewing,
        b@.pending_push == b.pending_push && b@.pending_pop == b.pending_pop,
        b@.requested is Some <==> b.requested is Some,
        b.requested is Some ==> b@.requested->0 == b.requested->0@,
        b@.current is Some <==> b.current is Some,
        b.current is Some ==> b@.current->0 == b.current->0@,
        b@.current_title is Some <==> b.current_title is Some,
        b.current_title is Some ==> b@.current_title->0 == b.current_title->0@,
        b@.back.len() == b.back@.len() && b@.links.len() == b.links@.len(),
        b@.vars.len() == b.vars@.len(),
        0 <= i < b.back@.len() ==> b@.back[i] == b.back@[i]@,
        0 <= i < b.links@.len() ==> b@.links[i] == b.links@[i]@,
        0 <= i < b.vars@.len() ==> b@.vars[i] == (b.vars@[i].0@, b.vars@[i].1@),
{
}

/// Where a link leads is seen as it is.
pub proof fn targets_are_seen_as_they_are(t: LinkTarget)
    ensures
        match t {
            LinkTarget::SameNode(p) => t@ == TargetModel::SameNode(p@),
            LinkTarget::OtherNode(h, p) => t@ == TargetModel::OtherNode(h@, p@),
            LinkTarget::NodeIndex(h) => t@ == TargetModel::NodeIndex(h@),
            LinkTarget::Lxmf(h) => t@ == TargetModel::Lxmf(h@),
            LinkTarget::Anchor => t@ == TargetModel::Anchor,
            LinkTarget::Unsupported => t@ == TargetModel::Unsupported,
        },
{
}

/// A drawn line has the text of the line of the page; only a link bears a number, its
/// own.
pub proof fn a_drawn_line_has_its_text(d: DocLine, l: LineModel)
    requires
        draws(d, l),
    ensures
        d.text@ == l.text,
        l.kind matches Kind::Link(id) ==> d.kind == 2 && d.link_id == id,
        l.kind is Divider ==> d.kind == 1,
        l.kind is Text ==> d.kind == 0,
        !(l.kind is Link) ==> d.link_id == 0,
        l.align is Left ==> d.align == 0,
        l.align is Center ==> d.align == 1,
        l.align is Right ==> d.align == 2,
        l.style is Regular ==> d.style == 0,
        l.style is Bold ==> d.style == 1,
        l.style is Mono ==> d.style == 2,
        l.style matches Style::Heading(depth) ==> d.style == (if depth == 1 {
            3u8
        } else {
            1u8
        }),
{
}

/// A message, a post, an entry, a decoder and the records are seen part by part.
pub proof fn records_are_seen_as_they_are(
    m: ParsedMessage,
    p: Post,
    e: Entry,
    d: Decoder,
    h: Held,
    x: Found,
    u: DeliveryUpdate,
)
    ensures
        m@.message_id == m.message_id@ && m@.destination_hash == m.destination_hash@,
        m@.source_hash == m.source_hash@ && m@.timestamp == m.timestamp,
        m@.title == m.title@ && m@.content == m.content@ && m@.fields == m.fields@,
        m@.signature == m.signature@ && m@.signed_part == m.signed_part@,
        m@.signature_validated == m.signature_validated,
        p@.author_id == p.author_id && p@.timestamp == p.timestamp && p@.text == p.text@,
        p@.bounding_box == p.bounding_box,
        e@ == (EntryModel { addr: e.addr, name: e.name@, weight: e.weight, low: e.low@ }),
        d@.header_block == d.header_block && d@.skip_bits == d.skip_bits,
        d@.in_buf == d.in_buf@ && d@.eof == d.eof,
        held_model(h) == (h.0@, h.1, h.2@),
        found_model(x) == (x.0@, x.1@, x.2),
        update_model(u) == (u.display_ts, u.status, u.text@),
{
}

/// A value is seen element by element, in their order.
pub proof fn values_are_seen_as_they_are(
    a: Vec<Value>,
    m: IntMap,
    named: Vec<(String, Value)>,
    s: String,
    b: Vec<u8>,
    n: i64,
    bits: u64,
    truth: bool,
    i: int,
)
    ensures
        model(Value::Nil) == Model::Nil,
        model(Value::Bool(truth)) == Model::Bool(truth),
        model(Value::Int(n)) == Model::Int(n),
        model(Value::F64(bits)) == Model::F64(bits),
        model(Value::Str(s)) == Model::Str(s@),
        model(Value::Bin(b)) == Model::Bin(b@),
        model(Value::Array(a)) matches Model::Array(all) && all.len() == a@.len() && (0 <= i
            < a@.len() ==> all[i] == model(a@[i])),
        model(Value::Dict(m)) matches Model::Dict(all) && all == m@,
        m@.len() == m.entries@.len(),
        0 <= i < m.entries@.len() ==> m@[i] == (m.entries@[i].0, model(m.entries@[i].1)),
        model(Value::StrMap(named)) matches Model::StrMap(all) && all.len() == named@.len() && (0
            <= i < named@.len() ==> all[i] == (named@[i].0@, model(named@[i].1))),
{
    assert(model(Value::Dict(m))->Dict_0 =~= m@);
}

/// The elements of an array are read one after the other, each from where the one
/// before it ended; the entries of a map in the same way, where the later of two entries
/// under one key counts. A key that is no integer is refused.
pub proof fn elements_are_read_in_order(
    b: Seq<u8>,
    i: int,
    n: int,
    made: Seq<Model>,
    entries: Seq<(i64, Model)>,
)
    requires
        0 <= i <= b.len(),
        n > 0,
    ensures
        items_at(b, i, 0, made) == Ok::<(Seq<Model>, int), Fault>((made, i)),
        map_at(b, i, 0, entries) == Ok::<(Model, int), Fault>((Model::Dict(entries), i)),
        match decoded(b, i) {
            Ok((m, j)) => items_at(b, i, n, made) == items_at(b, j, n - 1, made.push(m)),
            Err(f) => items_at(b, i, n, made) == Err::<(Seq<Model>, int), Fault>(f),
        },
        match decoded(b, i) {
            Ok((Model::Int(k), j)) => match decoded(b, j) {
                Ok((m, l)) => map_at(b, i, n, entries) == map_at(b, l, n - 1, put(entries, k, m)),
                Err(f) => map_at(b, i, n, entries) == Err::<(Model, int), Fault>(f),
            },
            Ok(_) => map_at(b, i, n, entries) == Err::<(Model, int), Fault>(Fault::Key),
            Err(f) => map_at(b, i, n, entries) == Err::<(Model, int), Fault>(f),
        },
{
    crate::msgpack::lemma_decoded_moves_on(b, i);
    match decoded(b, i) {
        Ok((_, j)) => {
            crate::msgpack::lemma_decoded_moves_on(b, j);
        },
        Err(_) => {},
    }
}

/// A stored text is as many bytes as the four before it say; one that is cut is none.
pub proof fn a_stored_text_is_read(b: Seq<u8>, i: int)
    requires
        0 <= i,
    ensures
        text_at(b, i) == (if i + 4 <= b.len() && i + 4 + of_four(b, i) <= b.len() {
            Some((text_of(b.subrange(i + 4, i + 4 + of_four(b, i))), i + 4 + of_four(b, i)))
        } else {
            None
        }),
{
    numbers_are_read_highest_byte_first(b, i);
}

/// The addresses in a text are those whose digits stand in it.
pub proof fn addresses_are_those_of_the_text(text: Seq<char>, all: Seq<Address>)
    requires
        address_bytes(all) == addresses_from(text, 0),
    ensures
        addresses_in(text) == all,
        all.len() == addresses_from(text, 0).len(),
        forall|i: int| 0 <= i < all.len() ==> (#[trigger] all[i])@ == addresses_from(text, 0)[i],
{
    assert(address_bytes(addresses_in(text)) == addresses_from(text, 0));
    lemma_same_bytes_same_addresses(addresses_in(text), all);
    assert forall|i: int| 0 <= i < all.len() implies (#[trigger] all[i])@ == addresses_from(
        text,
        0,
    )[i] by {
        assert(address_bytes(all)[i] == all[i]@);
    }
}

/// A book holds what stands in it, each entry under its address.
pub proof fn a_book_holds_its_entries<V>(s: Seq<(Address, V)>, a: Address, i: int)
    requires
        in_order(s),
    ensures
        pages(s).contains_key(a) <==> exists|k: int| 0 <= k < s.len() && (#[trigger] s[k]).0 == a,
        0 <= i < s.len() ==> pages(s).contains_key(s[i].0) && pages(s)[s[i].0] == s[i].1,
{
    if 0 <= i < s.len() {
        let k = spot(s, s[i].0);
        assert(listed(s, s[i].0));
        assert(s[k].0 == s[i].0);
        if k < i {
            assert(crate::book::rank(s[k].0) < crate::book::rank(s[i].0));
        } else if i < k {
            assert(crate::book::rank(s[i].0) < crate::book::rank(s[k].0));
        }
    }
}

/// Of threads that wait equally long the first in the list comes first.
pub proof fn the_first_of_equals_comes_first(
    s: Seq<(Address, u32)>,
    pending: Map<Address, Vec<Held>>,
    n: int,
)
    requires
        0 <= n <= s.len(),
    ensures
        longest_waiting(s, pending, n) matches Some(k) ==> 0 <= k < n && s[k].1 > 0,
        longest_waiting(s, pending, n) matches Some(k) ==> forall|i: int|
            0 <= i < k && (#[trigger] s[i]).1 > 0 ==> waiting_since(pending, s[k].0)
                < waiting_since(pending, s[i].0),
        longest_waiting(s, pending, n) matches Some(k) ==> forall|i: int|
            k <= i < n && (#[trigger] s[i]).1 > 0 ==> waiting_since(pending, s[k].0)
                <= waiting_since(pending, s[i].0),
        longest_waiting(s, pending, n) is None ==> forall|i: int|
            0 <= i < n ==> (#[trigger] s[i]).1 == 0,
    decreases n,
{
    if n > 0 {
        the_first_of_equals_comes_first(s, pending, n - 1);
    }
}

/// The peer heard longest ago, and the first of those heard at the same time.
pub proof fn the_first_of_the_oldest_makes_room(s: Seq<(Address, Contact)>, n: int)
    requires
        0 < n <= s.len(),
    ensures
        ({
            let k = oldest_of(s, n);
            &&& 0 <= k < n
            &&& forall|i: int| 0 <= i < k ==> s[k].1.0 < (#[trigger] s[i]).1.0
            &&& forall|i: int| k <= i < n ==> s[k].1.0 <= (#[trigger] s[i]).1.0
        }),
    decreases n,
{
    if n > 1 {
        the_first_of_the_oldest_makes_room(s, n - 1);
    }
}

/// A mark that is held stands behind those of its peer, for its bubble, with its status;
/// the marks of other peers stay as they are.
pub proof fn a_mark_is_held_last(
    before: Map<Address, Vec<DeliveryUpdate>>,
    after: Map<Address, Vec<DeliveryUpdate>>,
    peer: Address,
    display_ts: u64,
    text: Seq<char>,
    status: u8,
    other: Address,
)
    requires
        mark_held(before, after, peer, display_ts, text, status),
        other != peer,
    ensures
        after.contains_key(peer),
        marks_for(after, peer).len() == marks_for(before, peer).len() + 1,
        after[peer]@.last().display_ts == display_ts,
        after[peer]@.last().status == status,
        after[peer]@.last().text@ == text,
        before.contains_key(peer) ==> after[peer]@.len() == before[peer]@.len() + 1,
        marks_for(after, other) == marks_for(before, other),
{
    let n = after[peer]@.len();
    assert(marks_for(after, peer).len() == n);
    assert(marks_for(after, peer)[n - 1] == (display_ts, status, text));
    assert(after.remove(peer).contains_key(other) == after.contains_key(other));
    assert(before.remove(peer).contains_key(other) == before.contains_key(other));
    if before.contains_key(other) {
        assert(after.remove(peer)[other] == after[other]);
        assert(before.remove(peer)[other] == before[other]);
    }
}

/// The stamp that is mined has 32 bytes and is valid, and every candidate counted before
/// it is not.
pub proof fn the_first_valid_stamp_is_mined(
    material: Seq<u8>,
    cost: int,
    rounds: nat,
    stamp: Seq<u8>,
)
    requires
        first_stamp(material, cost, rounds, stamp),
    ensures
        stamp.len() == 32,
        stamp_valid(material, cost, rounds, stamp),
        exists|c: u64|
            stamp == #[trigger] counter_stamp(c) && forall|d: u64|
                d < c ==> !stamp_valid(material, cost, rounds, #[trigger] counter_stamp(d)),
{
    let c = choose|c: u64|
        {
            &&& stamp == #[trigger] counter_stamp(c)
            &&& stamp_valid(material, cost, rounds, counter_stamp(c))
            &&& forall|d: u64|
                d < c ==> !stamp_valid(material, cost, rounds, #[trigger] counter_stamp(d))
        };
    crate::bytes::lemma_be_len(c as nat, 8);
}

/// The last post of a conversation is the one with the highest index; without posts there
/// is none. A post belongs to the conversation that is open where it names none or that
/// one.
pub proof fn posts_belong_to_the_open_conversation(u: Ui, id: Seq<char>, author: Seq<char>, ts: u64)
    ensures
        last_of(None) is None,
        u.dialogue matches Some(d) ==> {
            &&& d.posts@.len() == 0 ==> last_of(u.dialogue) is None
            &&& 0 < d.posts@.len() <= usize::MAX ==> (last_of(u.dialogue) matches Some(k) && k
                == d.posts@.len() - 1)
            &&& u.place_of(author, ts) == found_at(post_models(d.posts@), d.id_of(author), ts)
        },
        u.dialogue is None ==> u.place_of(author, ts) is None,
        u.key is None ==> u.fate_of(id) == Posted::NoKey,
        u.key is Some && u.dialogue is None ==> u.fate_of(id) == Posted::NoDialogue,
        u.key is Some && u.dialogue is Some ==> u.fate_of(id) == (if id.len() == 0 || id
            == u.key->0@ {
            Posted::Added
        } else {
            Posted::Elsewhere
        }),
{
}

} // verus!
