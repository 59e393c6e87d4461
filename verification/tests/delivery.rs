//! The outbox, the inbox, sync and what is kept on the device.

use lxmfchat::address::{extract_addresses, parse_addr};
use lxmfchat::announce::{lxmf_display_name, lxmf_stamp_cost, node_name};
use lxmfchat::book::Book;
use lxmfchat::frames::{
    classify, drop_link, handle_frame, hear_node, hear_peer, recover_ticket, touch_link,
    waking_note, wake_messages, AnnounceKind, Event, Outlook, Step,
};
use lxmfchat::hex::hex;
use lxmfchat::inbox::{
    remember_id, sender_of, ticket_note, Inbox, MAX_FOUND_ADDRS, MAX_RECENT,
};
use lxmfchat::message::{pack, parse, Fields, ParsedMessage, FIELD_TICKET, HEADER_LENGTH};
use lxmfchat::msgpack::{decode, encode, Value};
use lxmfchat::outbox::{
    arm_stamped, blob_job, bubble_text, delivery_note, drop_message, drop_peer, failure_note,
    find_message, mark_delivered, mine_delivery_stamp, notice_text, reason_text, send_status,
    link_outcome, stamp_job, status_mark, store_blob, Action, Answer, DeliveryUpdate, LinkReqOutcome, Notice,
    OutboundMsg, Pump, Reason, StampJob, Stage, DIRECT_DEADLINE, MARK_DELIVERED, MARK_FAILED,
    MARK_PENDING, MARK_QUEUED, MAX_DELIVERY_STAMP_COST, PROP_DEADLINE, STATUS_DELIVERED,
    STATUS_FAILED, STATUS_QUEUED,
};
use lxmfchat::request::{parse_rns_response, rns_request};
use lxmfchat::sha256::{full_hash, truncated_hash};
use lxmfchat::stamp::{stamp_workblock, WORKBLOCK_EXPAND_ROUNDS_DELIVERY};
use lxmfchat::storage::{
    contact_record, deserialize_found, deserialize_pending, deserialize_ticket,
    deserialize_updates, parse_contact, restore_contact, restore_pending, restore_ticket,
    restore_updates, serialize_found, serialize_pending, serialize_ticket,
    serialize_updates, stored_node_name, Found, Held, StoredTicket,
};
use lxmfchat::sync::{
    end_text, list_request, synced_parts, whole_message, NodeView, Reply, SyncAction, SyncEnd,
    SyncPhase, SyncState, SyncStep, SYNC_DELIVERY_LIMIT, SYNC_ROUTE_TRIES,
};
use lxmfchat::threads::{first_unread, hold_mark, slot_label, take_marks, Written};
use lxmfchat::transfer::{
    assemble, Assembly, AssemblyEvent, Context, ResourceEvent, ResourceStep, Transfers,
    MAX_IN_RESOURCES,
};

const PEER: [u8; 16] = [7; 16];
const LINK: [u8; 16] = [8; 16];

fn outbound(now: u64) -> OutboundMsg {
    OutboundMsg::new(PEER, 100, "hello".to_string(), vec![1; 120], None, false, now)
}

fn inbox() -> Inbox {
    Inbox {
        our_dh: [1; 16],
        contacts: Book::new(),
        seen: Book::new(),
        recent: Vec::new(),
        found: Vec::new(),
        tickets: Book::new(),
        ticket_pending: Book::new(),
        pending: Book::new(),
        unread: Book::new(),
        current_peer: None,
        last_ts: 0,
    }
}

fn incoming(text: &[u8], ts: f64, fields: &Fields, verified: bool) -> (ParsedMessage, Vec<u8>) {
    let p = pack(&[0; 64], &[1; 16], &PEER, ts.to_bits(), b"", text, fields, None);
    let mut m = parse(&p.packed).unwrap();
    m.judge(Some(verified));
    (m, p.packed)
}

// ---- the outbox ------------------------------------------------------------

#[test]
fn a_message_goes_out_over_a_link_and_is_delivered() {
    let mut outbox = vec![outbound(1000)];
    let mut p = Pump::new();
    assert_eq!(
        p.resume(&mut outbox, 1000, true, Answer::Go),
        Some(Action::LookPeer { forget: false })
    );
    assert_eq!(
        p.resume(&mut outbox, 1000, true, Answer::Peer { link: Some(LINK), backchannel: None }),
        Some(Action::SendPeer { link: LINK, resource: false, theirs: false })
    );
    assert_eq!(
        p.resume(&mut outbox, 1000, true, Answer::Sent(Some([5; 32]))),
        Some(Action::Next(Notice::Sent(1)))
    );
    assert_eq!(p.resume(&mut outbox, 1000, true, Answer::Go), None);
    assert!(p.failures.is_empty());
    assert_eq!(outbox[0].next_action, 1010);

    assert!(mark_delivered(&mut outbox, &[6; 32]).is_none());
    let d = mark_delivered(&mut outbox, &[5; 32]).unwrap();
    assert_eq!(d.status, STATUS_DELIVERED);
    assert_eq!(d.peer, PEER);
    assert_eq!(d.display_ts, 100);
    assert!(outbox.is_empty());
}

#[test]
fn an_unproved_message_turns_to_the_node_after_its_tries() {
    let mut outbox = vec![outbound(0)];
    outbox[0].attempts = 5;
    outbox[0].in_flight = Some([5; 32]);
    let mut p = Pump::new();
    assert_eq!(
        p.resume(&mut outbox, 50, true, Answer::Go),
        Some(Action::LookNode { forget: false, notice: Notice::NoConfirmation })
    );
    assert!(outbox[0].via_pn);
    assert_eq!(outbox[0].deadline, 50 + PROP_DEADLINE);
    // Without a node it is given up.
    let mut outbox = vec![outbound(0)];
    outbox[0].attempts = 5;
    outbox[0].in_flight = Some([5; 32]);
    let mut p = Pump::new();
    assert!(p.resume(&mut outbox, 50, false, Answer::Go).is_some());
    assert!(outbox.is_empty());
    assert_eq!(p.failures[0].why, Reason::NoAcknowledgement);
}

#[test]
fn a_message_out_of_time_says_why() {
    let mut outbox = vec![outbound(0)];
    let now = DIRECT_DEADLINE + 1;
    let mut p = Pump::new();
    assert_eq!(
        p.resume(&mut outbox, now, false, Answer::Go),
        Some(Action::CheckPath { expire_node: false })
    );
    assert_eq!(p.stage, Stage::Expiring);
    assert!(p.resume(&mut outbox, now, false, Answer::Path(false)).is_some());
    assert_eq!(p.failures[0].why, Reason::NoRoute);
    assert_eq!(p.resume(&mut outbox, now, false, Answer::Go), None);

    let mut outbox = vec![outbound(0)];
    let mut p = Pump::new();
    p.resume(&mut outbox, now, true, Answer::Go);
    assert!(outbox[0].via_pn);
    assert!(p.failures.is_empty());
}

#[test]
fn a_missing_stamp_holds_a_message_back() {
    let mut outbox = vec![outbound(0)];
    outbox[0].needs_stamp = Some(8);
    let mut p = Pump::new();
    assert_eq!(
        p.resume(&mut outbox, 1_000_000, true, Answer::Go),
        Some(Action::Next(Notice::Silent))
    );
    assert_eq!(outbox[0].attempts, 0);
    assert_eq!(stamp_job(&outbox), Some(0));
    assert!(arm_stamped(&mut outbox, &PEER, 100, vec![2; 130], 500));
    assert_eq!(outbox[0].packed, vec![2; 130]);
    assert_eq!(outbox[0].needs_stamp, None);
    assert_eq!(stamp_job(&outbox), None);
    assert!(!arm_stamped(&mut outbox, &PEER, 101, vec![], 500));
}

#[test]
fn a_message_needs_a_key_then_a_route_then_a_link() {
    let route = |known: bool, path: bool, pending: bool| Answer::Route { known, path, pending };
    let none = Answer::Peer { link: None, backchannel: None };
    let mut outbox = vec![outbound(0)];
    let mut p = Pump::new();
    p.resume(&mut outbox, 0, true, Answer::Go);
    assert_eq!(p.resume(&mut outbox, 0, true, none), Some(Action::LookRoute { forget: false }));
    assert_eq!(
        p.resume(&mut outbox, 0, true, route(false, false, false)),
        Some(Action::AskKey(Notice::RequestingKey))
    );
    assert!(outbox[0].awaiting_key);

    let mut outbox = vec![outbound(0)];
    let mut p = Pump::new();
    p.resume(&mut outbox, 0, true, Answer::Go);
    p.resume(&mut outbox, 0, true, none);
    assert_eq!(
        p.resume(&mut outbox, 0, true, route(true, false, false)),
        Some(Action::AskPath(Notice::FindingRoute))
    );
    p.resume(&mut outbox, 0, true, Answer::Asked(true));
    assert_eq!(outbox[0].route_tries, 1);

    let mut outbox = vec![outbound(0)];
    let mut p = Pump::new();
    p.resume(&mut outbox, 0, true, Answer::Go);
    p.resume(&mut outbox, 0, true, none);
    assert_eq!(
        p.resume(&mut outbox, 0, true, route(true, true, false)),
        Some(Action::LinkPeer)
    );
    assert_eq!(
        p.resume(&mut outbox, 0, true, Answer::Link(LinkReqOutcome::Sent)),
        Some(Action::Next(Notice::EstablishingLink))
    );
    assert_eq!(outbox[0].link_tries, 1);
}

#[test]
fn a_lively_backchannel_carries_a_reply() {
    let mut outbox = vec![outbound(1000)];
    outbox[0].packed = vec![0; 432];
    let mut p = Pump::new();
    p.resume(&mut outbox, 1000, false, Answer::Go);
    assert_eq!(
        p.resume(
            &mut outbox,
            1000,
            false,
            Answer::Peer { link: None, backchannel: Some((LINK, 460)) }
        ),
        Some(Action::SendPeer { link: LINK, resource: true, theirs: true })
    );
    let mut outbox = vec![outbound(1000)];
    let mut p = Pump::new();
    p.resume(&mut outbox, 1000, false, Answer::Go);
    assert_eq!(
        p.resume(
            &mut outbox,
            1000,
            false,
            Answer::Peer { link: None, backchannel: Some((LINK, 459)) }
        ),
        Some(Action::LookRoute { forget: true })
    );
}

#[test]
fn the_node_gets_the_wrapped_message() {
    let mut outbox = vec![outbound(0)];
    outbox[0].via_pn = true;
    assert_eq!(blob_job(&outbox), Some(0));
    assert!(store_blob(&mut outbox, &PEER, 100, vec![3; 500]));
    assert_eq!(blob_job(&outbox), None);
    let mut p = Pump::new();
    p.resume(&mut outbox, 0, true, Answer::Go);
    assert_eq!(
        p.resume(&mut outbox, 0, true, Answer::Node { known: true, path: true, link: Some(LINK) }),
        Some(Action::SendNode { link: LINK, resource: true })
    );
    assert_eq!(
        p.resume(&mut outbox, 0, true, Answer::Sent(Some([9; 32]))),
        Some(Action::Next(Notice::TransferringToNode))
    );
    assert!(outbox[0].tried_pn);
    assert_eq!(outbox[0].next_action, 45);
    assert_eq!(mark_delivered(&mut outbox, &[9; 32]).unwrap().status, STATUS_QUEUED);
}

#[test]
fn messages_are_found_and_dropped() {
    let mut outbox = vec![outbound(0), outbound(0), outbound(0)];
    outbox[1].display_ts = 101;
    outbox[2].peer = [9; 16];
    assert_eq!(find_message(&outbox, &PEER, 101), Some(1));
    assert_eq!(find_message(&outbox, &PEER, 102), None);
    drop_message(&mut outbox, &PEER, 101);
    assert_eq!(outbox.len(), 2);
    drop_peer(&mut outbox, &PEER);
    assert_eq!(outbox.len(), 1);
    assert_eq!(outbox[0].peer, [9; 16]);
}

#[test]
fn a_mined_stamp_covers_the_message() {
    let p = pack(&[0; 64], &[1; 16], &PEER, 0, b"", b"x", &Fields::new(), None);
    assert!(matches!(
        mine_delivery_stamp(&p.packed, MAX_DELIVERY_STAMP_COST + 1),
        StampJob::TooCostly
    ));
    match mine_delivery_stamp(&p.packed, 4) {
        StampJob::Stamped(b) => {
            let v = decode(&b[HEADER_LENGTH..]).unwrap();
            let stamp = v.as_array().unwrap()[4].as_bin().unwrap().to_vec();
            assert_eq!(stamp.len(), 32);
            let mut all = stamp_workblock(&p.message_id, WORKBLOCK_EXPAND_ROUNDS_DELIVERY);
            all.extend_from_slice(&stamp);
            assert_eq!(full_hash(&all)[0] >> 4, 0);
            assert_eq!(parse(&b).unwrap().message_id, p.message_id);
        }
        _ => panic!("no stamp"),
    }
    assert!(matches!(mine_delivery_stamp(&[0; 96], 1), StampJob::Unstampable));
}

#[test]
fn the_outbox_says_what_it_does() {
    assert_eq!(status_mark(STATUS_DELIVERED), MARK_DELIVERED);
    assert_eq!(status_mark(STATUS_QUEUED), MARK_QUEUED);
    assert_eq!(status_mark(STATUS_FAILED), MARK_FAILED);
    assert_eq!(bubble_text("hi", MARK_PENDING), "hi  \u{25cb}");
    assert_eq!(send_status("Bob", 1), "Bob: sent over link, awaiting confirmation\u{2026}");
    assert_eq!(
        send_status("Bob", 3),
        "Bob: sent over link, awaiting confirmation\u{2026} (try 3/5)"
    );
    assert_eq!(notice_text(Notice::Silent, "Bob"), "");
    assert_eq!(notice_text(Notice::FindingRoute, "Bob"), "Bob: finding a route\u{2026}");
    assert_eq!(
        failure_note("Bob", reason_text(Reason::NoLink)),
        "\u{d7} Bob: link could not be established"
    );
    assert_eq!(delivery_note("Bob", STATUS_DELIVERED), "\u{2713} delivered to Bob");
    assert_eq!(
        delivery_note("Bob", STATUS_QUEUED),
        "\u{bb} stored at propagation node for Bob"
    );
}

// ---- the inbox -------------------------------------------------------------

#[test]
fn a_message_is_delivered_once_and_held() {
    let mut i = inbox();
    let (m, raw) = incoming(b"hello", 1_700_000_000.5, &Fields::new(), true);
    let d = i.deliver(&m, &raw, true, 50).unwrap();
    assert_eq!(d.text, "hello");
    assert_eq!(d.ts, 1_700_000_000);
    assert!(!d.shown);
    assert_eq!(i.pending.get(&PEER).unwrap().len(), 1);
    assert_eq!(i.unread.get(&PEER), Some(&1));
    assert!(i.contacts.contains(&PEER));
    assert!(i.deliver(&m, &raw, true, 51).is_none());
    assert_eq!(i.unread.get(&PEER), Some(&1));
}

#[test]
fn an_unverified_message_says_so() {
    let mut i = inbox();
    i.current_peer = Some(PEER);
    let (m, raw) = incoming(b"hello", 1.0, &Fields::new(), false);
    let d = i.deliver(&m, &raw, true, 50).unwrap();
    assert_eq!(d.text, "hello  \u{26a0}(unverified)");
    assert!(d.shown);
    assert!(i.pending.get(&PEER).is_none());
}

#[test]
fn a_stored_message_carries_its_mark() {
    let mut i = inbox();
    let (m, raw) = incoming(b"hello", 1.0, &Fields::new(), true);
    let d = i.deliver(&m, &raw, false, 50).unwrap();
    assert_eq!(d.text, "hello  \u{bb}");
}

#[test]
fn a_ticket_counts_from_a_verified_sender_only() {
    let mut f = Fields::new();
    f.insert(FIELD_TICKET, Value::Array(vec![Value::Int(5000), Value::Bin(vec![6; 16])]));
    let mut i = inbox();
    let (m, raw) = incoming(b"a", 1.0, &f, true);
    let d = i.deliver(&m, &raw, true, 50).unwrap();
    assert_eq!(d.ticket.unwrap().ticket, [6; 16]);
    assert_eq!(i.tickets.get(&PEER), Some(&(5000, [6; 16])));

    let mut i = inbox();
    let (m, raw) = incoming(b"a", 1.0, &f, false);
    let d = i.deliver(&m, &raw, true, 50).unwrap();
    assert!(d.ticket.is_none());
    assert!(i.tickets.get(&PEER).is_none());
    assert_eq!(i.ticket_pending.get(&PEER), Some(&raw));
    // Once the key is known, the held message gives its ticket after all.
    let (again, _) = incoming(b"a", 1.0, &f, true);
    let t = recover_ticket(&mut i.tickets, &PEER, &again, 50).unwrap();
    assert_eq!(t.expires, 5000);
    assert_eq!(i.tickets.get(&PEER), Some(&(5000, [6; 16])));
    assert_eq!(ticket_note("Bob"), "received a ticket from Bob \u{2014} you can now reply");
}

#[test]
fn addresses_in_a_message_can_be_imported() {
    let mut i = inbox();
    let text = format!("see {}", hex(&[0xab; 16]));
    let (m, raw) = incoming(text.as_bytes(), 1.0, &Fields::new(), true);
    let d = i.deliver(&m, &raw, true, 77).unwrap();
    assert!(d.addresses);
    assert_eq!(
        d.note.unwrap(),
        "address received \u{2014} menu \u{2192} Import contact"
    );
    assert_eq!(i.found.len(), 1);
    assert_eq!(i.found[0].0, [0xab; 16]);
    assert_eq!(i.found[0].2, 77);

    let own = format!("me: {}", hex(&[1; 16]));
    let (m, raw) = incoming(own.as_bytes(), 2.0, &Fields::new(), true);
    let d = i.deliver(&m, &raw, true, 78).unwrap();
    assert!(!d.addresses);
    assert_eq!(d.note.unwrap(), "that address is this device's own");
    i.forget_found(&[0xab; 16]);
    assert!(i.found.is_empty());
}

#[test]
fn the_list_of_found_addresses_is_bounded() {
    let mut i = inbox();
    for n in 0..20u8 {
        let text = hex(&[0x30 + n; 16]);
        let (m, raw) = incoming(text.as_bytes(), n as f64, &Fields::new(), true);
        i.deliver(&m, &raw, true, 0).unwrap();
    }
    assert_eq!(i.found.len(), MAX_FOUND_ADDRS);
    assert_eq!(i.found[MAX_FOUND_ADDRS - 1].0, [0x43; 16]);
}

#[test]
fn old_identifiers_are_forgotten() {
    let mut recent = Vec::new();
    for n in 0..=MAX_RECENT as u8 {
        assert!(remember_id(&mut recent, &[n; 32]));
    }
    assert_eq!(recent.len(), MAX_RECENT);
    assert!(!remember_id(&mut recent, &[1; 32]));
    assert!(remember_id(&mut recent, &[0; 32]));
}

#[test]
fn the_sender_stands_behind_the_destination() {
    let (_, raw) = incoming(b"a", 1.0, &Fields::new(), true);
    assert_eq!(sender_of(&raw), Some(PEER));
    assert_eq!(sender_of(&raw[..31]), None);
}

#[test]
fn writing_opens_a_bubble_at_the_end_of_the_thread() {
    let mut i = inbox();
    i.last_ts = 500;
    let mut costs = Book::new();
    costs.insert(PEER, 12u32);
    assert!(matches!(i.write_message("x", false, &costs, 100), Written::NoPeer));
    assert!(matches!(i.write_message("x", true, &costs, 100), Written::Browsing));
    let mut prev = None;
    i.activate_peer(&mut prev, &PEER);
    match i.write_message("hello", false, &costs, 100) {
        Written::Draft(d) => {
            assert_eq!(d.display_ts, 501);
            assert_eq!(d.bubble, "hello  \u{25cb}");
            assert_eq!(d.needs_stamp, Some(12));
            assert_eq!(d.ticket, None);
        }
        _ => panic!("no draft"),
    }
    i.tickets.insert(PEER, (200, [4; 16]));
    match i.write_message("hello", false, &costs, 100) {
        Written::Draft(d) => {
            assert_eq!(d.ticket, Some([4; 16]));
            assert_eq!(d.needs_stamp, None);
            assert_eq!(d.display_ts, 502);
        }
        _ => panic!("no draft"),
    }
}

#[test]
fn opening_a_thread_hands_out_what_was_held() {
    let mut i = inbox();
    let (m, raw) = incoming(b"hello", 9.0, &Fields::new(), true);
    i.deliver(&m, &raw, true, 50).unwrap();
    assert_eq!(first_unread(&i.unread, &i.pending), Some((PEER, 1)));
    let mut prev = None;
    let held = i.activate_peer(&mut prev, &PEER);
    assert_eq!(held.len(), 1);
    assert_eq!(held[0].2, "hello");
    assert_eq!(i.unread.get(&PEER), None);
    assert_eq!(first_unread(&i.unread, &i.pending), None);
    // Back and forth between two threads.
    let other = [9u8; 16];
    i.activate_peer(&mut prev, &other);
    assert_eq!(i.way_back(&prev), Some(PEER));
    i.activate_peer(&mut prev, &PEER);
    assert_eq!(i.way_back(&prev), Some(other));
}

#[test]
fn history_goes_with_all_that_belongs_to_it() {
    let mut i = inbox();
    let (m, raw) = incoming(b"hello", 9.0, &Fields::new(), true);
    i.deliver(&m, &raw, true, 50).unwrap();
    let mut updates = Book::new();
    updates.insert(PEER, vec![]);
    let mut outbox = vec![outbound(0)];
    i.clear_history(&mut updates, &mut outbox, &PEER);
    assert!(outbox.is_empty());
    assert!(updates.get(&PEER).is_none());
    assert!(i.pending.get(&PEER).is_none());
    assert!(i.unread.get(&PEER).is_none());
}

#[test]
fn marks_wait_for_their_thread() {
    let mut updates = Book::new();
    hold_mark(&mut updates, &PEER, 5, "hello", STATUS_DELIVERED);
    hold_mark(&mut updates, &PEER, 6, "bye", STATUS_FAILED);
    let marks = take_marks(&mut updates, &PEER);
    assert_eq!(marks[0], (5, "hello  \u{2713}".to_string()));
    assert_eq!(marks[1], (6, "bye  \u{d7}".to_string()));
    assert!(take_marks(&mut updates, &PEER).is_empty());
}

#[test]
fn the_idle_line_names_the_thread_and_what_waits() {
    let mut i = inbox();
    i.contacts.insert(PEER, "Long contact name".to_string());
    let (m, raw) = incoming(b"hello", 9.0, &Fields::new(), true);
    i.deliver(&m, &raw, true, 50).unwrap();
    let s = i.idle_status(&None);
    assert_eq!(s.line, "");
    assert_eq!(s.f1, "\u{2709}Long con 1");
    assert_eq!(s.f2, "");
    i.current_peer = Some(PEER);
    assert_eq!(i.idle_status(&Some(PEER)).line, "\u{25c9} Long contact name");
    assert_eq!(slot_label("abcdef", 3), "abc");
    assert_eq!(i.peer_name(&PEER), "Long contact name");
    assert_eq!(i.peer_name(&[0xab; 16]), "abababab\u{2026}");
}

// ---- announces and frames --------------------------------------------------

#[test]
fn announces_carry_a_name_and_a_cost() {
    let v = encode(&Value::Array(vec![Value::Bin(b"Bob".to_vec()), Value::Int(9)]));
    assert_eq!(lxmf_display_name(&v), Some("Bob".to_string()));
    assert_eq!(lxmf_stamp_cost(&v), Some(9));
    let v = encode(&Value::Array(vec![Value::Bin(b"Bob".to_vec()), Value::Nil]));
    assert_eq!(lxmf_stamp_cost(&v), None);
    assert_eq!(lxmf_display_name(b""), None);
    assert_eq!(node_name(b"My Node", &[0xcd; 16]), "My Node");
    assert_eq!(node_name(b" ", &[0xcd; 16]), hex(&[0xcd; 16]));
}

fn outlook() -> Outlook {
    Outlook {
        our_dh: [1; 16],
        delivery_name: [2; 10],
        node_name: [3; 10],
        pn: Some([4; 16]),
        sync_link: None,
        sync_running: false,
        browser_link: None,
        browser_running: false,
        browser_node: None,
    }
}

#[test]
fn announces_are_told_apart() {
    let o = outlook();
    assert!(matches!(classify(&[1; 16], &[2; 10], &o), AnnounceKind::Own));
    assert!(matches!(classify(&[5; 16], &[2; 10], &o), AnnounceKind::Peer));
    assert!(matches!(classify(&[5; 16], &[3; 10], &o), AnnounceKind::Node));
    assert!(matches!(classify(&[5; 16], &[9; 10], &o), AnnounceKind::Other));
}

#[test]
fn a_proof_goes_out_before_the_message_is_taken() {
    let e = Event::LinkData { link_id: LINK, plaintext: vec![5; 100], proof: vec![6; 10] };
    let steps = handle_frame(&e, &outlook());
    let proof = steps.iter().position(|s| matches!(s, Step::Broadcast(b) if *b == vec![6u8; 10]));
    let deliver = steps.iter().position(|s| matches!(s, Step::Deliver(_)));
    assert!(proof.unwrap() < deliver.unwrap());
}

#[test]
fn a_single_packet_gets_its_destination_back() {
    let e = Event::Data { destination_hash: [1; 16], plaintext: vec![5; 3], proof: vec![6] };
    let steps = handle_frame(&e, &outlook());
    let mut whole = vec![1u8; 16];
    whole.extend_from_slice(&[5; 3]);
    assert!(steps.iter().any(|s| matches!(s, Step::Deliver(b) if *b == whole)));
}

#[test]
fn noise_leads_to_nothing() {
    assert!(handle_frame(&Event::Noise, &outlook()).is_empty());
}

#[test]
fn a_heard_peer_is_remembered_and_woken() {
    let mut i = inbox();
    i.contacts.insert(PEER, hex(&PEER));
    let mut costs = Book::new();
    let mut outbox = vec![outbound(0)];
    outbox[0].next_action = 900;
    let data = encode(&Value::Array(vec![Value::Bin(b"Bob".to_vec()), Value::Int(9)]));
    let h = hear_peer(&mut i, &mut costs, &mut outbox, &PEER, &data, 60);
    assert_eq!(i.seen.get(&PEER), Some(&("Bob".to_string(), 60)));
    assert_eq!(costs.get(&PEER), Some(&9));
    assert_eq!(h.waking, Some(false));
    assert_eq!(outbox[0].needs_stamp, Some(9));
    assert_eq!(waking_note("Bob", true), "Bob: key received \u{2014} sending\u{2026}");
    assert_eq!(waking_note("Bob", false), "Bob: route found \u{2014} sending\u{2026}");
    assert_eq!(wake_messages(&mut outbox, &[9; 16], None), None);
    let mut nodes = Book::new();
    hear_node(&mut nodes, &[4; 16], b"Node", 61);
    assert_eq!(nodes.get(&[4; 16]), Some(&("Node".to_string(), 61)));
}

#[test]
fn backchannels_are_kept_up_to_date() {
    let mut b = Book::new();
    b.insert(PEER, (LINK, 5u64));
    touch_link(&mut b, &LINK, 9);
    assert_eq!(b.get(&PEER), Some(&(LINK, 9)));
    drop_link(&mut b, &[0; 16]);
    assert_eq!(b.len(), 1);
    drop_link(&mut b, &LINK);
    assert_eq!(b.len(), 0);
}

// ---- transfers, requests and sync ------------------------------------------

#[test]
fn the_oldest_transfer_makes_room() {
    let mut t = Transfers::new();
    for n in 0..MAX_IN_RESOURCES as u8 {
        assert!(t.begin(&[n; 16]).is_empty());
    }
    assert_eq!(t.begin(&[99; 16]), vec![[0u8; 16]]);
    assert!(!t.contains(&[0; 16]));
    assert!(t.contains(&[99; 16]));
    assert!(t.end(&[99; 16]));
    assert!(!t.end(&[99; 16]));
    t.clear();
    assert!(!t.contains(&[1; 16]));
}

#[test]
fn a_transfer_runs_to_its_end() {
    let mut t = Transfers::new();
    let adv = ResourceEvent::Advertised { accepted: true, request: true };
    assert!(matches!(t.advance(&LINK, adv, false).0, ResourceStep::Begin { request: true }));
    let part = ResourceEvent::Part { window_done: true, complete: false };
    assert!(matches!(t.advance(&LINK, part, false).0, ResourceStep::RequestNext));
    let last = ResourceEvent::Part { window_done: true, complete: true };
    assert!(matches!(t.advance(&LINK, last, false).0, ResourceStep::Assemble));
    let stray = ResourceEvent::Part { window_done: true, complete: true };
    assert!(matches!(t.advance(&[3; 16], stray, false).0, ResourceStep::Nothing));
    assert!(matches!(assemble(AssemblyEvent::Joined { encrypted: true }), Assembly::Decrypt));
    assert!(matches!(assemble(AssemblyEvent::Joined { encrypted: false }), Assembly::Check));
    assert!(matches!(assemble(AssemblyEvent::Decrypted { ok: false }), Assembly::Abandon));
    assert!(matches!(assemble(AssemblyEvent::Checked { ok: true }), Assembly::Deliver));
    let _ = Context::Other;
}

#[test]
fn requests_and_responses_have_their_shape() {
    let r = decode(&rns_request(1_700_000_000, "/get", Value::Nil)).unwrap();
    let a = r.as_array().unwrap();
    assert_eq!(a[0], Value::F64(1_700_000_000.0f64.to_bits()));
    assert_eq!(a[1], Value::Bin(truncated_hash(b"/get").to_vec()));
    assert_eq!(a[2], Value::Nil);
    let resp = encode(&Value::Array(vec![Value::Bin(vec![1; 16]), Value::Int(5)]));
    assert_eq!(parse_rns_response(&resp), Some(Value::Int(5)));
    assert_eq!(parse_rns_response(&encode(&Value::Nil)), None);
}

fn node(known: bool, path: bool, up: bool, link: Option<[u8; 16]>) -> Option<NodeView> {
    Some(NodeView { known, path, up, link })
}

#[test]
fn a_sync_lists_downloads_and_confirms() {
    let mut s = SyncState::new();
    assert!(matches!(s.start_sync(10, None), SyncAction::SayNoNode));
    assert!(matches!(s.start_sync(10, node(true, true, true, None)), SyncAction::Contact));
    assert!(matches!(s.on_link_request(LinkReqOutcome::Sent, true), SyncAction::Nothing));
    assert!(matches!(s.sync_on_link_up(LINK, true), SyncAction::AskList(l) if l == LINK));
    assert!(s.expects(&LINK));
    let asked = decode(&list_request(10)).unwrap();
    assert_eq!(asked.as_array().unwrap()[2], Value::Array(vec![Value::Nil, Value::Nil]));

    let ids = Value::Array(vec![Value::Bin(vec![1; 32]), Value::Bin(vec![2; 32])]);
    let request = match s.handle_sync_response(ids, 11, SYNC_DELIVERY_LIMIT) {
        Reply::Download { count, request } => {
            assert_eq!(count, 2);
            request
        }
        _ => panic!("no download"),
    };
    let r = decode(&request).unwrap();
    assert_eq!(
        r.as_array().unwrap()[2],
        Value::Array(vec![
            Value::Array(vec![Value::Bin(vec![1; 32]), Value::Bin(vec![2; 32])]),
            Value::Array(vec![]),
            Value::Int(128),
        ])
    );
    let blobs = Value::Array(vec![Value::Bin(vec![7; 40])]);
    match s.handle_sync_response(blobs, 12, SYNC_DELIVERY_LIMIT) {
        Reply::Collected { blobs, confirm, end } => {
            assert_eq!(blobs, vec![vec![7u8; 40]]);
            let c = decode(&confirm.unwrap()).unwrap();
            assert_eq!(
                c.as_array().unwrap()[2],
                Value::Array(vec![
                    Value::Nil,
                    Value::Array(vec![Value::Bin(full_hash(&[7; 40]).to_vec())])
                ])
            );
            assert!(matches!(end, SyncAction::End { end: SyncEnd::Synced(1), .. }));
        }
        _ => panic!("nothing collected"),
    }
    assert!(matches!(s.phase, SyncPhase::Idle));
}

#[test]
fn a_node_without_messages_ends_the_sync() {
    let mut s = SyncState::new();
    s.start_sync(10, node(true, true, true, Some(LINK)));
    match s.handle_sync_response(Value::Array(vec![]), 11, SYNC_DELIVERY_LIMIT) {
        Reply::End(SyncAction::End { end, .. }) => {
            assert_eq!(end_text(end), "sync: no new messages")
        }
        _ => panic!("not over"),
    }
    let mut s = SyncState::new();
    s.start_sync(10, node(true, true, true, Some(LINK)));
    assert!(matches!(
        s.handle_sync_response(Value::Int(0xf0), 11, SYNC_DELIVERY_LIMIT),
        Reply::End(SyncAction::End { end: SyncEnd::NeedsIdentification, .. })
    ));
}

#[test]
fn a_sync_without_a_route_is_given_up_in_the_end() {
    let mut s = SyncState::new();
    s.request_sync();
    let mut now = 0;
    for _ in 0..SYNC_ROUTE_TRIES {
        assert!(matches!(
            s.maybe_auto_sync(now, node(false, false, true, None)),
            SyncAction::Find
        ));
        now += 3;
    }
    assert!(matches!(
        s.maybe_auto_sync(now, node(false, false, true, None)),
        SyncAction::End { end: SyncEnd::NoRoute, .. }
    ));
}

#[test]
fn a_sync_ends_with_its_link_or_its_time() {
    let mut s = SyncState::new();
    s.start_sync(10, node(true, true, true, None));
    assert!(matches!(
        s.maybe_auto_sync(131, node(true, true, true, None)),
        SyncAction::End { end: SyncEnd::TimedOut, expire: true, .. }
    ));
    let mut s = SyncState::new();
    s.start_sync(10, node(true, true, true, Some(LINK)));
    assert!(matches!(s.on_link_lost(Some(&[0; 16])), SyncAction::Nothing));
    assert!(matches!(
        s.on_link_lost(Some(&LINK)),
        SyncAction::End { end: SyncEnd::LinkClosed, .. }
    ));
    let mut s = SyncState::new();
    s.start_sync(10, node(true, true, true, Some(LINK)));
    let adv = ResourceEvent::Advertised { accepted: true, request: false };
    assert!(matches!(s.on_resource(adv), SyncStep::Step(ResourceStep::Begin { .. })));
    assert!(matches!(
        s.on_download(false, false),
        SyncAction::End { end: SyncEnd::DecryptFailed, .. }
    ));
    assert_eq!(end_text(SyncEnd::Synced(3)), "sync: synced 3 message(s)");
}

#[test]
fn a_stored_blob_is_a_destination_and_a_token() {
    let mut blob = vec![1u8; 16];
    blob.extend_from_slice(&[2; 9]);
    assert_eq!(synced_parts(&blob), Some((&[1u8; 16][..], &[2u8; 9][..])));
    assert_eq!(synced_parts(&[1; 16]), None);
    assert_eq!(whole_message(&[1; 16], &[3; 2]), [vec![1u8; 16], vec![3; 2]].concat());
}

// ---- what is kept ----------------------------------------------------------

#[test]
fn records_read_back() {
    let held: Vec<Held> = vec![
        ("Bob".to_string(), 5, "hello".to_string()),
        ("".to_string(), u64::MAX, "\u{e9}".to_string()),
    ];
    assert_eq!(deserialize_pending(&serialize_pending(&held)), held);
    let found: Vec<Found> = vec![([1; 16], "Bob".to_string(), 5)];
    assert_eq!(deserialize_found(&serialize_found(&found)), found);
    let updates = vec![DeliveryUpdate { display_ts: 5, text: "hi".to_string(), status: 2 }];
    let back = deserialize_updates(&serialize_updates(&updates));
    assert_eq!((back[0].display_ts, back[0].text.as_str(), back[0].status), (5, "hi", 2));
    let t = serialize_ticket(500, &[3; 16]);
    assert!(matches!(deserialize_ticket(&t, 499), StoredTicket::Valid(500, k) if k == [3; 16]));
    assert!(matches!(deserialize_ticket(&t, 501), StoredTicket::Expired));
    assert!(matches!(deserialize_ticket(&t[..10], 0), StoredTicket::Malformed));
}

#[test]
fn a_cut_record_keeps_what_is_whole() {
    let held: Vec<Held> = vec![
        ("Bob".to_string(), 5, "hello".to_string()),
        ("Ann".to_string(), 6, "bye".to_string()),
    ];
    let b = serialize_pending(&held);
    assert_eq!(deserialize_pending(&b[..b.len() - 1]), held[..1].to_vec());
    assert!(deserialize_pending(&[]).is_empty());
    let first = serialize_pending(&held[..1]).len();
    for n in 0..b.len() {
        let whole = if n < first { 0 } else { 1 };
        assert_eq!(deserialize_pending(&b[..n]), held[..whole].to_vec());
    }
}

#[test]
fn contacts_read_back() {
    let r = contact_record("Bob", Some(&[1; 64]), Some(&[2; 32]));
    let c = parse_contact(r.as_bytes());
    assert_eq!(c.name, "Bob");
    assert_eq!(c.pubkey, Some(vec![1; 64]));
    assert_eq!(c.ratchet, Some([2; 32]));
    let c = parse_contact(contact_record("Bob", None, None).as_bytes());
    assert_eq!(c.pubkey, None);
    assert_eq!(stored_node_name(&hex(&[5; 16]), b"Node"), "Node");
}

#[test]
fn addresses_are_read_from_text() {
    let a = hex(&[0xab; 16]);
    assert_eq!(parse_addr(&a), Some([0xab; 16]));
    assert_eq!(parse_addr(&a[..31]), None);
    assert_eq!(parse_addr("zz"), None);
    assert_eq!(parse_addr(&format!("  {} ", a.to_uppercase())), Some([0xab; 16]));
    assert_eq!(parse_addr(&"+a".repeat(16)), None);
    assert_eq!(extract_addresses(&format!("x {} y {}.", a, hex(&[1; 16]))), vec![[0xab; 16], [1; 16]]);
    assert!(extract_addresses(&format!("{}0", a)).is_empty());
}

#[test]
fn a_book_keeps_one_entry_for_an_address() {
    let mut b = Book::new();
    b.insert([2; 16], 1);
    b.insert([1; 16], 2);
    b.insert([2; 16], 3);
    assert_eq!(b.len(), 2);
    assert_eq!(b.find(&[1; 16]), Some(0));
    assert_eq!(b.get(&[2; 16]), Some(&3));
    assert_eq!(b.remove(&[2; 16]), Some(3));
    assert_eq!(b.remove(&[2; 16]), None);
}

#[test]
fn what_was_kept_is_taken_up_again() {
    let held: Vec<Held> =
        vec![("Bob".to_string(), 5, "hello".to_string()), ("Bob".to_string(), 6, "you".to_string())];
    let (mut pending, mut unread) = (Book::new(), Book::new());
    restore_pending(&mut pending, &mut unread, &PEER, &serialize_pending(&held));
    assert_eq!(unread.get(&PEER), Some(&2));
    assert_eq!(pending.get(&PEER), Some(&held));
    restore_pending(&mut pending, &mut unread, &[9; 16], &[]);
    assert_eq!(unread.len(), 1);

    let mut tickets = Book::new();
    let t = serialize_ticket(500, &[3; 16]);
    assert!(!restore_ticket(&mut tickets, &PEER, &t, 499));
    assert_eq!(tickets.get(&PEER), Some(&(500, [3; 16])));
    assert!(restore_ticket(&mut tickets, &[9; 16], &t, 500));
    assert!(!restore_ticket(&mut tickets, &[9; 16], &t[..5], 0));
    assert_eq!(tickets.len(), 1);

    let mut updates = Book::new();
    let marks = vec![DeliveryUpdate { display_ts: 5, text: "hi".to_string(), status: 2 }];
    restore_updates(&mut updates, &PEER, &serialize_updates(&marks));
    assert_eq!(take_marks(&mut updates, &PEER), vec![(5, "hi  \u{bb}".to_string())]);

    let mut contacts = Book::new();
    let keyed = parse_contact(contact_record("Bob", Some(&[1; 64]), None).as_bytes());
    restore_contact(&mut contacts, &PEER, &keyed, false);
    assert_eq!(contacts.len(), 0);
    restore_contact(&mut contacts, &PEER, &keyed, true);
    assert_eq!(contacts.get(&PEER), Some(&"Bob".to_string()));
    let keyless = parse_contact(contact_record("Ann", None, None).as_bytes());
    restore_contact(&mut contacts, &[9; 16], &keyless, false);
    assert_eq!(contacts.get(&[9; 16]), Some(&"Ann".to_string()));
}

#[test]
fn a_request_that_did_not_go_out_is_forgotten() {
    assert_eq!(link_outcome(true, false), (LinkReqOutcome::Pending, false));
    assert_eq!(link_outcome(false, true), (LinkReqOutcome::Sent, false));
    assert_eq!(link_outcome(false, false), (LinkReqOutcome::WriteFailed, true));
}

#[test]
fn a_ticket_that_came_before_the_key_is_recovered() {
    let mut f = Fields::new();
    f.insert(FIELD_TICKET, Value::Array(vec![Value::Int(5000), Value::Bin(vec![6; 16])]));
    let mut i = inbox();
    let (m, raw) = incoming(b"a", 1.0, &f, false);
    i.deliver(&m, &raw, true, 50).unwrap();
    let (mut costs, mut outbox) = (Book::new(), Vec::new());
    let h = hear_peer(&mut i, &mut costs, &mut outbox, &PEER, b"Bob", 60);
    assert_eq!(h.recover.as_ref(), Some(&raw));
    assert_eq!(h.save, Some("Bob".to_string()));
    let mut again = parse(&h.recover.unwrap()).unwrap();
    again.judge(Some(true));
    assert!(recover_ticket(&mut i.tickets, &PEER, &again, 60).is_some());
    assert_eq!(i.tickets.get(&PEER), Some(&(5000, [6; 16])));
    // Not a second time.
    assert!(hear_peer(&mut i, &mut costs, &mut outbox, &PEER, b"Bob", 61).recover.is_none());
}

#[test]
fn a_run_syncs_by_itself_once() {
    let mut s = SyncState::new();
    let ready = node(true, true, true, Some(LINK));
    assert!(matches!(s.maybe_auto_sync(10, ready), SyncAction::AskList(_)));
    s.sync_finish(SyncEnd::NothingNew, false);
    assert!(matches!(s.maybe_auto_sync(11, ready), SyncAction::Nothing));
    s.request_sync();
    assert!(matches!(s.maybe_auto_sync(12, ready), SyncAction::AskList(_)));
}
