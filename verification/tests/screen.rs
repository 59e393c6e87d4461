//! Dialogues, documents, layout, lists and commands.

use lxmfchat::autoiface::{
    address_from_table, any_interface_up, beacon_due, discovery_token, found_note, hear_peer, link_local_from_mac,
    parse_scope, sends_to_peers, takes_packet, tend_peers, token_matches, HW_MTU, MAX_PEERS,
};
use lxmfchat::book::Book;
use lxmfchat::bytes::bytes_of_words;
use lxmfchat::chat_api::{
    ChatOp, DocLine, Event, IconOp, PostFlag, DOC_ALIGN_LEFT, DOC_KIND_DIVIDER, DOC_KIND_LINK,
    DOC_KIND_TEXT, DOC_STYLE_REGULAR, POST_SELECTED_NEXT, POST_SELECTED_PREV,
};
use lxmfchat::commands::{menu_items, Acquired, Command, Icontray, LxmfchatOp, MainLoop, MenuOp};
use lxmfchat::connection::{
    care_text, fmt_duration, note_disconnect, read_step, split_hub, Care, Dial, Dialer, Pulse,
    ReadEvent, ReadStep, Watch,
};
use lxmfchat::dialogue::{
    checksum, frame_body, unframe_body, Bounds, Dialogue, DialogueError, BYTE_BUDGET,
    ENVELOPE_HEADER, MAX_POSTS, SELF_AUTHOR,
};
use lxmfchat::document::{DocState, Documents, Drawing, Viewport, DOC_DIVIDER_HEIGHT, DOC_MAX_LINES};
use lxmfchat::layout::{post_select, Edge, Screen, Search, StatusBar};
use lxmfchat::picker::{
    announce_list, contact_list, hub_from_input, import_list, imported_name, label,
    new_contact_name, new_display_name, node_list, pick_peer, propagation_cost, propagation_node,
    rename_list, HubInput,
};
use lxmfchat::sha256::full_hash;
use lxmfchat::ui::{Posted, Stored, Ui};

// ---- dialogues -------------------------------------------------------------

#[test]
fn posts_are_kept_in_order_of_time() {
    let mut d = Dialogue::new("chat", 0);
    d.post_add("Ann", 20, "second", None).unwrap();
    d.post_add("Bob", 10, "first", None).unwrap();
    d.post_add("Ann", 30, "third", None).unwrap();
    let texts: Vec<&str> = d.posts().map(|p| p.text.as_str()).collect();
    assert_eq!(texts, vec!["first", "second", "third"]);
    assert_eq!(d.post_last(), Some(2));
    assert_eq!(d.post_find("Bob", 10), Some(0));
    assert_eq!(d.post_find("Bob", 20), None);
    assert_eq!(d.post_find("Eve", 20), None);
    assert_eq!(d.posts_as_slice().len(), 3);
}

#[test]
fn a_post_is_updated_and_deleted() {
    let mut d = Dialogue::new("chat", 0);
    d.post_add("Ann", 20, "text", Some(Bounds { width: 1, height: 2 })).unwrap();
    assert!(d.post_update("Ann", 20, "new", None));
    assert!(!d.post_update("Ann", 21, "new", None));
    assert_eq!(d.post_get(0).unwrap().text, "new");
    assert!(d.post_get(0).unwrap().bounding_box.is_none());
    assert!(matches!(d.post_del(1), Err(DialogueError::PostIndexOutOfRange)));
    assert!(d.post_del(0).is_ok());
    assert_eq!(d.post_last(), None);
    assert!(d.post_get(0).is_none());
}

#[test]
fn a_full_dialogue_drops_its_oldest_posts() {
    let mut d = Dialogue::new("chat", 0);
    for n in 0..MAX_POSTS as u64 + 5 {
        d.post_add("Ann", n, "x", None).unwrap();
    }
    assert!(d.posts_as_slice().len() <= MAX_POSTS);
    assert_eq!(d.posts_as_slice().last().unwrap().timestamp, MAX_POSTS as u64 + 4);
    let mut d = Dialogue::new("chat", 0);
    let long = "y".repeat(3000);
    for n in 0..40 {
        d.post_add("Ann", n, &long, None).unwrap();
    }
    let used: usize = d.posts().map(|p| p.text.len() + 128).sum();
    assert!(used <= BYTE_BUDGET);
    assert_eq!(d.posts_as_slice().last().unwrap().timestamp, 39);
}

#[test]
fn the_own_author_stands_to_the_right() {
    let mut d = Dialogue::new("chat", 0);
    let me = d.author_id(SELF_AUTHOR).unwrap();
    let ann = d.author_id("Ann").unwrap();
    assert_ne!(me, ann);
    assert_eq!(d.author_id("Ann"), Some(ann));
    assert_eq!(d.author(ann).unwrap().name, "Ann");
    assert!(!d.author(ann).unwrap().flags.right);
    assert!(d.author(me).unwrap().flags.right);
    assert!(d.author(999).is_none());
}

#[test]
fn authors_keep_their_numbers() {
    let mut d = Dialogue::new("chat", 0);
    let ann = d.author_id("Ann").unwrap();
    let bob = d.author_id("Bob").unwrap();
    assert!(ann != 0 && bob != 0 && ann != bob);
    d.post_add("Eve", 1, "x", None).unwrap();
    assert_eq!(d.author_id("Ann"), Some(ann));
    assert_eq!(d.author_id("Bob"), Some(bob));
}

#[test]
fn the_last_time_is_that_of_the_newest_post() {
    let mut d = Dialogue::new("chat", 5);
    assert_eq!(d.last_timestamp, 5);
    d.post_add("Ann", 20, "x", None).unwrap();
    d.post_add("Ann", 10, "y", None).unwrap();
    assert_eq!(d.last_timestamp, 20);
    d.post_del(1).unwrap();
    assert_eq!(d.last_timestamp, 10);
    d.post_del(0).unwrap();
    assert_eq!(d.last_timestamp, 10);
}

#[test]
fn bounds_are_forgotten_with_the_width() {
    let mut d = Dialogue::new("chat", 0);
    d.post_add("Ann", 20, "text", Some(Bounds { width: 1, height: 2 })).unwrap();
    d.forget_bounds();
    assert!(d.posts_as_slice()[0].bounding_box.is_none());
    d.posts_as_slice_mut()[0].timestamp = 21;
    assert_eq!(d.posts_as_slice()[0].timestamp, 21);
}

#[test]
fn a_framed_body_reads_back_whole_or_not_at_all() {
    let framed = frame_body(b"body");
    assert_eq!(framed.len(), ENVELOPE_HEADER + 4);
    assert_eq!(unframe_body(&framed), Some(&b"body"[..]));
    let mut longer = framed.clone();
    longer.extend_from_slice(&[0; 7]);
    assert_eq!(unframe_body(&longer), Some(&b"body"[..]));
    assert_eq!(unframe_body(&framed[..framed.len() - 1]), None);
    let mut bad = framed.clone();
    bad[ENVELOPE_HEADER] ^= 1;
    assert_eq!(unframe_body(&bad), None);
    assert_ne!(checksum(b"a"), checksum(b"b"));
}

// ---- documents -------------------------------------------------------------

fn line(kind: u8, link_id: u16) -> DocLine {
    DocLine {
        text: "x".to_string(),
        style: DOC_STYLE_REGULAR,
        align: DOC_ALIGN_LEFT,
        kind,
        link_id,
    }
}

fn page(n: usize, links: &[usize]) -> DocState {
    let mut d = DocState::new("page");
    let lines: Vec<DocLine> = (0..n)
        .map(|i| {
            if links.contains(&i) {
                line(DOC_KIND_LINK, i as u16)
            } else {
                line(DOC_KIND_TEXT, 0)
            }
        })
        .collect();
    d.append(lines);
    for i in 0..d.lines.len() {
        d.set_height(i, 10);
    }
    d
}

const VIEW: Viewport = Viewport { budget: 50, space: 0 };

#[test]
fn a_screen_shows_the_lines_that_fit() {
    let d = page(12, &[]);
    assert_eq!(d.doc_visible_count(VIEW, 0), Ok(5));
    assert_eq!(d.doc_visible_count(VIEW, 10), Ok(2));
    let mut tall = page(2, &[]);
    tall.set_height(0, 500);
    assert_eq!(tall.doc_visible_count(VIEW, 0), Ok(1));
    let mut d = DocState::new("page");
    d.append(vec![line(DOC_KIND_TEXT, 0)]);
    assert_eq!(d.doc_visible_count(VIEW, 0), Err(0));
    assert_eq!(DocState::fixed_height(&line(DOC_KIND_DIVIDER, 0)), Some(DOC_DIVIDER_HEIGHT));
    assert_eq!(DocState::fixed_height(&line(DOC_KIND_TEXT, 0)), None);
}

#[test]
fn paging_moves_a_screen_at_a_time() {
    let mut d = page(12, &[7]);
    d.drawn(5);
    assert_eq!(d.doc_page(VIEW, true), Ok(()));
    assert_eq!((d.top, d.cursor), (5, 5));
    assert_eq!(d.doc_selected_link(), None);
    assert!(d.doc_is_link(7));
    d.doc_cursor(VIEW, true).unwrap();
    assert_eq!((d.top, d.cursor), (5, 7));
    assert_eq!(d.doc_selected_link(), Some(7));
    d.drawn(10);
    assert_eq!(d.doc_page(VIEW, true), Ok(()));
    assert_eq!((d.top, d.cursor), (10, 10));
    assert_eq!(d.doc_selected_link(), None);
    assert_eq!(d.doc_page(VIEW, false), Ok(()));
    assert_eq!(d.top, 5);
    assert_eq!(d.doc_page(VIEW, false), Ok(()));
    assert_eq!(d.top, 0);
}

#[test]
fn the_cursor_steps_over_links() {
    let mut d = page(12, &[1, 3, 8]);
    d.drawn(5);
    d.doc_cursor(VIEW, true).unwrap();
    assert_eq!(d.cursor, 1);
    d.doc_cursor(VIEW, true).unwrap();
    assert_eq!(d.cursor, 3);
    d.doc_cursor(VIEW, true).unwrap();
    assert_eq!((d.top, d.cursor), (5, 8));
    d.doc_cursor(VIEW, false).unwrap();
    assert_eq!((d.top, d.cursor), (0, 3));
}

#[test]
fn the_cursor_is_kept_on_the_screen() {
    let mut d = page(12, &[9]);
    d.cursor = 9;
    d.keep_cursor_visible(VIEW).unwrap();
    assert_eq!(d.top, 5);
}

#[test]
fn drawing_stops_at_the_bottom() {
    let d = page(12, &[]);
    let mut w = Drawing::begin(&d, 0, 25, 0);
    let mut drawn = Vec::new();
    while let Some((i, y)) = w.next_line() {
        drawn.push((i, y));
        w.drew(10);
    }
    assert_eq!(drawn, vec![(0, 0), (1, 10), (2, 20)]);
    assert_eq!(w.finish(), 2);
}

#[test]
fn a_document_is_parked_and_taken_back() {
    let mut d = Documents::new();
    assert!(!d.doc_active());
    d.doc_begin("title");
    d.doc_append(vec![line(DOC_KIND_TEXT, 0)]);
    assert!(!d.doc_active());
    d.doc_show();
    assert!(d.doc_active());
    d.doc_suspend();
    assert!(!d.doc_active());
    assert!(d.doc_resume());
    assert!(d.doc_active());
    assert_eq!(d.document.as_ref().unwrap().title, "title");
    d.doc_clear();
    assert!(!d.doc_active());
    assert!(!d.doc_resume());
}

#[test]
fn a_document_has_a_limited_length() {
    let mut d = DocState::new("page");
    d.append((0..DOC_MAX_LINES + 10).map(|_| line(DOC_KIND_TEXT, 0)).collect());
    assert_eq!(d.lines.len(), DOC_MAX_LINES);
}

// ---- layout ----------------------------------------------------------------

#[test]
fn selection_stays_within_the_posts() {
    assert_eq!(post_select(POST_SELECTED_NEXT, Some(3), Some(3)), (Some(3), Edge::Bottom));
    assert_eq!(post_select(POST_SELECTED_NEXT, Some(2), Some(3)), (Some(3), Edge::Inside));
    assert_eq!(post_select(POST_SELECTED_PREV, Some(0), Some(3)), (Some(0), Edge::Top));
    assert_eq!(post_select(POST_SELECTED_PREV, Some(2), Some(3)), (Some(1), Edge::Inside));
    assert_eq!(post_select(9, None, Some(3)), (Some(3), Edge::Inside));
    assert_eq!(post_select(0, None, None), (None, Edge::Inside));
}

fn search(selected: Option<usize>, range: Vec<usize>, hs: &[u32], screen: u32) -> Option<Vec<usize>> {
    let mut s = Search::begin(selected, &range, hs.len(), screen)?;
    while let Some(i) = s.next_post() {
        s.measured(hs[i]);
    }
    Some(s.finish().range)
}

#[test]
fn the_newest_posts_show_from_the_bottom_up() {
    assert_eq!(search(None, vec![], &[10; 8], 35), Some(vec![7, 6, 5, 4]));
    assert_eq!(search(None, vec![], &[10; 2], 35), Some(vec![1, 0]));
    assert_eq!(search(None, vec![], &[], 35), Some(vec![]));
}

#[test]
fn a_selected_post_is_brought_on_screen() {
    // Among those that show nothing changes.
    assert_eq!(search(Some(5), vec![7, 6, 5, 4], &[10; 8], 35), None);
    // Above them it becomes the top one.
    assert_eq!(search(Some(3), vec![7, 6, 5, 4], &[10; 8], 35), Some(vec![3, 4, 5]));
    // Below them it becomes the bottom one.
    assert_eq!(search(Some(6), vec![3, 4, 5], &[10; 8], 35), Some(vec![6, 5, 4, 3]));
}

#[test]
fn posts_are_stacked_with_space_between() {
    let s = Screen { status_height: 20, height: 100, space: 2, margin: 4 };
    let y = s.first_y(true);
    assert_eq!(s.next_y(true, y, 10), Some(y + 16));
    let y = s.first_y(false);
    assert_eq!(s.next_y(false, y, 10), Some(y - 16));
    assert_eq!(s.next_y(true, 115, 10), None);
}

#[test]
fn the_status_bar_falls_back_to_its_idle_text() {
    let mut b = StatusBar::new("idle");
    assert!(!b.is_busy());
    b.set_status_text("working");
    assert_eq!(b.text, "working");
    b.set_busy_state(true);
    assert!(b.is_busy());
    assert!(b.redraw_busy(1000));
    assert!(!b.redraw_busy(1001));
    b.set_busy_state(false);
    assert!(!b.is_busy());
    b.set_status_idle_text("calm");
    assert_eq!(b.idle_text, "calm");
}

// ---- lists -----------------------------------------------------------------

#[test]
fn contacts_are_listed_by_unread_and_name() {
    let mut contacts = Book::new();
    contacts.insert([1; 16], "zoe".to_string());
    contacts.insert([2; 16], "\u{c4}nne".to_string());
    contacts.insert([3; 16], "Bob".to_string());
    contacts.insert([4; 16], "alice".to_string());
    let mut unread = Book::new();
    unread.insert([1; 16], 2u32);
    let names: Vec<String> =
        contact_list(&contacts, &unread).iter().map(|e| e.name.clone()).collect();
    // Whoever waits comes first; capital letters make no difference.
    assert_eq!(names, vec!["zoe [2]", "alice", "Bob", "\u{c4}nne"]);
    let names: Vec<String> = rename_list(&contacts).iter().map(|e| e.name.clone()).collect();
    assert_eq!(names, vec!["alice", "Bob", "zoe", "\u{c4}nne"]);
}

#[test]
fn announces_are_listed_newest_first() {
    let mut seen = Book::new();
    for n in 0..40u8 {
        seen.insert([n; 16], (format!("n{}", n), n as u64));
    }
    let l = announce_list(&seen);
    assert_eq!(l.len(), 32);
    assert_eq!(l[0].name, "n39");
    assert_eq!(label(&l[0]), "n39 (27272727)");
    assert_eq!(pick_peer(&l, "n38 (26262626)", "Cancel"), Some(1));
    assert_eq!(pick_peer(&l, "Cancel", "Cancel"), None);
    assert_eq!(pick_peer(&l, "other", "Cancel"), None);
}

#[test]
fn nodes_are_listed_saved_and_heard() {
    let mut saved = Book::new();
    saved.insert([1; 16], "Home".to_string());
    let mut seen = Book::new();
    seen.insert([1; 16], ("Home".to_string(), 5));
    seen.insert([2; 16], ("Other".to_string(), 9));
    let l = node_list(&saved, &seen);
    assert_eq!(l.len(), 2);
    assert_eq!(l[0].addr, [1; 16]);
}

#[test]
fn found_addresses_are_listed_newest_first() {
    let found = vec![([1; 16], "Ann".to_string(), 5), ([2; 16], "Bob".to_string(), 6)];
    let l = import_list(&found);
    assert_eq!(l[0].addr, [2; 16]);
    assert_eq!(l[0].name, "from Bob");
    assert_eq!(l[1].name, "from Ann");
}

#[test]
fn names_are_trimmed_and_bounded() {
    assert_eq!(new_display_name("  Bob ", "Ann"), Some("Bob".to_string()));
    assert_eq!(new_display_name("   ", "Ann"), None);
    assert_eq!(new_display_name("Ann", "Ann"), None);
    assert_eq!(new_display_name(&"x".repeat(50), "Ann"), Some("x".repeat(32)));
    assert_eq!(new_contact_name(" Bob ", "Ann"), Some("Bob".to_string()));
    assert_eq!(new_contact_name("", "Ann"), None);
    assert_eq!(imported_name(" Eve ", &[0xab; 16]), "Eve");
    assert!(imported_name("", &[0xab; 16]).starts_with("abab"));
}

#[test]
fn hubs_are_put_together_from_host_and_port() {
    assert!(matches!(hub_from_input("a:1", "b", "2"), HubInput::Hub(h) if h == "b:2"));
    assert!(matches!(hub_from_input("a:1", "", ""), HubInput::Hub(h) if h == "a:4242"));
    assert!(matches!(
        hub_from_input("10.0.0.1:5000", "10.0.0.2", ""),
        HubInput::Hub(h) if h == "10.0.0.2:4242"
    ));
    assert!(matches!(hub_from_input("a:1", " ", "2"), HubInput::Hub(h) if h == "a:2"));
    assert!(matches!(hub_from_input("a:1", "b:7", ""), HubInput::Hub(h) if h == "b:7"));
    assert!(matches!(hub_from_input("", "", ""), HubInput::NoHost));
    assert!(matches!(hub_from_input("a:1", "b", "x"), HubInput::BadPort(p) if p == "x"));
    assert_eq!(propagation_cost("14"), 14);
    assert_eq!(propagation_node("zz"), None);
    assert_eq!(propagation_node(&"ab".repeat(16)), Some([0xab; 16]));
}

// ---- connection ------------------------------------------------------------

#[test]
fn a_hub_is_a_host_and_a_port() {
    assert_eq!(split_hub("example.org:4242"), Some(("example.org".to_string(), 4242)));
    assert_eq!(split_hub("::1:80"), Some(("::1".to_string(), 80)));
    assert_eq!(split_hub("example.org"), None);
    assert_eq!(split_hub("example.org:70000"), None);
}

#[test]
fn durations_are_short() {
    assert_eq!(fmt_duration(59), "59s");
    assert_eq!(fmt_duration(61), "1m01s");
    assert_eq!(fmt_duration(3 * 3600 + 5 * 60), "3h05m");
}

#[test]
fn dialling_backs_off_and_says_why() {
    let mut d = Dialer::new();
    assert!(matches!(d.begin(false, "h:1"), Dial::Sleep(3)));
    assert!(matches!(d.begin(true, "h"), Dial::BadHub { wait: 15, .. }));
    assert!(matches!(d.begin(true, "h:1"), Dial::Go { port: 1, .. }));
    assert_eq!(d.on_network(false, "h:1"), "connecting to h:1\u{2026}");
    let f = d.on_failed("h:1", "refused");
    assert_eq!(f.say, "connect to h:1 failed: refused \u{2014} retrying\u{2026}");
    let mut waits = vec![f.wait];
    for _ in 0..5 {
        waits.push(d.on_failed("h:1", "refused").wait);
    }
    assert_eq!(waits, vec![2, 4, 8, 16, 30, 30]);
    assert_eq!(d.on_connected("h:1"), "connected to h:1");
    let drop = d.on_dropped(None, 61, false);
    assert_eq!(drop.say, "link lost after 1m01s \u{2014} connection dropped, wifi down");
    assert_eq!(
        d.on_connected("h:1"),
        "connected \u{2014} last drop: connection dropped after 1m01s, wifi down"
    );
}

#[test]
fn the_first_reason_for_a_drop_stays() {
    let mut slot = None;
    note_disconnect(&mut slot, "first".to_string());
    note_disconnect(&mut slot, "second".to_string());
    assert_eq!(slot, Some("first".to_string()));
}

#[test]
fn reading_stops_for_a_reconnect() {
    assert_eq!(read_step(false, ReadEvent::Bytes), ReadStep::Stop);
    assert_eq!(read_step(true, ReadEvent::Bytes), ReadStep::Take);
    assert_eq!(read_step(true, ReadEvent::TimedOut), ReadStep::Again);
    assert_eq!(read_step(true, ReadEvent::Closed), ReadStep::StopClosed);
    assert_eq!(read_step(true, ReadEvent::Failed), ReadStep::StopFailed);
}

#[test]
fn a_connection_is_watched() {
    let live = |inbound: u32, write: u32| Pulse {
        connected: true,
        write_started: write,
        last_inbound: inbound,
        can_probe: true,
    };
    let mut w = Watch::new(1000);
    assert_eq!(w.tick(1061, live(1061, 0)), Care::Woke);
    let mut w = Watch::new(1000);
    assert_eq!(w.tick(1005, live(1004, 900)), Care::Stuck);
    let mut w = Watch::new(1000);
    assert_eq!(w.tick(1005, live(700, 0)), Care::Silent(305));
    let mut w = Watch::new(1000);
    assert_eq!(w.tick(1005, live(1000, 0)), Care::Tend { probe: false, keepalive: false });
    assert_eq!(w.tick(1010, live(800, 0)), Care::Tend { probe: true, keepalive: false });
    assert_eq!(
        care_text(Care::Silent(305)).1,
        "no inbound for 305s, probes unanswered"
    );
}

#[test]
fn keepalives_come_every_thirty_seconds() {
    let mut w = Watch::new(1000);
    let mut sent = Vec::new();
    for n in 1..=24u64 {
        let now = 1000 + 5 * n;
        let pulse =
            Pulse { connected: true, write_started: 0, last_inbound: now as u32, can_probe: true };
        if w.tick(now, pulse) == (Care::Tend { probe: false, keepalive: true }) {
            sent.push(now);
        }
    }
    assert_eq!(sent, vec![1030, 1060, 1090, 1120]);
}

#[test]
fn a_connection_without_handles_is_given_up() {
    let mut d = Dialer::new();
    let f = d.on_unusable("no handles");
    assert_eq!(f.say, "socket clone failed: no handles");
    assert_eq!(f.wait, 2);
    assert_eq!(d.backoff, 4);
}

// ---- local peers -----------------------------------------------------------

#[test]
fn beacons_carry_the_digest_of_group_and_address() {
    let t = discovery_token("fe80::1");
    assert_eq!(t, full_hash(b"reticulumfe80::1"));
    assert!(token_matches(&t, "fe80::1"));
    assert!(!token_matches(&t, "fe80::2"));
    assert!(!token_matches(&t[..31], "fe80::1"));
}

#[test]
fn local_peers_are_bounded_and_forgotten() {
    let mut peers = Book::new();
    for n in 0..MAX_PEERS as u8 {
        assert!(hear_peer(&mut peers, &[n; 16], 100));
    }
    assert!(!hear_peer(&mut peers, &[0; 16], 120));
    assert_eq!(peers.len(), MAX_PEERS);
    assert!(takes_packet(10, true, &peers, &[3; 16]));
    assert!(!takes_packet(10, true, &peers, &[99; 16]));
    assert!(!takes_packet(10, false, &peers, &[3; 16]));
    assert!(sends_to_peers(10, true, &peers));
    assert!(!sends_to_peers(HW_MTU + 1, true, &peers));
    tend_peers(&mut peers, 143);
    assert_eq!(peers.len(), 0);
    assert!(!sends_to_peers(10, true, &peers));
    assert!(beacon_due(20, 10));
    assert!(!beacon_due(19, 10));
    assert_eq!(found_note(2), "\u{2726} local peer found (2 nearby)");
}

#[test]
fn the_own_link_local_address_is_known() {
    assert_eq!(
        link_local_from_mac(&[0x00, 0x11, 0x22, 0x33, 0x44, 0x55]),
        [0xfe, 0x80, 0, 0, 0, 0, 0, 0, 0x02, 0x11, 0x22, 0xff, 0xfe, 0x33, 0x44, 0x55]
    );
    let table = "00000000000000000000000000000001 01 80 10 80       lo\n\
                 fe800000000000000211222fffe33445 02 40 20 80     eth0\n\
                 fe80000000000000021122fffe334455 03 40 20 80     wlan0\n";
    let (a, scope) = address_from_table(table).unwrap();
    assert_eq!(scope, 2);
    assert_eq!(a[0], 0xfe);
    assert!(address_from_table("").is_none());
    let chars: Vec<char> = "0a".chars().collect();
    assert_eq!(parse_scope(&chars), Some(10));
}

// ---- commands --------------------------------------------------------------

#[test]
fn opcodes_read_back() {
    for n in 0..40usize {
        if let Some(op) = ChatOp::from_number(n) {
            assert_eq!(op.number(), n);
        }
        if let Some(op) = MenuOp::from_number(n) {
            assert_eq!(op.number(), n);
        }
        if let Some(op) = LxmfchatOp::from_number(n) {
            assert_eq!(op.number(), n);
        }
        if let Some(op) = Event::from_number(n) {
            assert_eq!(op.number(), n);
        }
    }
    assert!(ChatOp::from_number(1000).is_none());
    assert!(IconOp::from_number(1000).is_none());
    assert!(PostFlag::from_number(1000).is_none());
}

#[test]
fn keys_do_one_thing_in_a_chat_and_another_on_a_page() {
    let mut l = MainLoop::new();
    let event = LxmfchatOp::Event.number();
    assert!(matches!(
        l.take(event, Event::Focus.number(), false, false),
        Command::Focus { connect: true }
    ));
    assert!(matches!(
        l.take(event, Event::Focus.number(), false, false),
        Command::Focus { connect: false }
    ));
    assert!(matches!(l.take(event, Event::F1.number(), true, false), Command::JumpToUnread));
    assert!(matches!(l.take(event, Event::F2.number(), true, false), Command::JumpBack));
    assert!(matches!(
        l.take(event, Event::F2.number(), true, true),
        Command::BrowserPage { .. }
    ));
    assert!(matches!(
        l.take(LxmfchatOp::Menu.number(), MenuOp::Sync.number(), true, false),
        Command::Menu(MenuOp::Sync)
    ));
    assert!(matches!(l.take(LxmfchatOp::Quit.number(), 0, true, false), Command::Quit));
    assert!(matches!(l.take(9999, 0, true, false), Command::Unknown));
}

#[test]
fn the_menu_is_in_its_order() {
    let m = menu_items();
    assert_eq!(m.len(), 16);
    assert_eq!(m[0].0, "Announces");
    assert!(matches!(m[15], ("Close", MenuOp::Noop)));
}

#[test]
fn the_icon_tray_has_one_owner() {
    let mut t = Icontray::new(["a", "b", "c", "d"]);
    assert_eq!(t.prediction(1), Some("b".to_string()));
    t.set_slot(1, "x");
    assert_eq!(t.prediction(1), Some("x".to_string()));
    t.set_slot(9, "x");
    assert_eq!(t.prediction(4), None);
    assert!(matches!(t.acquire(None, [1, 2, 3, 4]), Acquired::Token([1, 2, 3, 4])));
    assert!(matches!(t.acquire(Some([9; 4]), [5; 4]), Acquired::Refused));
    assert!(!t.release([9; 4]));
    assert!(t.release([1, 2, 3, 4]));
}

#[test]
fn random_words_give_their_low_bytes_first() {
    assert_eq!(bytes_of_words(&[0x04030201, 0x08070605], 6), vec![1, 2, 3, 4, 5, 6]);
}

// ---- the open conversation -------------------------------------------------

#[test]
fn posts_go_to_the_open_conversation_only() {
    let mut u = Ui::new();
    assert_eq!(u.post_add("", "Ann", 1, "x", None), Posted::NoKey);
    u.dialogue_set(Some("k".to_string()));
    assert_eq!(u.post_add("", "Ann", 1, "x", None), Posted::NoDialogue);
    assert!(!u.dialogue_read(Stored::Missing));
    assert!(u.dialogue_create(7));
    assert_eq!(u.post_add("other", "Ann", 1, "x", None), Posted::Elsewhere);
    assert_eq!(u.post_add("k", "Ann", 1, "x", None), Posted::Added);
    assert_eq!(u.post_add("", "Ann", 2, "y", None), Posted::Added);
    assert_eq!(u.post_find("Ann", 2), Some(1));
    assert!(u.post_update("Ann", 2, "z", None));
    assert!(!u.post_update("Ann", 3, "z", None));
    assert_eq!(u.post_get(1).unwrap().text, "z");
    assert!(matches!(u.post_del(9), Some(Err(DialogueError::PostIndexOutOfRange))));
    assert!(matches!(u.post_del(0), Some(Ok(()))));
    assert_eq!(u.post_find("Ann", 2), Some(0));
}

#[test]
fn a_conversation_that_was_read_shows_its_newest_posts() {
    let mut d = Dialogue::new("k", 0);
    d.post_add("Ann", 1, "x", Some(Bounds { width: 1, height: 2 })).unwrap();
    d.post_add("Ann", 2, "y", Some(Bounds { width: 1, height: 2 })).unwrap();
    let mut u = Ui::new();
    u.range = vec![9];
    u.topdown = true;
    assert!(u.dialogue_read(Stored::Found(d)));
    assert_eq!(u.selected, Some(1));
    assert!(u.range.is_empty());
    assert!(!u.topdown);
    assert!(u.post_get(0).unwrap().bounding_box.is_none());
    assert_eq!(u.post_select(POST_SELECTED_NEXT), Edge::Bottom);
    assert_eq!(u.post_select(POST_SELECTED_PREV), Edge::Inside);
    assert_eq!(u.selected, Some(0));
    assert!(u.dialogue_read(Stored::Undecodable));
    assert!(u.dialogue.is_none());
    assert!(u.post_del(0).is_none());
}

#[test]
fn someone_can_be_reached_over_the_hub_or_locally() {
    let mut peers = Book::new();
    assert!(!any_interface_up(false, true, &peers));
    assert!(any_interface_up(true, false, &peers));
    hear_peer(&mut peers, &[1; 16], 5);
    assert!(any_interface_up(false, true, &peers));
    assert!(!any_interface_up(false, false, &peers));
}

#[test]
fn the_peer_heard_longest_ago_makes_room() {
    let mut peers = Book::new();
    for n in 0..MAX_PEERS as u8 {
        hear_peer(&mut peers, &[n; 16], if n == 5 { 90 } else { 100 });
    }
    assert!(hear_peer(&mut peers, &[99; 16], 101));
    assert_eq!(peers.len(), MAX_PEERS);
    assert!(!peers.contains(&[5; 16]));
}
