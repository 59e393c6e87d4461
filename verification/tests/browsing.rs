//! Browsing pages.

use lxmfchat::book::Book;
use lxmfchat::browser::{
    browse_name, node_label, page_end_text, page_heading, page_status, placeholder_name, rename_from_title, BrowserAction,
    BrowserPhase, BrowserState, Follow, PageAddr, PageEnd, Received, BACK_STACK_MAX,
    PAGE_PATH_DEFAULT,
};
use lxmfchat::hex::hex;
use lxmfchat::msgpack::{decode, Value};
use lxmfchat::outbox::LinkReqOutcome;
use lxmfchat::sync::NodeView;
use lxmfchat::transfer::{ResourceEvent, ResourceStep};

const NODE: [u8; 16] = [4; 16];
const LINK: [u8; 16] = [8; 16];

fn addr(path: &str) -> PageAddr {
    PageAddr { node: NODE, path: path.to_string(), vars: vec![] }
}

fn linked() -> NodeView {
    NodeView { known: true, path: true, up: true, link: Some(LINK) }
}

/// Shows a page of the given text.
fn show(b: &mut BrowserState, path: &str, push: bool, text: &str) {
    assert!(b.request_page(addr(path), push));
    assert!(matches!(b.browser_tick(10, linked(), Some(1)), BrowserAction::Ask(l) if l == LINK));
    b.on_request(Some(true));
    match b.page_received(&Value::Bin(text.as_bytes().to_vec())) {
        Received::Page(p) => assert_eq!(p.path, path),
        _ => panic!("no page"),
    }
}

#[test]
fn a_page_is_fetched_and_shown() {
    let mut b = BrowserState::new();
    show(&mut b, PAGE_PATH_DEFAULT, true, ">Welcome\ntext\n`[Next`:/page/next.mu]\n");
    assert!(b.viewing);
    assert_eq!(b.current_page_title(), Some("Welcome".to_string()));
    assert_eq!(b.current_page().unwrap().path, PAGE_PATH_DEFAULT);
    match b.follow_selected_link(Some(0)) {
        Follow::Go(p) => assert_eq!((p.node, p.path.as_str()), (NODE, "/page/next.mu")),
        _ => panic!("no link"),
    }
    assert!(matches!(b.follow_selected_link(None), Follow::NoLink));
}

#[test]
fn going_back_shows_the_page_before() {
    let mut b = BrowserState::new();
    show(&mut b, "/page/a.mu", true, "a");
    show(&mut b, "/page/b.mu", true, "b");
    assert_eq!(b.back.len(), 1);
    assert!(b.browser_back());
    assert!(matches!(b.browser_tick(10, linked(), None), BrowserAction::Ask(_)));
    b.page_received(&Value::Bin(b"a".to_vec()));
    assert_eq!(b.current_page().unwrap().path, "/page/a.mu");
    assert!(b.back.is_empty());
    assert!(!b.browser_back());
}

#[test]
fn the_back_stack_is_bounded() {
    let mut b = BrowserState::new();
    for n in 0..BACK_STACK_MAX + 4 {
        show(&mut b, &format!("/page/{}.mu", n), true, "x");
    }
    assert_eq!(b.back.len(), BACK_STACK_MAX);
    assert_eq!(b.back[BACK_STACK_MAX - 1].path, format!("/page/{}.mu", BACK_STACK_MAX + 2));
}

#[test]
fn a_failed_fetch_keeps_the_page() {
    let mut b = BrowserState::new();
    show(&mut b, "/page/a.mu", true, "a");
    b.request_page(addr("/page/b.mu"), true);
    b.browser_tick(10, linked(), None);
    match b.page_received(&Value::Int(0xf1)) {
        Received::End(BrowserAction::End { end, .. }) => {
            assert_eq!(page_end_text(end), "page: node denied access")
        }
        _ => panic!("not over"),
    }
    assert_eq!(b.current_page().unwrap().path, "/page/a.mu");
    assert!(matches!(b.phase, BrowserPhase::Idle));
}

#[test]
fn a_page_without_a_link_asks_for_one() {
    let mut b = BrowserState::new();
    b.request_page(addr("/page/a.mu"), true);
    assert_eq!(b.wanted_node(), Some(NODE));
    let no_link = NodeView { known: true, path: true, up: true, link: None };
    assert!(matches!(b.browser_tick(10, no_link, None), BrowserAction::Contact(n) if n == NODE));
    b.on_link_request(LinkReqOutcome::Sent, true);
    assert!(b.browser_targets(&NODE));
    assert!(matches!(b.browser_on_link_up(LINK, &NODE), BrowserAction::Ask(l) if l == LINK));
    b.on_request(Some(true));
    let adv = ResourceEvent::Advertised { accepted: true, request: false };
    assert!(b.on_data(&LINK, 20));
    assert!(matches!(b.on_resource(adv).0, ResourceStep::Begin { .. }));
    assert!(matches!(
        b.on_download(true, false),
        BrowserAction::End { end: PageEnd::ResourceFailed, .. }
    ));
}

#[test]
fn a_fetch_runs_out_of_time() {
    let mut b = BrowserState::new();
    b.request_page(addr("/page/a.mu"), true);
    let no_link = NodeView { known: true, path: true, up: true, link: None };
    b.browser_tick(10, no_link, None);
    assert!(matches!(
        b.browser_tick(10_000, no_link, None),
        BrowserAction::End { end: PageEnd::TimedOut, .. }
    ));
    let mut b = BrowserState::new();
    b.request_page(addr("/page/a.mu"), true);
    b.browser_tick(10, linked(), None);
    assert!(matches!(
        b.on_link_lost(Some(&LINK)),
        BrowserAction::End { end: PageEnd::LinkClosed, .. }
    ));
}

#[test]
fn a_request_carries_the_variables_of_the_page() {
    let mut b = BrowserState::new();
    let mut p = addr("/page/a.mu");
    p.vars.push(("g".to_string(), "mirrors".to_string()));
    b.request_page(p, true);
    b.browser_tick(10, linked(), None);
    let r = b.page_request(10);
    // The variables are a map by name; such a map is written only.
    let tail = lxmfchat::msgpack::encode(&Value::StrMap(vec![(
        "var_g".to_string(),
        Value::Str("mirrors".to_string()),
    )]));
    assert!(r.ends_with(&tail));
    let mut b = BrowserState::new();
    b.request_page(addr("/page/a.mu"), true);
    b.browser_tick(10, linked(), None);
    let r = decode(&b.page_request(10)).unwrap();
    assert_eq!(r.as_array().unwrap()[2], Value::Nil);
}

#[test]
fn a_parked_browser_comes_back() {
    let mut b = BrowserState::new();
    show(&mut b, "/page/a.mu", true, "a");
    b.browser_suspend();
    assert!(!b.viewing);
    assert!(b.browser_resume(true));
    assert!(b.viewing);
    let mut b = BrowserState::new();
    assert!(!b.browser_resume(false));
}

#[test]
fn nodes_take_their_name_from_the_index_page() {
    let mut saved = Book::new();
    let seen = Book::new();
    saved.insert(NODE, hex(&NODE));
    assert!(placeholder_name(&hex(&NODE), &NODE));
    assert!(!placeholder_name("Home", &NODE));
    assert_eq!(
        rename_from_title(&mut saved, &NODE, PAGE_PATH_DEFAULT, Some("Home")),
        Some("Home".to_string())
    );
    assert_eq!(node_label(&saved, &seen, &NODE), "Home");
    assert_eq!(rename_from_title(&mut saved, &NODE, PAGE_PATH_DEFAULT, Some("Other")), None);
    assert_eq!(page_heading("Home", "/page/a.mu"), "Home/page/a.mu");
    assert_eq!(page_status("Home", "/page/a.mu"), "\u{25a3} Home/page/a.mu");
}

#[test]
fn a_typed_address_gives_a_node_its_first_name() {
    let mut seen = Book::new();
    let typed = format!(" {} ", hex(&NODE));
    assert_eq!(browse_name(&seen, &NODE, &typed), "04040404\u{2026}");
    seen.insert(NODE, ("Home".to_string(), 5));
    assert_eq!(browse_name(&seen, &NODE, &typed), "Home");
}
