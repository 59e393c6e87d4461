//! How a page is asked for, waited for and shown.
use vstd::prelude::*;

use crate::address::Address;
use crate::browser::{
    drawn_align, drawn_kind, drawn_style, fetch_over, fetch_started, fetch_ticked, is_placeholder,
    name_from_title, node_contacted, page_shown, pushed, refusal, request_data, BrowserAction,
    BrowserModel, PageEnd, Place,
};
use crate::hex::hex_text;
use crate::micron::{title_of, within, Align, Kind, PageModel, Style};
use crate::msgpack::Model;
use crate::outbox::LinkReqOutcome;
use crate::sync::NodeView;
use crate::text::trimmed;

verus! {

/// A fetch starts where something can be sent and the node is known and reached: of
/// the place that is wanted, over the link that is up, or by asking the place's node for
/// one; it has 60 seconds and 12 more for each hop, of which there is at least one. Else
/// it is looked at again in 3 seconds, forty times at most. What is shown stays.
pub proof fn a_fetch_starts_or_is_put_off(
    b: BrowserModel,
    place: Place,
    now: u64,
    node: NodeView,
    hops: Option<u8>,
)
    requires
        now <= 0xffff_ffff_ffff_0000,
        b.route_tries < 255,
    ensures
        ({
            let (t, action) = fetch_started(b, place, now, node, hops);
            let ready = node.up && node.known && node.path;
            let far: int = match hops {
                Some(h) => if h == 0 {
                    1
                } else {
                    h as int
                },
                None => 1,
            };
            &&& t.current == b.current && t.back == b.back && t.links == b.links
            &&& t.current_title == b.current_title && t.viewing == b.viewing
            &&& if ready {
                &&& t.node == Some(place.node) && t.path == place.path && t.vars == place.vars
                &&& t.deadline == now + 60 + 12 * far
                &&& t.link_id == node.link
                &&& !t.receiving && t.route_tries == 0 && t.link_tries == 0 && t.next_attempt == 0
                &&& t.requested == b.requested
                &&& t.pending_push == b.pending_push && t.pending_pop == b.pending_pop
                &&& match node.link {
                    Some(l) => t.phase is Fetching && action == BrowserAction::Ask(l),
                    None => t.phase is Linking && action == BrowserAction::Contact(place.node),
                }
            } else if b.route_tries >= 40 {
                &&& t == fetch_over(b)
                &&& action == (BrowserAction::End {
                    end: if node.up {
                        PageEnd::NoRoute
                    } else {
                        PageEnd::NoConnection
                    },
                    link: b.link_id,
                    expire: None,
                })
            } else {
                &&& t.requested == Some(place)
                &&& t.next_attempt == now + 3
                &&& t.route_tries == b.route_tries + 1
                &&& t == (BrowserModel {
                    requested: t.requested,
                    next_attempt: t.next_attempt,
                    route_tries: t.route_tries,
                    ..b
                })
                &&& action == (if node.up {
                    BrowserAction::Find(place.node)
                } else if b.route_tries == 0 {
                    BrowserAction::SayWaiting
                } else {
                    BrowserAction::Nothing
                })
            }
        }),
{
}

/// A fetch that is over holds no node, no link and no wish, and leaves the page, the
/// pages to go back to and the place it was at as they are.
pub proof fn a_fetch_that_is_over_keeps_nothing(b: BrowserModel)
    ensures
        ({
            let t = fetch_over(b);
            &&& t.phase is Idle && t.node is None && t.link_id is None && t.requested is None
            &&& !t.receiving && !t.pending_push && !t.pending_pop && t.route_tries == 0
            &&& t.path == b.path && t.vars == b.vars && t.deadline == b.deadline
            &&& t.next_attempt == b.next_attempt && t.link_tries == b.link_tries
            &&& t.current == b.current && t.back == b.back && t.links == b.links
            &&& t.current_title == b.current_title && t.viewing == b.viewing
        }),
{
}

/// With time: a fetch whose deadline has passed is over, and the route to its node is
/// dropped where no link came of it; one that waits for its link asks its node again;
/// one that is wanted starts when its moment comes, and is wanted no more.
pub proof fn a_fetch_moves_with_time(
    b: BrowserModel,
    now: u64,
    node: NodeView,
    hops: Option<u8>,
)
    ensures
        ({
            let (t, action) = fetch_ticked(b, now, node, hops);
            if !(b.phase is Idle) && now > b.deadline {
                &&& t == fetch_over(b)
                &&& action == (BrowserAction::End {
                    end: PageEnd::TimedOut,
                    link: b.link_id,
                    expire: if b.phase is Linking {
                        b.node
                    } else {
                        None
                    },
                })
            } else if b.phase is Linking && b.node is Some {
                t == b && action == BrowserAction::Recontact(b.node->0)
            } else if b.phase is Idle && b.requested is Some && now >= b.next_attempt {
                (t, action) == fetch_started(
                    BrowserModel { requested: None, ..b },
                    b.requested->0,
                    now,
                    node,
                    hops,
                )
            } else {
                t == b && action is Nothing
            }
        }),
{
}

/// A link request that could not be written ends the fetch; the first one counts as
/// one, and each one that went out after it as one more, which is said.
pub proof fn link_requests_are_counted(b: BrowserModel, outcome: LinkReqOutcome, first: bool)
    requires
        b.link_tries < 255,
    ensures
        ({
            let (t, action) = node_contacted(b, outcome, first);
            match outcome {
                LinkReqOutcome::WriteFailed => {
                    &&& t == fetch_over(b)
                    &&& action == (BrowserAction::End {
                        end: PageEnd::WriteFailed,
                        link: b.link_id,
                        expire: None,
                    })
                },
                LinkReqOutcome::Sent => {
                    &&& t.link_tries == (if first {
                        1int
                    } else {
                        b.link_tries + 1
                    })
                    &&& t == (BrowserModel { link_tries: t.link_tries, ..b })
                    &&& action == (if first {
                        BrowserAction::Nothing
                    } else {
                        BrowserAction::SayTries(t.link_tries)
                    })
                },
                LinkReqOutcome::Pending => {
                    &&& t == (BrowserModel {
                        link_tries: if first {
                            1
                        } else {
                            b.link_tries
                        },
                        ..b
                    })
                    &&& action is Nothing
                },
            }
        }),
{
}

/// The variables of a page go with the request under their names behind `var_`, in
/// their order; a page without variables is asked for with nothing.
pub proof fn variables_go_with_the_request(vars: Seq<(Seq<char>, Seq<char>)>)
    ensures
        vars.len() == 0 ==> request_data(vars) is Nil,
        vars.len() > 0 ==> (request_data(vars) matches Model::StrMap(m) && {
            &&& m.len() == vars.len()
            &&& forall|k: int|
                0 <= k < vars.len() ==> (#[trigger] m[k]).0 == seq!['v', 'a', 'r', '_'] + vars[k].0
                    && m[k].1 == Model::Str(vars[k].1)
        }),
{
    reveal_strlit("var_");
    assert("var_"@ =~= seq!['v', 'a', 'r', '_']);
}

/// The page that came is the page of the place that was fetched, with its own links; it
/// is on the screen and the fetch is over. The page left is one to go back to where that
/// was asked for, the latest of them; the page gone back to is one no more. The oldest
/// of more than sixteen is dropped.
pub proof fn the_page_that_came_is_shown(b: BrowserModel, doc: PageModel)
    requires
        b.node is Some,
        !(b.pending_push && b.pending_pop),
        b.back.len() <= 16,
    ensures
        ({
            let t = page_shown(b, doc);
            &&& t.current == Some(Place { node: b.node->0, path: b.path, vars: b.vars })
            &&& t.links == doc.links
            &&& t.current_title == title_of(doc)
            &&& t.next_attempt == b.next_attempt && t.route_tries == b.route_tries
            &&& t.link_tries == b.link_tries
            &&& t.viewing
            &&& t.phase is Idle && t.node is None && !t.receiving
            &&& t.path.len() == 0 && t.vars.len() == 0
            &&& !t.pending_push && !t.pending_pop
            &&& t.link_id == b.link_id && t.deadline == b.deadline && t.requested == b.requested
            &&& !b.pending_push && !b.pending_pop ==> t.back == b.back
            &&& b.pending_pop && b.back.len() > 0 ==> t.back == b.back.drop_last()
            &&& b.pending_push && b.current is None ==> t.back == b.back
            &&& b.pending_push && b.current is Some && b.back.len() < 16 ==> t.back == b.back.push(
                b.current->0,
            )
            &&& b.pending_push && b.current is Some && b.back.len() == 16 ==> t.back
                == b.back.subrange(1, 16).push(b.current->0)
        }),
{
    let t = page_shown(b, doc);
    if b.pending_push && b.current is Some && b.back.len() == 16 {
        assert(b.back.push(b.current->0).skip(1) =~= b.back.subrange(1, 16).push(b.current->0));
    }
}

/// The newest page to go back to is the last.
pub proof fn the_page_left_is_the_next_to_go_back_to(back: Seq<Place>, p: Place)
    ensures
        pushed(back, p).last() == p,
        back.len() < 16 ==> pushed(back, p) == back.push(p),
        back.len() == 16 ==> pushed(back, p).len() == 16 && pushed(back, p)[0] == back[1],
{
}

/// An answer is a page where it is bytes or a text; a number is a refusal, and anything
/// else is not expected.
pub proof fn an_answer_is_a_page_or_a_refusal(m: Model)
    ensures
        refusal(m) is None <==> m is Bin || m is Str,
        m matches Model::Int(code) ==> refusal(m) == Some(
            if code == 0xf0 {
                PageEnd::NeedsIdentification
            } else if code == 0xf1 {
                PageEnd::DeniedAccess
            } else {
                PageEnd::NodeError
            },
        ),
        !(m is Bin || m is Str || m is Int) ==> refusal(m) == Some(PageEnd::Unexpected),
{
}

/// How a line is drawn: the first heading level large (3), the others and bold text bold
/// (1), fixed width as such (2) and the rest regular (0); left 0, centre 1, right 2;
/// text 0, a divider 1, and a link 2 with its number.
pub proof fn lines_are_drawn(d: u8, id: u16)
    ensures
        drawn_style(Style::Heading(d)) == (if d == 1 {
            3u8
        } else {
            1u8
        }),
        drawn_style(Style::Bold) == 1,
        drawn_style(Style::Mono) == 2,
        drawn_style(Style::Regular) == 0,
        drawn_align(Align::Left) == 0,
        drawn_align(Align::Center) == 1,
        drawn_align(Align::Right) == 2,
        drawn_kind(Kind::Text) == (0u8, 0u16),
        drawn_kind(Kind::Divider) == (1u8, 0u16),
        drawn_kind(Kind::Link(id)) == (2u8, id),
{
}

/// The title of a node's index names a saved node that had no name of its own: its
/// digits, or the first eight of them and an ellipsis. Another page, or a name that was
/// given, changes nothing. The name is the title without white space at its ends, cut to
/// 32 bytes.
pub proof fn a_title_names_a_nameless_node(
    saved: Map<Address, String>,
    node: Address,
    path: Seq<char>,
    title: Seq<char>,
)
    ensures
        is_placeholder(hex_text(node@), node),
        is_placeholder(hex_text(node@).take(8).push('\u{2026}'), node),
        forall|name: Seq<char>|
            name != hex_text(node@) && name != hex_text(node@).take(8).push('\u{2026}')
                ==> !#[trigger] is_placeholder(name, node),
        name_from_title(saved, node, path, None) is None,
        name_from_title(saved, node, path, Some(title)) == (if path == "/page/index.mu"@
            && trimmed(title).len() > 0 && saved.contains_key(node) && (saved[node]@ == hex_text(
            node@,
        ) || saved[node]@ == hex_text(node@).take(8).push('\u{2026}')) {
            Some(within(trimmed(title), 32))
        } else {
            None
        }),
{
    reveal_strlit("\u{2026}");
    assert(hex_text(node@).take(8) + "\u{2026}"@ =~= hex_text(node@).take(8).push('\u{2026}'));
}

} // verus!
