//! The keys and the menu.
use vstd::prelude::*;

use crate::chat_api::Event;
use crate::commands::{event_command, menu_label, menu_order, Command, MenuOp};

verus! {

/// What the keys do: while a page shows they turn its pages, go back, follow the link
/// under the cursor, open the menu and leave; else they lead to the next unread
/// thread, to the thread before, and to a sync.
pub proof fn the_keys_do(first: bool)
    ensures
        event_command(Some(Event::F1), true, first) == Command::BrowserMenu,
        event_command(Some(Event::F2), true, first) == (Command::BrowserPage { down: false }),
        event_command(Some(Event::F3), true, first) == (Command::BrowserPage { down: true }),
        event_command(Some(Event::F4), true, first) == Command::BrowserExit,
        event_command(Some(Event::Left), true, first) == Command::BrowserBack,
        event_command(Some(Event::Right), true, first) == Command::FollowLink,
        event_command(Some(Event::F1), false, first) == Command::JumpToUnread,
        event_command(Some(Event::F2), false, first) == Command::JumpBack,
        event_command(Some(Event::F3), false, first) == Command::SyncNow,
        event_command(Some(Event::F4), false, first) == Command::Nothing,
        event_command(Some(Event::Left), false, first) == Command::Nothing,
        event_command(Some(Event::Right), false, first) == Command::Nothing,
        forall|browsing: bool| #[trigger]
            event_command(Some(Event::Focus), browsing, first) == (Command::Focus {
                connect: first,
            }),
        forall|browsing: bool| #[trigger]
            event_command(None, browsing, first) == Command::Nothing,
{
}

/// The menu offers each operation once, under a label of its own.
pub proof fn the_menu_offers_each_operation_once(a: MenuOp, b: MenuOp)
    ensures
        menu_order().len() == 16,
        menu_order().contains(a),
        forall|i: int, j: int|
            0 <= i < j < 16 ==> (#[trigger] menu_order()[i]) != (#[trigger] menu_order()[j]),
        menu_label(a) == menu_label(b) ==> a == b,
        menu_order()[15] == MenuOp::Noop,
{
    let order = menu_order();
    assert(order[0] == MenuOp::Announces && order[1] == MenuOp::Contacts);
    assert(order[2] == MenuOp::RenameContact && order[3] == MenuOp::ImportContact);
    assert(order[4] == MenuOp::Connect && order[5] == MenuOp::LocalPeers);
    assert(order[6] == MenuOp::Announce && order[7] == MenuOp::MyAddress);
    assert(order[8] == MenuOp::SetName && order[9] == MenuOp::SetPeer);
    assert(order[10] == MenuOp::SetHub && order[11] == MenuOp::Sync);
    assert(order[12] == MenuOp::Browser && order[13] == MenuOp::SelectUrl);
    assert(order[14] == MenuOp::ClearHistory && order[15] == MenuOp::Noop);
    lemma_first_letters(a);
    lemma_first_letters(b);
}

/// The first character of each label and its length tell it from the others.
proof fn lemma_first_letters(op: MenuOp)
    ensures
        ({
            let s = menu_label(op);
            match op {
                MenuOp::Announces => s.len() == 9 && s[0] == 'A',
                MenuOp::Contacts => s.len() == 8 && s[0] == 'C',
                MenuOp::RenameContact => s.len() == 14 && s[0] == 'R',
                MenuOp::ImportContact => s.len() == 14 && s[0] == 'I',
                MenuOp::Connect => s.len() == 7 && s[0] == 'C',
                MenuOp::LocalPeers => s.len() == 11,
                MenuOp::Announce => s.len() == 8 && s[0] == 'A',
                MenuOp::MyAddress => s.len() == 10 && s[0] == 'M',
                MenuOp::SetName => s.len() == 7 && s[0] == 'M',
                MenuOp::SetPeer => s.len() == 8 && s[0] == 'S',
                MenuOp::SetHub => s.len() == 7 && s[0] == 'S',
                MenuOp::Sync => s.len() == 13 && s[0] == 'S',
                MenuOp::Browser => s.len() == 7 && s[0] == 'B',
                MenuOp::SelectUrl => s.len() == 10 && s[0] == 'S',
                MenuOp::ClearHistory => s.len() == 13 && s[0] == 'C',
                MenuOp::Noop => s.len() == 5,
            }
        }),
{
    reveal_strlit("Announces");
    reveal_strlit("Contacts");
    reveal_strlit("Rename contact");
    reveal_strlit("Import contact");
    reveal_strlit("Connect");
    reveal_strlit("Local peers");
    reveal_strlit("Announce");
    reveal_strlit("My address");
    reveal_strlit("My name");
    reveal_strlit("Set peer");
    reveal_strlit("Set hub");
    reveal_strlit("Sync messages");
    reveal_strlit("Browser");
    reveal_strlit("Select URL");
    reveal_strlit("Clear history");
    reveal_strlit("Close");
}

/// The other events do nothing by themselves.
pub proof fn other_events_do_nothing(e: Event, browsing: bool, first: bool)
    requires
        e is Up || e is Down || e is Top || e is Bottom || e is Key || e is Post || e is Menu,
    ensures
        event_command(Some(e), browsing, first) == Command::Nothing,
{
}

} // verus!
