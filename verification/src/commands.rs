//! What the application does for each message that its main loop takes.
use vstd::prelude::*;

use crate::chat_api::Event;

verus! {

/// The name of the application's server.
pub const SERVER_NAME_LXMFCHAT: &'static str = "_LXMF chat_";

/// What the application's server takes.
#[derive(Debug, Clone, Copy, PartialEq, Eq, Structural)]
pub enum LxmfchatOp {
    /// Something happened in the chat view.
    Event,
    /// A menu item was chosen.
    Menu,
    /// The user wrote a message.
    Post,
    /// A key was pressed.
    Rawkeys,
    /// Leave.
    Quit,
}

impl LxmfchatOp {
    /// The number by which it is sent.
    pub open spec fn number_spec(&self) -> usize {
        match self {
            LxmfchatOp::Event => 0,
            LxmfchatOp::Menu => 1,
            LxmfchatOp::Post => 2,
            LxmfchatOp::Rawkeys => 3,
            LxmfchatOp::Quit => 4,
        }
    }

    /// The number by which it is sent.
    pub fn number(&self) -> (r: usize)
        ensures
            r == self.number_spec(),
            r < 5,
    {
        match self {
            LxmfchatOp::Event => 0,
            LxmfchatOp::Menu => 1,
            LxmfchatOp::Post => 2,
            LxmfchatOp::Rawkeys => 3,
            LxmfchatOp::Quit => 4,
        }
    }

    /// What is sent by the number `n`.
    pub fn from_number(n: usize) -> (r: Option<LxmfchatOp>)
        ensures
            match r {
                Some(v) => v.number_spec() == n,
                None => n >= 5,
            },
    {
        if n == 0 {
            Some(LxmfchatOp::Event)
        } else if n == 1 {
            Some(LxmfchatOp::Menu)
        } else if n == 2 {
            Some(LxmfchatOp::Post)
        } else if n == 3 {
            Some(LxmfchatOp::Rawkeys)
        } else if n == 4 {
            Some(LxmfchatOp::Quit)
        } else {
            None
        }
    }
}

/// The items of the menu.
#[derive(Debug, Clone, Copy, PartialEq, Eq, Structural)]
pub enum MenuOp {
    /// Pick a peer from the announces that were heard.
    Announces,
    /// Pick a peer from the contacts.
    Contacts,
    /// Connect to the hub, anew if need be.
    Connect,
    /// Announce ourselves.
    Announce,
    /// Show our address.
    MyAddress,
    /// Type a peer's address.
    SetPeer,
    /// Type the hub's address.
    SetHub,
    /// Wipe the open thread; the contact, its key and its ticket stay.
    ClearHistory,
    /// Close the menu.
    Noop,
    /// Rename a contact.
    RenameContact,
    /// Make a contact of an address that came in a message.
    ImportContact,
    /// Turn local peers on or off.
    LocalPeers,
    /// Type our name.
    SetName,
    /// Fetch messages from the propagation node.
    Sync,
    /// Read pages.
    Browser,
    /// Type a page's address.
    SelectUrl,
}

impl MenuOp {
    /// The number by which it is sent.
    pub open spec fn number_spec(&self) -> usize {
        match self {
            MenuOp::Announces => 0,
            MenuOp::Contacts => 1,
            MenuOp::Connect => 2,
            MenuOp::Announce => 3,
            MenuOp::MyAddress => 4,
            MenuOp::SetPeer => 5,
            MenuOp::SetHub => 6,
            MenuOp::ClearHistory => 7,
            MenuOp::Noop => 8,
            MenuOp::RenameContact => 9,
            MenuOp::ImportContact => 10,
            MenuOp::LocalPeers => 11,
            MenuOp::SetName => 12,
            MenuOp::Sync => 13,
            MenuOp::Browser => 14,
            MenuOp::SelectUrl => 15,
        }
    }

    /// The number by which it is sent.
    pub fn number(&self) -> (r: usize)
        ensures
            r == self.number_spec(),
            r < 16,
    {
        match self {
            MenuOp::Announces => 0,
            MenuOp::Contacts => 1,
            MenuOp::Connect => 2,
            MenuOp::Announce => 3,
            MenuOp::MyAddress => 4,
            MenuOp::SetPeer => 5,
            MenuOp::SetHub => 6,
            MenuOp::ClearHistory => 7,
            MenuOp::Noop => 8,
            MenuOp::RenameContact => 9,
            MenuOp::ImportContact => 10,
            MenuOp::LocalPeers => 11,
            MenuOp::SetName => 12,
            MenuOp::Sync => 13,
            MenuOp::Browser => 14,
            MenuOp::SelectUrl => 15,
        }
    }

    /// What is sent by the number `n`.
    pub fn from_number(n: usize) -> (r: Option<MenuOp>)
        ensures
            match r {
                Some(v) => v.number_spec() == n,
                None => n >= 16,
            },
    {
        if n == 0 {
            Some(MenuOp::Announces)
        } else if n == 1 {
            Some(MenuOp::Contacts)
        } else if n == 2 {
            Some(MenuOp::Connect)
        } else if n == 3 {
            Some(MenuOp::Announce)
        } else if n == 4 {
            Some(MenuOp::MyAddress)
        } else if n == 5 {
            Some(MenuOp::SetPeer)
        } else if n == 6 {
            Some(MenuOp::SetHub)
        } else if n == 7 {
            Some(MenuOp::ClearHistory)
        } else if n == 8 {
            Some(MenuOp::Noop)
        } else if n == 9 {
            Some(MenuOp::RenameContact)
        } else if n == 10 {
            Some(MenuOp::ImportContact)
        } else if n == 11 {
            Some(MenuOp::LocalPeers)
        } else if n == 12 {
            Some(MenuOp::SetName)
        } else if n == 13 {
            Some(MenuOp::Sync)
        } else if n == 14 {
            Some(MenuOp::Browser)
        } else if n == 15 {
            Some(MenuOp::SelectUrl)
        } else {
            None
        }
    }
}

/// What the application does.
#[derive(Debug, Clone, Copy, PartialEq, Eq, Structural)]
pub enum Command {
    /// Connect, if this is the first time, and redraw.
    Focus { connect: bool },
    BrowserMenu,
    JumpToUnread,
    /// Scroll a page, up or down.
    BrowserPage { down: bool },
    JumpBack,
    SyncNow,
    BrowserExit,
    BrowserBack,
    FollowLink,
    Menu(MenuOp),
    /// Send what the user wrote.
    Send,
    Quit,
    Nothing,
    /// The operation is unknown; say so in the log.
    Unknown,
}

/// What a key or another event does. While a page is on the screen the keys belong to
/// the browser; the fourth key is without use otherwise.
pub open spec fn event_command(e: Option<Event>, browsing: bool, first_focus: bool) -> Command {
    match e {
        Some(Event::Focus) => Command::Focus { connect: first_focus },
        Some(Event::F1) => if browsing {
            Command::BrowserMenu
        } else {
            Command::JumpToUnread
        },
        Some(Event::F2) => if browsing {
            Command::BrowserPage { down: false }
        } else {
            Command::JumpBack
        },
        Some(Event::F3) => if browsing {
            Command::BrowserPage { down: true }
        } else {
            Command::SyncNow
        },
        Some(Event::F4) => if browsing {
            Command::BrowserExit
        } else {
            Command::Nothing
        },
        Some(Event::Left) => if browsing {
            Command::BrowserBack
        } else {
            Command::Nothing
        },
        Some(Event::Right) => if browsing {
            Command::FollowLink
        } else {
            Command::Nothing
        },
        _ => Command::Nothing,
    }
}

/// The event with a number.
pub open spec fn event_numbered(n: usize) -> Option<Event> {
    if exists|e: Event| e.number_spec() == n {
        Some(choose|e: Event| e.number_spec() == n)
    } else {
        None
    }
}

/// The main loop, between two messages.
pub struct MainLoop {
    /// The application was not on the screen yet.
    pub first_focus: bool,
}

impl MainLoop {
    pub fn new() -> (r: MainLoop)
        ensures
            r.first_focus,
    {
        MainLoop { first_focus: true }
    }

    /// Takes a message: the operation, its argument, and for a message of the user
    /// whether there is anything in it.
    pub fn take(&mut self, op: usize, arg: usize, empty: bool, browsing: bool) -> (r: Command)
        ensures
            match r {
                Command::Unknown => op >= 5,
                Command::Quit => op == LxmfchatOp::Quit.number_spec(),
                Command::Send => op == LxmfchatOp::Post.number_spec() && !empty,
                Command::Menu(m) => op == LxmfchatOp::Menu.number_spec() && m.number_spec() == arg
                    && m != MenuOp::Noop,
                Command::Nothing => {
                    ||| op == LxmfchatOp::Rawkeys.number_spec()
                    ||| op == LxmfchatOp::Post.number_spec() && empty
                    ||| op == LxmfchatOp::Menu.number_spec() && (arg
                        == MenuOp::Noop.number_spec() || arg >= 16)
                    ||| op == LxmfchatOp::Event.number_spec() && event_command(
                        event_numbered(arg),
                        browsing,
                        old(self).first_focus,
                    ) == Command::Nothing
                },
                c => op == LxmfchatOp::Event.number_spec() && c == event_command(
                    event_numbered(arg),
                    browsing,
                    old(self).first_focus,
                ),
            },
            final(self).first_focus == (old(self).first_focus && !(r is Focus)),
    {
        match LxmfchatOp::from_number(op) {
            Some(LxmfchatOp::Event) => {
                let e = Event::from_number(arg);
                proof {
                    lemma_event_numbered(arg, e);
                }
                match e {
                    Some(Event::Focus) => {
                        let connect = self.first_focus;
                        self.first_focus = false;
                        Command::Focus { connect }
                    },
                    Some(Event::F1) => if browsing {
                        Command::BrowserMenu
                    } else {
                        Command::JumpToUnread
                    },
                    Some(Event::F2) => if browsing {
                        Command::BrowserPage { down: false }
                    } else {
                        Command::JumpBack
                    },
                    Some(Event::F3) => if browsing {
                        Command::BrowserPage { down: true }
                    } else {
                        Command::SyncNow
                    },
                    Some(Event::F4) => if browsing {
                        Command::BrowserExit
                    } else {
                        Command::Nothing
                    },
                    Some(Event::Left) => if browsing {
                        Command::BrowserBack
                    } else {
                        Command::Nothing
                    },
                    Some(Event::Right) => if browsing {
                        Command::FollowLink
                    } else {
                        Command::Nothing
                    },
                    _ => Command::Nothing,
                }
            },
            Some(LxmfchatOp::Menu) => match MenuOp::from_number(arg) {
                Some(MenuOp::Noop) => Command::Nothing,
                Some(m) => Command::Menu(m),
                None => Command::Nothing,
            },
            Some(LxmfchatOp::Post) => if empty {
                Command::Nothing
            } else {
                Command::Send
            },
            Some(LxmfchatOp::Rawkeys) => Command::Nothing,
            Some(LxmfchatOp::Quit) => Command::Quit,
            None => Command::Unknown,
        }
    }
}

proof fn lemma_event_numbered(n: usize, e: Option<Event>)
    requires
        match e {
            Some(v) => v.number_spec() == n,
            None => n >= 14,
        },
    ensures
        event_numbered(n) == e,
{
    match e {
        Some(v) => {
            let c = choose|c: Event| c.number_spec() == n;
            assert(v.number_spec() == n);
            assert(c.number_spec() == n);
            assert(c == v);
        },
        None => {},
    }
}

/// The items of the menu, in order.
pub open spec fn menu_order() -> Seq<MenuOp> {
    seq![
        MenuOp::Announces,
        MenuOp::Contacts,
        MenuOp::RenameContact,
        MenuOp::ImportContact,
        MenuOp::Connect,
        MenuOp::LocalPeers,
        MenuOp::Announce,
        MenuOp::MyAddress,
        MenuOp::SetName,
        MenuOp::SetPeer,
        MenuOp::SetHub,
        MenuOp::Sync,
        MenuOp::Browser,
        MenuOp::SelectUrl,
        MenuOp::ClearHistory,
        MenuOp::Noop,
    ]
}

/// The label of an item.
pub open spec fn menu_label(op: MenuOp) -> Seq<char> {
    match op {
        MenuOp::Announces => "Announces"@,
        MenuOp::Contacts => "Contacts"@,
        MenuOp::RenameContact => "Rename contact"@,
        MenuOp::ImportContact => "Import contact"@,
        MenuOp::Connect => "Connect"@,
        MenuOp::LocalPeers => "Local peers"@,
        MenuOp::Announce => "Announce"@,
        MenuOp::MyAddress => "My address"@,
        MenuOp::SetName => "My name"@,
        MenuOp::SetPeer => "Set peer"@,
        MenuOp::SetHub => "Set hub"@,
        MenuOp::Sync => "Sync messages"@,
        MenuOp::Browser => "Browser"@,
        MenuOp::SelectUrl => "Select URL"@,
        MenuOp::ClearHistory => "Clear history"@,
        MenuOp::Noop => "Close"@,
    }
}

/// The items of the menu with their labels, in order.
pub fn menu_items() -> (r: Vec<(&'static str, MenuOp)>)
    ensures
        r@.len() == menu_order().len(),
        forall|i: int|
            0 <= i < r@.len() ==> (#[trigger] r@[i]).1 == menu_order()[i] && r@[i].0@ == menu_label(
                menu_order()[i],
            ),
{
    let mut v: Vec<(&'static str, MenuOp)> = Vec::new();
    v.push(("Announces", MenuOp::Announces));
    v.push(("Contacts", MenuOp::Contacts));
    v.push(("Rename contact", MenuOp::RenameContact));
    v.push(("Import contact", MenuOp::ImportContact));
    v.push(("Connect", MenuOp::Connect));
    v.push(("Local peers", MenuOp::LocalPeers));
    v.push(("Announce", MenuOp::Announce));
    v.push(("My address", MenuOp::MyAddress));
    v.push(("My name", MenuOp::SetName));
    v.push(("Set peer", MenuOp::SetPeer));
    v.push(("Set hub", MenuOp::SetHub));
    v.push(("Sync messages", MenuOp::Sync));
    v.push(("Browser", MenuOp::Browser));
    v.push(("Select URL", MenuOp::SelectUrl));
    v.push(("Clear history", MenuOp::ClearHistory));
    v.push(("Close", MenuOp::Noop));
    v
}

// ---------------------------------------------------------------------------
// The labels of the keys, and who may ask for them
// ---------------------------------------------------------------------------

/// The four key labels, and the token of whoever has them at present.
pub struct Icontray {
    pub slots: Vec<String>,
    pub token: Option<[u32; 4]>,
}

/// What came of asking for the labels.
#[derive(Debug, Clone, Copy, PartialEq, Eq)]
pub enum Acquired {
    /// They are had with this token.
    Token([u32; 4]),
    /// Somebody else has them.
    Refused,
}

impl Icontray {
    /// There are four labels.
    pub open spec fn wf(&self) -> bool {
        self.slots@.len() == 4
    }

    pub fn new(icons: [&str; 4]) -> (r: Icontray)
        ensures
            r.wf(),
            r.token is None,
            r.slots@[0]@ == icons@[0]@,
            r.slots@[1]@ == icons@[1]@,
            r.slots@[2]@ == icons@[2]@,
            r.slots@[3]@ == icons@[3]@,
    {
        let mut slots: Vec<String> = Vec::new();
        slots.push(String::from_str(icons[0]));
        slots.push(String::from_str(icons[1]));
        slots.push(String::from_str(icons[2]));
        slots.push(String::from_str(icons[3]));
        Icontray { slots, token: None }
    }

    /// Labels a key; there is none beyond the fourth.
    pub fn set_slot(&mut self, index: usize, label: &str)
        requires
            old(self).wf(),
        ensures
            final(self).wf(),
            final(self).token == old(self).token,
            index >= 4 ==> final(self).slots == old(self).slots,
            index < 4 ==> final(self).slots@[index as int]@ == label@ && forall|i: int|
                0 <= i < 4 && i != index ==> final(self).slots@[i] == old(self).slots@[i],
    {
        if index < self.slots.len() {
            self.slots.set(index, String::from_str(label));
        }
    }

    /// Asks for the labels, with a token of one's own or with `fresh`.
    pub fn acquire(&mut self, own: Option<[u32; 4]>, fresh: [u32; 4]) -> (r: Acquired)
        ensures
            final(self).slots == old(self).slots,
            match old(self).token {
                Some(_) => r == Acquired::Refused && final(self).token == old(self).token,
                None => {
                    let t = match own {
                        Some(t) => t,
                        None => fresh,
                    };
                    r == Acquired::Token(t) && final(self).token == Some(t)
                },
            },
    {
        if self.token.is_some() {
            return Acquired::Refused;
        }
        let t = match own {
            Some(t) => t,
            None => fresh,
        };
        self.token = Some(t);
        Acquired::Token(t)
    }

    /// Gives the labels back; only with the token with which they are had.
    pub fn release(&mut self, token: [u32; 4]) -> (r: bool)
        ensures
            final(self).slots == old(self).slots,
            r == (old(self).token == Some(token)),
            final(self).token == (if r {
                None
            } else {
                old(self).token
            }),
    {
        let ours = match self.token {
            Some(t) => {
                let same = t[0] == token[0] && t[1] == token[1] && t[2] == token[2] && t[3]
                    == token[3];
                assert(same ==> t =~= token);
                same
            },
            None => false,
        };
        if ours {
            self.token = None;
        }
        ours
    }

    /// The label of a key; nothing beyond the fourth. An empty label counts.
    pub fn prediction(&self, index: u32) -> (r: Option<String>)
        requires
            self.wf(),
        ensures
            match r {
                Some(l) => index < 4 && l@ == self.slots@[index as int]@,
                None => index >= 4,
            },
    {
        if index < 4 {
            Some(self.slots[index as usize].clone())
        } else {
            None
        }
    }
}

} // verus!
