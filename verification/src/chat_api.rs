//! What the chat view is told and what it tells: operations, events, posts and
//! documents.
use vstd::prelude::*;

verus! {

/// The function keys.
pub const F1: char = '\u{11}';

pub const F2: char = '\u{12}';

pub const F3: char = '\u{13}';

pub const F4: char = '\u{14}';

/// Selects the post after the selected one.
pub const POST_SELECTED_NEXT: usize = usize::MAX;

/// Selects the post before the selected one.
pub const POST_SELECTED_PREV: usize = usize::MAX - 1;

/// The longest text of a post, in bytes.
pub const POST_TEXT_MAX: usize = 3072;

/// What the chat view is asked to do.
#[derive(Debug, Clone, Copy, PartialEq, Eq, Structural)]
pub enum ChatOp {
    /// Save the dialogue.
    DialogueSave,
    /// Set the dialogue to display.
    DialogueSet,
    /// Focus came or went.
    GamChangeFocus,
    /// A line of text has arrived.
    GamLine,
    /// Raw keys have arrived.
    GamRawkeys,
    /// Redraw.
    GamRedraw,
    /// Show help.
    Help,
    /// Add an item to the application's menu.
    MenuAdd,
    /// Add a post to the dialogue.
    PostAdd,
    /// Delete a post from the dialogue.
    PostDel,
    /// Find a post by author and time.
    PostFind,
    /// Replace the text of the post with an author and a time, in one go.
    PostUpdate,
    PostFlag,
    /// Set the status line.
    SetStatusText,
    /// Run or stop the busy animation.
    SetBusyAnimationState,
    /// Set the status line that is shown when nothing is going on.
    SetStatusIdleText,
    /// Label one of the four function keys.
    IcontraySet,
    /// Move the busy animation on, unless that was done just now.
    UpdateBusy,
    /// Move the busy animation on.
    UpdateBusyForced,
    /// Leave.
    Quit,
    /// Begin a document with its title; what is shown stays as it is.
    DocumentBegin,
    /// Add lines to the document that was begun.
    DocumentLines,
    /// Show the document that was begun.
    DocumentShow,
    /// Leave the document for the dialogue.
    DocumentClear,
    /// Ask for the link under the cursor: its number and one, or zero.
    DocumentGetSelected,
    /// Scroll a screenful: zero is up, one is down.
    DocumentPage,
}

impl ChatOp {
    /// The number by which the operation or value is sent.
    pub open spec fn number_spec(&self) -> usize {
        match self {
            ChatOp::DialogueSave => 0,
            ChatOp::DialogueSet => 1,
            ChatOp::GamChangeFocus => 2,
            ChatOp::GamLine => 3,
            ChatOp::GamRawkeys => 4,
            ChatOp::GamRedraw => 5,
            ChatOp::Help => 6,
            ChatOp::MenuAdd => 7,
            ChatOp::PostAdd => 8,
            ChatOp::PostDel => 9,
            ChatOp::PostFind => 10,
            ChatOp::PostUpdate => 11,
            ChatOp::PostFlag => 12,
            ChatOp::SetStatusText => 13,
            ChatOp::SetBusyAnimationState => 14,
            ChatOp::SetStatusIdleText => 15,
            ChatOp::IcontraySet => 16,
            ChatOp::UpdateBusy => 17,
            ChatOp::UpdateBusyForced => 18,
            ChatOp::Quit => 19,
            ChatOp::DocumentBegin => 20,
            ChatOp::DocumentLines => 21,
            ChatOp::DocumentShow => 22,
            ChatOp::DocumentClear => 23,
            ChatOp::DocumentGetSelected => 24,
            ChatOp::DocumentPage => 25,
        }
    }

    /// The number by which the operation or value is sent.
    pub fn number(&self) -> (r: usize)
        ensures
            r == self.number_spec(),
            r < 26,
    {
        match self {
            ChatOp::DialogueSave => 0,
            ChatOp::DialogueSet => 1,
            ChatOp::GamChangeFocus => 2,
            ChatOp::GamLine => 3,
            ChatOp::GamRawkeys => 4,
            ChatOp::GamRedraw => 5,
            ChatOp::Help => 6,
            ChatOp::MenuAdd => 7,
            ChatOp::PostAdd => 8,
            ChatOp::PostDel => 9,
            ChatOp::PostFind => 10,
            ChatOp::PostUpdate => 11,
            ChatOp::PostFlag => 12,
            ChatOp::SetStatusText => 13,
            ChatOp::SetBusyAnimationState => 14,
            ChatOp::SetStatusIdleText => 15,
            ChatOp::IcontraySet => 16,
            ChatOp::UpdateBusy => 17,
            ChatOp::UpdateBusyForced => 18,
            ChatOp::Quit => 19,
            ChatOp::DocumentBegin => 20,
            ChatOp::DocumentLines => 21,
            ChatOp::DocumentShow => 22,
            ChatOp::DocumentClear => 23,
            ChatOp::DocumentGetSelected => 24,
            ChatOp::DocumentPage => 25,
        }
    }

    /// What is sent by the number `n`.
    pub fn from_number(n: usize) -> (r: Option<ChatOp>)
        ensures
            match r {
                Some(v) => v.number_spec() == n,
                None => n >= 26,
            },
    {
        if n == 0 {
            Some(ChatOp::DialogueSave)
        } else if n == 1 {
            Some(ChatOp::DialogueSet)
        } else if n == 2 {
            Some(ChatOp::GamChangeFocus)
        } else if n == 3 {
            Some(ChatOp::GamLine)
        } else if n == 4 {
            Some(ChatOp::GamRawkeys)
        } else if n == 5 {
            Some(ChatOp::GamRedraw)
        } else if n == 6 {
            Some(ChatOp::Help)
        } else if n == 7 {
            Some(ChatOp::MenuAdd)
        } else if n == 8 {
            Some(ChatOp::PostAdd)
        } else if n == 9 {
            Some(ChatOp::PostDel)
        } else if n == 10 {
            Some(ChatOp::PostFind)
        } else if n == 11 {
            Some(ChatOp::PostUpdate)
        } else if n == 12 {
            Some(ChatOp::PostFlag)
        } else if n == 13 {
            Some(ChatOp::SetStatusText)
        } else if n == 14 {
            Some(ChatOp::SetBusyAnimationState)
        } else if n == 15 {
            Some(ChatOp::SetStatusIdleText)
        } else if n == 16 {
            Some(ChatOp::IcontraySet)
        } else if n == 17 {
            Some(ChatOp::UpdateBusy)
        } else if n == 18 {
            Some(ChatOp::UpdateBusyForced)
        } else if n == 19 {
            Some(ChatOp::Quit)
        } else if n == 20 {
            Some(ChatOp::DocumentBegin)
        } else if n == 21 {
            Some(ChatOp::DocumentLines)
        } else if n == 22 {
            Some(ChatOp::DocumentShow)
        } else if n == 23 {
            Some(ChatOp::DocumentClear)
        } else if n == 24 {
            Some(ChatOp::DocumentGetSelected)
        } else if n == 25 {
            Some(ChatOp::DocumentPage)
        } else {
            None
        }
    }
}

/// What the busy animation is asked to do.
#[derive(Debug, Clone, Copy, PartialEq, Eq, Structural)]
pub enum BusyAnimOp {
    Start,
    Pump,
}

impl BusyAnimOp {
    /// The number by which the operation or value is sent.
    pub open spec fn number_spec(&self) -> usize {
        match self {
            BusyAnimOp::Start => 0,
            BusyAnimOp::Pump => 1,
        }
    }

    /// The number by which the operation or value is sent.
    pub fn number(&self) -> (r: usize)
        ensures
            r == self.number_spec(),
            r < 2,
    {
        match self {
            BusyAnimOp::Start => 0,
            BusyAnimOp::Pump => 1,
        }
    }

    /// What is sent by the number `n`.
    pub fn from_number(n: usize) -> (r: Option<BusyAnimOp>)
        ensures
            match r {
                Some(v) => v.number_spec() == n,
                None => n >= 2,
            },
    {
        if n == 0 {
            Some(BusyAnimOp::Start)
        } else if n == 1 {
            Some(BusyAnimOp::Pump)
        } else {
            None
        }
    }
}

/// What the icon tray is asked to do.
#[derive(Debug, Clone, Copy, PartialEq, Eq, Structural)]
pub enum IconOp {
    PostMenu,
    F2Op,
    F3Op,
    AppMenu,
}

impl IconOp {
    /// The number by which the operation or value is sent.
    pub open spec fn number_spec(&self) -> usize {
        match self {
            IconOp::PostMenu => 0,
            IconOp::F2Op => 1,
            IconOp::F3Op => 2,
            IconOp::AppMenu => 3,
        }
    }

    /// The number by which the operation or value is sent.
    pub fn number(&self) -> (r: usize)
        ensures
            r == self.number_spec(),
            r < 4,
    {
        match self {
            IconOp::PostMenu => 0,
            IconOp::F2Op => 1,
            IconOp::F3Op => 2,
            IconOp::AppMenu => 3,
        }
    }

    /// What is sent by the number `n`.
    pub fn from_number(n: usize) -> (r: Option<IconOp>)
        ensures
            match r {
                Some(v) => v.number_spec() == n,
                None => n >= 4,
            },
    {
        if n == 0 {
            Some(IconOp::PostMenu)
        } else if n == 1 {
            Some(IconOp::F2Op)
        } else if n == 2 {
            Some(IconOp::F3Op)
        } else if n == 3 {
            Some(IconOp::AppMenu)
        } else {
            None
        }
    }
}

/// What happens in the chat view.
#[derive(Debug, Clone, Copy, PartialEq, Eq, Structural)]
pub enum Event {
    Focus,
    F1,
    F2,
    F3,
    F4,
    Up,
    Down,
    Left,
    Right,
    /// The top of the posts was reached.
    Top,
    /// The bottom of the posts was reached.
    Bottom,
    Key,
    /// The user wrote a post.
    Post,
    /// A menu item was chosen.
    Menu,
}

impl Event {
    /// The number by which the operation or value is sent.
    pub open spec fn number_spec(&self) -> usize {
        match self {
            Event::Focus => 0,
            Event::F1 => 1,
            Event::F2 => 2,
            Event::F3 => 3,
            Event::F4 => 4,
            Event::Up => 5,
            Event::Down => 6,
            Event::Left => 7,
            Event::Right => 8,
            Event::Top => 9,
            Event::Bottom => 10,
            Event::Key => 11,
            Event::Post => 12,
            Event::Menu => 13,
        }
    }

    /// The number by which the operation or value is sent.
    pub fn number(&self) -> (r: usize)
        ensures
            r == self.number_spec(),
            r < 14,
    {
        match self {
            Event::Focus => 0,
            Event::F1 => 1,
            Event::F2 => 2,
            Event::F3 => 3,
            Event::F4 => 4,
            Event::Up => 5,
            Event::Down => 6,
            Event::Left => 7,
            Event::Right => 8,
            Event::Top => 9,
            Event::Bottom => 10,
            Event::Key => 11,
            Event::Post => 12,
            Event::Menu => 13,
        }
    }

    /// What is sent by the number `n`.
    pub fn from_number(n: usize) -> (r: Option<Event>)
        ensures
            match r {
                Some(v) => v.number_spec() == n,
                None => n >= 14,
            },
    {
        if n == 0 {
            Some(Event::Focus)
        } else if n == 1 {
            Some(Event::F1)
        } else if n == 2 {
            Some(Event::F2)
        } else if n == 3 {
            Some(Event::F3)
        } else if n == 4 {
            Some(Event::F4)
        } else if n == 5 {
            Some(Event::Up)
        } else if n == 6 {
            Some(Event::Down)
        } else if n == 7 {
            Some(Event::Left)
        } else if n == 8 {
            Some(Event::Right)
        } else if n == 9 {
            Some(Event::Top)
        } else if n == 10 {
            Some(Event::Bottom)
        } else if n == 11 {
            Some(Event::Key)
        } else if n == 12 {
            Some(Event::Post)
        } else if n == 13 {
            Some(Event::Menu)
        } else {
            None
        }
    }
}

/// What a post can be marked as.
#[derive(Debug, Clone, Copy, PartialEq, Eq, Structural)]
pub enum PostFlag {
    Deleted,
    Draft,
    Hidden,
}

impl PostFlag {
    /// The number by which the operation or value is sent.
    pub open spec fn number_spec(&self) -> usize {
        match self {
            PostFlag::Deleted => 0,
            PostFlag::Draft => 1,
            PostFlag::Hidden => 2,
        }
    }

    /// The number by which the operation or value is sent.
    pub fn number(&self) -> (r: usize)
        ensures
            r == self.number_spec(),
            r < 3,
    {
        match self {
            PostFlag::Deleted => 0,
            PostFlag::Draft => 1,
            PostFlag::Hidden => 2,
        }
    }

    /// What is sent by the number `n`.
    pub fn from_number(n: usize) -> (r: Option<PostFlag>)
        ensures
            match r {
                Some(v) => v.number_spec() == n,
                None => n >= 3,
            },
    {
        if n == 0 {
            Some(PostFlag::Deleted)
        } else if n == 1 {
            Some(PostFlag::Draft)
        } else if n == 2 {
            Some(PostFlag::Hidden)
        } else {
            None
        }
    }
}

/// How an author's posts can be shown.
#[derive(Debug, Clone, Copy, PartialEq, Eq, Structural)]
pub enum AuthorFlag {
    Bold,
    Hidden,
    Right,
}

impl AuthorFlag {
    /// The number by which the operation or value is sent.
    pub open spec fn number_spec(&self) -> usize {
        match self {
            AuthorFlag::Bold => 0,
            AuthorFlag::Hidden => 1,
            AuthorFlag::Right => 2,
        }
    }

    /// The number by which the operation or value is sent.
    pub fn number(&self) -> (r: usize)
        ensures
            r == self.number_spec(),
            r < 3,
    {
        match self {
            AuthorFlag::Bold => 0,
            AuthorFlag::Hidden => 1,
            AuthorFlag::Right => 2,
        }
    }

    /// What is sent by the number `n`.
    pub fn from_number(n: usize) -> (r: Option<AuthorFlag>)
        ensures
            match r {
                Some(v) => v.number_spec() == n,
                None => n >= 3,
            },
    {
        if n == 0 {
            Some(AuthorFlag::Bold)
        } else if n == 1 {
            Some(AuthorFlag::Hidden)
        } else if n == 2 {
            Some(AuthorFlag::Right)
        } else {
            None
        }
    }
}

/// The question where a post stands.
#[derive(Debug)]
pub struct Find {
    pub author: String,
    pub timestamp: u64,
    /// The post's place, where it was found.
    pub key: Option<usize>,
}

/// The wish to replace the text of a post, and whether there was one.
#[derive(Debug)]
pub struct PostUpdate {
    pub author: String,
    pub timestamp: u64,
    pub text: String,
    pub found: bool,
}

/// The wish to label a function key.
#[derive(Debug)]
pub struct IcontraySet {
    pub index: u32,
    pub label: String,
}

/// Where a dialogue is stored.
#[derive(Debug)]
pub struct Dialogue {
    pub dict: String,
    pub key: Option<String>,
}

/// A post to be added.
#[derive(Debug)]
pub struct Post {
    pub dialogue_id: String,
    pub author: String,
    pub timestamp: u64,
    pub text: String,
    pub attach_url: Option<String>,
}

/// A status line.
#[derive(Debug)]
pub struct BusyMessage {
    pub busy_msg: String,
}

// A line of a document has one style.
pub const DOC_STYLE_REGULAR: u8 = 0;

pub const DOC_STYLE_BOLD: u8 = 1;

pub const DOC_STYLE_MONO: u8 = 2;

pub const DOC_STYLE_LARGE: u8 = 3;

pub const DOC_ALIGN_LEFT: u8 = 0;

pub const DOC_ALIGN_CENTER: u8 = 1;

pub const DOC_ALIGN_RIGHT: u8 = 2;

pub const DOC_KIND_TEXT: u8 = 0;

pub const DOC_KIND_DIVIDER: u8 = 1;

/// A link line; `link_id` says which link.
pub const DOC_KIND_LINK: u8 = 2;

/// One line of a document.
#[derive(Debug)]
pub struct DocLine {
    pub text: String,
    pub style: u8,
    pub align: u8,
    pub kind: u8,
    pub link_id: u16,
}

impl Clone for DocLine {
    fn clone(&self) -> (r: DocLine)
        ensures
            r == *self,
    {
        DocLine {
            text: self.text.clone(),
            style: self.style,
            align: self.align,
            kind: self.kind,
            link_id: self.link_id,
        }
    }
}

/// The title of a document that begins.
#[derive(Debug)]
pub struct DocMeta {
    pub title: String,
}

/// Lines to be added to a document.
#[derive(Debug)]
pub struct DocLines {
    pub lines: Vec<DocLine>,
}

} // verus!
