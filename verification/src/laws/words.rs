//! What is said to the user, and the numbers of the operations between the parts.
use vstd::prelude::*;

use crate::browser::{page_end_words, PageEnd};
use crate::chat_api::{AuthorFlag, BusyAnimOp, ChatOp, Event, IconOp, PostFlag};
use crate::commands::{event_numbered, LxmfchatOp, MenuOp};
use crate::connection::{care_words, Care};
use crate::inbox::ticket_words;
use crate::msgpack::{fault_text, Fault};
use crate::outbox::{delivery_words, failure_words, notice_words, reason_words, Notice, Reason};
use crate::sync::{end_words, SyncEnd};
use crate::text::decimal_text;

verus! {

/// What is said of a message on its way: whom it is about, and where it stands. From the
/// second attempt on the number of attempts is said, of five.
pub proof fn progress_is_said(label: Seq<char>, attempt: u8)
    ensures
        notice_words(Notice::Silent, label).len() == 0,
        notice_words(Notice::DirectTimedOut, label) == label
            + ": direct delivery timed out \u{2014} trying propagation node\u{2026}"@,
        notice_words(Notice::NoConfirmation, label) == label
            + ": no confirmation \u{2014} trying propagation node\u{2026}"@,
        notice_words(Notice::NoRoute, label) == label
            + ": no route \u{2014} trying propagation node\u{2026}"@,
        notice_words(Notice::LinkFailed, label) == label
            + ": link won't establish \u{2014} trying propagation node\u{2026}"@,
        notice_words(Notice::RetryingNode, label) == label + ": retrying propagation node\u{2026}"@,
        notice_words(Notice::ContactingNode, label) == label
            + ": contacting propagation node\u{2026}"@,
        notice_words(Notice::TransferringToNode, label) == label
            + ": transferring to propagation node\u{2026}"@,
        notice_words(Notice::SendingToNode, label) == label
            + ": sending to propagation node\u{2026}"@,
        notice_words(Notice::TransferringLarge, label) == label
            + ": transferring (large message)\u{2026}"@,
        notice_words(Notice::TransferringTheirs, label) == label
            + ": transferring over their link\u{2026}"@,
        notice_words(Notice::RequestingKey, label) == label + ": requesting key\u{2026}"@,
        notice_words(Notice::FindingRoute, label) == label + ": finding a route\u{2026}"@,
        notice_words(Notice::EstablishingLink, label) == label + ": establishing link\u{2026}"@,
        attempt <= 1 ==> notice_words(Notice::Sent(attempt), label) == label
            + ": sent over link, awaiting confirmation\u{2026}"@,
        attempt > 1 ==> notice_words(Notice::Sent(attempt), label) == label
            + ": sent over link, awaiting confirmation\u{2026} (try "@
            + decimal_text(attempt as nat) + "/"@ + decimal_text(5) + ")"@,
{
    reveal_strlit("");
}

/// Why a message was given up.
pub proof fn reasons_are_said()
    ensures
        reason_words(Reason::NodeUnconfirmed) == "propagation node unconfirmed"@,
        reason_words(Reason::NoLink) == "link could not be established"@,
        reason_words(Reason::NoRoute) == "no route found"@,
        reason_words(Reason::NoAcknowledgement) == "no acknowledgement"@,
{
}

/// What is said of a message that was given up, that arrived, or that brought a ticket
/// names whom it is about.
pub proof fn outcomes_are_said(label: Seq<char>, why: Seq<char>, status: u8)
    ensures
        failure_words(label, why) == "\u{d7} "@ + label + ": "@ + why,
        status == 2 ==> delivery_words(label, status) == "\u{bb}"@
            + " stored at propagation node for "@ + label,
        status != 2 ==> delivery_words(label, status) == "\u{2713}"@ + " delivered to "@ + label,
        ticket_words(label) == "received a ticket from "@ + label
            + " \u{2014} you can now reply"@,
{
}

/// How a sync ended.
pub proof fn a_sync_is_said_to_end(n: usize)
    ensures
        end_words(SyncEnd::NoConnection) == "sync: no connection (hub or local peers)"@,
        end_words(SyncEnd::NoRoute) == "sync: no route to the propagation node"@,
        end_words(SyncEnd::WriteFailed) == "sync: hub write failed \u{2014} try again"@,
        end_words(SyncEnd::TimedOut) == "sync: timed out"@,
        end_words(SyncEnd::ConnectionLost) == "sync: connection lost \u{2014} try again"@,
        end_words(SyncEnd::LinkClosed) == "sync: node closed the link \u{2014} try again"@,
        end_words(SyncEnd::UnsupportedResource) == "sync: sync failed (unsupported resource)"@,
        end_words(SyncEnd::DecryptFailed) == "sync: sync failed (decrypt)"@,
        end_words(SyncEnd::ResourceFailed) == "sync: sync failed (resource)"@,
        end_words(SyncEnd::NeedsIdentification) == "sync: node needs identification"@,
        end_words(SyncEnd::DeniedAccess) == "sync: node denied access"@,
        end_words(SyncEnd::NodeError) == "sync: node error"@,
        end_words(SyncEnd::NothingNew) == "sync: no new messages"@,
        end_words(SyncEnd::Synced(n)) == "sync: synced "@ + decimal_text(n as nat) + " message(s)"@,
{
}

/// How a fetch ended.
pub proof fn a_fetch_is_said_to_end()
    ensures
        page_end_words(PageEnd::NoConnection) == "page: no connection (hub or local peers)"@,
        page_end_words(PageEnd::NoRoute) == "page: no route to the node"@,
        page_end_words(PageEnd::WriteFailed) == "page: hub write failed \u{2014} try again"@,
        page_end_words(PageEnd::LinkLost) == "page: link lost \u{2014} try again"@,
        page_end_words(PageEnd::TimedOut) == "page: timed out"@,
        page_end_words(PageEnd::ConnectionLost) == "page: connection lost \u{2014} try again"@,
        page_end_words(PageEnd::LinkClosed) == "page: node closed the link \u{2014} try again"@,
        page_end_words(PageEnd::Unsupported) == "page: page too large / unsupported"@,
        page_end_words(PageEnd::DecryptFailed) == "page: page failed (decrypt)"@,
        page_end_words(PageEnd::ResourceFailed) == "page: page failed (resource)"@,
        page_end_words(PageEnd::NeedsIdentification) == "page: node needs identification"@,
        page_end_words(PageEnd::DeniedAccess) == "page: node denied access"@,
        page_end_words(PageEnd::NodeError) == "page: node error"@,
        page_end_words(PageEnd::Unexpected) == "page: unexpected response"@,
{
}

/// What is wrong with an encoding.
pub proof fn faults_are_said()
    ensures
        fault_text(Fault::End) == "unexpected end of msgpack input"@,
        fault_text(Fault::Kind) == "unsupported msgpack type"@,
        fault_text(Fault::ArrayLength) == "msgpack array length exceeds remaining input"@,
        fault_text(Fault::Key) == "non-integer map key"@,
{
}

/// Why a connection is made anew.
pub proof fn a_reset_is_said(n: u32)
    ensures
        care_words(Care::Woke) == (
            "woke from sleep \u{2014} reconnecting\u{2026}"@,
            "woke from sleep"@,
        ),
        care_words(Care::Stuck) == (
            "hub write stalled \u{2014} resetting connection\u{2026}"@,
            "write stalled >20s"@,
        ),
        care_words(Care::Silent(n)) == (
            "hub unresponsive \u{2014} reconnecting\u{2026}"@,
            "no inbound for "@ + decimal_text(n as nat) + "s, probes unanswered"@,
        ),
{
}

/// The numbers of the operations that the chat takes.
pub proof fn operations_are_numbered()
    ensures
        (ChatOp::DialogueSave).number_spec() == 0,
        (ChatOp::DialogueSet).number_spec() == 1,
        (ChatOp::GamChangeFocus).number_spec() == 2,
        (ChatOp::GamLine).number_spec() == 3,
        (ChatOp::GamRawkeys).number_spec() == 4,
        (ChatOp::GamRedraw).number_spec() == 5,
        (ChatOp::Help).number_spec() == 6,
        (ChatOp::MenuAdd).number_spec() == 7,
        (ChatOp::PostAdd).number_spec() == 8,
        (ChatOp::PostDel).number_spec() == 9,
        (ChatOp::PostFind).number_spec() == 10,
        (ChatOp::PostUpdate).number_spec() == 11,
        (ChatOp::PostFlag).number_spec() == 12,
        (ChatOp::SetStatusText).number_spec() == 13,
        (ChatOp::SetBusyAnimationState).number_spec() == 14,
        (ChatOp::SetStatusIdleText).number_spec() == 15,
        (ChatOp::IcontraySet).number_spec() == 16,
        (ChatOp::UpdateBusy).number_spec() == 17,
        (ChatOp::UpdateBusyForced).number_spec() == 18,
        (ChatOp::Quit).number_spec() == 19,
        (ChatOp::DocumentBegin).number_spec() == 20,
        (ChatOp::DocumentLines).number_spec() == 21,
        (ChatOp::DocumentShow).number_spec() == 22,
        (ChatOp::DocumentClear).number_spec() == 23,
        (ChatOp::DocumentGetSelected).number_spec() == 24,
        (ChatOp::DocumentPage).number_spec() == 25,
        (ChatOp::DialogueSave).number_spec() == 0,
        (ChatOp::DialogueSet).number_spec() == 1,
        (ChatOp::GamChangeFocus).number_spec() == 2,
        (ChatOp::GamLine).number_spec() == 3,
        (ChatOp::GamRawkeys).number_spec() == 4,
        (ChatOp::GamRedraw).number_spec() == 5,
        (ChatOp::Help).number_spec() == 6,
        (ChatOp::MenuAdd).number_spec() == 7,
        (ChatOp::PostAdd).number_spec() == 8,
        (ChatOp::PostDel).number_spec() == 9,
        (ChatOp::PostFind).number_spec() == 10,
        (ChatOp::PostUpdate).number_spec() == 11,
        (ChatOp::PostFlag).number_spec() == 12,
        (ChatOp::SetStatusText).number_spec() == 13,
        (ChatOp::SetBusyAnimationState).number_spec() == 14,
        (ChatOp::SetStatusIdleText).number_spec() == 15,
        (ChatOp::IcontraySet).number_spec() == 16,
        (ChatOp::UpdateBusy).number_spec() == 17,
        (ChatOp::UpdateBusyForced).number_spec() == 18,
        (ChatOp::Quit).number_spec() == 19,
        (ChatOp::DocumentBegin).number_spec() == 20,
        (ChatOp::DocumentLines).number_spec() == 21,
        (ChatOp::DocumentShow).number_spec() == 22,
        (ChatOp::DocumentClear).number_spec() == 23,
        (ChatOp::DocumentGetSelected).number_spec() == 24,
        (ChatOp::DocumentPage).number_spec() == 25,
        (BusyAnimOp::Start).number_spec() == 0,
        (BusyAnimOp::Pump).number_spec() == 1,
        (BusyAnimOp::Start).number_spec() == 0,
        (BusyAnimOp::Pump).number_spec() == 1,
        (IconOp::PostMenu).number_spec() == 0,
        (IconOp::F2Op).number_spec() == 1,
        (IconOp::F3Op).number_spec() == 2,
        (IconOp::AppMenu).number_spec() == 3,
        (IconOp::PostMenu).number_spec() == 0,
        (IconOp::F2Op).number_spec() == 1,
        (IconOp::F3Op).number_spec() == 2,
        (IconOp::AppMenu).number_spec() == 3,
        (PostFlag::Deleted).number_spec() == 0,
        (PostFlag::Draft).number_spec() == 1,
        (PostFlag::Hidden).number_spec() == 2,
        (PostFlag::Deleted).number_spec() == 0,
        (PostFlag::Draft).number_spec() == 1,
        (PostFlag::Hidden).number_spec() == 2,
        (AuthorFlag::Bold).number_spec() == 0,
        (AuthorFlag::Hidden).number_spec() == 1,
        (AuthorFlag::Right).number_spec() == 2,
        (AuthorFlag::Bold).number_spec() == 0,
        (AuthorFlag::Hidden).number_spec() == 1,
        (AuthorFlag::Right).number_spec() == 2,
{
}

/// The numbers of the requests that the messenger takes, and of its menu.
pub proof fn requests_are_numbered()
    ensures
        (LxmfchatOp::Event).number_spec() == 0,
        (LxmfchatOp::Menu).number_spec() == 1,
        (LxmfchatOp::Post).number_spec() == 2,
        (LxmfchatOp::Rawkeys).number_spec() == 3,
        (LxmfchatOp::Quit).number_spec() == 4,
        (LxmfchatOp::Event).number_spec() == 0,
        (LxmfchatOp::Menu).number_spec() == 1,
        (LxmfchatOp::Post).number_spec() == 2,
        (LxmfchatOp::Rawkeys).number_spec() == 3,
        (LxmfchatOp::Quit).number_spec() == 4,
        (MenuOp::Announces).number_spec() == 0,
        (MenuOp::Contacts).number_spec() == 1,
        (MenuOp::Connect).number_spec() == 2,
        (MenuOp::Announce).number_spec() == 3,
        (MenuOp::MyAddress).number_spec() == 4,
        (MenuOp::SetPeer).number_spec() == 5,
        (MenuOp::SetHub).number_spec() == 6,
        (MenuOp::ClearHistory).number_spec() == 7,
        (MenuOp::Noop).number_spec() == 8,
        (MenuOp::RenameContact).number_spec() == 9,
        (MenuOp::ImportContact).number_spec() == 10,
        (MenuOp::LocalPeers).number_spec() == 11,
        (MenuOp::SetName).number_spec() == 12,
        (MenuOp::Sync).number_spec() == 13,
        (MenuOp::Browser).number_spec() == 14,
        (MenuOp::SelectUrl).number_spec() == 15,
        (MenuOp::Announces).number_spec() == 0,
        (MenuOp::Contacts).number_spec() == 1,
        (MenuOp::Connect).number_spec() == 2,
        (MenuOp::Announce).number_spec() == 3,
        (MenuOp::MyAddress).number_spec() == 4,
        (MenuOp::SetPeer).number_spec() == 5,
        (MenuOp::SetHub).number_spec() == 6,
        (MenuOp::ClearHistory).number_spec() == 7,
        (MenuOp::Noop).number_spec() == 8,
        (MenuOp::RenameContact).number_spec() == 9,
        (MenuOp::ImportContact).number_spec() == 10,
        (MenuOp::LocalPeers).number_spec() == 11,
        (MenuOp::SetName).number_spec() == 12,
        (MenuOp::Sync).number_spec() == 13,
        (MenuOp::Browser).number_spec() == 14,
        (MenuOp::SelectUrl).number_spec() == 15,
{
}

/// The numbers of the events.
pub proof fn events_are_numbered()
    ensures
        (Event::Focus).number_spec() == 0,
        (Event::F1).number_spec() == 1,
        (Event::F2).number_spec() == 2,
        (Event::F3).number_spec() == 3,
        (Event::F4).number_spec() == 4,
        (Event::Up).number_spec() == 5,
        (Event::Down).number_spec() == 6,
        (Event::Left).number_spec() == 7,
        (Event::Right).number_spec() == 8,
        (Event::Top).number_spec() == 9,
        (Event::Bottom).number_spec() == 10,
        (Event::Key).number_spec() == 11,
        (Event::Post).number_spec() == 12,
        (Event::Menu).number_spec() == 13,
        (Event::Focus).number_spec() == 0,
        (Event::F1).number_spec() == 1,
        (Event::F2).number_spec() == 2,
        (Event::F3).number_spec() == 3,
        (Event::F4).number_spec() == 4,
        (Event::Up).number_spec() == 5,
        (Event::Down).number_spec() == 6,
        (Event::Left).number_spec() == 7,
        (Event::Right).number_spec() == 8,
        (Event::Top).number_spec() == 9,
        (Event::Bottom).number_spec() == 10,
        (Event::Key).number_spec() == 11,
        (Event::Post).number_spec() == 12,
        (Event::Menu).number_spec() == 13,
{
}

/// An event is known by its number; a number that is none is no event.
pub proof fn an_event_is_known_by_its_number(e: Event, n: usize)
    ensures
        event_numbered(e.number_spec()) == Some(e),
        n > 13 ==> event_numbered(n) is None,
{
    let k = e.number_spec();
    let c = choose|c: Event| c.number_spec() == k;
    assert(c.number_spec() == k);
}

} // verus!
