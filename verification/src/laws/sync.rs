//! What a sync with the propagation node asks for, hands out and confirms, and when it
//! is put off or given up.
use vstd::prelude::*;
use vstd::utf8::encode_utf8;

use crate::float::double_of_int;
use crate::msgpack::Model;
use crate::outbox::LinkReqOutcome;
use crate::request::{reply_of, request_model};
use crate::sha256::{sha256, sha256_truncated};
use crate::sync::{
    blobs_of, code_end, confirmed, contacted, ended, items_of, started, ticked, wanted, NodeView,
    SyncAction, SyncEnd, SyncState,
};

verus! {

/// Every byte string of the node's reply is handed out, once and in its place; what is
/// neither a byte string nor a text is passed over.
pub proof fn each_byte_string_is_handed_out(before: Seq<Model>, after: Seq<Model>, m: Model)
    ensures
        blobs_of(before + after) == blobs_of(before) + blobs_of(after),
        blobs_of(seq![m]) == (match m {
            Model::Bin(b) => seq![b],
            Model::Str(s) => seq![encode_utf8(s)],
            _ => Seq::empty(),
        }),
    decreases after.len(),
{
    reveal_with_fuel(blobs_of, 2);
    assert(seq![m].drop_last().len() == 0);
    assert(seq![m].last() == m);
    if m is Bin {
        assert(blobs_of(seq![m]) =~= seq![m->Bin_0]);
    }
    if m is Str {
        assert(blobs_of(seq![m]) =~= seq![encode_utf8(m->Str_0)]);
    }
    if after.len() == 0 {
        assert(before + after =~= before);
        assert(blobs_of(before) + blobs_of(after) =~= blobs_of(before));
    } else {
        each_byte_string_is_handed_out(before, after.drop_last(), m);
        assert((before + after).drop_last() =~= before + after.drop_last());
        assert((before + after).last() == after.last());
        assert(blobs_of(before + after) =~= blobs_of(before) + blobs_of(after));
    }
}

/// Where every element of the reply is a byte string, exactly these are handed out: as
/// many, and each in its place. The confirmation names the digest of each, in the same
/// places, and nothing that is to be kept.
pub proof fn a_reply_of_messages_is_handed_out_whole(items: Seq<Model>)
    requires
        forall|k: int| 0 <= k < items.len() ==> (#[trigger] items[k]) is Bin,
    ensures
        ({
            let blobs = blobs_of(items);
            &&& blobs.len() == items.len()
            &&& forall|k: int|
                0 <= k < items.len() ==> items[k] == Model::Bin(#[trigger] blobs[k])
            &&& confirmed(blobs) matches Model::Array(c) && {
                &&& c.len() == 2
                &&& c[0] is Nil
                &&& c[1] matches Model::Array(digests) && {
                    &&& digests.len() == items.len()
                    &&& forall|k: int|
                        0 <= k < items.len() ==> (#[trigger] digests[k]) == Model::Bin(
                            sha256(items[k]->Bin_0),
                        )
                }
            }
        }),
    decreases items.len(),
{
    if items.len() > 0 {
        let front = items.drop_last();
        assert forall|k: int| 0 <= k < front.len() implies (#[trigger] front[k]) is Bin by {
            assert(front[k] == items[k]);
        }
        a_reply_of_messages_is_handed_out_whole(front);
        let blobs = blobs_of(items);
        assert forall|k: int| 0 <= k < items.len() implies items[k] == Model::Bin(
            #[trigger] blobs[k],
        ) by {
            if k < front.len() {
                assert(front[k] == items[k]);
                assert(blobs[k] == blobs_of(front)[k]);
            } else {
                assert(items[k] is Bin);
            }
        }
    }
}

/// The messages are asked for by the identifiers of the list, as they came; none is
/// to be dropped, and the size limit goes along.
pub proof fn all_listed_messages_are_asked_for(ids: Seq<Model>, limit: i64)
    ensures
        wanted(ids, limit) matches Model::Array(w) && {
            &&& w.len() == 3
            &&& w[0] == Model::Array(ids)
            &&& w[1] matches Model::Array(none) && none.len() == 0
            &&& w[2] == Model::Int(limit)
        },
        items_of(Model::Array(ids)) == ids,
        items_of(Model::Nil).len() == 0,
{
}

/// A request over a link is the time of the request, the first 16 bytes of the digest
/// of the path, and the data. Of a reply the second element is the answer.
pub proof fn a_request_is_time_path_and_data(now: u64, path: Seq<char>, data: Model)
    ensures
        request_model(now, path, data) matches Model::Array(r) && {
            &&& r.len() == 3
            &&& r[0] matches Model::F64(bits) && bits == double_of_int(now as int) as u64
            &&& r[1] == Model::Bin(sha256_truncated(encode_utf8(path)))
            &&& r[2] == data
        },
        sha256_truncated(encode_utf8(path)) == sha256(encode_utf8(path)).take(16),
{
}

/// Of a reply the second element is the answer, whatever follows it; what is no array
/// of two is no reply.
pub proof fn the_answer_is_the_second_element(payload: Seq<u8>)
    ensures
        crate::msgpack::decoded(payload, 0) matches Ok((m, _)) ==> reply_of(payload) == (
        match m {
            Model::Array(a) => if a.len() >= 2 {
                Some(a[1])
            } else {
                None
            },
            _ => None,
        }),
        crate::msgpack::decoded(payload, 0) is Err ==> reply_of(payload) is None,
{
}

/// The codes with which a node refuses.
pub proof fn refusals_are(code: i64)
    ensures
        code_end(code) == (if code == 0xf0 {
            SyncEnd::NeedsIdentification
        } else if code == 0xf1 {
            SyncEnd::DeniedAccess
        } else {
            SyncEnd::NodeError
        }),
{
}

/// A sync that is over holds no link, wants nothing and counts anew; when the first sync
/// of the run was made, and what was looked for, stays.
pub proof fn a_sync_that_is_over_keeps_nothing(s: SyncState)
    ensures
        ({
            let e = ended(s);
            &&& e.phase is Idle && e.link_id is None && !e.receiving && !e.requested
            &&& e.route_tries == 0
            &&& e.auto_done == s.auto_done && e.pn_probe_at == s.pn_probe_at
            &&& e.deadline == s.deadline && e.next_attempt == s.next_attempt
            &&& e.link_tries == s.link_tries
        }),
{
}

/// A sync starts where something can be sent and the node is known and reached: over
/// the link that is up, with the list asked for at once, or by asking for a link; it
/// has 120 seconds. Else it is looked at again in 3 seconds, twenty times at most; the
/// wait is said once, and the node is asked for each time. One that runs goes on.
pub proof fn a_sync_starts_or_is_put_off(s: SyncState, now: u64, node: NodeView)
    requires
        now <= 0xffff_ffff_ffff_0000,
        s.route_tries < 255,
    ensures
        ({
            let (t, action) = started(s, now, node);
            let ready = node.up && node.known && node.path;
            let spent = s.route_tries >= 20;
            if !(s.phase is Idle) {
                t == s && action is SayRunning
            } else if ready {
                &&& t.deadline == now + 120
                &&& t.link_id == node.link
                &&& t.route_tries == 0 && t.link_tries == 0 && t.next_attempt == 0
                &&& !t.receiving
                &&& t.requested == s.requested && t.auto_done == s.auto_done
                &&& t.pn_probe_at == s.pn_probe_at
                &&& match node.link {
                    Some(l) => t.phase is ListRequested && action == SyncAction::AskList(l),
                    None => t.phase is Linking && action is Contact,
                }
            } else if spent {
                &&& t == ended(SyncState { route_tries: 0, ..s })
                &&& action == (SyncAction::End {
                    end: if node.up {
                        SyncEnd::NoRoute
                    } else {
                        SyncEnd::NoConnection
                    },
                    link: s.link_id,
                    expire: false,
                })
            } else {
                &&& t.requested
                &&& t.route_tries == s.route_tries + 1
                &&& t.next_attempt == now + 3
                &&& t == (SyncState {
                    requested: true,
                    route_tries: t.route_tries,
                    next_attempt: t.next_attempt,
                    ..s
                })
                &&& action == (if node.up {
                    SyncAction::Find
                } else if s.route_tries == 0 {
                    SyncAction::SayWaiting
                } else {
                    SyncAction::Nothing
                })
            }
        }),
{
}

/// With time: a sync whose deadline has passed is over, and the route is dropped where
/// no link came of it; one that waits for its link asks for it again; one that is
/// wanted is looked at when its moment comes; and once in a run one starts by itself
/// where the node is reached. Until that, the node is asked for every 30 seconds.
pub proof fn a_sync_moves_with_time(s: SyncState, now: u64, node: NodeView)
    requires
        now <= 0xffff_ffff_ffff_0000,
    ensures
        ({
            let (t, action) = ticked(s, now, node);
            let running = !(s.phase is Idle);
            if running && now > s.deadline {
                &&& t == ended(s)
                &&& action == (SyncAction::End {
                    end: SyncEnd::TimedOut,
                    link: s.link_id,
                    expire: s.phase is Linking,
                })
            } else if s.phase is Linking {
                t == s && action is Recontact
            } else if s.requested && now >= s.next_attempt {
                (t, action) == started(SyncState { requested: false, ..s }, now, node)
            } else if running || s.auto_done {
                t == s && action is Nothing
            } else if node.known && node.path {
                (t, action) == started(SyncState { auto_done: true, ..s }, now, node)
            } else if node.up && now >= s.pn_probe_at {
                &&& t.pn_probe_at == now + 30
                &&& t == (SyncState { pn_probe_at: t.pn_probe_at, ..s })
                &&& action is Probe
            } else {
                t == s && action is Nothing
            }
        }),
{
}

/// A link request that could not be written ends the sync; the first one counts as
/// one, and each one that went out after it as one more, which is said.
pub proof fn link_requests_are_counted(s: SyncState, outcome: LinkReqOutcome, first: bool)
    requires
        s.link_tries < 255,
    ensures
        ({
            let (t, action) = contacted(s, outcome, first);
            match outcome {
                LinkReqOutcome::WriteFailed => {
                    &&& t == ended(s)
                    &&& action == (SyncAction::End {
                        end: SyncEnd::WriteFailed,
                        link: s.link_id,
                        expire: false,
                    })
                },
                LinkReqOutcome::Sent => {
                    &&& t.link_tries == (if first {
                        1int
                    } else {
                        s.link_tries + 1
                    })
                    &&& t == (SyncState { link_tries: t.link_tries, ..s })
                    &&& action == (if first {
                        SyncAction::Nothing
                    } else {
                        SyncAction::SayTries(t.link_tries)
                    })
                },
                LinkReqOutcome::Pending => {
                    &&& t == (SyncState {
                        link_tries: if first {
                            1
                        } else {
                            s.link_tries
                        },
                        ..s
                    })
                    &&& action is Nothing
                },
            }
        }),
{
}

} // verus!
