//! The guarantees of the live-distribution core, each proved from the
//! contracts of the transition functions in `world`.

use vstd::prelude::*;
use crate::rights::Right;
use crate::bus::CanvasDataEvent;
use crate::event::{json_of_event, json_of_strings};
use crate::store::{spec_history, rows_view};
use crate::world::{
    World,
    ClientView,
    FrameView,
    clients_view,
    blob_in,
    spec_find_client,
    lemma_find_client,
    spec_right_of,
    spec_moderated_of,
    spec_connect_effect,
    spec_lines_effect,
    spec_bus_step,
    spec_all_decode,
    spec_closed,
};
use crate::conn::{spec_notice, spec_revoked_payload};

verus! {

/// History replay: a connection admitted with a `register:true` init
/// command receives, as its first frame, the JSON array of exactly the
/// blobs persisted for its canvas, in persistence order.
pub proof fn law_history_replay(w0: World, w1: World, user: Seq<char>, line: Seq<char>, r: Option<u64>)
    requires
        spec_connect_effect(w0, w1, user, line, r),
        crate::event::event_of_json(line) matches Some(init) && init.event_type == "register"@
            && init.payload == "true"@ && spec_right_of(
            w0.rights@,
            init.canvas_id,
            user,
        ) is Some && spec_moderated_of(w0.canvases@, init.canvas_id) is Some,
    ensures
        ({
            let init = crate::event::event_of_json(line).unwrap();
            let me = clients_view(w1.clients@)[clients_view(w0.clients@).len() as int];
            me.outbox == seq![
                FrameView::History(
                    json_of_strings(spec_history(rows_view(w0.store.rows@), init.canvas_id)),
                ),
            ]
        }),
{
}

/// Moderation: nothing a gated writer submits is persisted, and no
/// connection — the sender included — observes any frame for it.
pub proof fn law_moderated_write_dropped(w0: World, w1: World, conn_id: u64, lines: Seq<Seq<char>>)
    requires
        spec_lines_effect(w0, w1, conn_id, lines),
        spec_find_client(clients_view(w0.clients@), conn_id) matches Some(k) && clients_view(
            w0.clients@,
        )[k].open && clients_view(w0.clients@)[k].right == Right::W && clients_view(
            w0.clients@,
        )[k].moderated_view,
    ensures
        rows_view(w1.store.rows@) == rows_view(w0.store.rows@),
        forall|j: int|
            0 <= j < clients_view(w0.clients@).len() ==> (#[trigger] clients_view(
                w1.clients@,
            )[j]).outbox == clients_view(w0.clients@)[j].outbox,
{
    let k = spec_find_client(clients_view(w0.clients@), conn_id).unwrap();
    lemma_find_client(clients_view(w0.clients@), conn_id);
    assert forall|j: int|
        0 <= j < clients_view(w0.clients@).len() implies (#[trigger] clients_view(
        w1.clients@,
    )[j]).outbox == clients_view(w0.clients@)[j].outbox by {
        if j == k {
        }
    }
}

/// Persistence before observation: in a well-formed system, every event
/// frame any connection has ever observed stands persisted for that
/// connection's canvas.
pub proof fn law_fanout_persisted(w: World, k: int, f: int)
    requires
        w.wf(),
        0 <= k < clients_view(w.clients@).len(),
        0 <= f < clients_view(w.clients@)[k].outbox.len(),
        clients_view(w.clients@)[k].outbox[f] is Event,
    ensures
        blob_in(
            rows_view(w.store.rows@),
            clients_view(w.clients@)[k].canvas_id,
            clients_view(w.clients@)[k].outbox[f]->Event_0,
        ),
{
}

/// Revocation: a connection whose `(canvas, user)` right is revoked
/// observes the null-right notice as its final frame and closes.
pub proof fn law_revocation_closes(c0: ClientView, c1: ClientView, canvas: String, user: String)
    requires
        c0.open,
        canvas@ == c0.canvas_id,
        user@ == c0.user_id,
        spec_bus_step(c0, c1, CanvasDataEvent::RightChanged(canvas, user, None)),
    ensures
        !c1.open,
        c1.outbox == c0.outbox.push(
            FrameView::Notice(
                json_of_event(spec_notice(c0.canvas_id, spec_revoked_payload())),
            ),
        ),
{
}

/// Revocation reaches everyone: after one bus delivery of
/// `RightChanged(canvas, user, None)`, every connection that was open for
/// that pair is closed, with the null-right notice as its final frame.
pub proof fn law_revocation_closes_all(w0: World, w1: World, canvas: String, user: String)
    requires
        clients_view(w1.clients@).len() == clients_view(w0.clients@).len(),
        forall|j: int|
            0 <= j < clients_view(w0.clients@).len() ==> spec_bus_step(
                clients_view(w0.clients@)[j],
                #[trigger] clients_view(w1.clients@)[j],
                CanvasDataEvent::RightChanged(canvas, user, None),
            ),
    ensures
        forall|j: int|
            0 <= j < clients_view(w0.clients@).len() && (#[trigger] clients_view(
                w0.clients@,
            )[j]).open && clients_view(w0.clients@)[j].canvas_id == canvas@ && clients_view(
                w0.clients@,
            )[j].user_id == user@ ==> {
                let c1 = clients_view(w1.clients@)[j];
                !c1.open && c1.outbox == clients_view(w0.clients@)[j].outbox.push(
                    FrameView::Notice(
                        json_of_event(spec_notice(canvas@, spec_revoked_payload())),
                    ),
                )
            },
{
    assert forall|j: int|
        0 <= j < clients_view(w0.clients@).len() && (#[trigger] clients_view(
        w0.clients@,
    )[j]).open && clients_view(w0.clients@)[j].canvas_id == canvas@ && clients_view(
        w0.clients@,
    )[j].user_id == user@ implies {
        let c1 = clients_view(w1.clients@)[j];
        !c1.open && c1.outbox == clients_view(w0.clients@)[j].outbox.push(
            FrameView::Notice(json_of_event(spec_notice(canvas@, spec_revoked_payload()))),
        )
    } by {
        let c0 = clients_view(w0.clients@)[j];
        let c1 = clients_view(w1.clients@)[j];
        assert(spec_bus_step(c0, c1, CanvasDataEvent::RightChanged(canvas, user, None)));
        assert(c1 == crate::world::spec_revoked(c0));
    }
}

/// Moderation toggles reach everyone: after one bus delivery of
/// `ModeratedChanged(canvas, m)`, every open connection of that canvas has
/// adopted `m` as its moderation view and observed the notice.
pub proof fn law_moderation_toggle_adopted(w0: World, w1: World, canvas: String, m: bool)
    requires
        clients_view(w1.clients@).len() == clients_view(w0.clients@).len(),
        forall|j: int|
            0 <= j < clients_view(w0.clients@).len() ==> spec_bus_step(
                clients_view(w0.clients@)[j],
                #[trigger] clients_view(w1.clients@)[j],
                CanvasDataEvent::ModeratedChanged(canvas, m),
            ),
    ensures
        forall|j: int|
            0 <= j < clients_view(w0.clients@).len() && (#[trigger] clients_view(
                w0.clients@,
            )[j]).open && clients_view(w0.clients@)[j].canvas_id == canvas@ ==> {
                let c1 = clients_view(w1.clients@)[j];
                c1.open && c1.moderated_view == m && c1.right == clients_view(
                    w0.clients@,
                )[j].right && c1.outbox == clients_view(w0.clients@)[j].outbox.push(
                    FrameView::Notice(
                        json_of_event(
                            spec_notice(canvas@, crate::conn::spec_moderated_payload(m)),
                        ),
                    ),
                )
            },
{
    assert forall|j: int|
        0 <= j < clients_view(w0.clients@).len() && (#[trigger] clients_view(
        w0.clients@,
    )[j]).open && clients_view(w0.clients@)[j].canvas_id == canvas@ implies {
        let c1 = clients_view(w1.clients@)[j];
        c1.open && c1.moderated_view == m && c1.right == clients_view(w0.clients@)[j].right
            && c1.outbox == clients_view(w0.clients@)[j].outbox.push(
            FrameView::Notice(
                json_of_event(spec_notice(canvas@, crate::conn::spec_moderated_payload(m))),
            ),
        )
    } by {
        let c0 = clients_view(w0.clients@)[j];
        let c1 = clients_view(w1.clients@)[j];
        assert(spec_bus_step(c0, c1, CanvasDataEvent::ModeratedChanged(canvas, m)));
        assert(c1 == crate::world::spec_with_moderated(c0, m));
    }
}

/// No self-delivery: whatever a connection submits, its own outbox gains
/// nothing from the fan-out.
pub proof fn law_no_self_delivery(w0: World, w1: World, conn_id: u64, lines: Seq<Seq<char>>)
    requires
        spec_lines_effect(w0, w1, conn_id, lines),
        spec_find_client(clients_view(w0.clients@), conn_id) matches Some(k) && clients_view(
            w0.clients@,
        )[k].open,
    ensures
        ({
            let k = spec_find_client(clients_view(w0.clients@), conn_id).unwrap();
            clients_view(w1.clients@)[k].outbox == clients_view(w0.clients@)[k].outbox
        }),
{
    let k = spec_find_client(clients_view(w0.clients@), conn_id).unwrap();
    lemma_find_client(clients_view(w0.clients@), conn_id);
    assert(clients_view(w1.clients@)[k] == (if spec_all_decode(lines) {
        clients_view(w0.clients@)[k]
    } else {
        spec_closed(clients_view(w0.clients@)[k])
    }));
}

/// A lone connection: with nobody else open on the canvas, submissions
/// are persisted but no outbox anywhere changes.
pub proof fn law_single_client(w0: World, w1: World, conn_id: u64, lines: Seq<Seq<char>>)
    requires
        spec_lines_effect(w0, w1, conn_id, lines),
        spec_find_client(clients_view(w0.clients@), conn_id) matches Some(k) && clients_view(
            w0.clients@,
        )[k].open,
        forall|j: int|
            0 <= j < clients_view(w0.clients@).len() && j != spec_find_client(
                clients_view(w0.clients@),
                conn_id,
            ).unwrap() ==> !((#[trigger] clients_view(w0.clients@)[j]).open && clients_view(
                w0.clients@,
            )[j].canvas_id == clients_view(w0.clients@)[spec_find_client(
                clients_view(w0.clients@),
                conn_id,
            ).unwrap()].canvas_id),
    ensures
        forall|j: int|
            0 <= j < clients_view(w0.clients@).len() ==> (#[trigger] clients_view(
                w1.clients@,
            )[j]).outbox == clients_view(w0.clients@)[j].outbox,
{
    let k = spec_find_client(clients_view(w0.clients@), conn_id).unwrap();
    lemma_find_client(clients_view(w0.clients@), conn_id);
    assert forall|j: int|
        0 <= j < clients_view(w0.clients@).len() implies (#[trigger] clients_view(
        w1.clients@,
    )[j]).outbox == clients_view(w0.clients@)[j].outbox by {
        if j != k {
            assert(clients_view(w1.clients@)[j] == clients_view(w0.clients@)[j]);
        }
    }
}

} // verus!
