//! The connection handler's decisions: per-connection state, the policy for
//! a submitted event, the reaction to a control-bus message, and the
//! synthetic `rights_changed` frames a handler writes to its own client.

use vstd::prelude::*;
use vstd::string::*;
use crate::rights::{Right, spec_may_write, spec_is_manager};
use crate::event::{CanvasEvent, EventView};
use crate::bus::CanvasDataEvent;

verus! {

/// The state one connection's handler owns: where it is connected, as whom,
/// and the right and moderation flag as currently seen by this connection.
pub struct ConnState {
    pub canvas_id: String,
    pub user_id: String,
    pub right: Right,
    pub moderated_view: bool,
}

/// What to do with one event a client submitted.
#[derive(PartialEq, Eq, Structural, Clone, Copy, Debug)]
pub enum WriteAction {
    /// Drop silently: no persistence, no fan-out, no error frame.
    DropSilent,
    /// Append to the event store, then hand to the hub for fan-out.
    Persist,
}

/// A submitted event is persisted and fanned out exactly when the
/// connection's right allows writing under its current moderation view.
pub fn write_action(st: &ConnState) -> (a: WriteAction)
    ensures
        (a == WriteAction::Persist) == spec_may_write(st.right, st.moderated_view),
{
    if crate::rights::may_write(st.right, st.moderated_view) {
        WriteAction::Persist
    } else {
        WriteAction::DropSilent
    }
}

/// The payload of the notice sent when this user's right changed.
pub open spec fn spec_right_payload(r: Right) -> Seq<char> {
    match r {
        Right::R => "{\"right\":\"R\"}"@,
        Right::W => "{\"right\":\"W\"}"@,
        Right::V => "{\"right\":\"V\"}"@,
        Right::M => "{\"right\":\"M\"}"@,
        Right::O => "{\"right\":\"O\"}"@,
    }
}

pub fn right_payload(r: Right) -> (p: String)
    ensures
        p@ == spec_right_payload(r),
{
    String::from_str(
        match r {
            Right::R => "{\"right\":\"R\"}",
            Right::W => "{\"right\":\"W\"}",
            Right::V => "{\"right\":\"V\"}",
            Right::M => "{\"right\":\"M\"}",
            Right::O => "{\"right\":\"O\"}",
        },
    )
}

/// The payload of the notice sent when this user's right was revoked.
pub open spec fn spec_revoked_payload() -> Seq<char> {
    "{\"right\":null}"@
}

pub fn revoked_payload() -> (p: String)
    ensures
        p@ == spec_revoked_payload(),
{
    String::from_str("{\"right\":null}")
}

/// The payload of the notice sent when the canvas's moderation flag changed.
pub open spec fn spec_moderated_payload(m: bool) -> Seq<char> {
    if m {
        "{\"moderated\":true}"@
    } else {
        "{\"moderated\":false}"@
    }
}

pub fn moderated_payload(m: bool) -> (p: String)
    ensures
        p@ == spec_moderated_payload(m),
{
    if m {
        String::from_str("{\"moderated\":true}")
    } else {
        String::from_str("{\"moderated\":false}")
    }
}

/// A synthetic `rights_changed` event, timestamp zero, with the given
/// payload, addressed to this connection's own client.
pub open spec fn spec_notice(canvas_id: Seq<char>, payload: Seq<char>) -> EventView {
    EventView { event_type: "rights_changed"@, canvas_id: canvas_id, timestamp: 0, payload }
}

pub fn notice_event(canvas_id: &String, payload: String) -> (e: CanvasEvent)
    ensures
        e@ == spec_notice(canvas_id@, payload@),
{
    CanvasEvent {
        event_type: String::from_str("rights_changed"),
        canvas_id: canvas_id.clone(),
        timestamp: 0,
        payload,
    }
}

/// The handler's reaction to one control-bus message.
pub enum BusAction {
    /// The message concerns another canvas or another user: do nothing.
    Ignore,
    /// This user's right changed: adopt it and notify the client.
    UpdateRight { new_right: Right, notice: CanvasEvent },
    /// This user's right was revoked: notify the client, then close.
    Revoke { notice: CanvasEvent },
    /// This canvas's moderation flag changed: adopt it and notify the client.
    UpdateModerated { moderated: bool, notice: CanvasEvent },
}

/// Decide the reaction to a control-bus message: a right change or
/// revocation for this `(canvas, user)` and a moderation change for this
/// canvas act on the connection; everything else is ignored. A right letter
/// outside the five known ones cannot come out of the database's check
/// constraint and is ignored.
pub fn on_bus_event(st: &ConnState, ev: &CanvasDataEvent) -> (a: BusAction)
    ensures
        match *ev {
            CanvasDataEvent::RightChanged(ref cid, ref uid, ref nr) => {
                if cid@ == st.canvas_id@ && uid@ == st.user_id@ {
                    match *nr {
                        Some(ref r) => match Right::spec_of_letter(r@) {
                            Some(rt) => a matches BusAction::UpdateRight { new_right, notice }
                                && new_right == rt && notice@ == spec_notice(
                                st.canvas_id@,
                                spec_right_payload(rt),
                            ),
                            None => a is Ignore,
                        },
                        None => a matches BusAction::Revoke { notice } && notice@ == spec_notice(
                            st.canvas_id@,
                            spec_revoked_payload(),
                        ),
                    }
                } else {
                    a is Ignore
                }
            },
            CanvasDataEvent::ModeratedChanged(ref cid, m) => {
                if cid@ == st.canvas_id@ {
                    a matches BusAction::UpdateModerated { moderated, notice } && moderated == m
                        && notice@ == spec_notice(st.canvas_id@, spec_moderated_payload(m))
                } else {
                    a is Ignore
                }
            },
        },
{
    match ev {
        CanvasDataEvent::RightChanged(cid, uid, nr) => {
            if crate::text::str_eq(cid.as_str(), st.canvas_id.as_str()) && crate::text::str_eq(
                uid.as_str(),
                st.user_id.as_str(),
            ) {
                match nr {
                    Some(r) => match Right::of_letter(r.as_str()) {
                        Some(rt) => BusAction::UpdateRight {
                            new_right: rt,
                            notice: notice_event(&st.canvas_id, right_payload(rt)),
                        },
                        None => BusAction::Ignore,
                    },
                    None => BusAction::Revoke {
                        notice: notice_event(&st.canvas_id, revoked_payload()),
                    },
                }
            } else {
                BusAction::Ignore
            }
        },
        CanvasDataEvent::ModeratedChanged(cid, m) => {
            if crate::text::str_eq(cid.as_str(), st.canvas_id.as_str()) {
                BusAction::UpdateModerated {
                    moderated: *m,
                    notice: notice_event(&st.canvas_id, moderated_payload(*m)),
                }
            } else {
                BusAction::Ignore
            }
        },
    }
}

/// What the handler decides right after authorization, from the right
/// lookup and the init command.
pub enum InitDecision {
    /// No right on the canvas: send the error frame and close.
    Deny,
    /// Admit the connection; `replay` asks for the history frame, `manage`
    /// takes the one-shot management path.
    Proceed { replay: bool, manage: bool },
}

/// Decide admission from the `(right, moderated)` row — absent exactly when
/// the user has no right on the canvas — and the init command: history is
/// replayed for a `register` init with payload `true`; the management
/// shortcut is taken by moderators and owners whose init is a `manage`.
pub fn init_decision(lookup: &Option<(Right, bool)>, init: &CanvasEvent) -> (d: InitDecision)
    ensures
        (lookup is None) == (d is Deny),
        d matches InitDecision::Proceed { replay, manage } ==> {
            &&& replay == init.spec_asks_history()
            &&& manage == (spec_is_manager(lookup.unwrap().0) && init.spec_is_manage())
        },
{
    match lookup {
        None => InitDecision::Deny,
        Some((right, _moderated)) => InitDecision::Proceed {
            replay: init.asks_history(),
            manage: crate::rights::is_manager(*right) && init.is_manage(),
        },
    }
}

} // verus!
