//! The live-distribution model: the event store, the rights tables, and
//! every connection with its handler state and the frames delivered to it.
//! Each public method is one atomic step of the system — a client
//! connecting, a client message, a control-bus message, a sink failing —
//! and its contract states exactly what the step persists and who observes
//! what.

use vstd::prelude::*;
use vstd::string::*;
use crate::rights::{Right, spec_may_write};
use crate::conn::{
    ConnState,
    BusAction,
    spec_notice,
    spec_right_payload,
    spec_revoked_payload,
    spec_moderated_payload,
};
use crate::bus::CanvasDataEvent;
use crate::event::{CanvasEvent, EventView, json_of_event, event_of_json};
use crate::store::{EventStore, StoredEvent, RowView, rows_view, spec_history};

verus! {

/// One frame delivered to a client, tagged by what produced it: the history
/// array, the access-denied error, a fanned-out peer event, a fanned-out
/// one-shot management command, or a `rights_changed` notice to this very
/// client.
pub enum Frame {
    History(String),
    Error(String),
    Event(String),
    Manage(String),
    Notice(String),
}

/// The mathematical value of a frame.
pub ghost enum FrameView {
    History(Seq<char>),
    Error(Seq<char>),
    Event(Seq<char>),
    Manage(Seq<char>),
    Notice(Seq<char>),
}

impl View for Frame {
    type V = FrameView;

    open spec fn view(&self) -> FrameView {
        match self {
            Frame::History(s) => FrameView::History(s@),
            Frame::Error(s) => FrameView::Error(s@),
            Frame::Event(s) => FrameView::Event(s@),
            Frame::Manage(s) => FrameView::Manage(s@),
            Frame::Notice(s) => FrameView::Notice(s@),
        }
    }
}

/// One connected client: its hub id, its handler's state, whether its sink
/// still accepts frames, and every frame delivered to it so far.
pub struct Client {
    pub conn_id: u64,
    pub state: ConnState,
    pub open: bool,
    pub outbox: Vec<Frame>,
}

/// The mathematical value of a client.
pub ghost struct ClientView {
    pub conn_id: u64,
    pub canvas_id: Seq<char>,
    pub user_id: Seq<char>,
    pub right: Right,
    pub moderated_view: bool,
    pub open: bool,
    pub outbox: Seq<FrameView>,
}

impl View for Client {
    type V = ClientView;

    open spec fn view(&self) -> ClientView {
        ClientView {
            conn_id: self.conn_id,
            canvas_id: self.state.canvas_id@,
            user_id: self.state.user_id@,
            right: self.state.right,
            moderated_view: self.state.moderated_view,
            open: self.open,
            outbox: self.outbox@.map_values(|f: Frame| f@),
        }
    }
}

pub open spec fn clients_view(s: Seq<Client>) -> Seq<ClientView> {
    s.map_values(|c: Client| c@)
}

/// One row of the `user_canvas` table.
pub struct RightRow {
    pub user_id: String,
    pub canvas_id: String,
    pub right: Right,
}

/// One row of the `canvas` table.
pub struct CanvasRow {
    pub canvas_id: String,
    pub moderated: bool,
}

/// The index of the first client with this id.
pub open spec fn spec_find_client(s: Seq<ClientView>, id: u64) -> Option<int>
    decreases s.len(),
{
    if s.len() == 0 {
        None
    } else if s[0].conn_id == id {
        Some(0int)
    } else {
        match spec_find_client(s.drop_first(), id) {
            Some(i) => Some(i + 1),
            None => None,
        }
    }
}

/// What the index returned by `spec_find_client` satisfies.
pub proof fn lemma_find_client(s: Seq<ClientView>, id: u64)
    ensures
        match spec_find_client(s, id) {
            Some(i) => 0 <= i < s.len() && s[i].conn_id == id && forall|j: int|
                0 <= j < i ==> (#[trigger] s[j]).conn_id != id,
            None => forall|j: int| 0 <= j < s.len() ==> (#[trigger] s[j]).conn_id != id,
        },
    decreases s.len(),
{
    if s.len() > 0 && s[0].conn_id != id {
        lemma_find_client(s.drop_first(), id);
        let t = s.drop_first();
        assert(forall|j: int| 0 <= j < t.len() ==> #[trigger] t[j] == s[j + 1]);
        match spec_find_client(t, id) {
            Some(i) => {
                assert(s[i + 1] == t[i]);
                assert forall|j: int| 0 <= j < i + 1 implies (#[trigger] s[j]).conn_id != id by {
                    if j > 0 {
                        assert(t[j - 1] == s[j]);
                    }
                }
            },
            None => {
                assert forall|j: int| 0 <= j < s.len() implies (#[trigger] s[j]).conn_id != id by {
                    if j > 0 {
                        assert(t[j - 1] == s[j]);
                    }
                }
            },
        }
    }
}

/// A blob stands persisted for a canvas.
pub open spec fn blob_in(rs: Seq<RowView>, canvas: Seq<char>, b: Seq<char>) -> bool {
    exists|r: int| 0 <= r < rs.len() && (#[trigger] rs[r]).canvas_id == canvas && rs[r].blob == b
}

/// Appending a row keeps every previously persisted blob persisted.
pub proof fn lemma_blob_in_push(rs: Seq<RowView>, row: RowView, canvas: Seq<char>, b: Seq<char>)
    requires
        blob_in(rs, canvas, b),
    ensures
        blob_in(rs.push(row), canvas, b),
{
    let r = choose|r: int|
        0 <= r < rs.len() && (#[trigger] rs[r]).canvas_id == canvas && rs[r].blob == b;
    assert(rs.push(row)[r] == rs[r]);
}

/// The first right of `(canvas, user)` in the table.
pub open spec fn spec_right_of(rows: Seq<RightRow>, canvas: Seq<char>, user: Seq<char>) -> Option<
    Right,
>
    decreases rows.len(),
{
    if rows.len() == 0 {
        None
    } else if rows[0].canvas_id@ == canvas && rows[0].user_id@ == user {
        Some(rows[0].right)
    } else {
        spec_right_of(rows.drop_first(), canvas, user)
    }
}

/// The first moderation flag of `canvas` in the table.
pub open spec fn spec_moderated_of(rows: Seq<CanvasRow>, canvas: Seq<char>) -> Option<bool>
    decreases rows.len(),
{
    if rows.len() == 0 {
        None
    } else if rows[0].canvas_id@ == canvas {
        Some(rows[0].moderated)
    } else {
        spec_moderated_of(rows.drop_first(), canvas)
    }
}

/// The whole live system: the durable store, the control-plane tables, the
/// connected clients, and the hub's id counter.
pub struct World {
    pub store: EventStore,
    pub rights: Vec<RightRow>,
    pub canvases: Vec<CanvasRow>,
    pub clients: Vec<Client>,
    pub next_id: u64,
}

impl World {
    /// Every fanned-out event frame in any outbox was persisted for that
    /// client's canvas first: a peer never observes an event the store does
    /// not hold.
    pub open spec fn frames_persisted(self) -> bool {
        let cs = clients_view(self.clients@);
        let rs = rows_view(self.store.rows@);
        forall|k: int, f: int|
            0 <= k < cs.len() && 0 <= f < cs[k].outbox.len() ==> ((#[trigger] cs[k].outbox[f])
                matches FrameView::Event(b) ==> blob_in(rs, cs[k].canvas_id, b))
    }

    /// Client ids are distinct, all assigned by the counter, and no event
    /// reaches an outbox unpersisted.
    pub open spec fn wf(self) -> bool {
        let cs = clients_view(self.clients@);
        &&& forall|i: int, j: int|
            0 <= i < j < cs.len() ==> (#[trigger] cs[i]).conn_id != (#[trigger] cs[j]).conn_id
        &&& forall|i: int| 0 <= i < cs.len() ==> (#[trigger] cs[i]).conn_id < self.next_id
        &&& self.frames_persisted()
    }

    /// An empty system with given control-plane tables.
    pub fn new(rights: Vec<RightRow>, canvases: Vec<CanvasRow>) -> (w: World)
        ensures
            w.wf(),
            w.store.rows@ == Seq::<StoredEvent>::empty(),
            w.clients@ == Seq::<Client>::empty(),
            w.rights@ == rights@,
            w.canvases@ == canvases@,
            w.next_id == 0,
    {
        let w = World {
            store: EventStore::new(),
            rights,
            canvases,
            clients: Vec::new(),
            next_id: 0,
        };
        proof {
            assert(w.clients@ =~= Seq::<Client>::empty());
            assert(clients_view(w.clients@) =~= Seq::<ClientView>::empty());
        }
        w
    }

    /// The index of the client with this id, if any.
    fn client_index(&self, conn_id: u64) -> (r: Option<usize>)
        ensures
            match r {
                Some(k) => spec_find_client(clients_view(self.clients@), conn_id) == Some(k as int),
                None => spec_find_client(clients_view(self.clients@), conn_id) is None,
            },
    {
        let ghost cs = clients_view(self.clients@);
        let n = self.clients.len();
        let mut i: usize = 0;
        while i < n
            invariant
                n == self.clients@.len(),
                cs == clients_view(self.clients@),
                cs.len() == n,
                i <= n,
                forall|j: int| 0 <= j < i ==> (#[trigger] cs[j]).conn_id != conn_id,
            decreases n - i,
        {
            proof {
                assert(cs[i as int] == self.clients@[i as int]@);
            }
            if self.clients[i].conn_id == conn_id {
                proof {
                    lemma_find_client(cs, conn_id);
                    match spec_find_client(cs, conn_id) {
                        Some(k) => {
                            if k < i as int {
                                assert(cs[k].conn_id == conn_id);
                            }
                            if k > i as int {
                                assert((cs[i as int]).conn_id != conn_id);
                            }
                        },
                        None => {
                            assert((cs[i as int]).conn_id != conn_id);
                        },
                    }
                }
                return Some(i);
            }
            i += 1;
        }
        proof {
            lemma_find_client(cs, conn_id);
            if spec_find_client(cs, conn_id) is Some {
                let k = spec_find_client(cs, conn_id).unwrap();
                assert(cs[k].conn_id == conn_id);
            }
        }
        None
    }

    /// The right of `(canvas, user)`, as `user_canvas` holds it.
    pub fn lookup_right(&self, canvas: &str, user: &str) -> (r: Option<Right>)
        ensures
            r == spec_right_of(self.rights@, canvas@, user@),
    {
        let n = self.rights.len();
        let mut i: usize = 0;
        proof {
            assert(self.rights@.subrange(0, n as int) =~= self.rights@);
        }
        while i < n
            invariant
                n == self.rights@.len(),
                i <= n,
                spec_right_of(self.rights@, canvas@, user@) == spec_right_of(
                    self.rights@.subrange(i as int, n as int),
                    canvas@,
                    user@,
                ),
            decreases n - i,
        {
            proof {
                let rest = self.rights@.subrange(i as int, n as int);
                assert(rest[0] == self.rights@[i as int]);
                assert(rest.drop_first() =~= self.rights@.subrange(i as int + 1, n as int));
            }
            let row = &self.rights[i];
            if crate::text::str_eq(row.canvas_id.as_str(), canvas) && crate::text::str_eq(
                row.user_id.as_str(),
                user,
            ) {
                return Some(row.right);
            }
            i += 1;
        }
        proof {
            assert(self.rights@.subrange(i as int, n as int) =~= Seq::<RightRow>::empty());
        }
        None
    }

    /// The moderation flag of `canvas`, as the `canvas` table holds it.
    pub fn lookup_moderated(&self, canvas: &str) -> (r: Option<bool>)
        ensures
            r == spec_moderated_of(self.canvases@, canvas@),
    {
        let n = self.canvases.len();
        let mut i: usize = 0;
        proof {
            assert(self.canvases@.subrange(0, n as int) =~= self.canvases@);
        }
        while i < n
            invariant
                n == self.canvases@.len(),
                i <= n,
                spec_moderated_of(self.canvases@, canvas@) == spec_moderated_of(
                    self.canvases@.subrange(i as int, n as int),
                    canvas@,
                ),
            decreases n - i,
        {
            proof {
                let rest = self.canvases@.subrange(i as int, n as int);
                assert(rest[0] == self.canvases@[i as int]);
                assert(rest.drop_first() =~= self.canvases@.subrange(i as int + 1, n as int));
            }
            let row = &self.canvases[i];
            if crate::text::str_eq(row.canvas_id.as_str(), canvas) {
                return Some(row.moderated);
            }
            i += 1;
        }
        proof {
            assert(self.canvases@.subrange(i as int, n as int) =~= Seq::<CanvasRow>::empty());
        }
        None
    }
}

/// `c` with one more frame delivered.
pub open spec fn spec_with_frame(c: ClientView, fr: FrameView) -> ClientView {
    ClientView {
        conn_id: c.conn_id,
        canvas_id: c.canvas_id,
        user_id: c.user_id,
        right: c.right,
        moderated_view: c.moderated_view,
        open: c.open,
        outbox: c.outbox.push(fr),
    }
}

/// What one submitted event does to the system. The sender must be a known
/// open connection whose right allows writing under its moderation view;
/// then the event's JSON form is persisted for the sender's canvas and
/// delivered exactly once to every other open connection of that canvas —
/// never to the sender itself. Otherwise nothing is persisted and nobody
/// observes anything.
pub open spec fn spec_submit_effect(w0: World, w1: World, conn_id: u64, ev: EventView) -> bool {
    let cs0 = clients_view(w0.clients@);
    let cs1 = clients_view(w1.clients@);
    let rs0 = rows_view(w0.store.rows@);
    let rs1 = rows_view(w1.store.rows@);
    match spec_find_client(cs0, conn_id) {
        None => cs1 == cs0 && rs1 == rs0,
        Some(k) => {
            let c = cs0[k];
            if !c.open || !spec_may_write(c.right, c.moderated_view) {
                cs1 == cs0 && rs1 == rs0
            } else {
                let blob = json_of_event(ev);
                &&& rs1 == rs0.push((RowView { canvas_id: c.canvas_id, blob: blob }))
                &&& cs1.len() == cs0.len()
                &&& forall|j: int|
                    0 <= j < cs0.len() ==> #[trigger] cs1[j] == (if j != k && cs0[j].open
                        && cs0[j].canvas_id == c.canvas_id {
                        spec_with_frame(cs0[j], FrameView::Event(blob))
                    } else {
                        cs0[j]
                    })
            }
        },
    }
}

/// `c` after its user's right changed to `rt`, with the notice delivered.
pub open spec fn spec_with_right(c: ClientView, rt: Right) -> ClientView {
    ClientView {
        conn_id: c.conn_id,
        canvas_id: c.canvas_id,
        user_id: c.user_id,
        right: rt,
        moderated_view: c.moderated_view,
        open: c.open,
        outbox: c.outbox.push(
            FrameView::Notice(json_of_event(spec_notice(c.canvas_id, spec_right_payload(rt)))),
        ),
    }
}

/// `c` after its user's right was revoked: the null-right notice is
/// delivered, then the connection closes.
pub open spec fn spec_revoked(c: ClientView) -> ClientView {
    ClientView {
        conn_id: c.conn_id,
        canvas_id: c.canvas_id,
        user_id: c.user_id,
        right: c.right,
        moderated_view: c.moderated_view,
        open: false,
        outbox: c.outbox.push(
            FrameView::Notice(json_of_event(spec_notice(c.canvas_id, spec_revoked_payload()))),
        ),
    }
}

/// `c` after its canvas's moderation flag changed to `m`, with the notice
/// delivered.
pub open spec fn spec_with_moderated(c: ClientView, m: bool) -> ClientView {
    ClientView {
        conn_id: c.conn_id,
        canvas_id: c.canvas_id,
        user_id: c.user_id,
        right: c.right,
        moderated_view: m,
        open: c.open,
        outbox: c.outbox.push(
            FrameView::Notice(json_of_event(spec_notice(c.canvas_id, spec_moderated_payload(m)))),
        ),
    }
}

/// What one control-bus message does to one connection: a right change for
/// this `(canvas, user)` is adopted and announced; a revocation is
/// announced and closes the connection; a moderation change for this
/// canvas is adopted and announced; everything else leaves it untouched,
/// as does anything reaching an already closed connection.
pub open spec fn spec_bus_step(c0: ClientView, c1: ClientView, ev: CanvasDataEvent) -> bool {
    if !c0.open {
        c1 == c0
    } else {
        match ev {
            CanvasDataEvent::RightChanged(cid, uid, nr) => {
                if cid@ == c0.canvas_id && uid@ == c0.user_id {
                    match nr {
                        Some(r) => match Right::spec_of_letter(r@) {
                            Some(rt) => c1 == spec_with_right(c0, rt),
                            None => c1 == c0,
                        },
                        None => c1 == spec_revoked(c0),
                    }
                } else {
                    c1 == c0
                }
            },
            CanvasDataEvent::ModeratedChanged(cid, m) => {
                if cid@ == c0.canvas_id {
                    c1 == spec_with_moderated(c0, m)
                } else {
                    c1 == c0
                }
            },
        }
    }
}

impl World {
    /// One event submitted by connection `conn_id`: apply the handle-write
    /// policy, persist first, then fan out to the sender's canvas peers.
    pub fn submit_event(&mut self, conn_id: u64, e: &CanvasEvent)
        requires
            old(self).wf(),
        ensures
            final(self).wf(),
            final(self).next_id == old(self).next_id,
            final(self).rights@ == old(self).rights@,
            final(self).canvases@ == old(self).canvases@,
            spec_submit_effect(*old(self), *final(self), conn_id, e@),
    {
        let ghost w0 = *self;
        let ghost cs0 = clients_view(w0.clients@);
        let idx = match self.client_index(conn_id) {
            None => {
                return ;
            },
            Some(k) => k,
        };
        proof {
            lemma_find_client(cs0, conn_id);
        }
        if !self.clients[idx].open {
            return ;
        }
        if !crate::rights::may_write(
            self.clients[idx].state.right,
            self.clients[idx].state.moderated_view,
        ) {
            return ;
        }
        let ghost k = idx as int;
        let ghost blob_v = json_of_event(e@);
        let blob = crate::event::encode_event(e);
        let canvas = self.clients[idx].state.canvas_id.clone();
        self.store.append(canvas.clone(), blob.clone());
        let ghost rs0 = rows_view(w0.store.rows@);
        let ghost rs1 = rows_view(self.store.rows@);
        proof {
            assert(rs1 =~= rs0.push((RowView { canvas_id: cs0[k].canvas_id, blob: blob_v })));
        }
        let n = self.clients.len();
        let mut j: usize = 0;
        while j < n
            invariant
                n == self.clients@.len(),
                n == cs0.len(),
                j <= n,
                0 <= k < n,
                idx == k,
                blob@ == blob_v,
                canvas@ == cs0[k].canvas_id,
                cs0 == clients_view(w0.clients@),
                rows_view(self.store.rows@) == rs1,
                self.rights@ == w0.rights@,
                self.canvases@ == w0.canvases@,
                self.next_id == w0.next_id,
                clients_view(self.clients@).len() == cs0.len(),
                forall|t: int|
                    0 <= t < j ==> #[trigger] clients_view(self.clients@)[t] == (if t != k
                        && cs0[t].open && cs0[t].canvas_id == cs0[k].canvas_id {
                        spec_with_frame(cs0[t], FrameView::Event(blob_v))
                    } else {
                        cs0[t]
                    }),
                forall|t: int| j <= t < n ==> #[trigger] clients_view(self.clients@)[t] == cs0[t],
            decreases n - j,
        {
            let ghost prev = self.clients@;
            proof {
                assert(clients_view(prev)[j as int] == cs0[j as int]);
                assert(prev[j as int]@ == cs0[j as int]);
            }
            if j != idx && self.clients[j].open && crate::text::str_eq(
                self.clients[j].state.canvas_id.as_str(),
                canvas.as_str(),
            ) {
                self.clients[j].outbox.push(Frame::Event(blob.clone()));
                proof {
                    let c1 = self.clients@[j as int];
                    assert(self.clients@ =~= prev.update(j as int, c1));
                    assert(c1@.outbox =~= prev[j as int]@.outbox.push(FrameView::Event(blob_v)));
                    assert(c1@ == spec_with_frame(cs0[j as int], FrameView::Event(blob_v)));
                    assert forall|t: int| 0 <= t < n implies #[trigger] clients_view(
                        self.clients@,
                    )[t] == (if t == j as int {
                        c1@
                    } else {
                        clients_view(prev)[t]
                    }) by {
                        assert(clients_view(self.clients@)[t] == self.clients@[t]@);
                    }
                }
            }
            j += 1;
        }
        proof {
            let cs1 = clients_view(self.clients@);
            assert forall|i: int, jj: int|
                0 <= i < jj < cs1.len() implies (#[trigger] cs1[i]).conn_id != (
            #[trigger] cs1[jj]).conn_id by {
                assert(cs1[i].conn_id == cs0[i].conn_id);
                assert(cs1[jj].conn_id == cs0[jj].conn_id);
            }
            assert forall|i: int| 0 <= i < cs1.len() implies (#[trigger] cs1[i]).conn_id
                < self.next_id by {
                assert(cs1[i].conn_id == cs0[i].conn_id);
            }
            assert forall|k2: int, f: int|
                0 <= k2 < cs1.len() && 0 <= f < cs1[k2].outbox.len() implies ((
            #[trigger] cs1[k2].outbox[f]) matches FrameView::Event(b) ==> blob_in(
                rs1,
                cs1[k2].canvas_id,
                b,
            )) by {
                match cs1[k2].outbox[f] {
                    FrameView::Event(b) => {
                        assert(cs1[k2].canvas_id == cs0[k2].canvas_id);
                        if f < cs0[k2].outbox.len() {
                            assert(cs1[k2].outbox[f] == cs0[k2].outbox[f]);
                            assert(blob_in(rs0, cs0[k2].canvas_id, b));
                            lemma_blob_in_push(
                                rs0,
                                (RowView { canvas_id: cs0[k].canvas_id, blob: blob_v }),
                                cs0[k2].canvas_id,
                                b,
                            );
                        } else {
                            assert(cs1[k2] == spec_with_frame(cs0[k2], FrameView::Event(blob_v)));
                            assert(f == cs0[k2].outbox.len());
                            assert(b == blob_v);
                            assert(cs0[k2].canvas_id == cs0[k].canvas_id);
                            assert(rs1[rs1.len() - 1].canvas_id == cs0[k2].canvas_id && rs1[
                                rs1.len() - 1].blob == b);
                        }
                    },
                    _ => {},
                }
            }
        }
    }

    /// Deliver one control-bus message to every live connection. Every
    /// connection of a revoked `(canvas, user)` receives the null-right
    /// notice and closes; right and moderation changes are adopted and
    /// announced; nothing else changes.
    pub fn apply_bus(&mut self, ev: &CanvasDataEvent)
        requires
            old(self).wf(),
        ensures
            final(self).wf(),
            final(self).next_id == old(self).next_id,
            final(self).rights@ == old(self).rights@,
            final(self).canvases@ == old(self).canvases@,
            final(self).store.rows@ == old(self).store.rows@,
            clients_view(final(self).clients@).len() == clients_view(old(self).clients@).len(),
            forall|j: int|
                0 <= j < clients_view(old(self).clients@).len() ==> spec_bus_step(
                    clients_view(old(self).clients@)[j],
                    #[trigger] clients_view(final(self).clients@)[j],
                    *ev,
                ),
    {
        let ghost w0 = *self;
        let ghost cs0 = clients_view(w0.clients@);
        let n = self.clients.len();
        let mut j: usize = 0;
        while j < n
            invariant
                n == self.clients@.len(),
                n == cs0.len(),
                j <= n,
                cs0 == clients_view(w0.clients@),
                self.store.rows@ == w0.store.rows@,
                self.rights@ == w0.rights@,
                self.canvases@ == w0.canvases@,
                self.next_id == w0.next_id,
                clients_view(self.clients@).len() == n,
                forall|t: int|
                    0 <= t < j ==> spec_bus_step(
                        cs0[t],
                        #[trigger] clients_view(self.clients@)[t],
                        *ev,
                    ),
                forall|t: int| j <= t < n ==> #[trigger] clients_view(self.clients@)[t] == cs0[t],
            decreases n - j,
        {
            let ghost prev = self.clients@;
            proof {
                assert(clients_view(prev)[j as int] == cs0[j as int]);
                assert(prev[j as int]@ == cs0[j as int]);
            }
            if self.clients[j].open {
                let action = crate::conn::on_bus_event(&self.clients[j].state, ev);
                match action {
                    BusAction::Ignore => {
                        proof {
                            assert(spec_bus_step(
                                cs0[j as int],
                                clients_view(self.clients@)[j as int],
                                *ev,
                            ));
                        }
                    },
                    BusAction::UpdateRight { new_right, notice } => {
                        let frame = crate::event::encode_event(&notice);
                        self.clients[j].state.right = new_right;
                        self.clients[j].outbox.push(Frame::Notice(frame));
                        proof {
                            let c1 = self.clients@[j as int];
                            assert(self.clients@ =~= prev.update(j as int, c1));
                            assert(c1@.outbox =~= prev[j as int]@.outbox.push(
                                FrameView::Notice(
                                    json_of_event(
                                        spec_notice(
                                            cs0[j as int].canvas_id,
                                            spec_right_payload(new_right),
                                        ),
                                    ),
                                ),
                            ));
                            assert(c1@ == spec_with_right(cs0[j as int], new_right));
                            assert forall|t: int| 0 <= t < n implies #[trigger] clients_view(
                                self.clients@,
                            )[t] == (if t == j as int {
                                c1@
                            } else {
                                clients_view(prev)[t]
                            }) by {
                                assert(clients_view(self.clients@)[t] == self.clients@[t]@);
                            }
                        }
                    },
                    BusAction::Revoke { notice } => {
                        let frame = crate::event::encode_event(&notice);
                        self.clients[j].open = false;
                        self.clients[j].outbox.push(Frame::Notice(frame));
                        proof {
                            let c1 = self.clients@[j as int];
                            assert(self.clients@ =~= prev.update(j as int, c1));
                            assert(c1@.outbox =~= prev[j as int]@.outbox.push(
                                FrameView::Notice(
                                    json_of_event(
                                        spec_notice(
                                            cs0[j as int].canvas_id,
                                            spec_revoked_payload(),
                                        ),
                                    ),
                                ),
                            ));
                            assert(c1@ == spec_revoked(cs0[j as int]));
                            assert forall|t: int| 0 <= t < n implies #[trigger] clients_view(
                                self.clients@,
                            )[t] == (if t == j as int {
                                c1@
                            } else {
                                clients_view(prev)[t]
                            }) by {
                                assert(clients_view(self.clients@)[t] == self.clients@[t]@);
                            }
                        }
                    },
                    BusAction::UpdateModerated { moderated, notice } => {
                        let frame = crate::event::encode_event(&notice);
                        self.clients[j].state.moderated_view = moderated;
                        self.clients[j].outbox.push(Frame::Notice(frame));
                        proof {
                            let c1 = self.clients@[j as int];
                            assert(self.clients@ =~= prev.update(j as int, c1));
                            assert(c1@.outbox =~= prev[j as int]@.outbox.push(
                                FrameView::Notice(
                                    json_of_event(
                                        spec_notice(
                                            cs0[j as int].canvas_id,
                                            spec_moderated_payload(moderated),
                                        ),
                                    ),
                                ),
                            ));
                            assert(c1@ == spec_with_moderated(cs0[j as int], moderated));
                            assert forall|t: int| 0 <= t < n implies #[trigger] clients_view(
                                self.clients@,
                            )[t] == (if t == j as int {
                                c1@
                            } else {
                                clients_view(prev)[t]
                            }) by {
                                assert(clients_view(self.clients@)[t] == self.clients@[t]@);
                            }
                        }
                    },
                }
            }
            j += 1;
        }
        proof {
            let cs1 = clients_view(self.clients@);
            let rs = rows_view(self.store.rows@);
            assert forall|i: int, jj: int|
                0 <= i < jj < cs1.len() implies (#[trigger] cs1[i]).conn_id != (
            #[trigger] cs1[jj]).conn_id by {
                assert(spec_bus_step(cs0[i], cs1[i], *ev));
                assert(spec_bus_step(cs0[jj], cs1[jj], *ev));
                assert(cs1[i].conn_id == cs0[i].conn_id);
                assert(cs1[jj].conn_id == cs0[jj].conn_id);
            }
            assert forall|i: int| 0 <= i < cs1.len() implies (#[trigger] cs1[i]).conn_id
                < self.next_id by {
                assert(spec_bus_step(cs0[i], cs1[i], *ev));
                assert(cs1[i].conn_id == cs0[i].conn_id);
            }
            assert forall|k2: int, f: int|
                0 <= k2 < cs1.len() && 0 <= f < cs1[k2].outbox.len() implies ((
            #[trigger] cs1[k2].outbox[f]) matches FrameView::Event(b) ==> blob_in(
                rs,
                cs1[k2].canvas_id,
                b,
            )) by {
                match cs1[k2].outbox[f] {
                    FrameView::Event(b) => {
                        assert(spec_bus_step(cs0[k2], cs1[k2], *ev));
                        assert(cs1[k2].canvas_id == cs0[k2].canvas_id);
                        assert(f < cs0[k2].outbox.len());
                        assert(cs1[k2].outbox[f] == cs0[k2].outbox[f]);
                        assert(blob_in(rows_view(w0.store.rows@), cs0[k2].canvas_id, b));
                    },
                    _ => {},
                }
            }
        }
    }

    /// Record that `conn_id`'s sink failed: the connection no longer
    /// receives anything and the next fan-out touching its canvas passes
    /// it by.
    pub fn fail_sink(&mut self, conn_id: u64)
        requires
            old(self).wf(),
        ensures
            final(self).wf(),
            final(self).next_id == old(self).next_id,
            final(self).rights@ == old(self).rights@,
            final(self).canvases@ == old(self).canvases@,
            final(self).store.rows@ == old(self).store.rows@,
            clients_view(final(self).clients@).len() == clients_view(old(self).clients@).len(),
            forall|j: int|
                0 <= j < clients_view(old(self).clients@).len()
                    ==> #[trigger] clients_view(final(self).clients@)[j] == (if clients_view(
                    old(self).clients@,
                )[j].conn_id == conn_id {
                    spec_closed(clients_view(old(self).clients@)[j])
                } else {
                    clients_view(old(self).clients@)[j]
                }),
    {
        let ghost w0 = *self;
        let ghost cs0 = clients_view(w0.clients@);
        let n = self.clients.len();
        let mut j: usize = 0;
        while j < n
            invariant
                n == self.clients@.len(),
                n == cs0.len(),
                j <= n,
                cs0 == clients_view(w0.clients@),
                self.store.rows@ == w0.store.rows@,
                self.rights@ == w0.rights@,
                self.canvases@ == w0.canvases@,
                self.next_id == w0.next_id,
                clients_view(self.clients@).len() == n,
                forall|t: int|
                    0 <= t < j ==> #[trigger] clients_view(self.clients@)[t] == (if cs0[t].conn_id
                        == conn_id {
                        spec_closed(cs0[t])
                    } else {
                        cs0[t]
                    }),
                forall|t: int| j <= t < n ==> #[trigger] clients_view(self.clients@)[t] == cs0[t],
            decreases n - j,
        {
            let ghost prev = self.clients@;
            proof {
                assert(clients_view(prev)[j as int] == cs0[j as int]);
                assert(prev[j as int]@ == cs0[j as int]);
            }
            if self.clients[j].conn_id == conn_id {
                self.clients[j].open = false;
                proof {
                    let c1 = self.clients@[j as int];
                    assert(self.clients@ =~= prev.update(j as int, c1));
                    assert(c1@.outbox =~= prev[j as int]@.outbox);
                    assert(c1@ == spec_closed(cs0[j as int]));
                    assert forall|t: int| 0 <= t < n implies #[trigger] clients_view(
                        self.clients@,
                    )[t] == (if t == j as int {
                        c1@
                    } else {
                        clients_view(prev)[t]
                    }) by {
                        assert(clients_view(self.clients@)[t] == self.clients@[t]@);
                    }
                }
            }
            j += 1;
        }
        proof {
            let cs1 = clients_view(self.clients@);
            let rs = rows_view(self.store.rows@);
            assert forall|k2: int, f: int|
                0 <= k2 < cs1.len() && 0 <= f < cs1[k2].outbox.len() implies ((
            #[trigger] cs1[k2].outbox[f]) matches FrameView::Event(b) ==> blob_in(
                rs,
                cs1[k2].canvas_id,
                b,
            )) by {
                match cs1[k2].outbox[f] {
                    FrameView::Event(b) => {
                        assert(cs1[k2].outbox == cs0[k2].outbox);
                        assert(cs1[k2].canvas_id == cs0[k2].canvas_id);
                        assert(blob_in(rows_view(w0.store.rows@), cs0[k2].canvas_id, b));
                    },
                    _ => {},
                }
            }
            assert forall|i: int, jj: int|
                0 <= i < jj < cs1.len() implies (#[trigger] cs1[i]).conn_id != (
            #[trigger] cs1[jj]).conn_id by {
                assert(cs1[i].conn_id == cs0[i].conn_id);
                assert(cs1[jj].conn_id == cs0[jj].conn_id);
            }
            assert forall|i: int| 0 <= i < cs1.len() implies (#[trigger] cs1[i]).conn_id
                < self.next_id by {
                assert(cs1[i].conn_id == cs0[i].conn_id);
            }
        }
    }

    /// A batch of wire lines from connection `conn_id`, starting at index
    /// `start`: apply the handle-write policy, persist every accepted event
    /// in submission order, then fan the batch out to the sender's canvas
    /// peers. A malformed piece closes the connection instead of panicking.
    pub fn process_lines(&mut self, conn_id: u64, lines: &Vec<String>, start: usize)
        requires
            old(self).wf(),
            start <= lines@.len(),
        ensures
            final(self).wf(),
            final(self).next_id == old(self).next_id,
            final(self).rights@ == old(self).rights@,
            final(self).canvases@ == old(self).canvases@,
            spec_lines_effect(
                *old(self),
                *final(self),
                conn_id,
                lines.deep_view().subrange(start as int, lines.deep_view().len() as int),
            ),
    {
        let ghost w0 = *self;
        let ghost cs0 = clients_view(w0.clients@);
        let ghost rs0 = rows_view(w0.store.rows@);
        let idx = match self.client_index(conn_id) {
            None => {
                return ;
            },
            Some(k) => k,
        };
        proof {
            lemma_find_client(cs0, conn_id);
        }
        if !self.clients[idx].open {
            return ;
        }
        let ghost k = idx as int;
        let ghost lv = lines.deep_view().subrange(start as int, lines.deep_view().len() as int);
        let m = lines.len();
        let mut events: Vec<CanvasEvent> = Vec::new();
        let mut ok = true;
        let mut i: usize = start;
        proof {
            assert(lv.subrange(0, lv.len() as int) =~= lv);
            assert(events_view(events@) =~= Seq::<EventView>::empty());
            assert(Seq::<EventView>::empty() + spec_decode_prefix(lv) =~= spec_decode_prefix(lv));
        }
        while i < m && ok
            invariant
                start <= i <= m,
                m == lines.deep_view().len(),
                m - start == lv.len(),
                lv == lines.deep_view().subrange(start as int, m as int),
                self.clients@ == w0.clients@,
                self.store.rows@ == w0.store.rows@,
                self.rights@ == w0.rights@,
                self.canvases@ == w0.canvases@,
                self.next_id == w0.next_id,
                ok ==> spec_decode_prefix(lv) =~= events_view(events@) + spec_decode_prefix(
                    lv.subrange(i as int - start, m as int - start),
                ),
                ok ==> forall|t: int| 0 <= t < i - start ==> event_of_json(#[trigger] lv[t]) is Some,
                !ok ==> events_view(events@) == spec_decode_prefix(lv) && !spec_all_decode(lv),
            decreases m - i,
        {
            proof {
                let rest = lv.subrange(i as int - start, m as int - start);
                assert(rest[0] == lv[i as int - start]);
                assert(rest.drop_first() =~= lv.subrange(i as int + 1 - start, m as int - start));
                assert(lines@[i as int]@ == lines.deep_view()[i as int]);
                assert(lv[i as int - start] == lines.deep_view()[i as int]);
            }
            match crate::event::decode_event(lines[i].as_str()) {
                Some(e) => {
                    let ghost prev_ev = events_view(events@);
                    events.push(e);
                    proof {
                        assert(events_view(events@) =~= prev_ev + seq![e@]);
                        assert((prev_ev + seq![e@]) + spec_decode_prefix(
                            lv.subrange(i as int + 1 - start, m as int - start),
                        ) =~= prev_ev + (seq![e@] + spec_decode_prefix(
                            lv.subrange(i as int + 1 - start, m as int - start),
                        )));
                    }
                },
                None => {
                    ok = false;
                    proof {
                        assert(spec_decode_prefix(lv.subrange(i as int - start, m as int - start))
                            =~= Seq::<EventView>::empty());
                        assert(events_view(events@) + Seq::<EventView>::empty() =~= events_view(
                            events@,
                        ));
                        assert(event_of_json(lv[i as int - start]) is None);
                        assert(!spec_all_decode(lv));
                    }
                },
            }
            i += 1;
        }
        proof {
            if ok {
                assert(lv.subrange(i as int - start, m as int - start) =~= Seq::<Seq<char>>::empty());
                assert(events_view(events@) + Seq::<EventView>::empty() =~= events_view(events@));
                assert(events_view(events@) == spec_decode_prefix(lv));
                assert(spec_all_decode(lv));
            }
        }
        let ghost evs = spec_decode_prefix(lv);
        let ghost all_ok = spec_all_decode(lv);
        proof {
            assert(events_view(events@) == evs);
            assert(ok == all_ok);
        }
        let write = crate::rights::may_write(
            self.clients[idx].state.right,
            self.clients[idx].state.moderated_view,
        );
        let ghost blobs_v = spec_event_blobs(evs);
        if write {
            let canvas = self.clients[idx].state.canvas_id.clone();
            let n_ev = events.len();
            let mut blobs: Vec<String> = Vec::new();
            let mut t: usize = 0;
            proof {
                assert(clients_view(self.clients@)[k] == self.clients@[k]@);
                assert(canvas@ == cs0[k].canvas_id);
                assert(blobs.deep_view() =~= Seq::<Seq<char>>::empty());
                assert(blobs_v.subrange(0, 0) =~= Seq::<Seq<char>>::empty());
                assert(rows_view(self.store.rows@) + spec_rows_for(
                    canvas@,
                    Seq::<Seq<char>>::empty(),
                ) =~= rows_view(self.store.rows@));
            }
            while t < n_ev
                invariant
                    n_ev == events@.len(),
                    t <= n_ev,
                    cs0 == clients_view(w0.clients@),
                    0 <= k < cs0.len(),
                    canvas@ == cs0[k].canvas_id,
                    events_view(events@) == evs,
                    blobs_v == spec_event_blobs(evs),
                    blobs_v.len() == n_ev,
                    blobs.deep_view() =~= blobs_v.subrange(0, t as int),
                    rows_view(self.store.rows@) =~= rs0 + spec_rows_for(
                        canvas@,
                        blobs_v.subrange(0, t as int),
                    ),
                    self.clients@ == w0.clients@,
                    self.rights@ == w0.rights@,
                    self.canvases@ == w0.canvases@,
                    self.next_id == w0.next_id,
                decreases n_ev - t,
            {
                proof {
                    assert(events@[t as int]@ == evs[t as int]);
                    assert(blobs_v[t as int] == json_of_event(evs[t as int]));
                }
                let blob = crate::event::encode_event(&events[t]);
                let ghost prev_rows = rows_view(self.store.rows@);
                let ghost prev_blobs = blobs.deep_view();
                self.store.append(canvas.clone(), blob.clone());
                blobs.push(blob);
                proof {
                    assert(rows_view(self.store.rows@) =~= prev_rows.push(
                        (RowView { canvas_id: canvas@, blob: blobs_v[t as int] }),
                    ));
                    assert(blobs.deep_view() =~= prev_blobs.push(blobs_v[t as int]));
                    assert(blobs.deep_view() =~= blobs_v.subrange(0, t as int + 1));
                    assert(spec_rows_for(canvas@, blobs_v.subrange(0, t as int + 1))
                        =~= spec_rows_for(canvas@, blobs_v.subrange(0, t as int)).push(
                        (RowView { canvas_id: canvas@, blob: blobs_v[t as int] }),
                    ));
                    assert(rows_view(self.store.rows@) =~= rs0 + spec_rows_for(
                        canvas@,
                        blobs_v.subrange(0, t as int + 1),
                    ));
                }
                t += 1;
            }
            proof {
                assert(blobs_v.subrange(0, n_ev as int) =~= blobs_v);
                assert(blobs.deep_view() == blobs_v);
                assert(rows_view(self.store.rows@) =~= rs0 + spec_rows_for(canvas@, blobs_v));
            }
            let ghost rs1 = rows_view(self.store.rows@);
            let n = self.clients.len();
            let mut j: usize = 0;
            while j < n
                invariant
                    n == self.clients@.len(),
                    n == cs0.len(),
                    j <= n,
                    0 <= k < n,
                    idx == k,
                    canvas@ == cs0[k].canvas_id,
                    blobs.deep_view() == blobs_v,
                    cs0 == clients_view(w0.clients@),
                    rows_view(self.store.rows@) == rs1,
                    self.rights@ == w0.rights@,
                    self.canvases@ == w0.canvases@,
                    self.next_id == w0.next_id,
                    clients_view(self.clients@).len() == cs0.len(),
                    forall|q: int|
                        0 <= q < j ==> #[trigger] clients_view(self.clients@)[q] == (if q != k
                            && cs0[q].open && cs0[q].canvas_id == cs0[k].canvas_id {
                            spec_with_frames(cs0[q], spec_event_frames(blobs_v))
                        } else {
                            cs0[q]
                        }),
                    forall|q: int|
                        j <= q < n ==> #[trigger] clients_view(self.clients@)[q] == cs0[q],
                decreases n - j,
            {
                let ghost prev = self.clients@;
                proof {
                    assert(clients_view(prev)[j as int] == cs0[j as int]);
                    assert(prev[j as int]@ == cs0[j as int]);
                }
                if j != idx && self.clients[j].open && crate::text::str_eq(
                    self.clients[j].state.canvas_id.as_str(),
                    canvas.as_str(),
                ) {
                    let n_b = blobs.len();
                    let mut b: usize = 0;
                    proof {
                        assert(spec_event_frames(blobs_v.subrange(0, 0))
                            =~= Seq::<FrameView>::empty());
                        assert(cs0[j as int].outbox + Seq::<FrameView>::empty()
                            =~= cs0[j as int].outbox);
                        assert(clients_view(self.clients@)[j as int] == spec_with_frames(
                            cs0[j as int],
                            spec_event_frames(blobs_v.subrange(0, 0)),
                        ));
                    }
                    while b < n_b
                        invariant
                            n_b == blobs@.len(),
                            b <= n_b,
                            0 <= (j as int) < n,
                            j != idx,
                            n == self.clients@.len(),
                            prev.len() == n,
                            clients_view(prev).len() == n,
                            blobs.deep_view() == blobs_v,
                            cs0 == clients_view(w0.clients@),
                            n == cs0.len(),
                            clients_view(self.clients@).len() == cs0.len(),
                            clients_view(self.clients@)[j as int] == spec_with_frames(
                                cs0[j as int],
                                spec_event_frames(blobs_v.subrange(0, b as int)),
                            ),
                            forall|q: int|
                                0 <= q < n && q != j ==> #[trigger] clients_view(self.clients@)[q]
                                    == clients_view(prev)[q],
                            rows_view(self.store.rows@) == rs1,
                            self.rights@ == w0.rights@,
                            self.canvases@ == w0.canvases@,
                            self.next_id == w0.next_id,
                        decreases n_b - b,
                    {
                        let ghost before = self.clients@;
                        self.clients[j].outbox.push(Frame::Event(blobs[b].clone()));
                        proof {
                            let c1 = self.clients@[j as int];
                            assert(self.clients@ =~= before.update(j as int, c1));
                            assert(blobs@[b as int]@ == blobs_v[b as int]);
                            assert(c1@.outbox =~= before[j as int]@.outbox.push(
                                FrameView::Event(blobs_v[b as int]),
                            ));
                            assert(spec_event_frames(blobs_v.subrange(0, b as int + 1))
                                =~= spec_event_frames(blobs_v.subrange(0, b as int)).push(
                                FrameView::Event(blobs_v[b as int]),
                            ));
                            assert((cs0[j as int].outbox + spec_event_frames(
                                blobs_v.subrange(0, b as int),
                            )).push(FrameView::Event(blobs_v[b as int])) =~= cs0[j as int].outbox
                                + spec_event_frames(blobs_v.subrange(0, b as int + 1)));
                            assert(c1@ == spec_with_frames(
                                cs0[j as int],
                                spec_event_frames(blobs_v.subrange(0, b as int + 1)),
                            ));
                            assert forall|q: int| 0 <= q < n implies #[trigger] clients_view(
                                self.clients@,
                            )[q] == (if q == j as int {
                                c1@
                            } else {
                                clients_view(before)[q]
                            }) by {
                                assert(clients_view(self.clients@)[q] == self.clients@[q]@);
                            }
                        }
                        b += 1;
                    }
                    proof {
                        assert(blobs_v.subrange(0, n_b as int) =~= blobs_v);
                    }
                }
                j += 1;
            }
        }
        if !ok {
            let ghost prev = self.clients@;
            proof {
                assert(clients_view(prev).len() == cs0.len());
                assert(clients_view(prev)[k] == prev[k]@);
                assert(clients_view(prev)[k] == cs0[k]);
            }
            self.clients[idx].open = false;
            proof {
                let c1 = self.clients@[k];
                assert(self.clients@ =~= prev.update(k, c1));
                assert(c1@.outbox =~= prev[k]@.outbox);
                assert(prev[k]@ == cs0[k]);
                assert(c1@ == spec_closed(cs0[k]));
                assert forall|q: int| 0 <= q < cs0.len() implies #[trigger] clients_view(
                    self.clients@,
                )[q] == (if q == k {
                    c1@
                } else {
                    clients_view(prev)[q]
                }) by {
                    assert(clients_view(self.clients@)[q] == self.clients@[q]@);
                }
            }
        }
        proof {
            let cs1 = clients_view(self.clients@);
            let rs1 = rows_view(self.store.rows@);
            if !write {
                assert(rs1 == rs0);
            }
            assert forall|ii: int, jj: int|
                0 <= ii < jj < cs1.len() implies (#[trigger] cs1[ii]).conn_id != (
            #[trigger] cs1[jj]).conn_id by {
                assert(cs1[ii].conn_id == cs0[ii].conn_id);
                assert(cs1[jj].conn_id == cs0[jj].conn_id);
            }
            assert forall|ii: int| 0 <= ii < cs1.len() implies (#[trigger] cs1[ii]).conn_id
                < self.next_id by {
                assert(cs1[ii].conn_id == cs0[ii].conn_id);
            }
            assert forall|k2: int, f: int|
                0 <= k2 < cs1.len() && 0 <= f < cs1[k2].outbox.len() implies ((
            #[trigger] cs1[k2].outbox[f]) matches FrameView::Event(bb) ==> blob_in(
                rs1,
                cs1[k2].canvas_id,
                bb,
            )) by {
                match cs1[k2].outbox[f] {
                    FrameView::Event(bb) => {
                        assert(cs1[k2].canvas_id == cs0[k2].canvas_id);
                        if f < cs0[k2].outbox.len() {
                            assert(cs1[k2].outbox[f] == cs0[k2].outbox[f]);
                            assert(blob_in(rs0, cs0[k2].canvas_id, bb));
                            if write {
                                lemma_blob_in_extend(
                                    rs0,
                                    spec_rows_for(cs0[k].canvas_id, blobs_v),
                                    cs0[k2].canvas_id,
                                    bb,
                                );
                            }
                        } else {
                            let fi = f - cs0[k2].outbox.len();
                            assert(write && k2 != k && cs0[k2].open
                                && cs0[k2].canvas_id == cs0[k].canvas_id);
                            assert(cs1[k2] == spec_with_frames(
                                cs0[k2],
                                spec_event_frames(blobs_v),
                            ));
                            assert(cs1[k2].outbox[f] == spec_event_frames(blobs_v)[fi]);
                            assert(bb == blobs_v[fi]);
                            assert(rs1[rs0.len() + fi].canvas_id == cs0[k2].canvas_id && rs1[
                                rs0.len() + fi].blob == bb);
                        }
                    },
                    _ => {},
                }
            }
        }
    }

    /// One text message from connection `conn_id`: split it into its
    /// newline-separated pieces and process them as a batch.
    pub fn client_message(&mut self, conn_id: u64, text: &str)
        requires
            old(self).wf(),
        ensures
            final(self).wf(),
            final(self).next_id == old(self).next_id,
            final(self).rights@ == old(self).rights@,
            final(self).canvases@ == old(self).canvases@,
            spec_message_effect(*old(self), *final(self), conn_id, text@),
    {
        let lines = crate::text::split_lines(text);
        proof {
            assert(lines.deep_view().subrange(0, lines.deep_view().len() as int) =~= lines.deep_view());
        }
        self.process_lines(conn_id, &lines, 0);
    }

    /// One connection attempt by `user_id` whose init command is
    /// `init_line`: authorize against the tables, reply with the error
    /// frame or the history frame, register the connection, and take the
    /// one-shot management path where it applies. Lines buffered behind the
    /// init command go through `process_lines` afterwards.
    pub fn connect(&mut self, user_id: &str, init_line: &str) -> (r: Option<u64>)
        requires
            old(self).wf(),
            old(self).next_id < u64::MAX,
        ensures
            final(self).wf(),
            final(self).rights@ == old(self).rights@,
            final(self).canvases@ == old(self).canvases@,
            spec_connect_effect(*old(self), *final(self), user_id@, init_line@, r),
    {
        let ghost w0 = *self;
        let ghost cs0 = clients_view(w0.clients@);
        let ghost rs0 = rows_view(w0.store.rows@);
        let init = match crate::event::decode_event(init_line) {
            None => {
                return None;
            },
            Some(e) => e,
        };
        let canvas = init.canvas_id.clone();
        let right = self.lookup_right(canvas.as_str(), user_id);
        let moderated = self.lookup_moderated(canvas.as_str());
        let id = self.next_id;
        self.next_id = id + 1;
        let ghost n0 = cs0.len();
        match (right, moderated) {
            (Some(rt), Some(m)) => {
                let replay = init.asks_history();
                let manage = crate::rights::is_manager(rt) && init.is_manage();
                let mut outbox: Vec<Frame> = Vec::new();
                if replay {
                    let hist = self.store.history(canvas.as_str());
                    outbox.push(Frame::History(crate::event::history_frame(&hist)));
                }
                let me = Client {
                    conn_id: id,
                    state: ConnState {
                        canvas_id: canvas.clone(),
                        user_id: String::from_str(user_id),
                        right: rt,
                        moderated_view: m,
                    },
                    open: !manage,
                    outbox,
                };
                let ghost me_v = me@;
                proof {
                    if replay {
                        assert(me_v.outbox =~= seq![
                            FrameView::History(
                                crate::event::json_of_strings(spec_history(rs0, canvas@)),
                            ),
                        ]);
                    } else {
                        assert(me_v.outbox =~= Seq::<FrameView>::empty());
                    }
                }
                self.clients.push(me);
                proof {
                    assert(clients_view(self.clients@) =~= clients_view(w0.clients@).push(me_v));
                }
                if manage {
                    let blob = crate::event::encode_event(&init);
                    let ghost base = self.clients@;
                    let mut j: usize = 0;
                    let n = self.clients.len() - 1;
                    proof {
                        assert(n == n0);
                    }
                    while j < n
                        invariant
                            n == n0,
                            j <= n,
                            cs0 == clients_view(w0.clients@),
                            n0 == cs0.len(),
                            self.clients@.len() == n0 + 1,
                            blob@ == json_of_event(init@),
                            canvas@ == init@.canvas_id,
                            rows_view(self.store.rows@) == rs0,
                            self.rights@ == w0.rights@,
                            self.canvases@ == w0.canvases@,
                            self.next_id == w0.next_id + 1,
                            clients_view(self.clients@)[n0 as int] == me_v,
                            forall|q: int|
                                0 <= q < j ==> #[trigger] clients_view(self.clients@)[q] == (if cs0[q].open
                                    && cs0[q].canvas_id == canvas@ {
                                    spec_with_frame(cs0[q], FrameView::Manage(json_of_event(init@)))
                                } else {
                                    cs0[q]
                                }),
                            forall|q: int|
                                j <= q < n0 ==> #[trigger] clients_view(self.clients@)[q] == cs0[q],
                        decreases n - j,
                    {
                        let ghost prev = self.clients@;
                        proof {
                            assert(clients_view(prev)[j as int] == cs0[j as int]);
                            assert(prev[j as int]@ == cs0[j as int]);
                        }
                        if self.clients[j].open && crate::text::str_eq(
                            self.clients[j].state.canvas_id.as_str(),
                            canvas.as_str(),
                        ) {
                            self.clients[j].outbox.push(Frame::Manage(blob.clone()));
                            proof {
                                let c1 = self.clients@[j as int];
                                assert(self.clients@ =~= prev.update(j as int, c1));
                                assert(c1@.outbox =~= prev[j as int]@.outbox.push(
                                    FrameView::Manage(json_of_event(init@)),
                                ));
                                assert(c1@ == spec_with_frame(
                                    cs0[j as int],
                                    FrameView::Manage(json_of_event(init@)),
                                ));
                                assert forall|q: int|
                                    0 <= q < n0 + 1 implies #[trigger] clients_view(
                                    self.clients@,
                                )[q] == (if q == j as int {
                                    c1@
                                } else {
                                    clients_view(prev)[q]
                                }) by {
                                    assert(clients_view(self.clients@)[q] == self.clients@[q]@);
                                }
                            }
                        }
                        j += 1;
                    }
                }
                proof {
                    self.lemma_connect_wf(w0, me_v, init@);
                }
                Some(id)
            },
            _ => {
                let mut outbox: Vec<Frame> = Vec::new();
                outbox.push(Frame::Error(crate::event::access_denied_frame()));
                let me = Client {
                    conn_id: id,
                    state: ConnState {
                        canvas_id: canvas,
                        user_id: String::from_str(user_id),
                        right: Right::R,
                        moderated_view: false,
                    },
                    open: false,
                    outbox,
                };
                let ghost me_v = me@;
                proof {
                    assert(me_v.outbox =~= seq![
                        FrameView::Error(crate::event::spec_access_denied_frame()),
                    ]);
                }
                self.clients.push(me);
                proof {
                    assert(clients_view(self.clients@) =~= clients_view(w0.clients@).push(me_v));
                    self.lemma_connect_wf(w0, me_v, init@);
                }
                Some(id)
            },
        }
    }

    /// A committed right change: rewrite the `user_canvas` row and return
    /// the bus message to publish. The table reflects the change before
    /// any subscriber can observe the message.
    pub fn set_right(&mut self, canvas_id: &str, user_id: &str, new_right: Option<Right>) -> (ev:
        CanvasDataEvent)
        requires
            old(self).wf(),
        ensures
            final(self).wf(),
            final(self).clients@ == old(self).clients@,
            final(self).store.rows@ == old(self).store.rows@,
            final(self).canvases@ == old(self).canvases@,
            final(self).next_id == old(self).next_id,
            spec_right_of(final(self).rights@, canvas_id@, user_id@) == new_right,
            ev matches CanvasDataEvent::RightChanged(c, u, nr) && c@ == canvas_id@ && u@
                == user_id@ && (match new_right {
                None => nr is None,
                Some(rt) => nr matches Some(s) && s@ == rt.spec_letter(),
            }),
    {
        let ghost rows0 = self.rights@;
        let n = self.rights.len();
        let mut kept: Vec<RightRow> = Vec::new();
        let mut i: usize = 0;
        proof {
            assert(rows0.subrange(0, n as int) =~= rows0);
            assert(Seq::<RightRow>::empty() + spec_drop_right(rows0, canvas_id@, user_id@)
                =~= spec_drop_right(rows0, canvas_id@, user_id@));
        }
        while i < n
            invariant
                n == self.rights@.len(),
                self.rights@ == rows0,
                i <= n,
                spec_drop_right(rows0, canvas_id@, user_id@) =~= kept@ + spec_drop_right(
                    rows0.subrange(i as int, n as int),
                    canvas_id@,
                    user_id@,
                ),
            decreases n - i,
        {
            proof {
                let rest = rows0.subrange(i as int, n as int);
                assert(rest[0] == rows0[i as int]);
                assert(rest.drop_first() =~= rows0.subrange(i as int + 1, n as int));
            }
            let row = &self.rights[i];
            if !(crate::text::str_eq(row.canvas_id.as_str(), canvas_id) && crate::text::str_eq(
                row.user_id.as_str(),
                user_id,
            )) {
                let ghost old_kept = kept@;
                let row = &self.rights[i];
                kept.push(
                    RightRow {
                        user_id: row.user_id.clone(),
                        canvas_id: row.canvas_id.clone(),
                        right: row.right,
                    },
                );
                proof {
                    assert(kept@[kept@.len() - 1] == rows0[i as int]);
                    assert(kept@ =~= old_kept + seq![rows0[i as int]]);
                    assert((old_kept + seq![rows0[i as int]]) + spec_drop_right(
                        rows0.subrange(i as int + 1, n as int),
                        canvas_id@,
                        user_id@,
                    ) =~= old_kept + (seq![rows0[i as int]] + spec_drop_right(
                        rows0.subrange(i as int + 1, n as int),
                        canvas_id@,
                        user_id@,
                    )));
                }
            }
            i += 1;
        }
        proof {
            assert(rows0.subrange(i as int, n as int) =~= Seq::<RightRow>::empty());
            assert(kept@ + Seq::<RightRow>::empty() =~= kept@);
            lemma_drop_right(rows0, canvas_id@, user_id@);
        }
        match new_right {
            Some(rt) => {
                let ghost dropped = kept@;
                kept.push(
                    RightRow {
                        user_id: String::from_str(user_id),
                        canvas_id: String::from_str(canvas_id),
                        right: rt,
                    },
                );
                self.rights = kept;
                proof {
                    let row = self.rights@[self.rights@.len() - 1];
                    assert(self.rights@ =~= dropped.push(row));
                    lemma_right_of_push(dropped, row, canvas_id@, user_id@);
                }
                CanvasDataEvent::RightChanged(
                    String::from_str(canvas_id),
                    String::from_str(user_id),
                    Some(String::from_str(rt.letter())),
                )
            },
            None => {
                self.rights = kept;
                CanvasDataEvent::RightChanged(
                    String::from_str(canvas_id),
                    String::from_str(user_id),
                    None,
                )
            },
        }
    }

    /// A committed moderation toggle: rewrite the `canvas` row and return
    /// the bus message to publish. The table reflects the change before
    /// any subscriber can observe the message.
    pub fn set_moderated(&mut self, canvas_id: &str, moderated: bool) -> (ev: CanvasDataEvent)
        requires
            old(self).wf(),
        ensures
            final(self).wf(),
            final(self).clients@ == old(self).clients@,
            final(self).store.rows@ == old(self).store.rows@,
            final(self).rights@ == old(self).rights@,
            final(self).next_id == old(self).next_id,
            spec_moderated_of(final(self).canvases@, canvas_id@) == (match spec_moderated_of(
                old(self).canvases@,
                canvas_id@,
            ) {
                Some(_) => Some(moderated),
                None => None,
            }),
            ev matches CanvasDataEvent::ModeratedChanged(c, m) && c@ == canvas_id@ && m
                == moderated,
    {
        let ghost rows0 = self.canvases@;
        let n = self.canvases.len();
        let mut i: usize = 0;
        while i < n
            invariant
                n == self.canvases@.len(),
                rows0.len() == n,
                i <= n,
                self.store.rows@ == old(self).store.rows@,
                self.clients@ == old(self).clients@,
                self.rights@ == old(self).rights@,
                self.next_id == old(self).next_id,
                rows0 == old(self).canvases@,
                forall|t: int|
                    0 <= t < i ==> (#[trigger] self.canvases@[t]).canvas_id@ == rows0[t].canvas_id@
                        && self.canvases@[t].moderated == (if rows0[t].canvas_id@ == canvas_id@ {
                        moderated
                    } else {
                        rows0[t].moderated
                    }),
                forall|t: int| i <= t < n ==> #[trigger] self.canvases@[t] == rows0[t],
            decreases n - i,
        {
            if crate::text::str_eq(self.canvases[i].canvas_id.as_str(), canvas_id) {
                let ghost prev = self.canvases@;
                self.canvases[i].moderated = moderated;
                proof {
                    assert(self.canvases@ =~= prev.update(i as int, self.canvases@[i as int]));
                }
            }
            i += 1;
        }
        proof {
            lemma_moderated_of_update(rows0, self.canvases@, canvas_id@, moderated);
        }
        CanvasDataEvent::ModeratedChanged(String::from_str(canvas_id), moderated)
    }

    /// After a connection record is added — and peers have possibly
    /// received `Manage` frames — the system is still well-formed: the new
    /// id is fresh, and no `Event` frame appeared anywhere.
    proof fn lemma_connect_wf(self, w0: World, me_v: ClientView, init: EventView)
        requires
            w0.wf(),
            self.next_id == w0.next_id + 1,
            me_v.conn_id == w0.next_id,
            forall|f: int|
                0 <= f < me_v.outbox.len() ==> !((#[trigger] me_v.outbox[f]) matches FrameView::Event(_)),
            rows_view(self.store.rows@) == rows_view(w0.store.rows@),
            clients_view(self.clients@).len() == clients_view(w0.clients@).len() + 1,
            clients_view(self.clients@)[clients_view(w0.clients@).len() as int] == me_v,
            forall|q: int|
                0 <= q < clients_view(w0.clients@).len() ==> {
                    let c0 = clients_view(w0.clients@)[q];
                    let c1 = #[trigger] clients_view(self.clients@)[q];
                    c1 == c0 || c1 == spec_with_frame(c0, FrameView::Manage(json_of_event(init)))
                },
        ensures
            self.wf(),
    {
        let cs0 = clients_view(w0.clients@);
        let cs1 = clients_view(self.clients@);
        let rs = rows_view(self.store.rows@);
        let n0 = cs0.len();
        assert forall|i: int, j: int|
            0 <= i < j < cs1.len() implies (#[trigger] cs1[i]).conn_id != (
        #[trigger] cs1[j]).conn_id by {
            if i < n0 {
                assert(cs1[i].conn_id == cs0[i].conn_id);
            }
            if j < n0 {
                assert(cs1[j].conn_id == cs0[j].conn_id);
            }
        }
        assert forall|i: int| 0 <= i < cs1.len() implies (#[trigger] cs1[i]).conn_id
            < self.next_id by {
            if i < n0 {
                assert(cs1[i].conn_id == cs0[i].conn_id);
            }
        }
        assert forall|k2: int, f: int|
            0 <= k2 < cs1.len() && 0 <= f < cs1[k2].outbox.len() implies ((
        #[trigger] cs1[k2].outbox[f]) matches FrameView::Event(b) ==> blob_in(
            rs,
            cs1[k2].canvas_id,
            b,
        )) by {
            match cs1[k2].outbox[f] {
                FrameView::Event(b) => {
                    assert(k2 < n0);
                    assert(cs1[k2].canvas_id == cs0[k2].canvas_id);
                    assert(f < cs0[k2].outbox.len());
                    assert(cs1[k2].outbox[f] == cs0[k2].outbox[f]);
                    assert(blob_in(rows_view(w0.store.rows@), cs0[k2].canvas_id, b));
                },
                _ => {},
            }
        }
    }
}

/// The rights table without any row for `(canvas, user)`.
pub open spec fn spec_drop_right(rows: Seq<RightRow>, canvas: Seq<char>, user: Seq<char>) -> Seq<
    RightRow,
>
    decreases rows.len(),
{
    if rows.len() == 0 {
        Seq::empty()
    } else {
        let rest = spec_drop_right(rows.drop_first(), canvas, user);
        if rows[0].canvas_id@ == canvas && rows[0].user_id@ == user {
            rest
        } else {
            seq![rows[0]] + rest
        }
    }
}

/// After dropping `(canvas, user)` no right remains for the pair, and no
/// other pair's lookup changes.
pub proof fn lemma_drop_right(rows: Seq<RightRow>, canvas: Seq<char>, user: Seq<char>)
    ensures
        spec_right_of(spec_drop_right(rows, canvas, user), canvas, user) is None,
    decreases rows.len(),
{
    if rows.len() > 0 {
        lemma_drop_right(rows.drop_first(), canvas, user);
        let rest = spec_drop_right(rows.drop_first(), canvas, user);
        if !(rows[0].canvas_id@ == canvas && rows[0].user_id@ == user) {
            let w = seq![rows[0]] + rest;
            assert(w[0] == rows[0]);
            assert(w.drop_first() =~= rest);
        }
    }
}

/// Appending a row for `(canvas, user)` to a table without one makes it
/// the pair's right.
pub proof fn lemma_right_of_push(rows: Seq<RightRow>, row: RightRow, canvas: Seq<char>, user: Seq<char>)
    requires
        spec_right_of(rows, canvas, user) is None,
        row.canvas_id@ == canvas,
        row.user_id@ == user,
    ensures
        spec_right_of(rows.push(row), canvas, user) == Some(row.right),
    decreases rows.len(),
{
    let p = rows.push(row);
    if rows.len() == 0 {
        assert(p[0] == row);
    } else {
        assert(p[0] == rows[0]);
        assert(p.drop_first() =~= rows.drop_first().push(row));
        lemma_right_of_push(rows.drop_first(), row, canvas, user);
    }
}

/// A pointwise moderation update changes exactly the canvas's lookup.
pub proof fn lemma_moderated_of_update(
    rows0: Seq<CanvasRow>,
    rows1: Seq<CanvasRow>,
    canvas: Seq<char>,
    m: bool,
)
    requires
        rows0.len() == rows1.len(),
        forall|i: int|
            0 <= i < rows0.len() ==> (#[trigger] rows1[i]).canvas_id@ == rows0[i].canvas_id@
                && rows1[i].moderated == (if rows0[i].canvas_id@ == canvas {
                m
            } else {
                rows0[i].moderated
            }),
    ensures
        spec_moderated_of(rows1, canvas) == (match spec_moderated_of(rows0, canvas) {
            Some(_) => Some(m),
            None => None,
        }),
    decreases rows0.len(),
{
    if rows0.len() > 0 {
        let t0 = rows0.drop_first();
        let t1 = rows1.drop_first();
        assert forall|i: int|
            0 <= i < t0.len() implies (#[trigger] t1[i]).canvas_id@ == t0[i].canvas_id@ && t1[
            i].moderated == (if t0[i].canvas_id@ == canvas {
            m
        } else {
            t0[i].moderated
        }) by {
            assert(t0[i] == rows0[i + 1] && t1[i] == rows1[i + 1]);
        }
        lemma_moderated_of_update(t0, t1, canvas, m);
    }
}

/// The events of a message's lines, in order, up to the first line that is
/// not a well-formed event: processing stops there.
pub open spec fn spec_decode_prefix(lines: Seq<Seq<char>>) -> Seq<EventView>
    decreases lines.len(),
{
    if lines.len() == 0 {
        Seq::empty()
    } else {
        match event_of_json(lines[0]) {
            None => Seq::empty(),
            Some(v) => seq![v] + spec_decode_prefix(lines.drop_first()),
        }
    }
}

/// Every line of the message is a well-formed event.
pub open spec fn spec_all_decode(lines: Seq<Seq<char>>) -> bool {
    forall|i: int| 0 <= i < lines.len() ==> event_of_json(#[trigger] lines[i]) is Some
}

pub open spec fn events_view(s: Seq<CanvasEvent>) -> Seq<EventView> {
    s.map_values(|e: CanvasEvent| e@)
}

/// The wire form of each event, in order.
pub open spec fn spec_event_blobs(evs: Seq<EventView>) -> Seq<Seq<char>> {
    evs.map_values(|v: EventView| json_of_event(v))
}

/// The store rows the blobs become, all for one canvas, in order.
pub open spec fn spec_rows_for(canvas: Seq<char>, blobs: Seq<Seq<char>>) -> Seq<RowView> {
    blobs.map_values(|b: Seq<char>| RowView { canvas_id: canvas, blob: b })
}

/// The frames a peer observes for the blobs, in order.
pub open spec fn spec_event_frames(blobs: Seq<Seq<char>>) -> Seq<FrameView> {
    blobs.map_values(|b: Seq<char>| FrameView::Event(b))
}

/// `c` with a batch of frames delivered, in order.
pub open spec fn spec_with_frames(c: ClientView, frs: Seq<FrameView>) -> ClientView {
    ClientView {
        conn_id: c.conn_id,
        canvas_id: c.canvas_id,
        user_id: c.user_id,
        right: c.right,
        moderated_view: c.moderated_view,
        open: c.open,
        outbox: c.outbox + frs,
    }
}

/// A blob persisted in `rs` stays persisted after more rows are appended.
pub proof fn lemma_blob_in_extend(rs: Seq<RowView>, ext: Seq<RowView>, canvas: Seq<char>, b: Seq<char>)
    requires
        blob_in(rs, canvas, b),
    ensures
        blob_in(rs + ext, canvas, b),
{
    let r = choose|r: int|
        0 <= r < rs.len() && (#[trigger] rs[r]).canvas_id == canvas && rs[r].blob == b;
    assert((rs + ext)[r] == rs[r]);
}

/// What a batch of wire lines from one connection does to the system. The
/// lines are decoded in order up to the first malformed one, which closes
/// the connection. A sender allowed to write under its moderation view has
/// every decoded event persisted for its canvas, in submission order, and
/// then delivered, in that order, exactly to the other open connections of
/// that canvas — never back to the sender. A sender not allowed to write
/// has nothing persisted and no peer observes anything.
pub open spec fn spec_lines_effect(w0: World, w1: World, conn_id: u64, lines: Seq<Seq<char>>) -> bool {
    let evs = spec_decode_prefix(lines);
    let ok = spec_all_decode(lines);
    let cs0 = clients_view(w0.clients@);
    let cs1 = clients_view(w1.clients@);
    let rs0 = rows_view(w0.store.rows@);
    let rs1 = rows_view(w1.store.rows@);
    match spec_find_client(cs0, conn_id) {
        None => cs1 == cs0 && rs1 == rs0,
        Some(k) => {
            let c = cs0[k];
            if !c.open {
                cs1 == cs0 && rs1 == rs0
            } else {
                let write = spec_may_write(c.right, c.moderated_view);
                let blobs = spec_event_blobs(evs);
                &&& rs1 == (if write {
                    rs0 + spec_rows_for(c.canvas_id, blobs)
                } else {
                    rs0
                })
                &&& cs1.len() == cs0.len()
                &&& forall|j: int|
                    0 <= j < cs0.len() ==> #[trigger] cs1[j] == (if j == k {
                        if ok {
                            cs0[k]
                        } else {
                            spec_closed(cs0[k])
                        }
                    } else if write && cs0[j].open && cs0[j].canvas_id == c.canvas_id {
                        spec_with_frames(cs0[j], spec_event_frames(blobs))
                    } else {
                        cs0[j]
                    })
            }
        },
    }
}

/// What one whole text message from a connection does to the system: its
/// newline-separated non-empty pieces, processed as a batch of wire lines.
pub open spec fn spec_message_effect(w0: World, w1: World, conn_id: u64, text: Seq<char>) -> bool {
    spec_lines_effect(w0, w1, conn_id, crate::text::spec_lines(text))
}

/// What one connection attempt does to the system, given the authenticated
/// user and the init command line. An unparsable init line changes nothing.
/// Otherwise a connection record is created under the next id: with no
/// right on the canvas it only receives the error frame and closes; with a
/// right it adopts `(right, moderated)` as looked up, receives the full
/// ordered history exactly when the init command asks for it, and a
/// `manage` init from a moderator or owner is fanned out, unpersisted, to
/// the canvas's open connections, after which the connection ends.
pub open spec fn spec_connect_effect(
    w0: World,
    w1: World,
    user: Seq<char>,
    line: Seq<char>,
    r: Option<u64>,
) -> bool {
    let cs0 = clients_view(w0.clients@);
    let cs1 = clients_view(w1.clients@);
    let rs0 = rows_view(w0.store.rows@);
    let rs1 = rows_view(w1.store.rows@);
    match event_of_json(line) {
        None => r is None && cs1 == cs0 && rs1 == rs0 && w1.next_id == w0.next_id,
        Some(init) => {
            let canvas = init.canvas_id;
            let me = cs1[cs0.len() as int];
            &&& r == Some(w0.next_id)
            &&& w1.next_id == w0.next_id + 1
            &&& cs1.len() == cs0.len() + 1
            &&& me.conn_id == w0.next_id
            &&& me.canvas_id == canvas
            &&& me.user_id == user
            &&& rs1 == rs0
            &&& match (
                spec_right_of(w0.rights@, canvas, user),
                spec_moderated_of(w0.canvases@, canvas),
            ) {
                (Some(rt), Some(m)) => {
                    let replay = init.event_type == "register"@ && init.payload == "true"@;
                    let manage = crate::rights::spec_is_manager(rt) && init.event_type
                        == "manage"@;
                    &&& me.right == rt
                    &&& me.moderated_view == m
                    &&& me.open == !manage
                    &&& me.outbox == (if replay {
                        seq![
                            FrameView::History(
                                crate::event::json_of_strings(spec_history(rs0, canvas)),
                            ),
                        ]
                    } else {
                        Seq::<FrameView>::empty()
                    })
                    &&& forall|j: int|
                        0 <= j < cs0.len() ==> #[trigger] cs1[j] == (if manage && cs0[j].open
                            && cs0[j].canvas_id == canvas {
                            spec_with_frame(cs0[j], FrameView::Manage(json_of_event(init)))
                        } else {
                            cs0[j]
                        })
                },
                _ => {
                    &&& !me.open
                    &&& me.outbox == seq![
                        FrameView::Error(crate::event::spec_access_denied_frame()),
                    ]
                    &&& forall|j: int| 0 <= j < cs0.len() ==> #[trigger] cs1[j] == cs0[j]
                },
            }
        },
    }
}

/// `c` with its sink gone.
pub open spec fn spec_closed(c: ClientView) -> ClientView {
    ClientView {
        conn_id: c.conn_id,
        canvas_id: c.canvas_id,
        user_id: c.user_id,
        right: c.right,
        moderated_view: c.moderated_view,
        open: false,
        outbox: c.outbox,
    }
}

} // verus!
