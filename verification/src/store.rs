//! The event store: append-only persistence of canvas events, modelled as
//! the ordered sequence of rows of the `canvas_events` table. Insertion
//! order is authoritative and defines replay order.

use vstd::prelude::*;
use vstd::string::*;

verus! {

/// One row of `canvas_events`: the canvas and the serialized event blob.
pub struct StoredEvent {
    pub canvas_id: String,
    pub blob: String,
}

/// The mathematical value of a row.
pub ghost struct RowView {
    pub canvas_id: Seq<char>,
    pub blob: Seq<char>,
}

impl View for StoredEvent {
    type V = RowView;

    open spec fn view(&self) -> RowView {
        RowView { canvas_id: self.canvas_id@, blob: self.blob@ }
    }
}

pub open spec fn rows_view(rows: Seq<StoredEvent>) -> Seq<RowView> {
    rows.map_values(|r: StoredEvent| r@)
}

/// The replay history of `canvas`: the blobs of its rows, in insertion
/// order.
pub open spec fn spec_history(rows: Seq<RowView>, canvas: Seq<char>) -> Seq<Seq<char>>
    decreases rows.len(),
{
    if rows.len() == 0 {
        Seq::empty()
    } else {
        let rest = spec_history(rows.drop_first(), canvas);
        if rows[0].canvas_id == canvas {
            seq![rows[0].blob] + rest
        } else {
            rest
        }
    }
}

/// Appending a row extends exactly its own canvas's history, at the end.
pub proof fn lemma_history_append(rows: Seq<RowView>, row: RowView, canvas: Seq<char>)
    ensures
        spec_history(rows.push(row), canvas) == if row.canvas_id == canvas {
            spec_history(rows, canvas) + seq![row.blob]
        } else {
            spec_history(rows, canvas)
        },
    decreases rows.len(),
{
    if rows.len() == 0 {
        let p = rows.push(row);
        assert(p[0] == row);
        assert(p.drop_first() =~= Seq::<RowView>::empty());
        assert(spec_history(Seq::<RowView>::empty(), canvas) == Seq::<Seq<char>>::empty());
        if row.canvas_id == canvas {
            assert(spec_history(p, canvas) =~= seq![row.blob]);
            assert(spec_history(rows, canvas) + seq![row.blob] =~= seq![row.blob]);
        }
    } else {
        let p = rows.push(row);
        assert(p[0] == rows[0]);
        assert(p.drop_first() =~= rows.drop_first().push(row));
        lemma_history_append(rows.drop_first(), row, canvas);
        if row.canvas_id == canvas {
            if rows[0].canvas_id == canvas {
                assert(seq![rows[0].blob] + (spec_history(rows.drop_first(), canvas) + seq![
                    row.blob,
                ]) =~= (seq![rows[0].blob] + spec_history(rows.drop_first(), canvas)) + seq![
                    row.blob,
                ]);
            }
        }
    }
}

/// The `canvas_events` table: rows only ever appended, never rewritten.
pub struct EventStore {
    pub rows: Vec<StoredEvent>,
}

impl EventStore {
    pub fn new() -> (s: EventStore)
        ensures
            s.rows@ == Seq::<StoredEvent>::empty(),
    {
        let s = EventStore { rows: Vec::new() };
        proof {
            assert(s.rows@ =~= Seq::<StoredEvent>::empty());
        }
        s
    }

    /// Durably append one blob for `canvas_id`; its position fixes its
    /// place in every later replay.
    pub fn append(&mut self, canvas_id: String, blob: String)
        ensures
            final(self).rows@ == old(self).rows@.push(
                (StoredEvent { canvas_id: canvas_id, blob: blob }),
            ),
    {
        self.rows.push(StoredEvent { canvas_id, blob });
    }

    /// The ordered history of `canvas`: exactly the blobs persisted for it,
    /// oldest first.
    pub fn history(&self, canvas: &str) -> (r: Vec<String>)
        ensures
            r.deep_view() == spec_history(rows_view(self.rows@), canvas@),
    {
        let n = self.rows.len();
        let mut r: Vec<String> = Vec::new();
        let mut i: usize = 0;
        proof {
            assert(rows_view(self.rows@).subrange(0, n as int) =~= rows_view(
                self.rows@.subrange(0, n as int),
            ));
            assert(self.rows@.subrange(0, n as int) =~= self.rows@);
            assert(r.deep_view() =~= Seq::<Seq<char>>::empty());
            assert(Seq::<Seq<char>>::empty() + spec_history(rows_view(self.rows@), canvas@)
                =~= spec_history(rows_view(self.rows@), canvas@));
        }
        while i < n
            invariant
                n == self.rows@.len(),
                i <= n,
                spec_history(rows_view(self.rows@), canvas@) =~= r.deep_view() + spec_history(
                    rows_view(self.rows@).subrange(i as int, n as int),
                    canvas@,
                ),
            decreases n - i,
        {
            proof {
                let rest = rows_view(self.rows@).subrange(i as int, n as int);
                assert(rest[0] == rows_view(self.rows@)[i as int]);
                assert(rows_view(self.rows@)[i as int] == self.rows@[i as int]@);
                assert(rest.drop_first() =~= rows_view(self.rows@).subrange(
                    i as int + 1,
                    n as int,
                ));
            }
            if crate::text::str_eq(self.rows[i].canvas_id.as_str(), canvas) {
                let ghost old_r = r.deep_view();
                r.push(self.rows[i].blob.clone());
                proof {
                    assert(r.deep_view() =~= old_r + seq![self.rows@[i as int].blob@]);
                    assert((old_r + seq![self.rows@[i as int].blob@]) + spec_history(
                        rows_view(self.rows@).subrange(i as int + 1, n as int),
                        canvas@,
                    ) =~= old_r + (seq![self.rows@[i as int].blob@] + spec_history(
                        rows_view(self.rows@).subrange(i as int + 1, n as int),
                        canvas@,
                    )));
                }
            }
            i += 1;
        }
        proof {
            assert(rows_view(self.rows@).subrange(i as int, n as int) =~= Seq::<RowView>::empty());
            assert(r.deep_view() + Seq::<Seq<char>>::empty() =~= r.deep_view());
        }
        r
    }
}

} // verus!
