//! The canvas hub: the table mapping each registered connection to its
//! canvas, a monotonic id counter, peer selection for fan-out, and eviction
//! of connections whose sink failed.
//!
//! The hub owns only the membership table; the sinks themselves are held by
//! the surrounding transport code, keyed by the ids this table assigns.

use vstd::prelude::*;

verus! {

/// One registered connection: the id the hub assigned and the canvas it
/// subscribed to.
pub struct HubConn {
    pub conn_id: u64,
    pub canvas_id: String,
}

/// All connection ids in the table are pairwise distinct.
pub open spec fn ids_distinct(s: Seq<HubConn>) -> bool {
    forall|i: int, j: int|
        0 <= i < j < s.len() ==> (#[trigger] s[i]).conn_id != (#[trigger] s[j]).conn_id
}

/// The entry of `id`, if it is registered.
pub open spec fn spec_find(s: Seq<HubConn>, id: u64) -> Option<HubConn>
    decreases s.len(),
{
    if s.len() == 0 {
        None
    } else if s[0].conn_id == id {
        Some(s[0])
    } else {
        spec_find(s.drop_first(), id)
    }
}

/// The ids fan-out from `from_id` must reach: every registered connection on
/// `canvas` except `from_id` itself, in table order.
pub open spec fn spec_peers_of(s: Seq<HubConn>, canvas: Seq<char>, from_id: u64) -> Seq<u64>
    decreases s.len(),
{
    if s.len() == 0 {
        Seq::empty()
    } else {
        let rest = spec_peers_of(s.drop_first(), canvas, from_id);
        if s[0].canvas_id@ == canvas && s[0].conn_id != from_id {
            seq![s[0].conn_id] + rest
        } else {
            rest
        }
    }
}

/// `id` is a connection on `canvas` other than `from_id`.
pub open spec fn spec_is_peer(s: Seq<HubConn>, canvas: Seq<char>, from_id: u64, id: u64) -> bool {
    id != from_id && exists|i: int|
        0 <= i < s.len() && (#[trigger] s[i]).conn_id == id && s[i].canvas_id@ == canvas
}

/// The table kept after evicting the ids in `failed`.
pub open spec fn spec_evict(s: Seq<HubConn>, failed: Seq<u64>) -> Seq<HubConn>
    decreases s.len(),
{
    if s.len() == 0 {
        Seq::empty()
    } else {
        let rest = spec_evict(s.drop_first(), failed);
        if failed.contains(s[0].conn_id) {
            rest
        } else {
            seq![s[0]] + rest
        }
    }
}

/// The peer list holds exactly the peers, each exactly once.
pub proof fn lemma_peers_exact(s: Seq<HubConn>, canvas: Seq<char>, from_id: u64)
    requires
        ids_distinct(s),
    ensures
        forall|id: u64|
            spec_peers_of(s, canvas, from_id).contains(id) <==> spec_is_peer(
                s,
                canvas,
                from_id,
                id,
            ),
        forall|i: int, j: int|
            0 <= i < j < spec_peers_of(s, canvas, from_id).len() ==> spec_peers_of(
                s,
                canvas,
                from_id,
            )[i] != spec_peers_of(s, canvas, from_id)[j],
    decreases s.len(),
{
    let p = spec_peers_of(s, canvas, from_id);
    if s.len() == 0 {
        assert forall|id: u64| p.contains(id) <==> spec_is_peer(s, canvas, from_id, id) by {
            if p.contains(id) {
                assert(false);
            }
            if spec_is_peer(s, canvas, from_id, id) {
                let i = choose|i: int|
                    0 <= i < s.len() && (#[trigger] s[i]).conn_id == id && s[i].canvas_id@
                        == canvas;
                assert(false);
            }
        }
    } else {
        let t = s.drop_first();
        assert(ids_distinct(t)) by {
            assert forall|i: int, j: int|
                0 <= i < j < t.len() implies (#[trigger] t[i]).conn_id != (#[trigger] t[j]).conn_id by {
                assert(t[i] == s[i + 1] && t[j] == s[j + 1]);
            }
        }
        lemma_peers_exact(t, canvas, from_id);
        let rest = spec_peers_of(t, canvas, from_id);
        assert forall|id: u64| p.contains(id) implies spec_is_peer(s, canvas, from_id, id) by {
            if s[0].canvas_id@ == canvas && s[0].conn_id != from_id {
                let k = choose|k: int| 0 <= k < p.len() && p[k] == id;
                if k == 0 {
                    assert(s[0].conn_id == id);
                } else {
                    assert(rest[k - 1] == id);
                    assert(rest.contains(id));
                    assert(spec_is_peer(t, canvas, from_id, id));
                    let i = choose|i: int|
                        0 <= i < t.len() && (#[trigger] t[i]).conn_id == id && t[i].canvas_id@
                            == canvas;
                    assert(s[i + 1] == t[i]);
                    assert((s[i + 1]).conn_id == id && s[i + 1].canvas_id@ == canvas);
                }
            } else {
                assert(rest.contains(id));
                assert(spec_is_peer(t, canvas, from_id, id));
                let i = choose|i: int|
                    0 <= i < t.len() && (#[trigger] t[i]).conn_id == id && t[i].canvas_id@
                        == canvas;
                assert(s[i + 1] == t[i]);
                assert((s[i + 1]).conn_id == id && s[i + 1].canvas_id@ == canvas);
            }
        }
        assert forall|id: u64| spec_is_peer(s, canvas, from_id, id) implies p.contains(id) by {
            let i = choose|i: int|
                0 <= i < s.len() && (#[trigger] s[i]).conn_id == id && s[i].canvas_id@ == canvas;
            if i == 0 {
                assert(p[0] == id);
            } else {
                assert(t[i - 1] == s[i]);
                assert(spec_is_peer(t, canvas, from_id, id));
                assert(rest.contains(id));
                let k = choose|k: int| 0 <= k < rest.len() && rest[k] == id;
                if s[0].canvas_id@ == canvas && s[0].conn_id != from_id {
                    assert(p[k + 1] == id);
                } else {
                    assert(p[k] == id);
                }
            }
        }
        assert forall|i: int, j: int| 0 <= i < j < p.len() implies p[i] != p[j] by {
            if s[0].canvas_id@ == canvas && s[0].conn_id != from_id {
                if i == 0 {
                    assert(rest[j - 1] == p[j]);
                    assert(rest.contains(p[j]));
                    assert(spec_is_peer(t, canvas, from_id, p[j]));
                    let m = choose|m: int|
                        0 <= m < t.len() && (#[trigger] t[m]).conn_id == p[j] && t[m].canvas_id@
                            == canvas;
                    assert(s[m + 1] == t[m]);
                    assert(s[0].conn_id != s[m + 1].conn_id);
                } else {
                    assert(p[i] == rest[i - 1] && p[j] == rest[j - 1]);
                }
            } else {
                assert(p[i] == rest[i] && p[j] == rest[j]);
            }
        }
    }
}

/// After eviction nothing with a failed id remains, and everything else
/// remains in order.
pub proof fn lemma_evict_exact(s: Seq<HubConn>, failed: Seq<u64>)
    ensures
        forall|id: u64|
            failed.contains(id) ==> spec_find(spec_evict(s, failed), id) is None,
        forall|i: int|
            0 <= i < spec_evict(s, failed).len() ==> {
                &&& !failed.contains((#[trigger] spec_evict(s, failed)[i]).conn_id)
                &&& exists|j: int| 0 <= j < s.len() && #[trigger] s[j] == spec_evict(s, failed)[i]
            },
    decreases s.len(),
{
    let e = spec_evict(s, failed);
    if s.len() == 0 {
        assert forall|id: u64| failed.contains(id) implies spec_find(e, id) is None by {}
    } else {
        let t = s.drop_first();
        lemma_evict_exact(t, failed);
        let rest = spec_evict(t, failed);
        assert forall|id: u64| failed.contains(id) implies spec_find(e, id) is None by {
            lemma_find_not_in(rest, id);
            if !failed.contains(s[0].conn_id) {
                assert(e == seq![s[0]] + rest);
                assert(e[0] == s[0]);
                assert(e.drop_first() =~= rest);
            }
        }
        assert forall|i: int| 0 <= i < e.len() implies !failed.contains(
            (#[trigger] e[i]).conn_id,
        ) && exists|j: int| 0 <= j < s.len() && #[trigger] s[j] == e[i] by {
            if failed.contains(s[0].conn_id) {
                assert(e[i] == rest[i]);
                let j = choose|j: int| 0 <= j < t.len() && #[trigger] t[j] == rest[i];
                assert(s[j + 1] == e[i]);
            } else {
                if i == 0 {
                    assert(e[0] == s[0]);
                } else {
                    assert(e[i] == rest[i - 1]);
                    let j = choose|j: int| 0 <= j < t.len() && #[trigger] t[j] == rest[i - 1];
                    assert(s[j + 1] == e[i]);
                }
            }
        }
    }
}

/// A sequence in which no entry has id `id` finds nothing for `id`.
pub proof fn lemma_find_not_in(s: Seq<HubConn>, id: u64)
    requires
        forall|i: int| 0 <= i < s.len() ==> (#[trigger] s[i]).conn_id != id,
    ensures
        spec_find(s, id) is None,
    decreases s.len(),
{
    if s.len() > 0 {
        assert forall|i: int| 0 <= i < s.drop_first().len() implies (#[trigger] s.drop_first()[i]).conn_id
            != id by {
            assert(s.drop_first()[i] == s[i + 1]);
        }
        lemma_find_not_in(s.drop_first(), id);
    }
}

/// The fan-out hub's own state: the registration table and the monotonic id
/// counter. Ids are never reused within one run.
pub struct Hub {
    pub next_id: u64,
    pub conns: Vec<HubConn>,
}

impl Hub {
    /// Every id in the table was assigned by the counter, and no id twice.
    pub open spec fn wf(self) -> bool {
        &&& ids_distinct(self.conns@)
        &&& forall|i: int|
            0 <= i < self.conns@.len() ==> (#[trigger] self.conns@[i]).conn_id < self.next_id
    }

    pub fn new() -> (h: Hub)
        ensures
            h.wf(),
            h.conns@ == Seq::<HubConn>::empty(),
            h.next_id == 0,
    {
        let h = Hub { next_id: 0, conns: Vec::new() };
        proof {
            assert(h.conns@ =~= Seq::<HubConn>::empty());
        }
        h
    }

    /// Accept a registration: assign the next id and enter the connection
    /// into the table.
    pub fn register(&mut self, canvas_id: String) -> (id: u64)
        requires
            old(self).wf(),
            old(self).next_id < u64::MAX,
        ensures
            final(self).wf(),
            id == old(self).next_id,
            final(self).next_id == old(self).next_id + 1,
            final(self).conns@ == old(self).conns@.push(
                (HubConn { conn_id: id, canvas_id: canvas_id }),
            ),
    {
        let id = self.next_id;
        self.next_id = self.next_id + 1;
        self.conns.push(HubConn { conn_id: id, canvas_id });
        proof {
            let c = self.conns@;
            assert forall|i: int, j: int|
                0 <= i < j < c.len() implies (#[trigger] c[i]).conn_id != (#[trigger] c[j]).conn_id by {
                if j == c.len() - 1 {
                    assert(c[i] == old(self).conns@[i]);
                }
            }
        }
        id
    }

    /// The canvas `id` subscribed to, if it is registered.
    pub fn canvas_of(&self, id: u64) -> (r: Option<&String>)
        ensures
            r is Some <==> spec_find(self.conns@, id) is Some,
            r is Some ==> r.unwrap()@ == spec_find(self.conns@, id).unwrap().canvas_id@,
    {
        let n = self.conns.len();
        let mut i: usize = 0;
        proof {
            assert(self.conns@.subrange(0, n as int) =~= self.conns@);
        }
        while i < n
            invariant
                n == self.conns@.len(),
                i <= n,
                spec_find(self.conns@, id) == spec_find(
                    self.conns@.subrange(i as int, n as int),
                    id,
                ),
                forall|k: int| 0 <= k < i ==> (#[trigger] self.conns@[k]).conn_id != id,
            decreases n - i,
        {
            proof {
                let rest = self.conns@.subrange(i as int, n as int);
                assert(rest[0] == self.conns@[i as int]);
                assert(rest.drop_first() =~= self.conns@.subrange(i as int + 1, n as int));
            }
            if self.conns[i].conn_id == id {
                return Some(&self.conns[i].canvas_id);
            }
            i += 1;
        }
        proof {
            assert(self.conns@.subrange(i as int, n as int) =~= Seq::<HubConn>::empty());
        }
        None
    }

    /// The ids one fan-out from `from_id` must reach: every connection on
    /// the sender's canvas except the sender itself, each exactly once. A
    /// sender that is not registered reaches nobody.
    pub fn peers(&self, from_id: u64) -> (r: Vec<u64>)
        requires
            self.wf(),
        ensures
            match spec_find(self.conns@, from_id) {
                Some(c) => r@ == spec_peers_of(self.conns@, c.canvas_id@, from_id),
                None => r@ == Seq::<u64>::empty(),
            },
            forall|i: int| 0 <= i < r@.len() ==> r@[i] != from_id,
            forall|i: int, j: int| 0 <= i < j < r@.len() ==> r@[i] != r@[j],
    {
        let me = match self.canvas_of(from_id) {
            Some(c) => c.clone(),
            None => {
                let r: Vec<u64> = Vec::new();
                proof {
                    assert(r@ =~= Seq::<u64>::empty());
                }
                return r;
            },
        };
        let ghost canvas = spec_find(self.conns@, from_id).unwrap().canvas_id@;
        let n = self.conns.len();
        let mut r: Vec<u64> = Vec::new();
        let mut i: usize = 0;
        proof {
            assert(self.conns@.subrange(0, n as int) =~= self.conns@);
            assert(Seq::<u64>::empty() + spec_peers_of(self.conns@, canvas, from_id)
                =~= spec_peers_of(self.conns@, canvas, from_id));
        }
        while i < n
            invariant
                n == self.conns@.len(),
                i <= n,
                me@ == canvas,
                spec_peers_of(self.conns@, canvas, from_id) =~= r@ + spec_peers_of(
                    self.conns@.subrange(i as int, n as int),
                    canvas,
                    from_id,
                ),
            decreases n - i,
        {
            proof {
                let rest = self.conns@.subrange(i as int, n as int);
                assert(rest[0] == self.conns@[i as int]);
                assert(rest.drop_first() =~= self.conns@.subrange(i as int + 1, n as int));
            }
            let c = &self.conns[i];
            if c.conn_id != from_id && crate::text::str_eq(c.canvas_id.as_str(), me.as_str()) {
                let ghost old_r = r@;
                r.push(c.conn_id);
                proof {
                    assert(r@ =~= old_r + seq![self.conns@[i as int].conn_id]);
                    assert((old_r + seq![self.conns@[i as int].conn_id]) + spec_peers_of(
                        self.conns@.subrange(i as int + 1, n as int),
                        canvas,
                        from_id,
                    ) =~= old_r + (seq![self.conns@[i as int].conn_id] + spec_peers_of(
                        self.conns@.subrange(i as int + 1, n as int),
                        canvas,
                        from_id,
                    )));
                }
            }
            i += 1;
        }
        proof {
            assert(self.conns@.subrange(i as int, n as int) =~= Seq::<HubConn>::empty());
            assert(r@ + Seq::<u64>::empty() =~= r@);
            lemma_peers_exact(self.conns@, canvas, from_id);
            assert forall|k: int| 0 <= k < r@.len() implies r@[k] != from_id by {
                assert(r@.contains(r@[k]));
                assert(spec_peers_of(self.conns@, canvas, from_id).contains(r@[k]));
                assert(spec_is_peer(self.conns@, canvas, from_id, r@[k]));
            }
            assert forall|a: int, b: int| 0 <= a < b < r@.len() implies r@[a] != r@[b] by {
                assert(r@[a] == spec_peers_of(self.conns@, canvas, from_id)[a]);
                assert(r@[b] == spec_peers_of(self.conns@, canvas, from_id)[b]);
            }
        }
        r
    }

    /// Evict the connections whose sinks failed during a fan-out. None of
    /// them remains in the table; everything else stays, in order.
    pub fn evict_failed(&mut self, failed: &Vec<u64>)
        requires
            old(self).wf(),
        ensures
            final(self).wf(),
            final(self).next_id == old(self).next_id,
            final(self).conns@ == spec_evict(old(self).conns@, failed@),
            forall|id: u64| failed@.contains(id) ==> spec_find(final(self).conns@, id) is None,
    {
        let ghost orig = self.conns@;
        let n = self.conns.len();
        let mut kept: Vec<HubConn> = Vec::new();
        let mut i: usize = 0;
        proof {
            assert(orig.subrange(0, n as int) =~= orig);
            assert(Seq::<HubConn>::empty() + spec_evict(orig, failed@) =~= spec_evict(
                orig,
                failed@,
            ));
        }
        while i < n
            invariant
                n == self.conns@.len(),
                self.conns@ == orig,
                i <= n,
                spec_evict(orig, failed@) =~= kept@ + spec_evict(
                    orig.subrange(i as int, n as int),
                    failed@,
                ),
            decreases n - i,
        {
            proof {
                let rest = orig.subrange(i as int, n as int);
                assert(rest[0] == orig[i as int]);
                assert(rest.drop_first() =~= orig.subrange(i as int + 1, n as int));
            }
            if !contains_id(failed, self.conns[i].conn_id) {
                let ghost old_kept = kept@;
                let c = &self.conns[i];
                kept.push(HubConn { conn_id: c.conn_id, canvas_id: c.canvas_id.clone() });
                proof {
                    assert(kept@[kept@.len() - 1] == orig[i as int]);
                    assert(kept@ =~= old_kept + seq![orig[i as int]]);
                    assert((old_kept + seq![orig[i as int]]) + spec_evict(
                        orig.subrange(i as int + 1, n as int),
                        failed@,
                    ) =~= old_kept + (seq![orig[i as int]] + spec_evict(
                        orig.subrange(i as int + 1, n as int),
                        failed@,
                    )));
                }
            }
            i += 1;
        }
        proof {
            assert(orig.subrange(i as int, n as int) =~= Seq::<HubConn>::empty());
            assert(kept@ + Seq::<HubConn>::empty() =~= kept@);
        }
        self.conns = kept;
        proof {
            lemma_evict_exact(orig, failed@);
            let c = self.conns@;
            assert forall|i: int, j: int|
                0 <= i < j < c.len() implies (#[trigger] c[i]).conn_id != (#[trigger] c[j]).conn_id by {
                assert(c[i] == spec_evict(orig, failed@)[i]);
                assert(c[j] == spec_evict(orig, failed@)[j]);
                lemma_evict_keeps_order(orig, failed@, i, j);
            }
            assert forall|k: int| 0 <= k < c.len() implies (#[trigger] c[k]).conn_id
                < self.next_id by {
                assert(c[k] == spec_evict(orig, failed@)[k]);
                let j = choose|j: int|
                    0 <= j < orig.len() && #[trigger] orig[j] == spec_evict(orig, failed@)[k];
                assert((orig[j]).conn_id < self.next_id);
            }
        }
    }
}

/// Entries kept by an eviction stem from strictly increasing positions of
/// the original table: order is preserved and no entry is duplicated.
pub proof fn lemma_evict_keeps_order(s: Seq<HubConn>, failed: Seq<u64>, i: int, j: int)
    requires
        ids_distinct(s),
        0 <= i < j < spec_evict(s, failed).len(),
    ensures
        spec_evict(s, failed)[i].conn_id != spec_evict(s, failed)[j].conn_id,
    decreases s.len(),
{
    let e = spec_evict(s, failed);
    let t = s.drop_first();
    assert(s.len() > 0);
    assert(ids_distinct(t)) by {
        assert forall|a: int, b: int|
            0 <= a < b < t.len() implies (#[trigger] t[a]).conn_id != (#[trigger] t[b]).conn_id by {
            assert(t[a] == s[a + 1] && t[b] == s[b + 1]);
        }
    }
    let rest = spec_evict(t, failed);
    if failed.contains(s[0].conn_id) {
        lemma_evict_keeps_order(t, failed, i, j);
    } else {
        if i == 0 {
            assert(e[j] == rest[j - 1]);
            lemma_evict_exact(t, failed);
            let k = choose|k: int| 0 <= k < t.len() && #[trigger] t[k] == rest[j - 1];
            assert(s[k + 1] == t[k]);
        } else {
            assert(e[i] == rest[i - 1] && e[j] == rest[j - 1]);
            lemma_evict_keeps_order(t, failed, i - 1, j - 1);
        }
    }
}

/// Whether `x` occurs in `v`.
pub fn contains_id(v: &Vec<u64>, x: u64) -> (b: bool)
    ensures
        b == v@.contains(x),
{
    let n = v.len();
    let mut i: usize = 0;
    while i < n
        invariant
            n == v@.len(),
            i <= n,
            forall|k: int| 0 <= k < i ==> v@[k] != x,
        decreases n - i,
    {
        if v[i] == x {
            return true;
        }
        i += 1;
    }
    proof {
        if v@.contains(x) {
            let k = choose|k: int| 0 <= k < v@.len() && v@[k] == x;
        }
    }
    false
}

} // verus!
