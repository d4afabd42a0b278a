use vstd::prelude::*;

use crate::request::{
    outcome_of_reply, timeout_resolution, Command, PendingRequest, Reply, RequestOutcome,
    Resolution,
};

verus! {

/// Whether some request in `s` carries correlation key `id`.
pub open spec fn contains_id(s: Seq<PendingRequest>, id: u64) -> bool {
    exists|i: int| 0 <= i < s.len() && (#[trigger] s[i]).id == id
}

/// Keys strictly increase along the table, so no two requests share one.
pub open spec fn ids_increasing(s: Seq<PendingRequest>) -> bool {
    forall|i: int, j: int| 0 <= i < j < s.len() ==> (#[trigger] s[i]).id < (#[trigger] s[j]).id
}

/// Holds of the requests not keyed `id`.
pub open spec fn other_than(id: u64) -> spec_fn(PendingRequest) -> bool {
    |p: PendingRequest| p.id != id
}

/// Holds of the requests whose deadline lies after instant `now`.
pub open spec fn waiting_at(now: u64) -> spec_fn(PendingRequest) -> bool {
    |p: PendingRequest| now < p.deadline
}

/// Holds of the requests whose deadline has been reached at instant `now`.
pub open spec fn expired_at(now: u64) -> spec_fn(PendingRequest) -> bool {
    |p: PendingRequest| p.deadline <= now
}

/// The table once the request keyed `id`, if any, has been resolved.
pub open spec fn without_id(s: Seq<PendingRequest>, id: u64) -> Seq<PendingRequest> {
    s.filter(other_than(id))
}

/// The requests whose deadline has not been reached at instant `now`.
pub open spec fn still_waiting(s: Seq<PendingRequest>, now: u64) -> Seq<PendingRequest> {
    s.filter(waiting_at(now))
}

/// The requests whose deadline has been reached at instant `now`, in the
/// order they were dispatched.
pub open spec fn timed_out(s: Seq<PendingRequest>, now: u64) -> Seq<PendingRequest> {
    s.filter(expired_at(now))
}

/// The deadline of a request dispatched at `now`: `now + timeout`, held at
/// the largest instant the clock can show.
pub open spec fn deadline_after(now: u64, timeout: u64) -> u64 {
    if now as int + timeout as int > u64::MAX as int {
        u64::MAX
    } else {
        (now + timeout) as u64
    }
}

/// Resolving requests never reorders the ones left: a table whose keys
/// increase still has increasing keys once some requests leave it.
pub proof fn lemma_filter_keeps_order(s: Seq<PendingRequest>, pred: spec_fn(PendingRequest) -> bool)
    requires
        ids_increasing(s),
    ensures
        ids_increasing(s.filter(pred)),
    decreases s.len(),
{
    if s.len() > 0 {
        let t = s.drop_last();
        let x = s.last();
        assert(t.push(x) =~= s);
        assert(ids_increasing(t)) by {
            assert forall|i: int, j: int| 0 <= i < j < t.len() implies (#[trigger] t[i]).id < (
            #[trigger] t[j]).id by {
                assert(t[i] == s[i] && t[j] == s[j]);
            }
        }
        lemma_filter_keeps_order(t, pred);
        t.lemma_filter_push(x, pred);
        t.filter_lemma(pred);
        if pred(x) {
            let f = t.filter(pred);
            let g = f.push(x);
            assert forall|i: int, j: int| 0 <= i < j < g.len() implies (#[trigger] g[i]).id < (
            #[trigger] g[j]).id by {
                if j == f.len() {
                    assert(f.contains(f[i]));
                    t.lemma_filter_contains_rev(pred, f[i]);
                    let k = choose|k: int| 0 <= k < t.len() && t[k] == f[i];
                    assert(s[k] == t[k]);
                    assert(s[s.len() - 1] == x);
                } else {
                    assert(g[i] == f[i] && g[j] == f[j]);
                }
            }
        }
    }
}

/// A request is found among the survivors of a filter only if it was in the
/// table and passed the filter.
proof fn lemma_contains_id_filter(
    s: Seq<PendingRequest>,
    pred: spec_fn(PendingRequest) -> bool,
    id: u64,
)
    requires
        contains_id(s.filter(pred), id),
    ensures
        exists|i: int| 0 <= i < s.len() && (#[trigger] s[i]).id == id && pred(s[i]),
{
    let f = s.filter(pred);
    s.filter_lemma(pred);
    let k = choose|k: int| 0 <= k < f.len() && (#[trigger] f[k]).id == id;
    assert(f.contains(f[k]));
    s.lemma_filter_contains_rev(pred, f[k]);
    let i = choose|i: int| 0 <= i < s.len() && s[i] == f[k];
    assert(s[i].id == id && pred(s[i]));
}

/// A filter that keeps every request leaves the table as it was.
proof fn lemma_filter_keeps_all(s: Seq<PendingRequest>, pred: spec_fn(PendingRequest) -> bool)
    requires
        forall|i: int| 0 <= i < s.len() ==> pred(#[trigger] s[i]),
    ensures
        s.filter(pred) == s,
    decreases s.len(),
{
    if s.len() > 0 {
        let t = s.drop_last();
        assert(t.push(s.last()) =~= s);
        assert forall|i: int| 0 <= i < t.len() implies pred(#[trigger] t[i]) by {
            assert(t[i] == s[i]);
        }
        lemma_filter_keeps_all(t, pred);
        t.lemma_filter_push(s.last(), pred);
    } else {
        reveal(Seq::filter);
    }
}

/// A request answered by the transport is resolved once: it leaves the
/// table, a second report for it resolves nothing and changes nothing, and
/// no later deadline can time it out.
pub proof fn lemma_reply_resolves_once(s: Seq<PendingRequest>, id: u64, now: u64)
    requires
        ids_increasing(s),
        contains_id(s, id),
    ensures
        !contains_id(without_id(s, id), id),
        without_id(without_id(s, id), id) == without_id(s, id),
        !contains_id(timed_out(without_id(s, id), now), id),
{
    let w = without_id(s, id);
    if contains_id(w, id) {
        lemma_contains_id_filter(s, other_than(id), id);
    }
    assert forall|i: int| 0 <= i < w.len() implies other_than(id)(#[trigger] w[i]) by {
        assert(!contains_id(w, id));
    }
    lemma_filter_keeps_all(w, other_than(id));
    if contains_id(timed_out(w, now), id) {
        lemma_contains_id_filter(w, expired_at(now), id);
    }
}

/// A request still waiting when its deadline is reached is resolved by the
/// timer, and once: the timed-out requests hold its key exactly once, it
/// leaves the table, and a reply arriving afterwards resolves nothing and
/// changes nothing.
pub proof fn lemma_timeout_resolves_once(s: Seq<PendingRequest>, i: int, now: u64)
    requires
        ids_increasing(s),
        0 <= i < s.len(),
        s[i].deadline <= now,
    ensures
        contains_id(timed_out(s, now), s[i].id),
        ids_increasing(timed_out(s, now)),
        !contains_id(still_waiting(s, now), s[i].id),
        without_id(still_waiting(s, now), s[i].id) == still_waiting(s, now),
{
    let id = s[i].id;
    let d = timed_out(s, now);
    let w = still_waiting(s, now);
    s.lemma_filter_contains(expired_at(now), i);
    let k = choose|k: int| 0 <= k < d.len() && d[k] == s[i];
    assert(d[k].id == id);
    lemma_filter_keeps_order(s, expired_at(now));
    if contains_id(w, id) {
        lemma_contains_id_filter(s, waiting_at(now), id);
        let j = choose|j: int| 0 <= j < s.len() && (#[trigger] s[j]).id == id && waiting_at(now)(
            s[j],
        );
        if j < i {
            assert(s[j].id < s[i].id);
        } else if i < j {
            assert(s[i].id < s[j].id);
        }
    }
    assert forall|k: int| 0 <= k < w.len() implies other_than(id)(#[trigger] w[k]) by {
        assert(!contains_id(w, id));
    }
    lemma_filter_keeps_all(w, other_than(id));
}

/// Requests resolve independently: resolving one by its reply leaves every
/// other request pending, unchanged, and a timer tick leaves every request
/// whose deadline lies ahead pending, unchanged.
pub proof fn lemma_resolutions_independent(s: Seq<PendingRequest>, id: u64, i: int, now: u64)
    requires
        0 <= i < s.len(),
    ensures
        s[i].id != id ==> without_id(s, id).contains(s[i]),
        now < s[i].deadline ==> still_waiting(s, now).contains(s[i]),
{
    if s[i].id != id {
        s.lemma_filter_contains(other_than(id), i);
    }
    if now < s[i].deadline {
        s.lemma_filter_contains(waiting_at(now), i);
    }
}

/// Dispatches attribute-set commands to device slots and resolves each one
/// exactly once: by the transport's report or by its deadline.
pub struct Controller {
    pending: Vec<PendingRequest>,
    next_id: u64,
    timeout: u64,
}

impl Controller {
    /// The unresolved requests, in the order they were dispatched.
    pub closed spec fn pending(&self) -> Seq<PendingRequest> {
        self.pending@
    }

    /// The correlation key the next request will carry.
    pub closed spec fn next_id(&self) -> u64 {
        self.next_id
    }

    /// How long a request may wait for its reply.
    pub closed spec fn timeout(&self) -> u64 {
        self.timeout
    }

    /// Keys increase along the table and all lie below the next key.
    pub open spec fn wf(&self) -> bool {
        &&& ids_increasing(self.pending())
        &&& forall|i: int|
            0 <= i < self.pending().len() ==> (#[trigger] self.pending()[i]).id < self.next_id()
    }

    /// A controller with no request in flight, whose requests time out after
    /// `timeout` ticks of the clock.
    pub fn new(timeout: u64) -> (c: Controller)
        ensures
            c.wf(),
            c.pending() == Seq::<PendingRequest>::empty(),
            c.next_id() == 0,
            c.timeout() == timeout,
    {
        Controller { pending: Vec::new(), next_id: 0, timeout }
    }

    /// Registers a request to set slot `slot` to `raw` at instant `now`, and
    /// returns the command to hand to the transport. Never fails: every
    /// failure comes later, as the request's outcome.
    pub fn set_value(&mut self, slot: u8, raw: u8, now: u64) -> (cmd: Command)
        requires
            old(self).wf(),
            old(self).next_id() < u64::MAX,
        ensures
            final(self).wf(),
            cmd == (Command { id: old(self).next_id(), slot, raw }),
            final(self).pending() == old(self).pending().push(
                PendingRequest {
                    id: old(self).next_id(),
                    slot,
                    raw,
                    deadline: deadline_after(now, old(self).timeout()),
                },
            ),
            final(self).next_id() == old(self).next_id() + 1,
            final(self).timeout() == old(self).timeout(),
    {
        let id = self.next_id;
        let deadline = now.saturating_add(self.timeout);
        self.pending.push(PendingRequest { id, slot, raw, deadline });
        self.next_id = id + 1;
        Command { id, slot, raw }
    }

    /// Whether the request keyed `id` is still waiting for its outcome.
    pub fn is_pending(&self, id: u64) -> (r: bool)
        ensures
            r == contains_id(self.pending(), id),
    {
        let mut i: usize = 0;
        while i < self.pending.len()
            invariant
                0 <= i <= self.pending@.len(),
                forall|k: int| 0 <= k < i ==> (#[trigger] self.pending@[k]).id != id,
            decreases self.pending@.len() - i,
        {
            if self.pending[i].id == id {
                return true;
            }
            i = i + 1;
        }
        false
    }

    /// Resolves the request keyed `id` with the transport's report. A report
    /// for a key that is not pending (one that already timed out, or was
    /// already answered) is dropped: it resolves nothing and changes nothing.
    pub fn on_reply(&mut self, id: u64, reply: Reply) -> (r: Option<Resolution>)
        requires
            old(self).wf(),
        ensures
            final(self).wf(),
            final(self).pending() == without_id(old(self).pending(), id),
            final(self).next_id() == old(self).next_id(),
            final(self).timeout() == old(self).timeout(),
            r is Some <==> contains_id(old(self).pending(), id),
            r matches Some(res) ==> {
                &&& res.id == id
                &&& res.outcome == outcome_of_reply(reply)
                &&& exists|i: int|
                    0 <= i < old(self).pending().len() && (#[trigger] old(self).pending()[i]).id
                        == id && old(self).pending()[i].slot == res.slot
            },
    {
        let ghost s = self.pending@;
        let mut kept: Vec<PendingRequest> = Vec::new();
        let mut found: Option<PendingRequest> = None;
        let mut i: usize = 0;
        while i < self.pending.len()
            invariant
                s == self.pending@,
                self.wf(),
                0 <= i <= s.len(),
                kept@ == without_id(s.subrange(0, i as int), id),
                forall|k: int|
                    0 <= k < kept@.len() ==> exists|j: int|
                        0 <= j < i && (#[trigger] kept@[k]) == #[trigger] s[j],
                ids_increasing(kept@),
                found is None ==> forall|j: int| 0 <= j < i ==> (#[trigger] s[j]).id != id,
                found matches Some(p) ==> exists|j: int| 0 <= j < i && (#[trigger] s[j]) == p,
                found matches Some(p) ==> p.id == id,
            decreases s.len() - i,
        {
            let p = self.pending[i];
            proof {
                assert(s.subrange(0, i as int + 1) =~= s.subrange(0, i as int).push(p));
                s.subrange(0, i as int).lemma_filter_push(p, other_than(id));
            }
            if p.id != id {
                proof {
                    assert forall|k: int| 0 <= k < kept@.len() implies (#[trigger] kept@[k]).id
                        < p.id by {
                        let j = choose|j: int| 0 <= j < i && kept@[k] == #[trigger] s[j];
                        assert(s[j].id < s[i as int].id);
                    }
                }
                kept.push(p);
                proof {
                    assert(kept@.last() == s[i as int]);
                }
            } else {
                found = Some(p);
            }
            i = i + 1;
        }
        proof {
            assert(s.subrange(0, s.len() as int) =~= s);
        }
        self.pending = kept;
        match found {
            None => None,
            Some(p) => Some(Resolution { id, slot: p.slot, outcome: reply.into_outcome() }),
        }
    }

    /// Resolves with a timeout every request whose deadline has been reached
    /// at instant `now`, and returns them in the order they were dispatched.
    /// Requests abandoned by their caller are cleaned up here too.
    pub fn on_tick(&mut self, now: u64) -> (expired: Vec<Resolution>)
        requires
            old(self).wf(),
        ensures
            final(self).wf(),
            final(self).pending() == still_waiting(old(self).pending(), now),
            final(self).next_id() == old(self).next_id(),
            final(self).timeout() == old(self).timeout(),
            expired@.len() == timed_out(old(self).pending(), now).len(),
            forall|k: int|
                0 <= k < expired@.len() ==> #[trigger] expired@[k] == timeout_resolution(
                    timed_out(old(self).pending(), now)[k],
                ),
    {
        let ghost s = self.pending@;
        let mut kept: Vec<PendingRequest> = Vec::new();
        let mut expired: Vec<Resolution> = Vec::new();
        let mut i: usize = 0;
        while i < self.pending.len()
            invariant
                s == self.pending@,
                self.wf(),
                0 <= i <= s.len(),
                kept@ == still_waiting(s.subrange(0, i as int), now),
                forall|k: int|
                    0 <= k < kept@.len() ==> exists|j: int|
                        0 <= j < i && (#[trigger] kept@[k]) == #[trigger] s[j],
                ids_increasing(kept@),
                expired@.len() == timed_out(s.subrange(0, i as int), now).len(),
                forall|k: int|
                    0 <= k < expired@.len() ==> #[trigger] expired@[k] == timeout_resolution(
                        timed_out(s.subrange(0, i as int), now)[k],
                    ),
            decreases s.len() - i,
        {
            let p = self.pending[i];
            let ghost before = timed_out(s.subrange(0, i as int), now);
            proof {
                assert(s.subrange(0, i as int + 1) =~= s.subrange(0, i as int).push(p));
                s.subrange(0, i as int).lemma_filter_push(p, waiting_at(now));
                s.subrange(0, i as int).lemma_filter_push(p, expired_at(now));
            }
            if now < p.deadline {
                proof {
                    assert forall|k: int| 0 <= k < kept@.len() implies (#[trigger] kept@[k]).id
                        < p.id by {
                        let j = choose|j: int| 0 <= j < i && kept@[k] == #[trigger] s[j];
                        assert(s[j].id < s[i as int].id);
                    }
                }
                kept.push(p);
                proof {
                    assert(kept@.last() == s[i as int]);
                }
            } else {
                expired.push(Resolution { id: p.id, slot: p.slot, outcome: RequestOutcome::Timeout });
                proof {
                    assert(timed_out(s.subrange(0, i as int + 1), now) == before.push(p));
                }
            }
            i = i + 1;
        }
        proof {
            assert(s.subrange(0, s.len() as int) =~= s);
        }
        self.pending = kept;
        expired
    }

    /// Whether another request can still get a fresh correlation key.
    pub fn has_capacity(&self) -> (r: bool)
        ensures
            r == (self.next_id() < u64::MAX),
    {
        self.next_id < u64::MAX
    }

    /// How many requests are waiting for their outcome.
    pub fn pending_count(&self) -> (n: usize)
        ensures
            n == self.pending().len(),
    {
        self.pending.len()
    }
}

} // verus!
