//! The bounded, ordered collection of pending waiters, indexed by token.
//!
//! The registry owns every rendezvous cell it ever created (a cell is named
//! by its index into `cells`) and keeps the ordered list of `(token, cell)`
//! entries that are still pending. Entries leave the list in exactly one of
//! two ways: a matching notify drains them, or capacity pressure evicts the
//! oldest one; either way the departing cell is fulfilled with exactly one
//! outcome.

use vstd::prelude::*;

use crate::cell::{Outcome, Payload, Reason, ReqPoll};

verus! {

/// The entries of `s` whose token differs from `t`, in their original order.
pub open spec fn remaining(s: Seq<(String, usize)>, t: Seq<char>) -> Seq<(String, usize)>
    decreases s.len(),
{
    if s.len() == 0 {
        Seq::empty()
    } else if s[0].0@ == t {
        remaining(s.drop_first(), t)
    } else {
        seq![s[0]] + remaining(s.drop_first(), t)
    }
}

/// The cell ids of the entries of `s` whose token equals `t`, in their
/// original order.
pub open spec fn drained(s: Seq<(String, usize)>, t: Seq<char>) -> Seq<usize>
    decreases s.len(),
{
    if s.len() == 0 {
        Seq::empty()
    } else if s[0].0@ == t {
        seq![s[0].1] + drained(s.drop_first(), t)
    } else {
        drained(s.drop_first(), t)
    }
}

/// Whether `c` is the cell id of some entry of `s` whose token equals `t`.
pub open spec fn matched_id(s: Seq<(String, usize)>, t: Seq<char>, c: int) -> bool {
    exists|i: int| 0 <= i < s.len() && (#[trigger] s[i]).0@ == t && s[i].1 == c
}

/// Whether cell `c` holds a delivered payload whose pairs read as `p`.
pub open spec fn cell_delivered(c: ReqPoll, p: Seq<(Seq<char>, Seq<char>)>) -> bool {
    &&& c.done
    &&& match c.slot {
        Some(Outcome::Delivered(q)) => q.deep_view() == p,
        _ => false,
    }
}

/// Every entry that `remaining` keeps satisfies whatever holds of all of
/// `s`'s entries, and its token differs from `t`; `remaining` never grows.
pub proof fn lemma_remaining_keeps(
    s: Seq<(String, usize)>,
    t: Seq<char>,
    good: spec_fn((String, usize)) -> bool,
)
    requires
        forall|i: int| 0 <= i < s.len() ==> good(#[trigger] s[i]),
    ensures
        remaining(s, t).len() <= s.len(),
        forall|m: int|
            0 <= m < remaining(s, t).len()
                ==> good(#[trigger] remaining(s, t)[m]) && remaining(s, t)[m].0@ != t,
    decreases s.len(),
{
    if s.len() == 0 {
    } else {
        assert(forall|i: int|
            0 <= i < s.drop_first().len() ==> #[trigger] s.drop_first()[i] == s[i + 1]);
        lemma_remaining_keeps(s.drop_first(), t, good);
    }
}

/// If no two entries of `s` share a cell id, neither do any two entries
/// that `remaining` keeps.
pub proof fn lemma_remaining_distinct_ids(s: Seq<(String, usize)>, t: Seq<char>)
    requires
        forall|i: int, j: int|
            0 <= i < j < s.len() ==> (#[trigger] s[i]).1 != (#[trigger] s[j]).1,
    ensures
        forall|m1: int, m2: int|
            0 <= m1 < m2 < remaining(s, t).len()
                ==> (#[trigger] remaining(s, t)[m1]).1 != (#[trigger] remaining(s, t)[m2]).1,
    decreases s.len(),
{
    if s.len() == 0 {
    } else {
        let rest = s.drop_first();
        assert(forall|i: int| 0 <= i < rest.len() ==> #[trigger] rest[i] == s[i + 1]);
        lemma_remaining_distinct_ids(rest, t);
        if s[0].0@ != t {
            let head = s[0];
            lemma_remaining_keeps(rest, t, |e: (String, usize)| e.1 != head.1);
            assert(remaining(s, t) == seq![s[0]] + remaining(rest, t));
            assert(forall|m: int|
                1 <= m < remaining(s, t).len()
                    ==> #[trigger] remaining(s, t)[m] == remaining(rest, t)[m - 1]);
        }
    }
}

/// The token-indexed waiting list: a bounded, ordered collection of
/// `(token, cell id)` pairs, plus every cell the registry ever handed out.
pub struct Registry {
    /// The configured maximum pending-waiter count. An enqueue that finds
    /// more than this many entries pending evicts the oldest one first.
    pub max_pending: usize,
    /// Every rendezvous cell ever created by this registry; a cell id is an
    /// index into this vector. Cells stay here for the registry's lifetime
    /// so that a waiter can still consume an outcome after its entry left
    /// the pending list.
    pub cells: Vec<ReqPoll>,
    /// The pending entries, oldest first.
    pub pending: Vec<(String, usize)>,
}

impl Registry {
    /// The registry's invariant: every cell is well formed, every pending
    /// entry names an existing cell, no two pending entries share a cell,
    /// a pending cell has never been fulfilled, and the pending list never
    /// grows beyond one entry over the configured maximum.
    pub open spec fn wf(self) -> bool {
        &&& forall|i: int| 0 <= i < self.cells@.len() ==> (#[trigger] self.cells@[i]).wf()
        &&& forall|i: int|
            0 <= i < self.pending@.len() ==> (#[trigger] self.pending@[i]).1 < self.cells@.len()
        &&& forall|i: int, j: int|
            0 <= i < j < self.pending@.len()
                ==> (#[trigger] self.pending@[i]).1 != (#[trigger] self.pending@[j]).1
        &&& forall|i: int|
            0 <= i < self.pending@.len()
                ==> !self.cells@[(#[trigger] self.pending@[i]).1 as int].done
        &&& self.pending@.len() <= self.max_pending + 1
    }

    /// A fresh registry bounded by `max_pending`, with no cells and no
    /// pending waiters.
    pub fn new(max_pending: usize) -> (r: Registry)
        ensures
            r.wf(),
            r.max_pending == max_pending,
            r.cells@.len() == 0,
            r.pending@.len() == 0,
    {
        Registry { max_pending, cells: Vec::new(), pending: Vec::new() }
    }

    /// Creates a fresh cell for a waiter on `token` and appends the entry at
    /// the back of the pending list. If the list already holds more entries
    /// than the configured maximum, the oldest entry is first removed and its
    /// cell is fulfilled with `Failed(CapacityExceeded)`: capacity pressure
    /// fails the longest-waiting caller, never the new one. Returns the new
    /// cell's id and, if an eviction happened, the evicted cell's id.
    pub fn register_waiter(&mut self, token: String) -> (r: (usize, Option<usize>))
        requires
            old(self).wf(),
        ensures
            final(self).wf(),
            final(self).max_pending == old(self).max_pending,
            r.0 == old(self).cells@.len(),
            final(self).cells@.len() == old(self).cells@.len() + 1,
            final(self).cells@[r.0 as int].slot is None,
            !final(self).cells@[r.0 as int].done,
            old(self).pending@.len() <= old(self).max_pending ==> {
                &&& r.1 is None
                &&& final(self).pending@ == old(self).pending@.push((token, r.0))
                &&& forall|c: int|
                    0 <= c < old(self).cells@.len()
                        ==> final(self).cells@[c] == old(self).cells@[c]
            },
            old(self).pending@.len() > old(self).max_pending ==> {
                &&& r.1 == Some(old(self).pending@[0].1)
                &&& final(self).pending@ == old(self).pending@.drop_first().push((token, r.0))
                &&& final(self).cells@[old(self).pending@[0].1 as int].slot
                    == Some(Outcome::Failed(Reason::CapacityExceeded))
                &&& final(self).cells@[old(self).pending@[0].1 as int].done
                &&& forall|c: int|
                    0 <= c < old(self).cells@.len() && c != old(self).pending@[0].1
                        ==> final(self).cells@[c] == old(self).cells@[c]
            },
    {
        let id = self.cells.len();
        let mut evicted: Option<usize> = None;
        if self.pending.len() > self.max_pending {
            let entry = self.pending.remove(0);
            let ev = entry.1;
            proof {
                assert(old(self).pending@[0].1 < old(self).cells@.len());
                assert(!old(self).cells@[old(self).pending@[0].1 as int].done);
                assert(self.pending@ =~= old(self).pending@.drop_first());
            }
            let c = &mut self.cells[ev];
            c.fulfill(Outcome::Failed(Reason::CapacityExceeded));
            evicted = Some(ev);
        }
        self.cells.push(ReqPoll::new());
        self.pending.push((token, id));
        (id, evicted)
    }

    /// Removes every entry pending under `token` — leaving entries under
    /// other tokens untouched and in order — and fulfills each removed cell
    /// with `Delivered(payload)`. Every waiter pending under `token` at the
    /// moment of the call receives the same payload; no other cell changes.
    /// Returns the drained cell ids in their registration order; an empty
    /// result (no waiter was pending under `token`) is not an error.
    pub fn notify(&mut self, token: &String, payload: &Payload) -> (delivered: Vec<usize>)
        requires
            old(self).wf(),
        ensures
            final(self).wf(),
            final(self).max_pending == old(self).max_pending,
            final(self).cells@.len() == old(self).cells@.len(),
            final(self).pending@ == remaining(old(self).pending@, token@),
            delivered@ == drained(old(self).pending@, token@),
            forall|i: int|
                0 <= i < old(self).pending@.len() && (#[trigger] old(self).pending@[i]).0@
                    == token@
                    ==> cell_delivered(
                        final(self).cells@[old(self).pending@[i].1 as int],
                        payload.deep_view(),
                    ),
            forall|c: int|
                0 <= c < old(self).cells@.len() && !matched_id(old(self).pending@, token@, c)
                    ==> final(self).cells@[c] == old(self).cells@[c],
    {
        let ghost p0 = self.pending@;
        let ghost c0 = self.cells@;
        let mut kept: Vec<(String, usize)> = Vec::new();
        let mut hit: Vec<usize> = Vec::new();
        let mut i: usize = 0;
        proof {
            assert(p0.skip(0) =~= p0);
            assert(kept@ + remaining(p0.skip(0), token@) =~= remaining(p0, token@));
            assert(hit@ + drained(p0.skip(0), token@) =~= drained(p0, token@));
        }
        while i < self.pending.len()
            invariant
                old(self).wf(),
                p0 == old(self).pending@,
                c0 == old(self).cells@,
                self.max_pending == old(self).max_pending,
                self.pending@ == p0,
                self.cells@.len() == c0.len(),
                i <= p0.len(),
                kept@ + remaining(p0.skip(i as int), token@) == remaining(p0, token@),
                hit@ + drained(p0.skip(i as int), token@) == drained(p0, token@),
                forall|k: int|
                    i <= k < p0.len()
                        ==> self.cells@[(#[trigger] p0[k]).1 as int] == c0[p0[k].1 as int],
                forall|k: int|
                    0 <= k < i && (#[trigger] p0[k]).0@ == token@
                        ==> cell_delivered(self.cells@[p0[k].1 as int], payload.deep_view()),
                forall|c: int|
                    0 <= c < c0.len() && !matched_id(p0, token@, c)
                        ==> self.cells@[c] == c0[c],
                forall|c: int| 0 <= c < c0.len() ==> (#[trigger] self.cells@[c]).wf(),
            decreases p0.len() - i,
        {
            proof {
                assert(p0.skip(i as int).len() > 0);
                assert(p0.skip(i as int)[0] == p0[i as int]);
                assert(p0.skip(i as int).drop_first() =~= p0.skip(i as int + 1));
            }
            let matched = {
                let e = &self.pending[i];
                e.0 == *token
            };
            let id = self.pending[i].1;
            if matched {
                proof {
                    assert(matched_id(p0, token@, id as int));
                    assert(self.cells@[id as int] == c0[id as int]);
                }
                let pay = copy_pairs(payload);
                proof {
                    assert(pay.deep_view() =~= payload.deep_view());
                }
                let c = &mut self.cells[id];
                c.fulfill(Outcome::Delivered(pay));
                hit.push(id);
                proof {
                    assert(hit@ + drained(p0.skip(i as int + 1), token@)
                        =~= drained(p0, token@));
                }
            } else {
                let tok_copy = self.pending[i].0.clone();
                kept.push((tok_copy, id));
                proof {
                    assert(kept@.last() == p0[i as int]);
                    assert(kept@ + remaining(p0.skip(i as int + 1), token@)
                        =~= remaining(p0, token@));
                }
            }
            i += 1;
        }
        proof {
            assert(p0.skip(p0.len() as int) =~= Seq::<(String, usize)>::empty());
            assert(kept@ =~= remaining(p0, token@));
            assert(hit@ =~= drained(p0, token@));
        }
        self.pending = kept;
        proof {
            let cells_fin = self.cells@;
            lemma_remaining_keeps(
                p0,
                token@,
                |e: (String, usize)| e.1 < c0.len() && !c0[e.1 as int].done && (matched_id(
                    p0,
                    token@,
                    e.1 as int,
                ) ==> e.0@ == token@),
            );
            lemma_remaining_distinct_ids(p0, token@);
            assert(forall|m: int|
                0 <= m < self.pending@.len()
                    ==> !cells_fin[(#[trigger] self.pending@[m]).1 as int].done) by {
                assert(forall|m: int|
                    0 <= m < remaining(p0, token@).len()
                        ==> !matched_id(
                        p0,
                        token@,
                        (#[trigger] remaining(p0, token@)[m]).1 as int,
                    ));
            }
        }
        hit
    }

    /// Consumes the outcome of cell `id` on behalf of its owning waiter:
    /// removes and returns the stored outcome if one is present, and
    /// otherwise returns nothing, leaving the waiter pending. Nothing else
    /// in the registry changes.
    pub fn take_outcome(&mut self, id: usize) -> (r: Option<Outcome>)
        requires
            old(self).wf(),
            id < old(self).cells@.len(),
        ensures
            final(self).wf(),
            final(self).max_pending == old(self).max_pending,
            final(self).pending@ == old(self).pending@,
            final(self).cells@.len() == old(self).cells@.len(),
            r == old(self).cells@[id as int].slot,
            final(self).cells@[id as int].slot is None,
            final(self).cells@[id as int].done == old(self).cells@[id as int].done,
            forall|c: int|
                0 <= c < old(self).cells@.len() && c != id
                    ==> final(self).cells@[c] == old(self).cells@[c],
    {
        let c = &mut self.cells[id];
        c.take()
    }
}

/// The pairs a delivered cell holds, if it holds any.
pub open spec fn delivered_pairs(c: ReqPoll) -> Option<Seq<(Seq<char>, Seq<char>)>> {
    match c.slot {
        Some(Outcome::Delivered(q)) => Some(q.deep_view()),
        _ => None,
    }
}

/// Law: notifying a token under which nothing is pending is a no-op. When no
/// entry of `s` carries token `t`, a notify for `t` keeps every entry, drains
/// no cell, and — since no cell id is matched — `Registry::notify`'s contract
/// then leaves every cell unchanged.
pub proof fn lemma_notify_absent_token(s: Seq<(String, usize)>, t: Seq<char>)
    requires
        forall|i: int| 0 <= i < s.len() ==> (#[trigger] s[i]).0@ != t,
    ensures
        remaining(s, t) == s,
        drained(s, t).len() == 0,
        forall|c: int| !matched_id(s, t, c),
    decreases s.len(),
{
    if s.len() == 0 {
        assert(remaining(s, t) =~= s);
    } else {
        let rest = s.drop_first();
        assert(forall|i: int| 0 <= i < rest.len() ==> #[trigger] rest[i] == s[i + 1]);
        lemma_notify_absent_token(rest, t);
        assert(remaining(s, t) =~= s);
    }
}

/// Law: one notify broadcasts one payload. If, as `Registry::notify` ensures,
/// every entry pending under `t` had its cell delivered with pairs `p`, then
/// any two waiters pending under `t` hold delivered outcomes, and they hold
/// the very same pairs.
pub proof fn lemma_broadcast_same_payload(
    pending0: Seq<(String, usize)>,
    cells1: Seq<ReqPoll>,
    t: Seq<char>,
    p: Seq<(Seq<char>, Seq<char>)>,
    i: int,
    j: int,
)
    requires
        forall|k: int|
            0 <= k < pending0.len() && (#[trigger] pending0[k]).0@ == t
                ==> cell_delivered(cells1[pending0[k].1 as int], p),
        0 <= i < pending0.len(),
        pending0[i].0@ == t,
        0 <= j < pending0.len(),
        pending0[j].0@ == t,
    ensures
        cell_delivered(cells1[pending0[i].1 as int], p),
        cell_delivered(cells1[pending0[j].1 as int], p),
        delivered_pairs(cells1[pending0[i].1 as int])
            == delivered_pairs(cells1[pending0[j].1 as int]),
{
}

/// Law: a waiter pending under a different token is not affected by a
/// notify. Its entry is kept by `remaining`, and — provided no two pending
/// entries share a cell id, as `Registry::wf` guarantees — its cell id is
/// not matched, so `Registry::notify`'s contract leaves its cell unchanged.
pub proof fn lemma_notify_other_token(s: Seq<(String, usize)>, t: Seq<char>, k: int)
    requires
        forall|i: int, j: int|
            0 <= i < j < s.len() ==> (#[trigger] s[i]).1 != (#[trigger] s[j]).1,
        0 <= k < s.len(),
        s[k].0@ != t,
    ensures
        remaining(s, t).contains(s[k]),
        !matched_id(s, t, s[k].1 as int),
    decreases s.len(),
{
    assert(!matched_id(s, t, s[k].1 as int)) by {
        if matched_id(s, t, s[k].1 as int) {
            let w = choose|w: int| 0 <= w < s.len() && (#[trigger] s[w]).0@ == t && s[w].1 == s[k].1;
            assert(w != k);
            if w < k {
                assert(s[w].1 != s[k].1);
            } else {
                assert(s[k].1 != s[w].1);
            }
        }
    }
    let rest = s.drop_first();
    assert(forall|i: int| 0 <= i < rest.len() ==> #[trigger] rest[i] == s[i + 1]);
    if k == 0 {
        assert(remaining(s, t) == seq![s[0]] + remaining(rest, t));
        assert((seq![s[0]] + remaining(rest, t))[0] == s[0]);
    } else {
        lemma_notify_other_token(rest, t, k - 1);
        let m = choose|m: int| 0 <= m < remaining(rest, t).len()
            && remaining(rest, t)[m] == rest[k - 1];
        if s[0].0@ == t {
            assert(remaining(s, t)[m] == s[k]);
        } else {
            assert(remaining(s, t) == seq![s[0]] + remaining(rest, t));
            assert(remaining(s, t)[m + 1] == s[k]);
        }
    }
}

/// An element-for-element copy of the key/value pairs.
fn copy_pairs(src: &Vec<(String, String)>) -> (r: Vec<(String, String)>)
    ensures
        r@ == src@,
{
    let mut r: Vec<(String, String)> = Vec::new();
    let mut i: usize = 0;
    while i < src.len()
        invariant
            i <= src@.len(),
            r@ == src@.take(i as int),
        decreases src@.len() - i,
    {
        let p = &src[i];
        r.push((p.0.clone(), p.1.clone()));
        proof {
            assert(src@.take(i as int + 1) =~= src@.take(i as int).push(src@[i as int]));
        }
        i += 1;
    }
    proof {
        assert(src@.take(src@.len() as int) =~= src@);
    }
    r
}

} // verus!
