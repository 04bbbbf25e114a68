//! The queue of error messages on display.
//!
//! Each message gets the next id, so walking the queue in storage order
//! walks it in ascending id order, which is publication order. A message
//! leaves the queue when it is dismissed or when it has been shown for
//! [`AUTO_REMOVAL_TIME`] milliseconds, whichever comes first. The caller
//! owns the clock: it reads the time, starts the timers and reports them.

use vstd::prelude::*;

verus! {

/// Milliseconds after which a message is removed automatically.
pub const AUTO_REMOVAL_TIME: u64 = 10_000;

/// One message on display.
#[derive(Clone, Debug)]
pub struct ErrorEntry {
    pub id: u64,
    pub message: String,
    /// Time of publication, in milliseconds of the caller's clock.
    pub published_at: u64,
}

/// Whether an entry has been on display long enough to be removed at `now`.
pub open spec fn is_expired(e: ErrorEntry, now: u64) -> bool {
    e.published_at + AUTO_REMOVAL_TIME <= now
}

/// `after` is `before` with one message appended under the next id.
pub open spec fn published_once(
    before: ErrorQueue,
    after: ErrorQueue,
    message: Seq<char>,
    now: u64,
) -> bool {
    &&& after.spec_last_id() == before.spec_last_id() + 1
    &&& after.spec_entries().len() == before.spec_entries().len() + 1
    &&& after.spec_entries().drop_last() == before.spec_entries()
    &&& after.spec_entries().last().id == after.spec_last_id()
    &&& after.spec_entries().last().message@ == message
    &&& after.spec_entries().last().published_at == now
}

/// Which entries a removal takes out.
enum Removal {
    Id(u64),
    ExpiredBy(u64),
}

spec fn keeps(r: Removal, e: ErrorEntry) -> bool {
    match r {
        Removal::Id(id) => e.id != id,
        Removal::ExpiredBy(now) => !is_expired(e, now),
    }
}

spec fn keeper(r: Removal) -> spec_fn(ErrorEntry) -> bool {
    |e: ErrorEntry| keeps(r, e)
}

/// Error messages on display, oldest first.
pub struct ErrorQueue {
    last_id: u64,
    entries: Vec<ErrorEntry>,
}

impl ErrorQueue {
    /// The entries on display, in storage order.
    pub closed spec fn spec_entries(&self) -> Seq<ErrorEntry> {
        self.entries@
    }

    /// The id given to the most recent message, 0 before the first.
    pub closed spec fn spec_last_id(&self) -> u64 {
        self.last_id
    }

    /// Ids ascend strictly in storage order and none exceeds the last id
    /// given out.
    pub open spec fn wf(&self) -> bool {
        &&& forall|a: int, b: int|
            0 <= a < b < self.spec_entries().len() ==> (#[trigger] self.spec_entries()[a]).id
                < (#[trigger] self.spec_entries()[b]).id
        &&& forall|a: int|
            0 <= a < self.spec_entries().len() ==> (#[trigger] self.spec_entries()[a]).id
                <= self.spec_last_id()
    }

    /// An empty queue; the first message will get id 1.
    pub fn new() -> (r: Self)
        ensures
            r.wf(),
            r.spec_entries() == Seq::<ErrorEntry>::empty(),
            r.spec_last_id() == 0,
    {
        ErrorQueue { last_id: 0, entries: Vec::new() }
    }

    /// The id that the next published message will get.
    pub fn next_id(&self) -> (r: Option<u64>)
        ensures
            self.spec_last_id() < u64::MAX ==> r == Some((self.spec_last_id() + 1) as u64),
            self.spec_last_id() == u64::MAX ==> r is None,
    {
        if self.last_id < u64::MAX {
            Some(self.last_id + 1)
        } else {
            None
        }
    }

    /// Publishes a message at time `now`, giving it the next id, which is
    /// returned so that the caller can start its removal timer.
    pub fn publish(&mut self, message: String, now: u64) -> (id: u64)
        requires
            old(self).wf(),
            old(self).spec_last_id() < u64::MAX,
        ensures
            final(self).wf(),
            id == old(self).spec_last_id() + 1,
            final(self).spec_last_id() == id,
            final(self).spec_entries() == old(self).spec_entries().push(
                ErrorEntry { id, message, published_at: now },
            ),
    {
        self.last_id = self.last_id + 1;
        let id = self.last_id;
        self.entries.push(ErrorEntry { id, message, published_at: now });
        proof {
            let s = self.entries@;
            assert forall|a: int| 0 <= a < s.len() - 1 implies #[trigger] s[a].id < id by {
                assert(s[a] == old(self).spec_entries()[a]);
                assert(old(self).spec_entries()[a].id <= old(self).spec_last_id());
            }
            assert forall|a: int, b: int| 0 <= a < b < s.len() implies #[trigger] s[a].id
                < #[trigger] s[b].id by {
                if b < s.len() - 1 {
                    assert(old(self).spec_entries()[a].id < old(self).spec_entries()[b].id);
                }
            }
        }
        id
    }

    fn remove_where(&mut self, removal: Removal)
        requires
            old(self).wf(),
        ensures
            final(self).wf(),
            final(self).spec_last_id() == old(self).spec_last_id(),
            final(self).spec_entries() == old(self).spec_entries().filter(keeper(removal)),
    {
        let ghost before = self.entries@;
        let mut i: usize = 0;
        let ghost mut k: int = 0;
        while i < self.entries.len()
            invariant
                self.wf(),
                self.last_id == old(self).last_id,
                before == old(self).entries@,
                0 <= k <= before.len(),
                i == before.take(k).filter(keeper(removal)).len(),
                self.entries@ == before.take(k).filter(keeper(removal)) + before.skip(k),
            decreases self.entries.len() - i,
        {
            proof {
                assert(before.take(k + 1).drop_last() =~= before.take(k));
                assert(before.take(k + 1).last() == before[k]);
                assert(self.entries@[i as int] == before[k]);
            }
            let keep = match removal {
                Removal::Id(id) => self.entries[i].id != id,
                Removal::ExpiredBy(now) => {
                    let at = self.entries[i].published_at;
                    !(at <= now && now - at >= AUTO_REMOVAL_TIME)
                },
            };
            proof {
                assert(keep == keeps(removal, before[k]));
                assert(keeper(removal)(before[k]) == keeps(removal, before[k]));
                
            }
            if keep {
                proof {
                    reveal(Seq::filter);
                    assert(before.take(k + 1).drop_last() =~= before.take(k));
                    assert(before.take(k + 1).filter(keeper(removal)) =~= before.take(k).filter(keeper(removal)).push(
                        before[k],
                    ));
                    assert(self.entries@ =~= before.take(k + 1).filter(keeper(removal)) + before.skip(k + 1));
                }
                i += 1;
            } else {
                let ghost prev = self.entries@;
                let ghost prev_q = *self;
                self.entries.remove(i);
                proof {
                    let cur = self.entries@;
                    assert forall|a: int, b: int| 0 <= a < b < cur.len() implies #[trigger] cur[a].id
                        < #[trigger] cur[b].id by {
                        let a2 = if a < i { a } else { a + 1 };
                        let b2 = if b < i { b } else { b + 1 };
                        assert(cur[a] == prev[a2] && cur[b] == prev[b2]);
                        assert(prev_q.spec_entries()[a2].id < prev_q.spec_entries()[b2].id);
                    }
                    assert forall|a: int| 0 <= a < cur.len() implies (#[trigger] cur[a]).id
                        <= self.last_id by {
                        let a2 = if a < i { a } else { a + 1 };
                        assert(cur[a] == prev[a2]);
                        assert(prev_q.spec_entries()[a2].id <= prev_q.spec_last_id());
                    }
                    reveal(Seq::filter);
                    assert(before.take(k + 1).drop_last() =~= before.take(k));
                    assert(before.take(k + 1).filter(keeper(removal)) == before.take(k).filter(keeper(removal)));
                    assert(self.entries@ =~= before.take(k + 1).filter(keeper(removal)) + before.skip(k + 1));
                }
            }
            proof {
                k = k + 1;
            }
        }
        proof {
            assert(before.take(k) =~= before);
            assert(self.entries@ =~= before.filter(keeper(removal)));
        }
    }

    /// Removes the message with this id; an id not on display is ignored.
    pub fn dismiss(&mut self, id: u64)
        requires
            old(self).wf(),
        ensures
            final(self).wf(),
            final(self).spec_last_id() == old(self).spec_last_id(),
            final(self).spec_entries() == old(self).spec_entries().filter(
                |e: ErrorEntry| e.id != id,
            ),
    {
        self.remove_where(Removal::Id(id));
        proof {
            assert(keeper(Removal::Id(id)) =~= (|e: ErrorEntry| e.id != id));
        }
    }

    /// Removes every message that has been on display for at least
    /// [`AUTO_REMOVAL_TIME`] milliseconds at time `now`.
    pub fn expire(&mut self, now: u64)
        requires
            old(self).wf(),
        ensures
            final(self).wf(),
            final(self).spec_last_id() == old(self).spec_last_id(),
            final(self).spec_entries() == old(self).spec_entries().filter(
                |e: ErrorEntry| !is_expired(e, now),
            ),
    {
        self.remove_where(Removal::ExpiredBy(now));
        proof {
            assert(keeper(Removal::ExpiredBy(now)) =~= (|e: ErrorEntry| !is_expired(e, now)));
        }
    }

    /// The messages on display, in ascending id order.
    pub fn entries(&self) -> (r: &[ErrorEntry])
        ensures
            r@ == self.spec_entries(),
    {
        self.entries.as_slice()
    }
}

/// Messages expire on time: once [`AUTO_REMOVAL_TIME`] milliseconds have
/// passed since the latest publication, expiring leaves the queue empty.
pub proof fn lemma_all_expire(q: ErrorQueue, t: u64)
    requires
        forall|i: int|
            0 <= i < q.spec_entries().len() ==> (#[trigger] q.spec_entries()[i]).published_at <= t,
        t + AUTO_REMOVAL_TIME <= u64::MAX,
    ensures
        q.spec_entries().filter(|e: ErrorEntry| !is_expired(e, (t + AUTO_REMOVAL_TIME) as u64))
            == Seq::<ErrorEntry>::empty(),
{
    lemma_none_kept(q.spec_entries(), t);
}

proof fn lemma_none_kept(s: Seq<ErrorEntry>, t: u64)
    requires
        forall|i: int| 0 <= i < s.len() ==> (#[trigger] s[i]).published_at <= t,
        t + AUTO_REMOVAL_TIME <= u64::MAX,
    ensures
        s.filter(|e: ErrorEntry| !is_expired(e, (t + AUTO_REMOVAL_TIME) as u64)) == Seq::<
            ErrorEntry,
        >::empty(),
    decreases s.len(),
{
    reveal(Seq::filter);
    if s.len() > 0 {
        assert forall|i: int| 0 <= i < s.drop_last().len() implies (
        #[trigger] s.drop_last()[i]).published_at <= t by {
            assert(s.drop_last()[i] == s[i]);
        }
        lemma_none_kept(s.drop_last(), t);
        assert(s[s.len() - 1].published_at <= t);
    }
}

} // verus!
