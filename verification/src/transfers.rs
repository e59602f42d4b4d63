//! The table of active transfers, keyed by package identity, with the
//! timeout sweep that evicts stale entries.
//!
//! The table holds at most one transfer per package. Inserting under an
//! identity that is already present replaces the old transfer wholesale, so
//! a repeated `start` drops the earlier staging state; removal hands the
//! evicted transfer back to the caller, which owns cleaning its staging
//! directory.

use vstd::prelude::*;

use crate::package::{same_id, PackageId};
use crate::persistence::{base64_decoded, Transfer};

verus! {

/// Whether a transfer's last write attempt lies further than `timeout`
/// seconds before `now`.
pub open spec fn timed_out(t: Transfer, now: i64, timeout: i64) -> bool {
    now - t.last_chunk_received > timeout
}

/// The transfers that survive a sweep at time `now`: those whose last write
/// attempt is at most `timeout` seconds old.
pub open spec fn kept_by_sweep(now: i64, timeout: i64) -> spec_fn(Transfer) -> bool {
    |t: Transfer| !timed_out(t, now, timeout)
}

/// The transfers a sweep at time `now` evicts: those whose last write attempt
/// is more than `timeout` seconds old.
pub open spec fn evicted_by_sweep(now: i64, timeout: i64) -> spec_fn(Transfer) -> bool {
    |t: Transfer| timed_out(t, now, timeout)
}

/// A filtered table keeps well-formed entries with distinct identities, and
/// every kept entry is one of the entries it was filtered from.
proof fn lemma_filter_entries(s: Seq<Transfer>, pred: spec_fn(Transfer) -> bool)
    requires
        forall|i: int| 0 <= i < s.len() ==> (#[trigger] s[i]).wf(),
        forall|i: int, j: int|
            0 <= i < j < s.len() ==> !same_id(
                (#[trigger] s[i]).package,
                (#[trigger] s[j]).package,
            ),
    ensures
        forall|j: int|
            0 <= j < s.filter(pred).len() ==> exists|i: int|
                0 <= i < s.len() && (#[trigger] s.filter(pred)[j]) == s[i],
        forall|i: int| 0 <= i < s.filter(pred).len() ==> (#[trigger] s.filter(pred)[i]).wf(),
        forall|i: int, j: int|
            0 <= i < j < s.filter(pred).len() ==> !same_id(
                (#[trigger] s.filter(pred)[i]).package,
                (#[trigger] s.filter(pred)[j]).package,
            ),
    decreases s.len(),
{
    reveal(Seq::<Transfer>::filter);
    if s.len() == 0 {
        assert(s.filter(pred) =~= Seq::<Transfer>::empty());
    } else {
        let d = s.drop_last();
        lemma_filter_entries(d, pred);
        let f = s.filter(pred);
        let fd = d.filter(pred);
        assert(forall|i: int| 0 <= i < d.len() ==> #[trigger] d[i] == s[i]);
        if pred(s.last()) {
            assert(f == fd.push(s.last()));
            assert forall|j: int| 0 <= j < f.len() implies exists|i: int|
                0 <= i < s.len() && (#[trigger] f[j]) == s[i] by {
                if j < fd.len() {
                    let i = choose|i: int| 0 <= i < d.len() && (#[trigger] fd[j]) == d[i];
                    assert(f[j] == s[i]);
                } else {
                    assert(f[j] == s[s.len() - 1]);
                }
            }
            assert forall|i: int, j: int| 0 <= i < j < f.len() implies !same_id(
                (#[trigger] f[i]).package,
                (#[trigger] f[j]).package,
            ) by {
                if j == f.len() - 1 {
                    let i0 = choose|i0: int| 0 <= i0 < d.len() && (#[trigger] fd[i]) == d[i0];
                    assert(f[i] == s[i0]);
                    assert(f[j] == s[s.len() - 1]);
                    assert(!same_id(s[i0].package, s[s.len() - 1].package));
                }
            }
        } else {
            assert(f == fd);
        }
    }
}

/// The table of in-progress transfers.
pub struct Transfers {
    pub entries: Vec<Transfer>,
}

impl Transfers {
    /// Well-formedness: every entry is well-formed and no two entries belong
    /// to the same package.
    pub open spec fn wf(self) -> bool {
        &&& forall|i: int| 0 <= i < self.entries@.len() ==> (#[trigger] self.entries@[i]).wf()
        &&& forall|i: int, j: int|
            0 <= i < j < self.entries@.len() ==> !same_id(
                (#[trigger] self.entries@[i]).package,
                (#[trigger] self.entries@[j]).package,
            )
    }

    /// The entries of the table, in their stored order.
    pub open spec fn entries_view(self) -> Seq<Transfer> {
        self.entries@
    }

    /// Whether some transfer for package `p` is in the table.
    pub open spec fn contains_id(self, p: PackageId) -> bool {
        exists|i: int|
            0 <= i < self.entries@.len() && same_id((#[trigger] self.entries@[i]).package, p)
    }

    /// Position of the transfer for package `p` (meaningful when
    /// `contains_id(p)` holds; unique under `wf`).
    pub open spec fn pos_id(self, p: PackageId) -> int {
        choose|i: int|
            0 <= i < self.entries@.len() && same_id((#[trigger] self.entries@[i]).package, p)
    }

    /// The transfer for package `p` (meaningful when `contains_id(p)` holds).
    pub open spec fn entry_for(self, p: PackageId) -> Transfer {
        self.entries@[self.pos_id(p)]
    }

    /// Under `wf`, an entry's position is determined by its package identity.
    pub proof fn lemma_entry_unique(self, i: int, p: PackageId)
        requires
            self.wf(),
            0 <= i < self.entries@.len(),
            same_id(self.entries@[i].package, p),
        ensures
            self.contains_id(p),
            self.pos_id(p) == i,
            self.entry_for(p) == self.entries@[i],
    {
        assert(self.contains_id(p));
        let j = self.pos_id(p);
        if i < j {
            assert(!same_id(self.entries@[i].package, self.entries@[j].package));
        } else if j < i {
            assert(!same_id(self.entries@[j].package, self.entries@[i].package));
        }
    }

    /// The empty table.
    pub fn new() -> (t: Transfers)
        ensures
            t.wf(),
            t.entries_view() =~= Seq::<Transfer>::empty(),
            forall|p: PackageId| !t.contains_id(p),
    {
        Transfers { entries: Vec::new() }
    }

    /// How many transfers are in progress.
    pub fn len(&self) -> (n: usize)
        ensures
            n == self.entries_view().len(),
    {
        self.entries.len()
    }

    /// Position of the entry for package `p`, if one is in the table.
    fn find(&self, p: &PackageId) -> (r: Option<usize>)
        requires
            self.wf(),
        ensures
            r is Some <==> self.contains_id(*p),
            r matches Some(i) ==> 0 <= i < self.entries@.len() && self.pos_id(*p) == i,
    {
        let mut i: usize = 0;
        while i < self.entries.len()
            invariant
                self.wf(),
                0 <= i <= self.entries@.len(),
                forall|j: int|
                    0 <= j < i ==> !same_id((#[trigger] self.entries@[j]).package, *p),
            decreases self.entries@.len() - i,
        {
            if self.entries[i].package == *p {
                proof {
                    self.lemma_entry_unique(i as int, *p);
                }
                return Some(i);
            }
            i = i + 1;
        }
        None
    }

    /// Put `t` in the table, replacing any transfer already held for the same
    /// package: after the call the table holds `t` for `t.package`, and every
    /// other package's entry is untouched.
    pub fn insert(&mut self, t: Transfer)
        requires
            old(self).wf(),
            t.wf(),
        ensures
            final(self).wf(),
            final(self).contains_id(t.package),
            final(self).entry_for(t.package) == t,
            forall|q: PackageId|
                !same_id(q, t.package) ==> (final(self).contains_id(q) <==> old(
                    self,
                ).contains_id(q)),
            forall|q: PackageId|
                !same_id(q, t.package) && old(self).contains_id(q) ==> final(self).entry_for(q)
                    == old(self).entry_for(q),
    {
        let ghost t0 = *self;
        let _ = self.remove(&t.package);
        let ghost t1 = *self;
        self.entries.push(t);
        proof {
            let n = t1.entries@.len() as int;
            assert(self.entries@ =~= t1.entries@.push(t));
            assert forall|i: int, j: int| 0 <= i < j < self.entries@.len() implies !same_id(
                (#[trigger] self.entries@[i]).package,
                (#[trigger] self.entries@[j]).package,
            ) by {
                if j == n {
                    assert(!t1.contains_id(t.package));
                    assert(same_id(self.entries@[j].package, t.package));
                    if same_id(self.entries@[i].package, self.entries@[j].package) {
                        assert(same_id(t1.entries@[i].package, t.package));
                        assert(t1.contains_id(t.package));
                    }
                }
            }
            self.lemma_entry_unique(n, t.package);
            assert forall|q: PackageId| !same_id(q, t.package) && self.contains_id(
                q,
            ) implies t0.contains_id(q) && self.entry_for(q) == t0.entry_for(q) by {
                let i = self.pos_id(q);
                assert(same_id(self.entries@[i].package, q));
                assert(i != n);
                t1.lemma_entry_unique(i, q);
            }
            assert forall|q: PackageId| !same_id(q, t.package) && t0.contains_id(
                q,
            ) implies self.contains_id(q) by {
                let i = t1.pos_id(q);
                assert(same_id(t1.entries@[i].package, q));
                assert(same_id(self.entries@[i].package, q));
            }
        }
    }

    /// Take the transfer for package `p` out of the table, if one is held,
    /// and hand it back; every other package's entry is untouched. The caller
    /// owns cleaning the removed transfer's staging directory.
    pub fn remove(&mut self, p: &PackageId) -> (r: Option<Transfer>)
        requires
            old(self).wf(),
        ensures
            final(self).wf(),
            r is Some <==> old(self).contains_id(*p),
            r matches Some(t) ==> t == old(self).entry_for(*p),
            !final(self).contains_id(*p),
            forall|q: PackageId|
                !same_id(q, *p) ==> (final(self).contains_id(q) <==> old(self).contains_id(q)),
            forall|q: PackageId|
                !same_id(q, *p) && old(self).contains_id(q) ==> final(self).entry_for(q) == old(
                    self,
                ).entry_for(q),
    {
        let ghost t0 = *self;
        let found = self.find(p);
        match found {
            None => None,
            Some(i) => {
                let t = self.entries.remove(i);
                proof {
                    let n = self.entries@.len() as int;
                    assert(forall|j: int|
                        0 <= j < i ==> #[trigger] self.entries@[j] == t0.entries@[j]);
                    assert(forall|j: int|
                        i <= j < n ==> #[trigger] self.entries@[j] == t0.entries@[j + 1]);
                    assert forall|q: PackageId| self.contains_id(q) implies t0.contains_id(q)
                        && !same_id(q, *p) by {
                        let j = choose|j: int|
                            0 <= j < n && same_id((#[trigger] self.entries@[j]).package, q);
                        if j < i {
                            t0.lemma_entry_unique(j, q);
                            if same_id(q, *p) {
                                t0.lemma_entry_unique(j, *p);
                            }
                        } else {
                            t0.lemma_entry_unique(j + 1, q);
                            if same_id(q, *p) {
                                t0.lemma_entry_unique(j + 1, *p);
                            }
                        }
                    }
                    assert forall|q: PackageId| !same_id(q, *p) && t0.contains_id(
                        q,
                    ) implies self.contains_id(q) && self.entry_for(q) == t0.entry_for(q) by {
                        let j = t0.pos_id(q);
                        assert(same_id(t0.entries@[j].package, q));
                        assert(j != i);
                        if j < i {
                            self.lemma_entry_unique(j, q);
                        } else {
                            self.lemma_entry_unique(j - 1, q);
                        }
                    }
                }
                Some(t)
            },
        }
    }

    /// The transfer for package `p`, if one is in the table.
    pub fn get(&self, p: &PackageId) -> (r: Option<&Transfer>)
        requires
            self.wf(),
        ensures
            r is Some <==> self.contains_id(*p),
            r matches Some(t) ==> *t == self.entry_for(*p),
    {
        match self.find(p) {
            Some(i) => Some(&self.entries[i]),
            None => None,
        }
    }

    /// Stage one chunk into the transfer for package `p`. With no transfer
    /// for `p` the call fails and changes nothing; otherwise it acts on that
    /// transfer as `Transfer::apply_chunk` does, and every other package's
    /// entry is untouched.
    pub fn apply_chunk_for(&mut self, p: &PackageId, msg: &str, index: u64, now: i64) -> (r:
        bool)
        requires
            old(self).wf(),
        ensures
            final(self).wf(),
            r == (old(self).contains_id(*p) && base64_decoded(msg@) is Some),
            !old(self).contains_id(*p) ==> *final(self) == *old(self),
            old(self).contains_id(*p) ==> final(self).contains_id(*p) && ({
                let t0 = old(self).entry_for(*p);
                let t1 = final(self).entry_for(*p);
                &&& t1.package == t0.package
                &&& t1.checksum == t0.checksum
                &&& t1.prefix_dir == t0.prefix_dir
                &&& t1.last_chunk_received == now
                &&& (base64_decoded(msg@) matches Some(d) ==> t1.chunk_map() == t0.chunk_map(
                ).insert(index, d))
                &&& (base64_decoded(msg@) is None ==> t1.chunk_map() == t0.chunk_map())
            }),
            forall|q: PackageId|
                !same_id(q, *p) ==> (final(self).contains_id(q) <==> old(self).contains_id(q)),
            forall|q: PackageId|
                !same_id(q, *p) && old(self).contains_id(q) ==> final(self).entry_for(q) == old(
                    self,
                ).entry_for(q),
    {
        let ghost t0 = *self;
        let found = self.find(p);
        match found {
            None => false,
            Some(i) => {
                let r = self.entries[i].apply_chunk(msg, index, now);
                proof {
                    assert(self.entries@ =~= t0.entries@.update(
                        i as int,
                        self.entries@[i as int],
                    ));
                    assert(forall|j: int|
                        0 <= j < self.entries@.len() && j != i ==> #[trigger] self.entries@[j]
                            == t0.entries@[j]);
                    assert(self.entries@[i as int].package == t0.entries@[i as int].package);
                    assert forall|a: int, b: int|
                        0 <= a < b < self.entries@.len() implies !same_id(
                        (#[trigger] self.entries@[a]).package,
                        (#[trigger] self.entries@[b]).package,
                    ) by {
                        assert(self.entries@[a].package == t0.entries@[a].package);
                        assert(self.entries@[b].package == t0.entries@[b].package);
                    }
                    self.lemma_entry_unique(i as int, *p);
                    assert forall|q: PackageId| !same_id(q, *p) && self.contains_id(
                        q,
                    ) implies t0.contains_id(q) && self.entry_for(q) == t0.entry_for(q) by {
                        let j = self.pos_id(q);
                        assert(same_id(self.entries@[j].package, q));
                        assert(j != i);
                        assert(same_id(t0.entries@[j].package, q));
                        t0.lemma_entry_unique(j, q);
                    }
                    assert forall|q: PackageId| !same_id(q, *p) && t0.contains_id(
                        q,
                    ) implies self.contains_id(q) by {
                        let j = t0.pos_id(q);
                        assert(same_id(t0.entries@[j].package, q));
                        assert(same_id(self.entries@[j].package, q));
                    }
                }
                r
            },
        }
    }

    /// Evict every transfer whose last write attempt is more than `timeout`
    /// seconds before `now`: exactly the fresh entries stay, in their stored
    /// order, and exactly the stale ones come back to the caller, which owns
    /// cleaning their staging directories.
    pub fn sweep(&mut self, now: i64, timeout: i64) -> (evicted: Vec<Transfer>)
        requires
            old(self).wf(),
        ensures
            final(self).wf(),
            final(self).entries_view() == old(self).entries_view().filter(
                kept_by_sweep(now, timeout),
            ),
            evicted@ == old(self).entries_view().filter(evicted_by_sweep(now, timeout)),
            forall|q: PackageId|
                #[trigger] final(self).contains_id(q) <==> old(self).contains_id(q)
                    && !timed_out(old(self).entry_for(q), now, timeout),
            forall|q: PackageId|
                final(self).contains_id(q) ==> #[trigger] final(self).entry_for(q) == old(
                    self,
                ).entry_for(q),
    {
        broadcast use vstd::seq_lib::group_filter_ensures;

        let ghost t0 = *self;
        let ghost olde = self.entries@;
        let ghost keep = kept_by_sweep(now, timeout);
        let ghost evict = evicted_by_sweep(now, timeout);
        let mut kept: Vec<Transfer> = Vec::new();
        let mut evicted: Vec<Transfer> = Vec::new();
        proof {
            reveal(Seq::<Transfer>::filter);
            assert(olde.subrange(0, 0) =~= Seq::<Transfer>::empty());
            assert(Seq::<Transfer>::empty().filter(keep) =~= Seq::<Transfer>::empty());
            assert(Seq::<Transfer>::empty().filter(evict) =~= Seq::<Transfer>::empty());
        }
        while self.entries.len() > 0
            invariant
                0 <= self.entries@.len() <= olde.len(),
                self.entries@ =~= olde.subrange(
                    olde.len() - self.entries@.len(),
                    olde.len() as int,
                ),
                kept@ == olde.subrange(0, olde.len() - self.entries@.len()).filter(keep),
                evicted@ == olde.subrange(0, olde.len() - self.entries@.len()).filter(evict),
                keep == kept_by_sweep(now, timeout),
                evict == evicted_by_sweep(now, timeout),
            decreases self.entries@.len(),
        {
            let ghost done = olde.len() - self.entries@.len();
            let t = self.entries.remove(0);
            proof {
                reveal(Seq::<Transfer>::filter);
                assert(t == olde[done]);
                assert(self.entries@ =~= olde.subrange(
                    olde.len() - self.entries@.len(),
                    olde.len() as int,
                ));
                let pre = olde.subrange(0, done);
                let cur = olde.subrange(0, done + 1);
                assert(cur.drop_last() =~= pre);
                assert(cur.last() == t);
                if keep(t) {
                    assert(cur.filter(keep) == pre.filter(keep).push(t));
                    assert(cur.filter(evict) == pre.filter(evict));
                } else {
                    assert(cur.filter(keep) == pre.filter(keep));
                    assert(cur.filter(evict) == pre.filter(evict).push(t));
                }
            }
            let is_stale = (now as i128) - (t.last_chunk_received as i128) > (timeout as i128);
            if is_stale {
                evicted.push(t);
            } else {
                kept.push(t);
            }
        }
        proof {
            assert(olde.subrange(0, olde.len() as int) =~= olde);
        }
        self.entries = kept;
        proof {
            lemma_filter_entries(olde, keep);
            assert forall|q: PackageId| #[trigger] self.contains_id(q) implies t0.contains_id(q)
                && !timed_out(t0.entry_for(q), now, timeout) && self.entry_for(q)
                == t0.entry_for(q) by {
                let j = self.pos_id(q);
                assert(same_id(self.entries@[j].package, q));
                let i = choose|i: int|
                    0 <= i < olde.len() && (#[trigger] olde.filter(keep)[j]) == olde[i];
                assert(self.entries@[j] == olde[i]);
                t0.lemma_entry_unique(i, q);
                assert(keep(olde.filter(keep)[j]));
                self.lemma_entry_unique(j, q);
            }
            assert forall|q: PackageId|
                t0.contains_id(q) && !timed_out(t0.entry_for(q), now, timeout) implies
            #[trigger] self.contains_id(q) by {
                let i = t0.pos_id(q);
                assert(same_id(olde[i].package, q));
                assert(keep(olde[i]));
                assert(olde.filter(keep).contains(olde[i]));
                let j = choose|j: int|
                    0 <= j < olde.filter(keep).len() && olde.filter(keep)[j] == olde[i];
                assert(same_id(self.entries@[j].package, q));
            }
        }
        evicted
    }

    /// Whether a transfer for package `p` is in the table.
    pub fn contains(&self, p: &PackageId) -> (r: bool)
        requires
            self.wf(),
        ensures
            r == self.contains_id(*p),
    {
        self.find(p).is_some()
    }
}

} // verus!
