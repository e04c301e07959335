//! Connection accounting: which client connections are live, when each was
//! accepted, and whether a new one may be admitted under the configured
//! ceiling. A periodic sweep forgets records older than the retention
//! window; it is bookkeeping only and never touches a socket.

use vstd::prelude::*;

verus! {

/// How long a connection's accounting record is retained, measured from the
/// moment it was registered: five minutes, in microseconds.
pub const RETENTION_MICROS: u64 = 300_000_000;

/// One live connection: its identity and when it was accepted.
#[derive(Clone, Copy, Debug, PartialEq, Eq, Structural)]
pub struct ConnectionRecord {
    pub connection_id: u64,
    pub accepted_at_micros: u64,
}

/// Is a record still within the retention window at the given time? A
/// record stamped later than "now" (a clock that jumped back) is dropped.
pub open spec fn retained(record: ConnectionRecord, now_micros: u64) -> bool {
    record.accepted_at_micros <= now_micros && now_micros - record.accepted_at_micros
        < RETENTION_MICROS
}

/// Tracks live client connections and enforces a concurrency ceiling.
#[derive(Debug)]
pub struct ConnectionManager {
    records: Vec<ConnectionRecord>,
    max_connections: usize,
}

impl ConnectionManager {
    /// The accounting records, in registration order.
    pub closed spec fn records(&self) -> Seq<ConnectionRecord> {
        self.records@
    }

    /// The configured ceiling on concurrent connections.
    pub closed spec fn limit(&self) -> usize {
        self.max_connections
    }

    /// Does some record carry this connection id?
    pub open spec fn has_id(&self, connection_id: u64) -> bool {
        exists|i: int|
            0 <= i < self.records().len() && #[trigger] self.records()[i].connection_id
                == connection_id
    }

    /// No two records share an id.
    pub open spec fn wf(&self) -> bool {
        forall|i: int, j: int|
            0 <= i < j < self.records().len() ==> #[trigger] self.records()[i].connection_id
                != #[trigger] self.records()[j].connection_id
    }

    pub fn new(max_connections: usize) -> (manager: Self)
        ensures
            manager.wf(),
            manager.records() == Seq::<ConnectionRecord>::empty(),
            manager.limit() == max_connections,
    {
        let manager = Self { records: Vec::new(), max_connections };
        proof {
            assert(manager.records() =~= Seq::<ConnectionRecord>::empty());
        }
        manager
    }

    /// How many connections are currently accounted for.
    pub fn count(&self) -> (n: usize)
        ensures
            n == self.records().len(),
    {
        self.records.len()
    }

    /// May one more connection be accepted? True exactly when the current
    /// count is below the ceiling. This check is made before registration
    /// and is not atomic with it: brief overshoot under concurrent accepts
    /// is accepted behaviour.
    pub fn can_accept(&self) -> (r: bool)
        ensures
            r == (self.records().len() < self.limit()),
    {
        self.records.len() < self.max_connections
    }

    /// Record a newly accepted connection under a fresh id.
    pub fn register(&mut self, connection_id: u64, now_micros: u64)
        requires
            old(self).wf(),
            !old(self).has_id(connection_id),
        ensures
            final(self).wf(),
            final(self).records() == old(self).records().push(
                ConnectionRecord { connection_id, accepted_at_micros: now_micros },
            ),
            final(self).limit() == old(self).limit(),
    {
        self.records.push(ConnectionRecord { connection_id, accepted_at_micros: now_micros });
        proof {
            assert forall|a: int, b: int|
                0 <= a < b < self.records@.len() implies (
                #[trigger] self.records@[a]).connection_id != (
                #[trigger] self.records@[b]).connection_id by {
                if b == self.records@.len() - 1 {
                    assert(self.records@[a] == old(self).records()[a]);
                    assert(old(self).records()[a].connection_id != connection_id);
                } else {
                    assert(self.records@[a] == old(self).records()[a]);
                    assert(self.records@[b] == old(self).records()[b]);
                    assert(old(self).records()[a].connection_id
                        != old(self).records()[b].connection_id);
                }
            }
        }
    }

    /// Forget a connection's record. If the id is present its record is
    /// removed and the others keep their order; an unknown id changes
    /// nothing.
    pub fn unregister(&mut self, connection_id: u64)
        requires
            old(self).wf(),
        ensures
            final(self).wf(),
            final(self).limit() == old(self).limit(),
            !final(self).has_id(connection_id),
            old(self).has_id(connection_id) ==> exists|i: int|
                0 <= i < old(self).records().len() && old(self).records()[i].connection_id
                    == connection_id && final(self).records() == old(self).records().subrange(0, i)
                    + old(self).records().subrange(i + 1, old(self).records().len() as int),
            !old(self).has_id(connection_id) ==> final(self).records() == old(self).records(),
    {
        let ghost orig = self.records@;
        let mut i: usize = 0;
        while i < self.records.len()
            invariant
                old(self).wf(),
                old(self).records() == orig,
                self.records@ == orig,
                self.max_connections == old(self).max_connections,
                i <= orig.len(),
                forall|j: int| 0 <= j < i ==> #[trigger] orig[j].connection_id != connection_id,
            decreases orig.len() - i,
        {
            if self.records[i].connection_id == connection_id {
                self.records.remove(i);
                proof {
                    assert(self.records@ =~= orig.subrange(0, i as int) + orig.subrange(
                        i + 1,
                        orig.len() as int,
                    ));
                    assert forall|a: int, b: int|
                        0 <= a < b < self.records@.len() implies (
                        #[trigger] self.records@[a]).connection_id != (
                        #[trigger] self.records@[b]).connection_id by {
                        let ia = if a < i { a } else { a + 1 };
                        let ib = if b < i { b } else { b + 1 };
                        assert(self.records@[a] == orig[ia]);
                        assert(self.records@[b] == orig[ib]);
                    }
                    assert forall|k: int|
                        0 <= k < self.records@.len() implies (
                        #[trigger] self.records@[k]).connection_id != connection_id by {
                        if k >= i {
                            assert(self.records@[k] == orig[k + 1]);
                            assert(orig[i as int].connection_id != orig[k + 1].connection_id);
                        }
                    }
                    assert(orig[i as int].connection_id == connection_id && self.records@
                        == orig.subrange(0, i as int) + orig.subrange(i + 1, orig.len() as int));
                }
                return ;
            }
            i = i + 1;
        }
    }

    /// Drop every record older than the retention window, measured from its
    /// registration time. A long-lived connection's record can lapse while
    /// its socket stays open; only the accounting is forgotten.
    pub fn sweep(&mut self, now_micros: u64)
        requires
            old(self).wf(),
        ensures
            final(self).wf(),
            final(self).limit() == old(self).limit(),
            final(self).records() == old(self).records().filter(
                |record: ConnectionRecord| retained(record, now_micros),
            ),
    {
        let ghost orig = self.records@;
        let ghost f = |record: ConnectionRecord| retained(record, now_micros);
        let mut kept: Vec<ConnectionRecord> = Vec::new();
        let mut i: usize = 0;
        proof {
            reveal(Seq::filter);
            assert(orig.subrange(0, 0) =~= Seq::<ConnectionRecord>::empty());
        }
        while i < self.records.len()
            invariant
                old(self).wf(),
                old(self).records() == orig,
                self.records@ == orig,
                i <= orig.len(),
                f == (|record: ConnectionRecord| retained(record, now_micros)),
                kept@ == orig.subrange(0, i as int).filter(f),
                forall|k: int|
                    0 <= k < kept@.len() ==> exists|j: int|
                        0 <= j < i && orig[j] == #[trigger] kept@[k],
                forall|a: int, b: int|
                    0 <= a < b < kept@.len() ==> #[trigger] kept@[a].connection_id
                        != #[trigger] kept@[b].connection_id,
            decreases orig.len() - i,
        {
            let record = self.records[i];
            let keep = record.accepted_at_micros <= now_micros && now_micros
                - record.accepted_at_micros < RETENTION_MICROS;
            proof {
                let prefix = orig.subrange(0, i as int);
                assert(orig.subrange(0, i + 1) =~= prefix.push(orig[i as int]));
                reveal(Seq::filter);
                assert(prefix.push(orig[i as int]).drop_last() =~= prefix);
                assert(prefix.push(orig[i as int]).last() == orig[i as int]);
                if keep {
                    assert forall|k: int|
                        0 <= k < kept@.len() implies (#[trigger] kept@[k]).connection_id
                        != record.connection_id by {
                        let j = choose|j: int| 0 <= j < i && orig[j] == kept@[k];
                        assert(orig[j].connection_id != orig[i as int].connection_id);
                    }
                }
            }
            if keep {
                kept.push(record);
            }
            i = i + 1;
        }
        proof {
            assert(orig.subrange(0, orig.len() as int) =~= orig);
        }
        self.records = kept;
    }
}

} // verus!
