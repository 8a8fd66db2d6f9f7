//! The streaming ingestion session: a two-state machine — running, then
//! terminally closed — that classifies lines one at a time and publishes
//! every extracted record into the live metric store.
//!
//! The session holds no I/O. A driver pulls lines from the external process
//! and hands each one to `ingest_line`; when the line source is exhausted it
//! calls `close`, after which no line changes the store. Closing is
//! terminal: nothing reopens a session.

use vstd::prelude::*;

use crate::classify::classify_line;
use crate::classify::classify_spec;
use crate::classify::MetricRecord;
use crate::store::is_latency;
use crate::store::latest_match;
use crate::store::MetricStore;

verus! {

/// The two session states. The transition from running to closed is
/// terminal.
#[derive(Clone, Copy, Debug, PartialEq, Eq, Structural)]
pub enum SessionStatus {
    Running,
    Closed,
}

/// One ingestion run over one external process's diagnostic stream.
pub struct IngestSession {
    status: SessionStatus,
    store: MetricStore,
}

impl IngestSession {
    /// The store as the session sees it.
    pub closed spec fn spec_store(&self) -> MetricStore {
        self.store
    }

    /// Whether the session still accepts lines.
    pub closed spec fn is_running(&self) -> bool {
        self.status is Running
    }

    pub open spec fn wf(&self) -> bool {
        self.spec_store().wf()
    }

    /// A fresh running session over an empty store.
    pub fn new() -> (s: IngestSession)
        ensures
            s.wf(),
            s.is_running(),
            s.spec_store().elements() == Seq::<crate::classify::RecordModel>::empty(),
            s.spec_store().latencies() == Seq::<crate::classify::RecordModel>::empty(),
    {
        IngestSession { status: SessionStatus::Running, store: MetricStore::new() }
    }

    /// Whether the session still accepts lines.
    pub fn running(&self) -> (b: bool)
        ensures
            b == self.is_running(),
    {
        match self.status {
            SessionStatus::Running => true,
            SessionStatus::Closed => false,
        }
    }

    /// Ends the session: the line source is exhausted or the external
    /// process terminated. Terminal; the store is left as it stands.
    pub fn close(&mut self)
        ensures
            !final(self).is_running(),
            final(self).spec_store() == old(self).spec_store(),
    {
        self.status = SessionStatus::Closed;
    }

    /// Processes one diagnostic line: classifies it and, on a running
    /// session, records the extracted metric. Returns whether a record was
    /// stored. A line that matches no grammar, or whose numeric field does
    /// not parse, changes nothing and never halts ingestion.
    pub fn ingest_line(&mut self, line: &str) -> (recorded: bool)
        requires
            old(self).wf(),
        ensures
            final(self).wf(),
            final(self).is_running() == old(self).is_running(),
            !old(self).is_running() ==> !recorded && final(self).spec_store() == old(self).spec_store(),
            old(self).is_running() ==> match classify_spec(line@) {
                Some(m) => {
                    &&& recorded
                    &&& is_latency(m) ==> {
                        &&& final(self).spec_store().latencies() == old(self).spec_store().latencies().push(m)
                        &&& final(self).spec_store().elements() == old(self).spec_store().elements()
                    }
                    &&& !is_latency(m) ==> {
                        &&& final(self).spec_store().elements() == old(self).spec_store().elements().push(m)
                        &&& final(self).spec_store().latencies() == old(self).spec_store().latencies()
                    }
                },
                None => !recorded && final(self).spec_store() == old(self).spec_store(),
            },
    {
        if !self.running() {
            return false;
        }
        match classify_line(line) {
            Some(m) => {
                self.store.record(m);
                true
            },
            None => false,
        }
    }

    /// The most recent per-element record matching the entity; see
    /// `MetricStore::latest_for`.
    pub fn latest_for(&self, entity_id: &str) -> (r: Option<MetricRecord>)
        ensures
            match latest_match(self.spec_store().elements(), entity_id@) {
                Some(m) => r matches Some(rec) && rec@ == m,
                None => r is None,
            },
    {
        self.store.latest_for(entity_id)
    }

    /// The most recent latency record matching the entity; see
    /// `MetricStore::latest_latency_for`.
    pub fn latest_latency_for(&self, entity_id: &str) -> (r: Option<MetricRecord>)
        ensures
            match latest_match(self.spec_store().latencies(), entity_id@) {
                Some(m) => r matches Some(rec) && rec@ == m,
                None => r is None,
            },
    {
        self.store.latest_latency_for(entity_id)
    }

    /// The consumer's explicit reset: empties the store. The session state
    /// is untouched.
    pub fn clear(&mut self)
        ensures
            final(self).wf(),
            final(self).is_running() == old(self).is_running(),
            final(self).spec_store().elements() == Seq::<
                crate::classify::RecordModel,
            >::empty(),
            final(self).spec_store().latencies() == Seq::<
                crate::classify::RecordModel,
            >::empty(),
    {
        self.store.clear();
    }

    /// The number of per-element records stored.
    pub fn element_count(&self) -> (n: usize)
        ensures
            n == self.spec_store().elements().len(),
    {
        self.store.element_count()
    }

    /// The number of latency records stored.
    pub fn latency_count(&self) -> (n: usize)
        ensures
            n == self.spec_store().latencies().len(),
    {
        self.store.latency_count()
    }
}

} // verus!
