//! The live metric store: two append-only, insertion-ordered sequences of
//! records — per-element metrics and inter-element latencies — with
//! most-recent-wins queries and a threshold predicate.

use vstd::prelude::*;

use crate::classify::MetricRecord;
use crate::classify::RecordModel;
use crate::text::prefix_match;
use crate::text::prefix_match_spec;

verus! {

/// The name a record is matched by: the element token for node-scoped
/// records, and — by this library's fixed policy — the target pad token for
/// inter-element latencies.
pub open spec fn rec_key(m: RecordModel) -> Seq<char> {
    match m {
        RecordModel::Throughput { element, .. } => element,
        RecordModel::FrameRate { element, .. } => element,
        RecordModel::ProcessingTime { element, .. } => element,
        RecordModel::InterElementLatency { to, .. } => to,
    }
}

/// Whether a record is an inter-element latency.
pub open spec fn is_latency(m: RecordModel) -> bool {
    m is InterElementLatency
}

/// The models of a sequence of records.
pub open spec fn models(v: Seq<MetricRecord>) -> Seq<RecordModel> {
    v.map_values(|r: MetricRecord| r@)
}

/// The most recently appended record of `s` whose key the entity matches,
/// scanning in reverse insertion order.
pub open spec fn latest_match(s: Seq<RecordModel>, entity: Seq<char>) -> Option<RecordModel>
    decreases s.len(),
{
    if s.len() == 0 {
        None
    } else if prefix_match_spec(entity, rec_key(s.last())) {
        Some(s.last())
    } else {
        latest_match(s.drop_last(), entity)
    }
}

/// The match `latest_match` returns is a stored record that the entity
/// matches, and no record stored after it matches; when it returns nothing,
/// no stored record matches at all.
pub proof fn lemma_latest_match_is_most_recent(s: Seq<RecordModel>, entity: Seq<char>)
    ensures
        match latest_match(s, entity) {
            Some(m) => exists|i: int|
                0 <= i < s.len() && #[trigger] s[i] == m && prefix_match_spec(entity, rec_key(m))
                    && (forall|j: int|
                    i < j < s.len() ==> !prefix_match_spec(entity, rec_key(#[trigger] s[j]))),
            None => forall|i: int|
                0 <= i < s.len() ==> !prefix_match_spec(entity, rec_key(#[trigger] s[i])),
        },
    decreases s.len(),
{
    if s.len() == 0 {
    } else if prefix_match_spec(entity, rec_key(s.last())) {
        assert(s[s.len() - 1] == s.last());
    } else {
        lemma_latest_match_is_most_recent(s.drop_last(), entity);
        match latest_match(s.drop_last(), entity) {
            Some(m) => {
                let i = choose|i: int|
                    0 <= i < s.drop_last().len() && #[trigger] s.drop_last()[i] == m
                        && prefix_match_spec(entity, rec_key(m)) && (forall|j: int|
                        i < j < s.drop_last().len() ==> !prefix_match_spec(
                            entity,
                            rec_key(#[trigger] s.drop_last()[j]),
                        ));
                assert(s[i] == s.drop_last()[i]);
                assert forall|j: int|
                    i < j < s.len() implies !prefix_match_spec(
                    entity,
                    rec_key(#[trigger] s[j]),
                ) by {
                    if j < s.len() - 1 {
                        assert(s[j] == s.drop_last()[j]);
                    }
                }
            },
            None => {
                assert forall|i: int|
                    0 <= i < s.len() implies !prefix_match_spec(
                    entity,
                    rec_key(#[trigger] s[i]),
                ) by {
                    if i < s.len() - 1 {
                        assert(s[i] == s.drop_last()[i]);
                    }
                }
            },
        }
    }
}

/// Appending a matching record makes it the one that `latest_match`
/// returns, whatever was stored before.
pub proof fn lemma_record_then_query(s: Seq<RecordModel>, m: RecordModel, entity: Seq<char>)
    requires
        prefix_match_spec(entity, rec_key(m)),
    ensures
        latest_match(s.push(m), entity) == Some(m),
{
    assert(s.push(m).last() == m);
}

/// On an empty store every query comes back empty: clearing resets every
/// entity's view, whatever was recorded before.
pub proof fn lemma_clear_resets(entity: Seq<char>)
    ensures
        latest_match(Seq::<RecordModel>::empty(), entity) == None::<RecordModel>,
{
}

// ---------------------------------------------------------------------------
// Thresholds
// ---------------------------------------------------------------------------

/// The consumer's display bounds. Read-only to the core; never a reason to
/// discard data.
#[derive(Clone, Copy, Debug)]
pub struct Thresholds {
    pub min_bitrate: u64,
    pub min_framerate: u64,
    pub max_latency_ns: u64,
}

/// A node-scoped record passes when each of its present fields meets its
/// bound; an absent field satisfies its bound. Latency records always pass:
/// a latency breach is flagged, never filtered.
pub open spec fn passes_threshold_spec(m: RecordModel, t: Thresholds) -> bool {
    match m {
        RecordModel::Throughput { bits_per_second, .. } => bits_per_second >= t.min_bitrate,
        RecordModel::FrameRate { frames_per_second, .. } => frames_per_second >= t.min_framerate,
        RecordModel::ProcessingTime { .. } => true,
        RecordModel::InterElementLatency { .. } => true,
    }
}

/// Pure display filter over one record.
pub fn passes_threshold(m: &MetricRecord, t: &Thresholds) -> (b: bool)
    ensures
        b == passes_threshold_spec(m@, *t),
{
    match m {
        MetricRecord::Throughput { bits_per_second, .. } => *bits_per_second >= t.min_bitrate,
        MetricRecord::FrameRate { frames_per_second, .. } => *frames_per_second
            >= t.min_framerate,
        MetricRecord::ProcessingTime { .. } => true,
        MetricRecord::InterElementLatency { .. } => true,
    }
}

/// Whether a latency value is flagged as a breach. A breach changes
/// presentation, not visibility.
pub open spec fn latency_flagged_spec(nanoseconds: u64, t: Thresholds) -> bool {
    nanoseconds > t.max_latency_ns
}

/// Pure breach test over one latency value.
pub fn latency_flagged(nanoseconds: u64, t: &Thresholds) -> (b: bool)
    ensures
        b == latency_flagged_spec(nanoseconds, *t),
{
    nanoseconds > t.max_latency_ns
}

// ---------------------------------------------------------------------------
// The store
// ---------------------------------------------------------------------------

/// Append-only store of metric records: created empty, grows monotonically
/// under `record`, and shrinks only under an explicit `clear`.
pub struct MetricStore {
    element_records: Vec<MetricRecord>,
    latency_records: Vec<MetricRecord>,
}

impl MetricStore {
    /// The per-element records, in insertion order.
    pub closed spec fn elements(&self) -> Seq<RecordModel> {
        models(self.element_records@)
    }

    /// The inter-element latency records, in insertion order.
    pub closed spec fn latencies(&self) -> Seq<RecordModel> {
        models(self.latency_records@)
    }

    /// The two sequences hold only their own kind of record.
    pub open spec fn wf(&self) -> bool {
        (forall|i: int|
            0 <= i < self.elements().len() ==> !is_latency(#[trigger] self.elements()[i]))
            && (forall|i: int|
            0 <= i < self.latencies().len() ==> is_latency(#[trigger] self.latencies()[i]))
    }

    /// A fresh, empty store.
    pub fn new() -> (s: MetricStore)
        ensures
            s.wf(),
            s.elements() == Seq::<RecordModel>::empty(),
            s.latencies() == Seq::<RecordModel>::empty(),
    {
        let s = MetricStore { element_records: Vec::new(), latency_records: Vec::new() };
        proof {
            assert(s.elements() =~= Seq::<RecordModel>::empty());
            assert(s.latencies() =~= Seq::<RecordModel>::empty());
        }
        s
    }

    /// The number of per-element records.
    pub fn element_count(&self) -> (n: usize)
        ensures
            n == self.elements().len(),
    {
        self.element_records.len()
    }

    /// The number of latency records.
    pub fn latency_count(&self) -> (n: usize)
        ensures
            n == self.latencies().len(),
    {
        self.latency_records.len()
    }

    /// Appends one record to the sequence its kind belongs to. Never
    /// deduplicates and never fails.
    pub fn record(&mut self, m: MetricRecord)
        requires
            old(self).wf(),
        ensures
            final(self).wf(),
            is_latency(m@) ==> final(self).latencies() == old(self).latencies().push(m@)
                && final(self).elements() == old(self).elements(),
            !is_latency(m@) ==> final(self).elements() == old(self).elements().push(m@)
                && final(self).latencies() == old(self).latencies(),
    {
        let is_lat = match &m {
            MetricRecord::InterElementLatency { .. } => true,
            _ => false,
        };
        if is_lat {
            self.latency_records.push(m);
            proof {
                assert(self.latencies() =~= old(self).latencies().push(
                    self.latency_records@.last()@,
                ));
                assert(self.elements() =~= old(self).elements());
            }
        } else {
            self.element_records.push(m);
            proof {
                assert(self.elements() =~= old(self).elements().push(
                    self.element_records@.last()@,
                ));
                assert(self.latencies() =~= old(self).latencies());
            }
        }
    }

    /// Empties both sequences.
    pub fn clear(&mut self)
        ensures
            final(self).wf(),
            final(self).elements() == Seq::<RecordModel>::empty(),
            final(self).latencies() == Seq::<RecordModel>::empty(),
    {
        self.element_records = Vec::new();
        self.latency_records = Vec::new();
        proof {
            assert(self.elements() =~= Seq::<RecordModel>::empty());
            assert(self.latencies() =~= Seq::<RecordModel>::empty());
        }
    }

    /// The most recently recorded per-element record whose raw element name
    /// the entity matches under the prefix policy.
    pub fn latest_for(&self, entity_id: &str) -> (r: Option<MetricRecord>)
        ensures
            match latest_match(self.elements(), entity_id@) {
                Some(m) => r matches Some(rec) && rec@ == m,
                None => r is None,
            },
    {
        scan_latest(&self.element_records, entity_id)
    }

    /// The most recently recorded latency record whose target pad name the
    /// entity matches under the prefix policy.
    pub fn latest_latency_for(&self, entity_id: &str) -> (r: Option<MetricRecord>)
        ensures
            match latest_match(self.latencies(), entity_id@) {
                Some(m) => r matches Some(rec) && rec@ == m,
                None => r is None,
            },
    {
        scan_latest(&self.latency_records, entity_id)
    }
}

/// The raw token a record is matched by.
fn record_key(m: &MetricRecord) -> (r: &String)
    ensures
        r@ == rec_key(m@),
{
    match m {
        MetricRecord::Throughput { element, .. } => element,
        MetricRecord::FrameRate { element, .. } => element,
        MetricRecord::ProcessingTime { element, .. } => element,
        MetricRecord::InterElementLatency { to, .. } => to,
    }
}

/// Reverse scan for the most recent record matching the entity.
fn scan_latest(v: &Vec<MetricRecord>, entity_id: &str) -> (r: Option<MetricRecord>)
    ensures
        match latest_match(models(v@), entity_id@) {
            Some(m) => r matches Some(rec) && rec@ == m,
            None => r is None,
        },
{
    let ghost es = models(v@);
    proof {
        assert(es.take(v@.len() as int) =~= es);
    }
    let mut i = v.len();
    while i > 0
        invariant
            0 <= i <= v@.len(),
            es == models(v@),
            es.len() == v@.len(),
            latest_match(es, entity_id@) == latest_match(es.take(i as int), entity_id@),
        decreases i,
    {
        i -= 1;
        let rec = &v[i];
        proof {
            assert(es[i as int] == rec@);
            assert(es.take(i + 1).last() == es[i as int]);
            assert(es.take(i + 1).drop_last() =~= es.take(i as int));
        }
        if prefix_match(entity_id, record_key(rec).as_str()) {
            return Some(rec.duplicate());
        }
    }
    proof {
        assert(es.take(0) =~= Seq::<RecordModel>::empty());
    }
    None
}

} // verus!
