//! The billing pipeline: counter samples are folded into a per-node
//! pivot collector and then exploded into flat event rows.  Only
//! non-zero values are emitted, and every event of one collector
//! carries the same time stamp.

use vstd::prelude::*;

use crate::prom::{counters_of, sample_views, spec_counter_samples, PromSample, PromSampleV};
use crate::assoc::{assoc_set, find_key, lemma_find_key_none, lemma_find_key_some};
use crate::strutil::str_eq;

verus! {

/// One flat billing event row.  `event_time` is the collector's clock
/// reading in microseconds since the epoch, shared by every event the
/// collector emits.
#[derive(Clone, Debug)]
pub struct BillingMetricEvent {
    pub node_address: String,
    pub node_type: String,
    pub metric_type: String,
    pub date: String,
    pub value: u64,
    pub method: Option<String>,
    pub provider: Option<String>,
    pub model: Option<String>,
    pub event_type: String,
    pub event_time: i64,
}

/// The mathematical image of a `BillingMetricEvent`.
#[verifier::ext_equal]
pub struct EventV {
    pub node_address: Seq<char>,
    pub node_type: Seq<char>,
    pub metric_type: Seq<char>,
    pub date: Seq<char>,
    pub value: u64,
    pub method: Option<Seq<char>>,
    pub provider: Option<Seq<char>>,
    pub model: Option<Seq<char>>,
    pub event_type: Seq<char>,
    pub event_time: i64,
}

impl View for BillingMetricEvent {
    type V = EventV;

    open spec fn view(&self) -> EventV {
        EventV {
            node_address: self.node_address@,
            node_type: self.node_type@,
            metric_type: self.metric_type@,
            date: self.date@,
            value: self.value,
            method: crate::prom::opt_view(self.method),
            provider: crate::prom::opt_view(self.provider),
            model: crate::prom::opt_view(self.model),
            event_type: self.event_type@,
            event_time: self.event_time,
        }
    }
}

/// The views of a sequence of events.
pub open spec fn evs(s: Seq<BillingMetricEvent>) -> Seq<EventV> {
    s.map_values(|e: BillingMetricEvent| e@)
}

/// A date-keyed counter table: one level of the pivot.
pub type Table1 = Vec<(String, u64)>;

/// A method-keyed table of date-keyed counters.
pub type Table2 = Vec<(String, Table1)>;

/// A provider-keyed table of model-keyed tables of date-keyed counters.
pub type Table3 = Vec<(String, Table2)>;

pub type Table1V = Seq<(Seq<char>, u64)>;

pub type Table2V = Seq<(Seq<char>, Table1V)>;

pub type Table3V = Seq<(Seq<char>, Table2V)>;

pub open spec fn v1(s: Seq<(String, u64)>) -> Table1V {
    s.map_values(|p: (String, u64)| (p.0@, p.1))
}

pub open spec fn v2(s: Seq<(String, Table1)>) -> Table2V {
    s.map_values(|p: (String, Table1)| (p.0@, v1(p.1@)))
}

pub open spec fn v3(s: Seq<(String, Table2)>) -> Table3V {
    s.map_values(|p: (String, Table2)| (p.0@, v2(p.1@)))
}

/// Bind `key` to `value` in a date-keyed table.
#[verifier::loop_isolation(false)]
fn insert1(m: &mut Table1, key: &str, value: u64)
    ensures
        v1(final(m)@) == assoc_set(v1(old(m)@), key@, value),
{
    let n = m.len();
    for i in 0..n
        invariant
            m@ == old(m)@,
            forall|j: int| 0 <= j < i ==> v1(m@)[j].0 != key@,
    {
        if str_eq(m[i].0.as_str(), key) {
            let e = &mut m[i];
            e.1 = value;
            proof {
                lemma_find_key_some(v1(old(m)@), key@, i as int);
                assert(v1(m@) =~= assoc_set(v1(old(m)@), key@, value));
            }
            return ;
        }
    }
    m.push((key.to_owned(), value));
    proof {
        lemma_find_key_none(v1(old(m)@), key@);
        assert(v1(m@) =~= assoc_set(v1(old(m)@), key@, value));
    }
}

/// Bind `(outer, inner)` to `value` in a two-level table.
pub open spec fn assoc_set2(s: Table2V, outer: Seq<char>, inner: Seq<char>, value: u64) -> Table2V {
    match find_key(s, outer) {
        Some(i) => s.update(i, (outer, assoc_set(s[i].1, inner, value))),
        None => s.push((outer, seq![(inner, value)])),
    }
}

#[verifier::loop_isolation(false)]
fn insert2(m: &mut Table2, outer: &str, inner: &str, value: u64)
    ensures
        v2(final(m)@) == assoc_set2(v2(old(m)@), outer@, inner@, value),
{
    let n = m.len();
    for i in 0..n
        invariant
            m@ == old(m)@,
            forall|j: int| 0 <= j < i ==> v2(m@)[j].0 != outer@,
    {
        if str_eq(m[i].0.as_str(), outer) {
            let e = &mut m[i];
            insert1(&mut e.1, inner, value);
            proof {
                lemma_find_key_some(v2(old(m)@), outer@, i as int);
                assert(v2(m@) =~~= assoc_set2(v2(old(m)@), outer@, inner@, value));
            }
            return ;
        }
    }
    let mut fresh: Table1 = Vec::new();
    fresh.push((inner.to_owned(), value));
    m.push((outer.to_owned(), fresh));
    proof {
        lemma_find_key_none(v2(old(m)@), outer@);
        assert(v2(m@) =~~= assoc_set2(v2(old(m)@), outer@, inner@, value));
    }
}

/// Bind `(outer, mid, inner)` to `value` in a three-level table.
pub open spec fn assoc_set3(
    s: Table3V,
    outer: Seq<char>,
    mid: Seq<char>,
    inner: Seq<char>,
    value: u64,
) -> Table3V {
    match find_key(s, outer) {
        Some(i) => s.update(i, (outer, assoc_set2(s[i].1, mid, inner, value))),
        None => s.push((outer, seq![(mid, seq![(inner, value)])])),
    }
}

#[verifier::loop_isolation(false)]
fn insert3(m: &mut Table3, outer: &str, mid: &str, inner: &str, value: u64)
    ensures
        v3(final(m)@) == assoc_set3(v3(old(m)@), outer@, mid@, inner@, value),
{
    let n = m.len();
    for i in 0..n
        invariant
            m@ == old(m)@,
            forall|j: int| 0 <= j < i ==> v3(m@)[j].0 != outer@,
    {
        if str_eq(m[i].0.as_str(), outer) {
            let e = &mut m[i];
            insert2(&mut e.1, mid, inner, value);
            proof {
                lemma_find_key_some(v3(old(m)@), outer@, i as int);
                assert(v3(m@) =~~= assoc_set3(v3(old(m)@), outer@, mid@, inner@, value));
            }
            return ;
        }
    }
    let mut fresh_inner: Table1 = Vec::new();
    fresh_inner.push((inner.to_owned(), value));
    let mut fresh_mid: Table2 = Vec::new();
    fresh_mid.push((mid.to_owned(), fresh_inner));
    m.push((outer.to_owned(), fresh_mid));
    proof {
        lemma_find_key_none(v3(old(m)@), outer@);
        assert(v3(m@) =~~= assoc_set3(v3(old(m)@), outer@, mid@, inner@, value));
    }
}


/// The pivot collector for one node's scrape.
#[derive(Debug)]
pub struct BillingMetricsCollector {
    pub node_address: String,
    pub node_type: String,
    pub event_time: i64,
    pub total_events_ingested_by_date: Table1,
    pub total_events_ingested_size_by_date: Table1,
    pub total_parquets_stored_by_date: Table1,
    pub total_parquets_stored_size_by_date: Table1,
    pub total_query_calls_by_date: Table1,
    pub total_files_scanned_in_query_by_date: Table1,
    pub total_bytes_scanned_in_query_by_date: Table1,
    pub total_object_store_calls_by_date: Table2,
    pub total_files_scanned_in_object_store_calls_by_date: Table2,
    pub total_bytes_scanned_in_object_store_calls_by_date: Table2,
    pub total_input_llm_tokens_by_date: Table3,
    pub total_output_llm_tokens_by_date: Table3,
}

/// The mathematical image of a collector.
#[verifier::ext_equal]
pub struct CollectorV {
    pub node_address: Seq<char>,
    pub node_type: Seq<char>,
    pub event_time: i64,
    pub total_events_ingested_by_date: Table1V,
    pub total_events_ingested_size_by_date: Table1V,
    pub total_parquets_stored_by_date: Table1V,
    pub total_parquets_stored_size_by_date: Table1V,
    pub total_query_calls_by_date: Table1V,
    pub total_files_scanned_in_query_by_date: Table1V,
    pub total_bytes_scanned_in_query_by_date: Table1V,
    pub total_object_store_calls_by_date: Table2V,
    pub total_files_scanned_in_object_store_calls_by_date: Table2V,
    pub total_bytes_scanned_in_object_store_calls_by_date: Table2V,
    pub total_input_llm_tokens_by_date: Table3V,
    pub total_output_llm_tokens_by_date: Table3V,
}

impl View for BillingMetricsCollector {
    type V = CollectorV;

    open spec fn view(&self) -> CollectorV {
        CollectorV {
            node_address: self.node_address@,
            node_type: self.node_type@,
            event_time: self.event_time,
            total_events_ingested_by_date: v1(self.total_events_ingested_by_date@),
            total_events_ingested_size_by_date: v1(self.total_events_ingested_size_by_date@),
            total_parquets_stored_by_date: v1(self.total_parquets_stored_by_date@),
            total_parquets_stored_size_by_date: v1(self.total_parquets_stored_size_by_date@),
            total_query_calls_by_date: v1(self.total_query_calls_by_date@),
            total_files_scanned_in_query_by_date: v1(self.total_files_scanned_in_query_by_date@),
            total_bytes_scanned_in_query_by_date: v1(self.total_bytes_scanned_in_query_by_date@),
            total_object_store_calls_by_date: v2(self.total_object_store_calls_by_date@),
            total_files_scanned_in_object_store_calls_by_date: v2(
                self.total_files_scanned_in_object_store_calls_by_date@,
            ),
            total_bytes_scanned_in_object_store_calls_by_date: v2(
                self.total_bytes_scanned_in_object_store_calls_by_date@,
            ),
            total_input_llm_tokens_by_date: v3(self.total_input_llm_tokens_by_date@),
            total_output_llm_tokens_by_date: v3(self.total_output_llm_tokens_by_date@),
        }
    }
}

/// The empty collector for one node and one clock reading.
pub open spec fn init_collector(addr: Seq<char>, typ: Seq<char>, t: i64) -> CollectorV {
    CollectorV {
        node_address: addr,
        node_type: typ,
        event_time: t,
        total_events_ingested_by_date: Seq::empty(),
        total_events_ingested_size_by_date: Seq::empty(),
        total_parquets_stored_by_date: Seq::empty(),
        total_parquets_stored_size_by_date: Seq::empty(),
        total_query_calls_by_date: Seq::empty(),
        total_files_scanned_in_query_by_date: Seq::empty(),
        total_bytes_scanned_in_query_by_date: Seq::empty(),
        total_object_store_calls_by_date: Seq::empty(),
        total_files_scanned_in_object_store_calls_by_date: Seq::empty(),
        total_bytes_scanned_in_object_store_calls_by_date: Seq::empty(),
        total_input_llm_tokens_by_date: Seq::empty(),
        total_output_llm_tokens_by_date: Seq::empty(),
    }
}

/// The simple metric family: one `date` label.
pub open spec fn spec_is_simple_metric(m: Seq<char>) -> bool {
    ||| m == "parseable_total_events_ingested_by_date"@
    ||| m == "parseable_total_events_ingested_size_by_date"@
    ||| m == "parseable_total_parquets_stored_by_date"@
    ||| m == "parseable_total_parquets_stored_size_by_date"@
    ||| m == "parseable_total_query_calls_by_date"@
    ||| m == "parseable_total_files_scanned_in_query_by_date"@
    ||| m == "parseable_total_bytes_scanned_in_query_by_date"@
}

/// Whether a metric belongs to the simple date-keyed family.
pub fn is_simple_metric(metric: &str) -> (r: bool)
    ensures
        r == spec_is_simple_metric(metric@),
{
    str_eq(metric, "parseable_total_events_ingested_by_date") || str_eq(
        metric,
        "parseable_total_events_ingested_size_by_date",
    ) || str_eq(metric, "parseable_total_parquets_stored_by_date") || str_eq(
        metric,
        "parseable_total_parquets_stored_size_by_date",
    ) || str_eq(metric, "parseable_total_query_calls_by_date") || str_eq(
        metric,
        "parseable_total_files_scanned_in_query_by_date",
    ) || str_eq(metric, "parseable_total_bytes_scanned_in_query_by_date")
}

/// The object-store family: `method` and `date` labels.
pub open spec fn spec_is_object_store_metric(m: Seq<char>) -> bool {
    ||| m == "parseable_total_object_store_calls_by_date"@
    ||| m == "parseable_total_files_scanned_in_object_store_calls_by_date"@
    ||| m == "parseable_total_bytes_scanned_in_object_store_calls_by_date"@
}

/// Whether a metric belongs to the object-store family.
pub fn is_object_store_metric(metric: &str) -> (r: bool)
    ensures
        r == spec_is_object_store_metric(metric@),
{
    str_eq(metric, "parseable_total_object_store_calls_by_date") || str_eq(
        metric,
        "parseable_total_files_scanned_in_object_store_calls_by_date",
    ) || str_eq(metric, "parseable_total_bytes_scanned_in_object_store_calls_by_date")
}

/// The LLM-token family: `provider`, `model` and `date` labels.
pub open spec fn spec_is_llm_metric(m: Seq<char>) -> bool {
    ||| m == "parseable_total_input_llm_tokens_by_date"@
    ||| m == "parseable_total_output_llm_tokens_by_date"@
}

/// Whether a metric belongs to the LLM-token family.
pub fn is_llm_metric(metric: &str) -> (r: bool)
    ensures
        r == spec_is_llm_metric(metric@),
{
    str_eq(metric, "parseable_total_input_llm_tokens_by_date") || str_eq(
        metric,
        "parseable_total_output_llm_tokens_by_date",
    )
}

/// One simple sample folded into the collector.
pub open spec fn spec_process_simple(
    c: CollectorV,
    metric: Seq<char>,
    date: Seq<char>,
    value: u64,
) -> CollectorV {
    if metric == "parseable_total_events_ingested_by_date"@ {
        CollectorV {
            total_events_ingested_by_date: assoc_set(
                c.total_events_ingested_by_date,
                date,
                value,
            ),
            ..c
        }
    } else if metric == "parseable_total_events_ingested_size_by_date"@ {
        CollectorV {
            total_events_ingested_size_by_date: assoc_set(
                c.total_events_ingested_size_by_date,
                date,
                value,
            ),
            ..c
        }
    } else if metric == "parseable_total_parquets_stored_by_date"@ {
        CollectorV {
            total_parquets_stored_by_date: assoc_set(
                c.total_parquets_stored_by_date,
                date,
                value,
            ),
            ..c
        }
    } else if metric == "parseable_total_parquets_stored_size_by_date"@ {
        CollectorV {
            total_parquets_stored_size_by_date: assoc_set(
                c.total_parquets_stored_size_by_date,
                date,
                value,
            ),
            ..c
        }
    } else if metric == "parseable_total_query_calls_by_date"@ {
        CollectorV { total_query_calls_by_date: assoc_set(c.total_query_calls_by_date, date, value), ..c }
    } else if metric == "parseable_total_files_scanned_in_query_by_date"@ {
        CollectorV {
            total_files_scanned_in_query_by_date: assoc_set(
                c.total_files_scanned_in_query_by_date,
                date,
                value,
            ),
            ..c
        }
    } else if metric == "parseable_total_bytes_scanned_in_query_by_date"@ {
        CollectorV {
            total_bytes_scanned_in_query_by_date: assoc_set(
                c.total_bytes_scanned_in_query_by_date,
                date,
                value,
            ),
            ..c
        }
    } else {
        c
    }
}

/// One object-store sample folded into the collector.
pub open spec fn spec_process_object_store(
    c: CollectorV,
    metric: Seq<char>,
    method: Seq<char>,
    date: Seq<char>,
    value: u64,
) -> CollectorV {
    if metric == "parseable_total_object_store_calls_by_date"@ {
        CollectorV {
            total_object_store_calls_by_date: assoc_set2(
                c.total_object_store_calls_by_date,
                method,
                date,
                value,
            ),
            ..c
        }
    } else if metric == "parseable_total_files_scanned_in_object_store_calls_by_date"@ {
        CollectorV {
            total_files_scanned_in_object_store_calls_by_date: assoc_set2(
                c.total_files_scanned_in_object_store_calls_by_date,
                method,
                date,
                value,
            ),
            ..c
        }
    } else if metric == "parseable_total_bytes_scanned_in_object_store_calls_by_date"@ {
        CollectorV {
            total_bytes_scanned_in_object_store_calls_by_date: assoc_set2(
                c.total_bytes_scanned_in_object_store_calls_by_date,
                method,
                date,
                value,
            ),
            ..c
        }
    } else {
        c
    }
}

/// One LLM-token sample folded into the collector.
pub open spec fn spec_process_llm(
    c: CollectorV,
    metric: Seq<char>,
    provider: Seq<char>,
    model: Seq<char>,
    date: Seq<char>,
    value: u64,
) -> CollectorV {
    if metric == "parseable_total_input_llm_tokens_by_date"@ {
        CollectorV {
            total_input_llm_tokens_by_date: assoc_set3(
                c.total_input_llm_tokens_by_date,
                provider,
                model,
                date,
                value,
            ),
            ..c
        }
    } else if metric == "parseable_total_output_llm_tokens_by_date"@ {
        CollectorV {
            total_output_llm_tokens_by_date: assoc_set3(
                c.total_output_llm_tokens_by_date,
                provider,
                model,
                date,
                value,
            ),
            ..c
        }
    } else {
        c
    }
}

/// One sample folded into the collector: counter-kind samples of a
/// known family with the required labels update their table; every
/// other sample leaves the collector unchanged.
pub open spec fn spec_process_sample(c: CollectorV, s: PromSampleV) -> CollectorV {
    match s.counter {
        None => c,
        Some(value) => if spec_is_simple_metric(s.metric) {
            match s.date {
                Some(d) => spec_process_simple(c, s.metric, d, value),
                None => c,
            }
        } else if spec_is_object_store_metric(s.metric) {
            match (s.method, s.date) {
                (Some(m), Some(d)) => spec_process_object_store(c, s.metric, m, d, value),
                _ => c,
            }
        } else if spec_is_llm_metric(s.metric) {
            match (s.provider, s.model, s.date) {
                (Some(p), Some(mo), Some(d)) => spec_process_llm(c, s.metric, p, mo, d, value),
                _ => c,
            }
        } else {
            c
        },
    }
}

/// The samples folded into the collector left to right.
pub open spec fn spec_collect(c: CollectorV, samples: Seq<PromSampleV>) -> CollectorV
    decreases samples.len(),
{
    if samples.len() == 0 {
        c
    } else {
        spec_process_sample(spec_collect(c, samples.drop_last()), samples.last())
    }
}

/// Fold a simple sample with its date label into the collector.
pub fn process_simple_metric(
    collector: &mut BillingMetricsCollector,
    metric: &str,
    date: &str,
    value: u64,
)
    ensures
        final(collector)@ == spec_process_simple(old(collector)@, metric@, date@, value),
{
    if str_eq(metric, "parseable_total_events_ingested_by_date") {
        insert1(&mut collector.total_events_ingested_by_date, date, value);
    } else if str_eq(metric, "parseable_total_events_ingested_size_by_date") {
        insert1(&mut collector.total_events_ingested_size_by_date, date, value);
    } else if str_eq(metric, "parseable_total_parquets_stored_by_date") {
        insert1(&mut collector.total_parquets_stored_by_date, date, value);
    } else if str_eq(metric, "parseable_total_parquets_stored_size_by_date") {
        insert1(&mut collector.total_parquets_stored_size_by_date, date, value);
    } else if str_eq(metric, "parseable_total_query_calls_by_date") {
        insert1(&mut collector.total_query_calls_by_date, date, value);
    } else if str_eq(metric, "parseable_total_files_scanned_in_query_by_date") {
        insert1(&mut collector.total_files_scanned_in_query_by_date, date, value);
    } else if str_eq(metric, "parseable_total_bytes_scanned_in_query_by_date") {
        insert1(&mut collector.total_bytes_scanned_in_query_by_date, date, value);
    }
}

/// Fold an object-store sample with its method and date labels into
/// the collector.
pub fn process_object_store_metric(
    collector: &mut BillingMetricsCollector,
    metric: &str,
    method: &str,
    date: &str,
    value: u64,
)
    ensures
        final(collector)@ == spec_process_object_store(
            old(collector)@,
            metric@,
            method@,
            date@,
            value,
        ),
{
    if str_eq(metric, "parseable_total_object_store_calls_by_date") {
        insert2(&mut collector.total_object_store_calls_by_date, method, date, value);
    } else if str_eq(metric, "parseable_total_files_scanned_in_object_store_calls_by_date") {
        insert2(
            &mut collector.total_files_scanned_in_object_store_calls_by_date,
            method,
            date,
            value,
        );
    } else if str_eq(metric, "parseable_total_bytes_scanned_in_object_store_calls_by_date") {
        insert2(
            &mut collector.total_bytes_scanned_in_object_store_calls_by_date,
            method,
            date,
            value,
        );
    }
}

/// Fold an LLM-token sample with its provider, model and date labels
/// into the collector.
pub fn process_llm_metric(
    collector: &mut BillingMetricsCollector,
    metric: &str,
    provider: &str,
    model: &str,
    date: &str,
    value: u64,
)
    ensures
        final(collector)@ == spec_process_llm(
            old(collector)@,
            metric@,
            provider@,
            model@,
            date@,
            value,
        ),
{
    if str_eq(metric, "parseable_total_input_llm_tokens_by_date") {
        insert3(&mut collector.total_input_llm_tokens_by_date, provider, model, date, value);
    } else if str_eq(metric, "parseable_total_output_llm_tokens_by_date") {
        insert3(&mut collector.total_output_llm_tokens_by_date, provider, model, date, value);
    }
}

/// Fold one sample into the collector, dispatching on its family and
/// skipping samples that are not counter-kind or lack required labels.
pub fn process_sample(collector: &mut BillingMetricsCollector, sample: &PromSample)
    ensures
        final(collector)@ == spec_process_sample(old(collector)@, sample@),
{
    let value: u64 = match &sample.counter {
        Some(v) => *v,
        None => {
            return ;
        },
    };
    if is_simple_metric(sample.metric.as_str()) {
        if let Some(date) = &sample.date {
            process_simple_metric(collector, sample.metric.as_str(), date.as_str(), value);
        }
    } else if is_object_store_metric(sample.metric.as_str()) {
        if let (Some(method), Some(date)) = (&sample.method, &sample.date) {
            process_object_store_metric(
                collector,
                sample.metric.as_str(),
                method.as_str(),
                date.as_str(),
                value,
            );
        }
    } else if is_llm_metric(sample.metric.as_str()) {
        if let (Some(provider), Some(model), Some(date)) = (
            &sample.provider,
            &sample.model,
            &sample.date,
        ) {
            process_llm_metric(
                collector,
                sample.metric.as_str(),
                provider.as_str(),
                model.as_str(),
                date.as_str(),
                value,
            );
        }
    }
}


/// The events of one date-keyed table, labelled `mt`, with optional
/// method, provider and model labels fixed by the caller.
pub open spec fn table1_events(
    addr: Seq<char>,
    typ: Seq<char>,
    t: i64,
    mt: Seq<char>,
    method: Option<Seq<char>>,
    provider: Option<Seq<char>>,
    model: Option<Seq<char>>,
    entries: Table1V,
) -> Seq<EventV>
    decreases entries.len(),
{
    if entries.len() == 0 {
        Seq::empty()
    } else {
        table1_events(addr, typ, t, mt, method, provider, model, entries.drop_last()) + if entries.last().1 > 0 {
            seq![
                EventV {
                    node_address: addr,
                    node_type: typ,
                    metric_type: mt,
                    date: entries.last().0,
                    value: entries.last().1,
                    method: method,
                    provider: provider,
                    model: model,
                    event_type: "billing-metrics"@,
                    event_time: t,
                },
            ]
        } else {
            Seq::empty()
        }
    }
}

/// The events of a method-keyed table.
pub open spec fn table2_events(
    addr: Seq<char>,
    typ: Seq<char>,
    t: i64,
    mt: Seq<char>,
    entries: Table2V,
) -> Seq<EventV>
    decreases entries.len(),
{
    if entries.len() == 0 {
        Seq::empty()
    } else {
        table2_events(addr, typ, t, mt, entries.drop_last()) + table1_events(
            addr,
            typ,
            t,
            mt,
            Some(entries.last().0),
            None,
            None,
            entries.last().1,
        )
    }
}

/// The events of the models of one provider.
pub open spec fn table3_provider_events(
    addr: Seq<char>,
    typ: Seq<char>,
    t: i64,
    mt: Seq<char>,
    provider: Seq<char>,
    models: Table2V,
) -> Seq<EventV>
    decreases models.len(),
{
    if models.len() == 0 {
        Seq::empty()
    } else {
        table3_provider_events(addr, typ, t, mt, provider, models.drop_last()) + table1_events(
            addr,
            typ,
            t,
            mt,
            None,
            Some(provider),
            Some(models.last().0),
            models.last().1,
        )
    }
}

/// The events of a provider-keyed table.
pub open spec fn table3_events(
    addr: Seq<char>,
    typ: Seq<char>,
    t: i64,
    mt: Seq<char>,
    entries: Table3V,
) -> Seq<EventV>
    decreases entries.len(),
{
    if entries.len() == 0 {
        Seq::empty()
    } else {
        table3_events(addr, typ, t, mt, entries.drop_last()) + table3_provider_events(
            addr,
            typ,
            t,
            mt,
            entries.last().0,
            entries.last().1,
        )
    }
}

/// The events of the seven simple families of a collector.
pub open spec fn simple_all(c: CollectorV) -> Seq<EventV> {
    table1_events(
        c.node_address,
        c.node_type,
        c.event_time,
        "total_events_ingested"@,
        None,
        None,
        None,
        c.total_events_ingested_by_date,
    ) + table1_events(
        c.node_address,
        c.node_type,
        c.event_time,
        "total_events_ingested_size"@,
        None,
        None,
        None,
        c.total_events_ingested_size_by_date,
    ) + table1_events(
        c.node_address,
        c.node_type,
        c.event_time,
        "total_parquets_stored"@,
        None,
        None,
        None,
        c.total_parquets_stored_by_date,
    ) + table1_events(
        c.node_address,
        c.node_type,
        c.event_time,
        "total_parquets_stored_size"@,
        None,
        None,
        None,
        c.total_parquets_stored_size_by_date,
    ) + table1_events(
        c.node_address,
        c.node_type,
        c.event_time,
        "total_query_calls"@,
        None,
        None,
        None,
        c.total_query_calls_by_date,
    ) + table1_events(
        c.node_address,
        c.node_type,
        c.event_time,
        "total_files_scanned_in_query"@,
        None,
        None,
        None,
        c.total_files_scanned_in_query_by_date,
    ) + table1_events(
        c.node_address,
        c.node_type,
        c.event_time,
        "total_bytes_scanned_in_query"@,
        None,
        None,
        None,
        c.total_bytes_scanned_in_query_by_date,
    )
}

/// The events of the three object-store families of a collector.
pub open spec fn object_store_all(c: CollectorV) -> Seq<EventV> {
    table2_events(
        c.node_address,
        c.node_type,
        c.event_time,
        "total_object_store_calls"@,
        c.total_object_store_calls_by_date,
    ) + table2_events(
        c.node_address,
        c.node_type,
        c.event_time,
        "total_files_scanned_in_object_store_calls"@,
        c.total_files_scanned_in_object_store_calls_by_date,
    ) + table2_events(
        c.node_address,
        c.node_type,
        c.event_time,
        "total_bytes_scanned_in_object_store_calls"@,
        c.total_bytes_scanned_in_object_store_calls_by_date,
    )
}

/// The events of the two LLM-token families of a collector.
pub open spec fn llm_all(c: CollectorV) -> Seq<EventV> {
    table3_events(
        c.node_address,
        c.node_type,
        c.event_time,
        "total_input_llm_tokens"@,
        c.total_input_llm_tokens_by_date,
    ) + table3_events(
        c.node_address,
        c.node_type,
        c.event_time,
        "total_output_llm_tokens"@,
        c.total_output_llm_tokens_by_date,
    )
}

/// Every event a collector emits, in emission order: the simple
/// families, then the object-store families, then the LLM families.
pub open spec fn events_of(c: CollectorV) -> Seq<EventV> {
    simple_all(c) + object_store_all(c) + llm_all(c)
}

/// Append the events of one date-keyed table.
#[verifier::loop_isolation(false)]
fn add_table1_events(
    events: &mut Vec<BillingMetricEvent>,
    addr: &String,
    typ: &String,
    t: i64,
    metric_type: &str,
    method: Option<&String>,
    provider: Option<&String>,
    model: Option<&String>,
    data: &Table1,
)
    ensures
        evs(final(events)@) == evs(old(events)@) + table1_events(
            addr@,
            typ@,
            t,
            metric_type@,
            opt_ref_view(method),
            opt_ref_view(provider),
            opt_ref_view(model),
            v1(data@),
        ),
{
    let n = data.len();
    for i in 0..n
        invariant
            evs(events@) == evs(old(events)@) + table1_events(
                addr@,
                typ@,
                t,
                metric_type@,
                opt_ref_view(method),
                opt_ref_view(provider),
                opt_ref_view(model),
                v1(data@).take(i as int),
            ),
    {
        proof {
            assert(v1(data@).take(i + 1).drop_last() =~= v1(data@).take(i as int));
            assert(v1(data@).take(i + 1).last() == v1(data@)[i as int]);
        }
        if data[i].1 > 0 {
            let e = BillingMetricEvent {
                node_address: addr.clone(),
                node_type: typ.clone(),
                metric_type: metric_type.to_owned(),
                date: data[i].0.clone(),
                value: data[i].1,
                method: clone_opt(method),
                provider: clone_opt(provider),
                model: clone_opt(model),
                event_type: "billing-metrics".to_owned(),
                event_time: t,
            };
            proof {
                assert(e@ =~~= EventV {
                    node_address: addr@,
                    node_type: typ@,
                    metric_type: metric_type@,
                    date: v1(data@)[i as int].0,
                    value: v1(data@)[i as int].1,
                    method: opt_ref_view(method),
                    provider: opt_ref_view(provider),
                    model: opt_ref_view(model),
                    event_type: "billing-metrics"@,
                    event_time: t,
                });
            }
            let ghost pre = events@;
            let ghost ecopy = e;
            let ghost ev = e@;
            events.push(e);
            proof {
                assert(events@ == pre.push(ecopy));
                assert(evs(pre.push(ecopy)) =~~= evs(pre) + seq![ev]);
                assert(table1_events(
                    addr@,
                    typ@,
                    t,
                    metric_type@,
                    opt_ref_view(method),
                    opt_ref_view(provider),
                    opt_ref_view(model),
                    v1(data@).take(i + 1),
                ) =~~= table1_events(
                    addr@,
                    typ@,
                    t,
                    metric_type@,
                    opt_ref_view(method),
                    opt_ref_view(provider),
                    opt_ref_view(model),
                    v1(data@).take(i as int),
                ) + seq![ev]);
                assert(evs(events@) =~~= evs(old(events)@) + table1_events(
                    addr@,
                    typ@,
                    t,
                    metric_type@,
                    opt_ref_view(method),
                    opt_ref_view(provider),
                    opt_ref_view(model),
                    v1(data@).take(i + 1),
                ));
            }
        } else {
            proof {
                assert(evs(events@) =~~= evs(old(events)@) + table1_events(
                    addr@,
                    typ@,
                    t,
                    metric_type@,
                    opt_ref_view(method),
                    opt_ref_view(provider),
                    opt_ref_view(model),
                    v1(data@).take(i + 1),
                ));
            }
        }
    }
    proof {
        assert(v1(data@).take(n as int) =~= v1(data@));
    }
}

/// The view of an optional borrowed label.
pub open spec fn opt_ref_view(o: Option<&String>) -> Option<Seq<char>> {
    match o {
        Some(s) => Some(s@),
        None => None,
    }
}

/// Clone an optional borrowed label.
fn clone_opt(o: Option<&String>) -> (r: Option<String>)
    ensures
        crate::prom::opt_view(r) == opt_ref_view(o),
{
    match o {
        Some(s) => Some(s.clone()),
        None => None,
    }
}

/// Append the events of one method-keyed table.
#[verifier::loop_isolation(false)]
fn add_table2_events(
    events: &mut Vec<BillingMetricEvent>,
    addr: &String,
    typ: &String,
    t: i64,
    metric_type: &str,
    data: &Table2,
)
    ensures
        evs(final(events)@) == evs(old(events)@) + table2_events(
            addr@,
            typ@,
            t,
            metric_type@,
            v2(data@),
        ),
{
    let n = data.len();
    for i in 0..n
        invariant
            evs(events@) == evs(old(events)@) + table2_events(
                addr@,
                typ@,
                t,
                metric_type@,
                v2(data@).take(i as int),
            ),
    {
        proof {
            assert(v2(data@).take(i + 1).drop_last() =~= v2(data@).take(i as int));
        }
        let method = &data[i].0;
        add_table1_events(events, addr, typ, t, metric_type, Some(method), None, None, &data[i].1);
        proof {
            assert(evs(events@) =~~= evs(old(events)@) + table2_events(
                addr@,
                typ@,
                t,
                metric_type@,
                v2(data@).take(i + 1),
            ));
        }
    }
    proof {
        assert(v2(data@).take(n as int) =~= v2(data@));
    }
}

/// Append the events of one provider-keyed table.
#[verifier::loop_isolation(false)]
fn add_table3_events(
    events: &mut Vec<BillingMetricEvent>,
    addr: &String,
    typ: &String,
    t: i64,
    metric_type: &str,
    data: &Table3,
)
    ensures
        evs(final(events)@) == evs(old(events)@) + table3_events(
            addr@,
            typ@,
            t,
            metric_type@,
            v3(data@),
        ),
{
    let n = data.len();
    for i in 0..n
        invariant
            evs(events@) == evs(old(events)@) + table3_events(
                addr@,
                typ@,
                t,
                metric_type@,
                v3(data@).take(i as int),
            ),
    {
        proof {
            assert(v3(data@).take(i + 1).drop_last() =~= v3(data@).take(i as int));
        }
        let provider = &data[i].0;
        let models = &data[i].1;
        let m = models.len();
        for j in 0..m
            invariant
                evs(events@) == evs(old(events)@) + table3_events(
                    addr@,
                    typ@,
                    t,
                    metric_type@,
                    v3(data@).take(i as int),
                ) + table3_provider_events(
                    addr@,
                    typ@,
                    t,
                    metric_type@,
                    provider@,
                    v2(models@).take(j as int),
                ),
        {
            proof {
                assert(v2(models@).take(j + 1).drop_last() =~= v2(models@).take(j as int));
            }
            add_table1_events(
                events,
                addr,
                typ,
                t,
                metric_type,
                None,
                Some(provider),
                Some(&models[j].0),
                &models[j].1,
            );
            proof {
                assert(evs(events@) =~~= evs(old(events)@) + table3_events(
                    addr@,
                    typ@,
                    t,
                    metric_type@,
                    v3(data@).take(i as int),
                ) + table3_provider_events(
                    addr@,
                    typ@,
                    t,
                    metric_type@,
                    provider@,
                    v2(models@).take(j + 1),
                ));
            }
        }
        proof {
            assert(v2(models@).take(m as int) =~= v2(models@));
            assert(evs(events@) =~~= evs(old(events)@) + table3_events(
                addr@,
                typ@,
                t,
                metric_type@,
                v3(data@).take(i + 1),
            ));
        }
    }
    proof {
        assert(v3(data@).take(n as int) =~= v3(data@));
    }
}

impl BillingMetricsCollector {
    /// A fresh collector for one node, stamped once with the clock
    /// reading that all of its events will share.
    pub fn new(node_address: String, node_type: String, event_time: i64) -> (c: Self)
        ensures
            c@ == init_collector(node_address@, node_type@, event_time),
    {
        let c = BillingMetricsCollector {
            node_address,
            node_type,
            event_time,
            total_events_ingested_by_date: Vec::new(),
            total_events_ingested_size_by_date: Vec::new(),
            total_parquets_stored_by_date: Vec::new(),
            total_parquets_stored_size_by_date: Vec::new(),
            total_query_calls_by_date: Vec::new(),
            total_files_scanned_in_query_by_date: Vec::new(),
            total_bytes_scanned_in_query_by_date: Vec::new(),
            total_object_store_calls_by_date: Vec::new(),
            total_files_scanned_in_object_store_calls_by_date: Vec::new(),
            total_bytes_scanned_in_object_store_calls_by_date: Vec::new(),
            total_input_llm_tokens_by_date: Vec::new(),
            total_output_llm_tokens_by_date: Vec::new(),
        };
        proof {
            assert(c@ =~~= init_collector(node_address@, node_type@, event_time));
        }
        c
    }

    /// Explode the collector into flat events: the simple families,
    /// then the object-store families, then the LLM families.  Zero
    /// values and empty tables emit nothing.
    pub fn into_events(self) -> (r: Vec<BillingMetricEvent>)
        ensures
            evs(r@) == events_of(self@),
    {
        let mut events: Vec<BillingMetricEvent> = Vec::new();
        self.add_simple_metrics(&mut events);
        self.add_object_store_metrics(&mut events);
        self.add_llm_metrics(&mut events);
        proof {
            assert(evs(events@) =~~= events_of(self@));
        }
        events
    }

    /// Append the events of the seven simple families.
    fn add_simple_metrics(&self, events: &mut Vec<BillingMetricEvent>)
        ensures
            evs(final(events)@) == evs(old(events)@) + simple_all(self@),
    {
        let addr = &self.node_address;
        let typ = &self.node_type;
        let t = self.event_time;
        add_table1_events(
            events,
            addr,
            typ,
            t,
            "total_events_ingested",
            None,
            None,
            None,
            &self.total_events_ingested_by_date,
        );
        add_table1_events(
            events,
            addr,
            typ,
            t,
            "total_events_ingested_size",
            None,
            None,
            None,
            &self.total_events_ingested_size_by_date,
        );
        add_table1_events(
            events,
            addr,
            typ,
            t,
            "total_parquets_stored",
            None,
            None,
            None,
            &self.total_parquets_stored_by_date,
        );
        add_table1_events(
            events,
            addr,
            typ,
            t,
            "total_parquets_stored_size",
            None,
            None,
            None,
            &self.total_parquets_stored_size_by_date,
        );
        add_table1_events(
            events,
            addr,
            typ,
            t,
            "total_query_calls",
            None,
            None,
            None,
            &self.total_query_calls_by_date,
        );
        add_table1_events(
            events,
            addr,
            typ,
            t,
            "total_files_scanned_in_query",
            None,
            None,
            None,
            &self.total_files_scanned_in_query_by_date,
        );
        add_table1_events(
            events,
            addr,
            typ,
            t,
            "total_bytes_scanned_in_query",
            None,
            None,
            None,
            &self.total_bytes_scanned_in_query_by_date,
        );
        proof {
            assert(evs(final(events)@) =~~= evs(old(events)@) + simple_all(self@));
        }
    }

    /// Append the events of the three object-store families.
    fn add_object_store_metrics(&self, events: &mut Vec<BillingMetricEvent>)
        ensures
            evs(final(events)@) == evs(old(events)@) + object_store_all(self@),
    {
        let addr = &self.node_address;
        let typ = &self.node_type;
        let t = self.event_time;
        add_table2_events(
            events,
            addr,
            typ,
            t,
            "total_object_store_calls",
            &self.total_object_store_calls_by_date,
        );
        add_table2_events(
            events,
            addr,
            typ,
            t,
            "total_files_scanned_in_object_store_calls",
            &self.total_files_scanned_in_object_store_calls_by_date,
        );
        add_table2_events(
            events,
            addr,
            typ,
            t,
            "total_bytes_scanned_in_object_store_calls",
            &self.total_bytes_scanned_in_object_store_calls_by_date,
        );
        proof {
            assert(evs(final(events)@) =~~= evs(old(events)@) + object_store_all(self@));
        }
    }

    /// Append the events of the two LLM-token families.
    fn add_llm_metrics(&self, events: &mut Vec<BillingMetricEvent>)
        ensures
            evs(final(events)@) == evs(old(events)@) + llm_all(self@),
    {
        let addr = &self.node_address;
        let typ = &self.node_type;
        let t = self.event_time;
        add_table3_events(
            events,
            addr,
            typ,
            t,
            "total_input_llm_tokens",
            &self.total_input_llm_tokens_by_date,
        );
        add_table3_events(
            events,
            addr,
            typ,
            t,
            "total_output_llm_tokens",
            &self.total_output_llm_tokens_by_date,
        );
        proof {
            assert(evs(final(events)@) =~~= evs(old(events)@) + llm_all(self@));
        }
    }
}


proof fn lemma_collect_concat(c: CollectorV, a: Seq<PromSampleV>, b: Seq<PromSampleV>)
    ensures
        spec_collect(c, a + b) == spec_collect(spec_collect(c, a), b),
    decreases b.len(),
{
    if b.len() == 0 {
        assert(a + b =~= a);
    } else {
        assert((a + b).drop_last() =~= a + b.drop_last());
        lemma_collect_concat(c, a, b.drop_last());
        assert((a + b).last() == b.last());
    }
}

proof fn lemma_collect_counters(c: CollectorV, s: Seq<PromSampleV>)
    ensures
        spec_collect(c, s) == spec_collect(c, counters_of(s)),
    decreases s.len(),
{
    if s.len() > 0 {
        lemma_collect_counters(c, s.drop_last());
        if s.last().counter is Some {
            lemma_collect_concat(c, counters_of(s.drop_last()), seq![s.last()]);
            let c2 = spec_collect(c, counters_of(s.drop_last()));
            assert(seq![s.last()].drop_last() =~= Seq::<PromSampleV>::empty());
            assert(spec_collect(c2, Seq::<PromSampleV>::empty()) == c2);
            assert(spec_collect(c2, seq![s.last()]) == spec_process_sample(c2, s.last()));
        } else {
            assert(counters_of(s) =~= counters_of(s.drop_last()));
        }
    }
}

/// The billing events denoted by a sample sequence for one node and
/// one clock reading: the samples folded into an empty collector, then
/// exploded.
pub open spec fn billing_events_spec(
    samples: Seq<PromSampleV>,
    addr: Seq<char>,
    typ: Seq<char>,
    t: i64,
) -> Seq<EventV> {
    events_of(spec_collect(init_collector(addr, typ, t), samples))
}

/// Fold a sample list into billing events.
///
/// The result is a function of the samples, the node identity and the
/// time stamp alone: billing aggregation is pure.
#[verifier::loop_isolation(false)]
pub fn billing_events_from_samples(
    samples: &Vec<PromSample>,
    node_address: &str,
    node_type: &str,
    event_time: i64,
) -> (r: Vec<BillingMetricEvent>)
    ensures
        evs(r@) == billing_events_spec(
            sample_views(samples@),
            node_address@,
            node_type@,
            event_time,
        ),
{
    let mut collector = BillingMetricsCollector::new(
        node_address.to_owned(),
        node_type.to_owned(),
        event_time,
    );
    let n = samples.len();
    for i in 0..n
        invariant
            collector@ == spec_collect(
                init_collector(node_address@, node_type@, event_time),
                sample_views(samples@).take(i as int),
            ),
    {
        proof {
            assert(sample_views(samples@).take(i + 1).drop_last() =~= sample_views(
                samples@,
            ).take(i as int));
            assert(sample_views(samples@).take(i + 1).last() == samples@[i as int]@);
        }
        process_sample(&mut collector, &samples[i]);
    }
    proof {
        assert(sample_views(samples@).take(n as int) =~= sample_views(samples@));
    }
    collector.into_events()
}

/// Fold a sample list into billing events, stamped with the current
/// clock reading.  All events of one call share one time stamp.
pub fn extract_billing_metrics_from_samples(
    samples: &Vec<PromSample>,
    node_address: String,
    node_type: String,
) -> (r: Vec<BillingMetricEvent>)
    ensures
        exists|t: i64|
            evs(r@) == billing_events_spec(
                sample_views(samples@),
                node_address@,
                node_type@,
                t,
            ),
{
    let t = crate::timepath::now_timestamp_micros();
    let r = billing_events_from_samples(samples, node_address.as_str(), node_type.as_str(), t);
    proof {
        assert(evs(r@) == billing_events_spec(
            sample_views(samples@),
            node_address@,
            node_type@,
            t,
        ));
    }
    r
}

/// Parse one node's metrics exposition text and fold its counter
/// samples into billing events.
pub fn billing_events_from_exposition(
    text: &str,
    node_address: &str,
    node_type: &str,
    event_time: i64,
) -> (r: Vec<BillingMetricEvent>)
    ensures
        evs(r@) == billing_events_spec(
            spec_counter_samples(text@),
            node_address@,
            node_type@,
            event_time,
        ),
{
    let samples = crate::prom::parse_prometheus_text(text);
    let r = billing_events_from_samples(&samples, node_address, node_type, event_time);
    proof {
        lemma_collect_counters(
            init_collector(node_address@, node_type@, event_time),
            sample_views(samples@),
        );
    }
    r
}

/// An event that carries the collector's identity: a positive value,
/// the shared time stamp, the node address and role, and the fixed
/// event type.
pub open spec fn event_well_stamped(e: EventV, addr: Seq<char>, typ: Seq<char>, t: i64) -> bool {
    &&& e.value > 0
    &&& e.event_time == t
    &&& e.node_address == addr
    &&& e.node_type == typ
    &&& e.event_type == "billing-metrics"@
}

proof fn lemma_table1_events_props(
    addr: Seq<char>,
    typ: Seq<char>,
    t: i64,
    mt: Seq<char>,
    method: Option<Seq<char>>,
    provider: Option<Seq<char>>,
    model: Option<Seq<char>>,
    entries: Table1V,
)
    ensures
        forall|k: int|
            0 <= k < table1_events(addr, typ, t, mt, method, provider, model, entries).len()
                ==> event_well_stamped(
                #[trigger] table1_events(addr, typ, t, mt, method, provider, model, entries)[k],
                addr,
                typ,
                t,
            ),
    decreases entries.len(),
{
    if entries.len() > 0 {
        lemma_table1_events_props(addr, typ, t, mt, method, provider, model, entries.drop_last());
        let whole = table1_events(addr, typ, t, mt, method, provider, model, entries);
        let left = table1_events(addr, typ, t, mt, method, provider, model, entries.drop_last());
        assert forall|k: int| 0 <= k < whole.len() implies event_well_stamped(
            whole[k],
            addr,
            typ,
            t,
        ) by {
            if k < left.len() {
                assert(whole[k] == left[k]);
                assert(event_well_stamped(left[k], addr, typ, t));
            }
        }
    }
}

proof fn lemma_table2_events_props(
    addr: Seq<char>,
    typ: Seq<char>,
    t: i64,
    mt: Seq<char>,
    entries: Table2V,
)
    ensures
        forall|k: int|
            0 <= k < table2_events(addr, typ, t, mt, entries).len() ==> event_well_stamped(
                #[trigger] table2_events(addr, typ, t, mt, entries)[k],
                addr,
                typ,
                t,
            ),
    decreases entries.len(),
{
    if entries.len() > 0 {
        lemma_table2_events_props(addr, typ, t, mt, entries.drop_last());
        lemma_table1_events_props(
            addr,
            typ,
            t,
            mt,
            Some(entries.last().0),
            None,
            None,
            entries.last().1,
        );
        let whole = table2_events(addr, typ, t, mt, entries);
        let left = table2_events(addr, typ, t, mt, entries.drop_last());
        let tail = table1_events(
            addr,
            typ,
            t,
            mt,
            Some(entries.last().0),
            None,
            None,
            entries.last().1,
        );
        assert forall|k: int| 0 <= k < whole.len() implies event_well_stamped(
            whole[k],
            addr,
            typ,
            t,
        ) by {
            if k < left.len() {
                assert(whole[k] == left[k]);
                assert(event_well_stamped(left[k], addr, typ, t));
            } else {
                assert(whole[k] == tail[k - left.len()]);
                assert(event_well_stamped(tail[k - left.len()], addr, typ, t));
            }
        }
    }
}

proof fn lemma_table3_provider_events_props(
    addr: Seq<char>,
    typ: Seq<char>,
    t: i64,
    mt: Seq<char>,
    provider: Seq<char>,
    models: Table2V,
)
    ensures
        forall|k: int|
            0 <= k < table3_provider_events(addr, typ, t, mt, provider, models).len()
                ==> event_well_stamped(
                #[trigger] table3_provider_events(addr, typ, t, mt, provider, models)[k],
                addr,
                typ,
                t,
            ),
    decreases models.len(),
{
    if models.len() > 0 {
        lemma_table3_provider_events_props(addr, typ, t, mt, provider, models.drop_last());
        lemma_table1_events_props(
            addr,
            typ,
            t,
            mt,
            None,
            Some(provider),
            Some(models.last().0),
            models.last().1,
        );
        let whole = table3_provider_events(addr, typ, t, mt, provider, models);
        let left = table3_provider_events(addr, typ, t, mt, provider, models.drop_last());
        let tail = table1_events(
            addr,
            typ,
            t,
            mt,
            None,
            Some(provider),
            Some(models.last().0),
            models.last().1,
        );
        assert forall|k: int| 0 <= k < whole.len() implies event_well_stamped(
            whole[k],
            addr,
            typ,
            t,
        ) by {
            if k < left.len() {
                assert(whole[k] == left[k]);
                assert(event_well_stamped(left[k], addr, typ, t));
            } else {
                assert(whole[k] == tail[k - left.len()]);
                assert(event_well_stamped(tail[k - left.len()], addr, typ, t));
            }
        }
    }
}

proof fn lemma_table3_events_props(
    addr: Seq<char>,
    typ: Seq<char>,
    t: i64,
    mt: Seq<char>,
    entries: Table3V,
)
    ensures
        forall|k: int|
            0 <= k < table3_events(addr, typ, t, mt, entries).len() ==> event_well_stamped(
                #[trigger] table3_events(addr, typ, t, mt, entries)[k],
                addr,
                typ,
                t,
            ),
    decreases entries.len(),
{
    if entries.len() > 0 {
        lemma_table3_events_props(addr, typ, t, mt, entries.drop_last());
        lemma_table3_provider_events_props(
            addr,
            typ,
            t,
            mt,
            entries.last().0,
            entries.last().1,
        );
        let whole = table3_events(addr, typ, t, mt, entries);
        let left = table3_events(addr, typ, t, mt, entries.drop_last());
        let tail = table3_provider_events(addr, typ, t, mt, entries.last().0, entries.last().1);
        assert forall|k: int| 0 <= k < whole.len() implies event_well_stamped(
            whole[k],
            addr,
            typ,
            t,
        ) by {
            if k < left.len() {
                assert(whole[k] == left[k]);
                assert(event_well_stamped(left[k], addr, typ, t));
            } else {
                assert(whole[k] == tail[k - left.len()]);
                assert(event_well_stamped(tail[k - left.len()], addr, typ, t));
            }
        }
    }
}

proof fn lemma_events_of_props(c: CollectorV)
    ensures
        forall|k: int|
            0 <= k < events_of(c).len() ==> event_well_stamped(
                #[trigger] events_of(c)[k],
                c.node_address,
                c.node_type,
                c.event_time,
            ),
{
    lemma_table1_events_props(
        c.node_address,
        c.node_type,
        c.event_time,
        "total_events_ingested"@,
        None,
        None,
        None,
        c.total_events_ingested_by_date,
    );
    lemma_table1_events_props(
        c.node_address,
        c.node_type,
        c.event_time,
        "total_events_ingested_size"@,
        None,
        None,
        None,
        c.total_events_ingested_size_by_date,
    );
    lemma_table1_events_props(
        c.node_address,
        c.node_type,
        c.event_time,
        "total_parquets_stored"@,
        None,
        None,
        None,
        c.total_parquets_stored_by_date,
    );
    lemma_table1_events_props(
        c.node_address,
        c.node_type,
        c.event_time,
        "total_parquets_stored_size"@,
        None,
        None,
        None,
        c.total_parquets_stored_size_by_date,
    );
    lemma_table1_events_props(
        c.node_address,
        c.node_type,
        c.event_time,
        "total_query_calls"@,
        None,
        None,
        None,
        c.total_query_calls_by_date,
    );
    lemma_table1_events_props(
        c.node_address,
        c.node_type,
        c.event_time,
        "total_files_scanned_in_query"@,
        None,
        None,
        None,
        c.total_files_scanned_in_query_by_date,
    );
    lemma_table1_events_props(
        c.node_address,
        c.node_type,
        c.event_time,
        "total_bytes_scanned_in_query"@,
        None,
        None,
        None,
        c.total_bytes_scanned_in_query_by_date,
    );
    lemma_table2_events_props(
        c.node_address,
        c.node_type,
        c.event_time,
        "total_object_store_calls"@,
        c.total_object_store_calls_by_date,
    );
    lemma_table2_events_props(
        c.node_address,
        c.node_type,
        c.event_time,
        "total_files_scanned_in_object_store_calls"@,
        c.total_files_scanned_in_object_store_calls_by_date,
    );
    lemma_table2_events_props(
        c.node_address,
        c.node_type,
        c.event_time,
        "total_bytes_scanned_in_object_store_calls"@,
        c.total_bytes_scanned_in_object_store_calls_by_date,
    );
    lemma_table3_events_props(
        c.node_address,
        c.node_type,
        c.event_time,
        "total_input_llm_tokens"@,
        c.total_input_llm_tokens_by_date,
    );
    lemma_table3_events_props(
        c.node_address,
        c.node_type,
        c.event_time,
        "total_output_llm_tokens"@,
        c.total_output_llm_tokens_by_date,
    );
}

proof fn lemma_collect_preserves_identity(c: CollectorV, samples: Seq<PromSampleV>)
    ensures
        spec_collect(c, samples).node_address == c.node_address,
        spec_collect(c, samples).node_type == c.node_type,
        spec_collect(c, samples).event_time == c.event_time,
    decreases samples.len(),
{
    if samples.len() > 0 {
        lemma_collect_preserves_identity(c, samples.drop_last());
    }
}

/// Zero suppression: no emitted billing event has value zero.
pub proof fn lemma_zero_suppression(
    samples: Seq<PromSampleV>,
    addr: Seq<char>,
    typ: Seq<char>,
    t: i64,
)
    ensures
        forall|k: int|
            0 <= k < billing_events_spec(samples, addr, typ, t).len() ==> (
            #[trigger] billing_events_spec(samples, addr, typ, t)[k]).value > 0,
{
    lemma_collect_preserves_identity(init_collector(addr, typ, t), samples);
    lemma_events_of_props(spec_collect(init_collector(addr, typ, t), samples));
}

/// Time-stamp sharing: every event of one collection pass carries the
/// collector's time stamp, node address, node role, and the fixed
/// event type.
pub proof fn lemma_time_stamp_sharing(
    samples: Seq<PromSampleV>,
    addr: Seq<char>,
    typ: Seq<char>,
    t: i64,
)
    ensures
        forall|k: int|
            0 <= k < billing_events_spec(samples, addr, typ, t).len() ==> event_well_stamped(
                #[trigger] billing_events_spec(samples, addr, typ, t)[k],
                addr,
                typ,
                t,
            ),
{
    lemma_collect_preserves_identity(init_collector(addr, typ, t), samples);
    lemma_events_of_props(spec_collect(init_collector(addr, typ, t), samples));
}

/// Billing aggregation reads only the counter-kind samples: every
/// other sample leaves the result unchanged.
pub proof fn lemma_billing_counters_only(
    samples: Seq<PromSampleV>,
    addr: Seq<char>,
    typ: Seq<char>,
    t: i64,
)
    ensures
        billing_events_spec(samples, addr, typ, t) == billing_events_spec(
            counters_of(samples),
            addr,
            typ,
            t,
        ),
{
    lemma_collect_counters(init_collector(addr, typ, t), samples);
}

} // verus!
