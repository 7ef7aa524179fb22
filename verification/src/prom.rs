//! Prometheus text exposition, reduced to the values the billing
//! pipeline reads: per sample, the metric name, the labels of interest,
//! and the counter value when the sample is counter-kind.

use vstd::prelude::*;

verus! {

/// One scraped sample.  `counter` is the truncated counter value for
/// counter-kind samples and `None` for every other kind; the four label
/// fields carry the labels the billing pipeline dispatches on.
#[derive(Clone, Debug)]
pub struct PromSample {
    pub metric: String,
    pub date: Option<String>,
    pub method: Option<String>,
    pub provider: Option<String>,
    pub model: Option<String>,
    pub counter: Option<u64>,
}

/// The mathematical image of a `PromSample`.
pub struct PromSampleV {
    pub metric: Seq<char>,
    pub date: Option<Seq<char>>,
    pub method: Option<Seq<char>>,
    pub provider: Option<Seq<char>>,
    pub model: Option<Seq<char>>,
    pub counter: Option<u64>,
}

pub open spec fn opt_view(o: Option<String>) -> Option<Seq<char>> {
    match o {
        Some(s) => Some(s@),
        None => None,
    }
}

impl View for PromSample {
    type V = PromSampleV;

    open spec fn view(&self) -> PromSampleV {
        PromSampleV {
            metric: self.metric@,
            date: opt_view(self.date),
            method: opt_view(self.method),
            provider: opt_view(self.provider),
            model: opt_view(self.model),
            counter: self.counter,
        }
    }
}

/// The views of all samples of `s`.
pub open spec fn sample_views(s: Seq<PromSample>) -> Seq<PromSampleV> {
    s.map_values(|p: PromSample| p@)
}

/// The counter-kind samples of `s`, in order.
pub open spec fn counters_of(s: Seq<PromSampleV>) -> Seq<PromSampleV>
    decreases s.len(),
{
    if s.len() == 0 {
        Seq::empty()
    } else {
        counters_of(s.drop_last()) + if s.last().counter is Some {
            seq![s.last()]
        } else {
            Seq::empty()
        }
    }
}

/// The counter-kind samples that a Prometheus exposition text denotes,
/// in text order.  The value is a function of the text alone: samples
/// keep line order, and the counter value and the label lookups are
/// deterministic.
pub uninterp spec fn spec_counter_samples(text: Seq<char>) -> Seq<PromSampleV>;

/// Relies on `prometheus_parse::Scrape::parse`: non-comment lines parse
/// into samples in line order, a sample is counter-kind exactly when a
/// `TYPE` line declared its metric a counter, and label lookup returns
/// the labels written on the line.  Histogram and summary rows are
/// appended in arbitrary order, but none of them is counter-kind, so
/// the counter-kind subsequence is a function of the text alone.
/// `Scrape::parse` only fails when reading a line fails, which cannot
/// happen here.
#[verifier::external_body]
pub fn parse_prometheus_text(text: &str) -> (r: Vec<PromSample>)
    ensures
        counters_of(sample_views(r@)) == spec_counter_samples(text@),
{
    let lines = text.lines().map(|l| Ok::<String, std::io::Error>(l.to_owned()));
    let scrape = match prometheus_parse::Scrape::parse(lines) {
        Ok(s) => s,
        Err(_) => return Vec::new(),
    };
    scrape.samples.into_iter().map(|s| PromSample {
        date: s.labels.get("date").map(str::to_owned),
        method: s.labels.get("method").map(str::to_owned),
        provider: s.labels.get("provider").map(str::to_owned),
        model: s.labels.get("model").map(str::to_owned),
        counter: if let prometheus_parse::Value::Counter(v) = s.value { Some(v as u64) } else { None },
        metric: s.metric,
    }).collect()
}

/// Whether a text is a well-formed URL.  A function of the text alone.
pub uninterp spec fn spec_valid_url(s: Seq<char>) -> bool;

/// Relies on `url::Url::parse`: whether a text parses as a URL depends
/// on the text alone.
#[verifier::external_body]
pub fn url_is_valid(s: &str) -> (r: bool)
    ensures
        r == spec_valid_url(s@),
{
    url::Url::parse(s).is_ok()
}

/// The metrics URL of a node, checked for well-formedness: scraping a
/// node whose recorded domain is no URL is rejected before any probe.
pub fn metrics_scrape_url(node: &crate::node::NodeMetadata, base_path: &str) -> (r: Result<
    String,
    crate::errors::ClusterError,
>)
    ensures
        spec_valid_url(node.domain_name@ + base_path@ + "/metrics"@) ==> (r matches Ok(u) && u@
            == node.domain_name@ + base_path@ + "/metrics"@),
        !spec_valid_url(node.domain_name@ + base_path@ + "/metrics"@) ==> (r matches Err(
            crate::errors::ClusterError::InvalidInput(_),
        )),
{
    let mut url: String = node.domain_name.as_str().to_owned();
    url.append(base_path);
    url.append("/metrics");
    if url_is_valid(url.as_str()) {
        Ok(url)
    } else {
        Err(
            crate::errors::ClusterError::InvalidInput(
                "Invalid URL in node metadata".to_owned(),
            ),
        )
    }
}

} // verus!
