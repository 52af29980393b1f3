//! What the metrics service is asked, and what its answers say about the usage of
//! each service.

use vstd::prelude::*;

use crate::config::Config;
use crate::errors::{AppError, AppErrorView};
use crate::json::{as_str, element, json, json_text, member, text_of, Json};
use crate::text::{decimal, decimal_text, law_decimal_writes_number, signed_value};

verus! {

/// The data of an answer.
#[derive(Debug)]
pub struct PromqlResponseData {
    pub result: Vec<serde_json::Value>,
}

/// An answer of the metrics service.
#[derive(Debug)]
pub struct PromqlResponse {
    pub data: PromqlResponseData,
}

/// The time that is billed: from `start` to `end`, in seconds since the epoch.
#[derive(Clone, Copy, Debug, PartialEq, Eq, Structural)]
pub struct BillingWindow {
    pub start: i64,
    pub end: i64,
}

impl BillingWindow {
    /// Whether the length of the window is a number of 64 bits.
    pub open spec fn has_length(self) -> bool {
        i64::MIN <= self.end - self.start <= i64::MAX
    }
}

/// The usage of a service: the bits of a binary64 number.
#[derive(Debug)]
pub struct Metric {
    pub service_name: String,
    pub usage: u64,
}

/// What the usage of a service holds.
pub struct MetricView {
    pub service_name: Seq<char>,
    pub usage: u64,
}

impl View for Metric {
    type V = MetricView;

    open spec fn view(&self) -> MetricView {
        MetricView { service_name: self.service_name@, usage: self.usage }
    }
}

/// What the usages of a list hold.
pub open spec fn metric_views(metrics: Seq<Metric>) -> Seq<MetricView> {
    metrics.map_values(|metric: Metric| metric@)
}

/// Where a query is sent to.
pub open spec fn query_url(host: Seq<char>, query: Seq<char>) -> Seq<char> {
    host + "/api/v1/query?query="@ + query
}

/// The duration and the time that a query is about: the length of the window, up to
/// its end.
pub open spec fn range_of(window: BillingWindow) -> Seq<char> {
    "["@ + decimal(window.end - window.start) + "s] @"@ + decimal(window.end as int)
}

/// The pattern of the pods that run services, which catches the name of the service.
pub open spec fn pods_pattern() -> Seq<char> {
    "(.*)-.{5}-deployment-.*"@
}

/// The query for the CPU seconds that each service used.
pub open spec fn cpu_query(window: BillingWindow) -> Seq<char> {
    "\n        sum by(configuration) (\n            label_replace(\n                increase(container_cpu_usage_seconds_total{namespace=\"default\", pod=~\""@
        + pods_pattern() + "\"}"@ + range_of(window)
        + "), \n                \"configuration\", \"$1\", \"pod\", \""@ + pods_pattern()
        + "\"\n            )\n        )\n        "@
}

/// The query for the requests that each service served.
pub open spec fn request_query(window: BillingWindow) -> Seq<char> {
    "\n        sum by (configuration_name) (\n            increase(activator_request_count{response_code_class=\"2xx\"}"@
        + range_of(window) + ") > 0\n        )\n        "@
}

/// The address to send a query to.
pub fn prom_query(config: &Config, query: &str) -> (url: String)
    ensures
        url@ == query_url(config.prometheus_svc@, query@),
{
    config.prometheus_svc.clone().concat("/api/v1/query?query=").concat(query)
}

fn range_text(window: BillingWindow) -> (text: String)
    requires
        window.has_length(),
    ensures
        text@ == range_of(window),
{
    let length = decimal_text(window.end - window.start);
    let end = decimal_text(window.end);
    "[".to_owned().concat(length.as_str()).concat("s] @").concat(end.as_str())
}

/// The query for the CPU seconds that each service used in `window`.
pub fn cpu_used_query(window: BillingWindow) -> (query: String)
    requires
        window.has_length(),
    ensures
        query@ == cpu_query(window),
{
    let pods = "(.*)-.{5}-deployment-.*";
    let range = range_text(window);
    "\n        sum by(configuration) (\n            label_replace(\n                increase(container_cpu_usage_seconds_total{namespace=\"default\", pod=~\"".to_owned()
        .concat(pods).concat("\"}").concat(range.as_str()).concat(
        "), \n                \"configuration\", \"$1\", \"pod\", \"",
    ).concat(pods).concat("\"\n            )\n        )\n        ")
}

/// The query for the requests that each service served in `window`.
pub fn request_served_query(window: BillingWindow) -> (query: String)
    requires
        window.has_length(),
    ensures
        query@ == request_query(window),
{
    let range = range_text(window);
    "\n        sum by (configuration_name) (\n            increase(activator_request_count{response_code_class=\"2xx\"}".to_owned().concat(
        range.as_str(),
    ).concat(") > 0\n        )\n        ")
}

/// The service that a sample is about: the text of its label.
pub open spec fn sample_service(sample: Json, label: Seq<char>) -> Option<Seq<char>> {
    sample.member("metric"@).member(label).text()
}

/// The value of a sample, as text: the second element of its pair of time and value.
pub open spec fn sample_text(sample: Json) -> Option<Seq<char>> {
    sample.member("value"@).element(1).text()
}

/// The value of a sample, as text.
pub fn sample_value(sample: &serde_json::Value) -> (text: Option<&str>)
    ensures
        text is Some <==> sample_text(json(*sample)) is Some,
        text is Some ==> text->0@ == sample_text(json(*sample))->0,
{
    as_str(element(member(sample, "value"), 1))
}

/// Why a sample cannot be used.
#[derive(Clone, Copy, Debug, PartialEq, Eq, Structural)]
pub enum Fault {
    /// It names no service.
    Unnamed,
    /// It has no value.
    NoValue,
    /// Its value is no number.
    NotANumber,
}

/// The first sample that cannot be used.
#[derive(Debug)]
pub struct UsageError {
    pub index: usize,
    pub fault: Fault,
    /// What the service answers with, where the sample has no value.
    pub error: Option<AppError>,
}

/// What is wrong with a sample, where `number` is what its value reads as.
pub open spec fn sample_fault(sample: Json, label: Seq<char>, number: Option<u64>) -> Option<Fault> {
    if sample_service(sample, label) is None {
        Some(Fault::Unnamed)
    } else if sample_text(sample) is None {
        Some(Fault::NoValue)
    } else if number is None {
        Some(Fault::NotANumber)
    } else {
        None
    }
}

/// Whether the first `count` samples can be used.
pub open spec fn usable(
    samples: Seq<serde_json::Value>,
    label: Seq<char>,
    numbers: Seq<Option<u64>>,
    count: int,
) -> bool {
    forall|i: int|
        0 <= i < count ==> sample_fault(json(#[trigger] samples[i]), label, numbers[i]) is None
}

/// The usage of each service that the first `count` samples are about. Where several
/// are about one service, the last counts.
pub open spec fn usage_of(
    samples: Seq<serde_json::Value>,
    label: Seq<char>,
    numbers: Seq<Option<u64>>,
    count: int,
) -> Map<Seq<char>, u64>
    decreases count,
{
    if count <= 0 {
        Map::empty()
    } else {
        usage_of(samples, label, numbers, count - 1).insert(
            sample_service(json(samples[count - 1]), label)->0,
            numbers[count - 1]->0,
        )
    }
}

/// Whether `metrics` lists `usage`: each service once, with its usage.
pub open spec fn lists_usage(metrics: Seq<MetricView>, usage: Map<Seq<char>, u64>) -> bool {
    &&& forall|i: int, j: int|
        0 <= i < j < metrics.len() ==> (#[trigger] metrics[i]).service_name != (
        #[trigger] metrics[j]).service_name
    &&& forall|i: int|
        0 <= i < metrics.len() ==> usage.contains_pair(
            (#[trigger] metrics[i]).service_name,
            metrics[i].usage,
        )
    &&& forall|name: Seq<char>| #[trigger]
        usage.contains_key(name) ==> exists|i: int|
            0 <= i < metrics.len() && (#[trigger] metrics[i]).service_name == name
}

/// Notes the usage of a service, in place of one noted before.
fn note_usage(metrics: &mut Vec<Metric>, service_name: String, usage: u64, Ghost(known): Ghost<
    Map<Seq<char>, u64>,
>)
    requires
        lists_usage(metric_views(old(metrics)@), known),
    ensures
        lists_usage(metric_views(final(metrics)@), known.insert(service_name@, usage)),
{
    let ghost before = metric_views(metrics@);
    let ghost name = service_name@;
    let mut i: usize = 0;
    while i < metrics.len()
        invariant
            i <= metrics.len(),
            before == metric_views(metrics@),
            *metrics == *old(metrics),
            name == service_name@,
            lists_usage(before, known),
            forall|j: int| 0 <= j < i ==> (#[trigger] before[j]).service_name != name,
        decreases metrics.len() - i,
    {
        if metrics[i].service_name == service_name {
            let ghost at: int = i as int;
            metrics.set(i, Metric { service_name, usage });
            proof {
                let after = metric_views(metrics@);
                let updated = known.insert(name, usage);
                assert(before[at].service_name == name);
                assert(after == before.update(at, MetricView { service_name: name, usage }));
                assert forall|n: Seq<char>| #[trigger] updated.contains_key(n) implies exists|
                    j: int,
                |
                    0 <= j < after.len() && (#[trigger] after[j]).service_name == n by {
                    if n == name {
                        assert(after[at].service_name == n);
                    } else {
                        assert(known.contains_key(n));
                        let j = choose|j: int|
                            0 <= j < before.len() && (#[trigger] before[j]).service_name == n;
                        assert(after[j].service_name == n);
                    }
                }
            }
            return;
        }
        i += 1;
    }
    metrics.push(Metric { service_name, usage });
    proof {
        let after = metric_views(metrics@);
        let updated = known.insert(name, usage);
        assert(after == before.push(MetricView { service_name: name, usage }));
        assert forall|n: Seq<char>| #[trigger] updated.contains_key(n) implies exists|j: int|
            0 <= j < after.len() && (#[trigger] after[j]).service_name == n by {
            if n == name {
                assert(after[before.len() as int].service_name == n);
            } else {
                assert(known.contains_key(n));
                let j = choose|j: int|
                    0 <= j < before.len() && (#[trigger] before[j]).service_name == n;
                assert(after[j].service_name == n);
            }
        }
    }
}

/// What an answer says about the usage of each service, or the first sample that
/// says nothing.
pub open spec fn tells_usage(
    samples: Seq<serde_json::Value>,
    label: Seq<char>,
    numbers: Seq<Option<u64>>,
    outcome: Result<Vec<Metric>, UsageError>,
) -> bool {
    match outcome {
        Ok(metrics) => {
            &&& usable(samples, label, numbers, samples.len() as int)
            &&& lists_usage(
                metric_views(metrics@),
                usage_of(samples, label, numbers, samples.len() as int),
            )
        },
        Err(UsageError { index, fault, error }) => {
            &&& index < samples.len()
            &&& usable(samples, label, numbers, index as int)
            &&& sample_fault(json(samples[index as int]), label, numbers[index as int]) == Some(
                fault,
            )
            &&& error is Some <==> fault is NoValue
            &&& error is Some ==> error->0 is MissingValue && error->0->result@ == json_text(
                json(samples[index as int]),
            )
        },
    }
}

fn collect_usage(
    samples: &Vec<serde_json::Value>,
    label: &str,
    numbers: &Vec<Option<u64>>,
) -> (outcome: Result<Vec<Metric>, UsageError>)
    requires
        numbers.len() == samples.len(),
    ensures
        tells_usage(samples@, label@, numbers@, outcome),
{
    let mut metrics: Vec<Metric> = Vec::new();
    let mut index: usize = 0;
    while index < samples.len()
        invariant
            index <= samples.len(),
            numbers.len() == samples.len(),
            usable(samples@, label@, numbers@, index as int),
            lists_usage(
                metric_views(metrics@),
                usage_of(samples@, label@, numbers@, index as int),
            ),
        decreases samples.len() - index,
    {
        let sample = &samples[index];
        let service_name = match as_str(member(member(sample, "metric"), label)) {
            Some(name) => name.to_owned(),
            None => {
                return Err(UsageError { index, fault: Fault::Unnamed, error: None });
            },
        };
        if sample_value(sample).is_none() {
            let error = AppError::MissingValue { result: text_of(sample) };
            return Err(UsageError { index, fault: Fault::NoValue, error: Some(error) });
        }
        match numbers[index] {
            Some(number) => {
                let ghost known = usage_of(samples@, label@, numbers@, index as int);
                note_usage(&mut metrics, service_name, number, Ghost(known));
            },
            None => {
                return Err(UsageError { index, fault: Fault::NotANumber, error: None });
            },
        }
        index += 1;
    }
    Ok(metrics)
}

/// Reads the CPU seconds that each service used from an answer, where `numbers` holds
/// what the value of each sample reads as: the bits of a binary64 number, if it is
/// one.
pub fn cpu_used_metrics(response: &PromqlResponse, numbers: &Vec<Option<u64>>) -> (outcome: Result<
    Vec<Metric>,
    UsageError,
>)
    requires
        numbers.len() == response.data.result.len(),
    ensures
        tells_usage(response.data.result@, "configuration"@, numbers@, outcome),
{
    collect_usage(&response.data.result, "configuration", numbers)
}

/// Reads the requests that each service served from an answer, where `numbers` holds
/// what the value of each sample reads as: the bits of a binary64 number, if it is
/// one.
pub fn request_served_metrics(response: &PromqlResponse, numbers: &Vec<Option<u64>>) -> (outcome:
    Result<Vec<Metric>, UsageError>)
    requires
        numbers.len() == response.data.result.len(),
    ensures
        tells_usage(response.data.result@, "configuration_name"@, numbers@, outcome),
{
    collect_usage(&response.data.result, "configuration_name", numbers)
}

/// Every sample counts, but for those that a later one about the same service
/// replaces.
pub proof fn law_last_sample_counts(
    samples: Seq<serde_json::Value>,
    label: Seq<char>,
    numbers: Seq<Option<u64>>,
    count: int,
    i: int,
)
    requires
        0 <= i < count,
        forall|j: int|
            i < j < count ==> sample_service(json(#[trigger] samples[j]), label)->0
                != sample_service(json(samples[i]), label)->0,
    ensures
        usage_of(samples, label, numbers, count).contains_pair(
            sample_service(json(samples[i]), label)->0,
            numbers[i]->0,
        ),
    decreases count,
{
    if i < count - 1 {
        law_last_sample_counts(samples, label, numbers, count - 1, i);
    }
}

/// Whether a text is made of what a decimal number is written with.
pub open spec fn is_decimal(text: Seq<char>) -> bool {
    text.len() > 0 && forall|i: int|
        0 <= i < text.len() ==> '0' <= #[trigger] text[i] <= '9' || (i == 0 && text[i] == '-')
}

proof fn lemma_decimal_is_decimal(n: int)
    ensures
        is_decimal(decimal(n)),
        signed_value(decimal(n)) == n,
{
    law_decimal_writes_number(n);
    let text = decimal(n);
    assert forall|i: int| 0 <= i < text.len() implies '0' <= #[trigger] text[i] <= '9' || (i == 0
        && text[i] == '-') by {
        if n < 0 && i > 0 {
            assert(text.skip(1)[i - 1] == text[i]);
        }
    }
}

/// The query for the requests served covers the window exactly: the number of seconds
/// between `[` and `s]` reads as the length of the window, and the time behind `@` as its
/// end. Hands back the texts of the two numbers.
pub proof fn law_request_query_covers_window(window: BillingWindow) -> (numbers: (
    Seq<char>,
    Seq<char>,
))
    ensures
        request_query(window)
            == "\n        sum by (configuration_name) (\n            increase(activator_request_count{response_code_class=\"2xx\"}"@
            + "["@ + numbers.0 + "s] @"@ + numbers.1 + ") > 0\n        )\n        "@,
        is_decimal(numbers.0),
        signed_value(numbers.0) == window.end - window.start,
        is_decimal(numbers.1),
        signed_value(numbers.1) == window.end,
{
    let numbers = (decimal(window.end - window.start), decimal(window.end as int));
    lemma_decimal_is_decimal(window.end - window.start);
    lemma_decimal_is_decimal(window.end as int);
    assert(request_query(window)
        =~= "\n        sum by (configuration_name) (\n            increase(activator_request_count{response_code_class=\"2xx\"}"@
        + "["@ + numbers.0 + "s] @"@ + numbers.1 + ") > 0\n        )\n        "@);
    numbers
}

/// The query for the CPU seconds used covers the window exactly, as that for the requests
/// does; both times that it speaks of the pods it means the same ones, and the service is
/// named by what stands before the last parts of a pod's name. Hands back the texts of the
/// two numbers.
pub proof fn law_cpu_query_covers_window(window: BillingWindow) -> (numbers: (
    Seq<char>,
    Seq<char>,
))
    ensures
        ({
            let pods = "(.*)-.{5}-deployment-.*"@;
            cpu_query(window)
                == "\n        sum by(configuration) (\n            label_replace(\n                increase(container_cpu_usage_seconds_total{namespace=\"default\", pod=~\""@
                + pods + "\"}"@ + "["@ + numbers.0 + "s] @"@ + numbers.1
                + "), \n                \"configuration\", \"$1\", \"pod\", \""@ + pods
                + "\"\n            )\n        )\n        "@
        }),
        is_decimal(numbers.0),
        signed_value(numbers.0) == window.end - window.start,
        is_decimal(numbers.1),
        signed_value(numbers.1) == window.end,
{
    let numbers = (decimal(window.end - window.start), decimal(window.end as int));
    lemma_decimal_is_decimal(window.end - window.start);
    lemma_decimal_is_decimal(window.end as int);
    let pods = "(.*)-.{5}-deployment-.*"@;
    assert(cpu_query(window)
        =~= "\n        sum by(configuration) (\n            label_replace(\n                increase(container_cpu_usage_seconds_total{namespace=\"default\", pod=~\""@
        + pods + "\"}"@ + "["@ + numbers.0 + "s] @"@ + numbers.1
        + "), \n                \"configuration\", \"$1\", \"pod\", \""@ + pods
        + "\"\n            )\n        )\n        "@);
    numbers
}

/// Queries for different windows are different, and no query for requests is one for CPU
/// seconds.
pub proof fn law_queries_tell_windows_apart(a: BillingWindow, b: BillingWindow)
    ensures
        request_query(a) == request_query(b) ==> a == b,
        cpu_query(a) == cpu_query(b) ==> a == b,
        request_query(a) != cpu_query(b),
{
    reveal_strlit("[");
    reveal_strlit("s] @");
    let (x, y) = (decimal(a.end - a.start), decimal(b.end - b.start));
    lemma_decimal_is_decimal(a.end - a.start);
    lemma_decimal_is_decimal(b.end - b.start);
    lemma_decimal_is_decimal(a.end as int);
    lemma_decimal_is_decimal(b.end as int);
    let before = "\n        sum by (configuration_name) (\n            increase(activator_request_count{response_code_class=\"2xx\"}"@;
    if request_query(a) == request_query(b) {
        lemma_middles_are_equal(
            before,
            range_of(a),
            range_of(b),
            ") > 0\n        )\n        "@,
        );
    }
    if cpu_query(a) == cpu_query(b) {
        let before = "\n        sum by(configuration) (\n            label_replace(\n                increase(container_cpu_usage_seconds_total{namespace=\"default\", pod=~\""@
            + pods_pattern() + "\"}"@;
        let behind = "), \n                \"configuration\", \"$1\", \"pod\", \""@ + pods_pattern()
            + "\"\n            )\n        )\n        "@;
        assert(cpu_query(a) =~= before + range_of(a) + behind);
        assert(cpu_query(b) =~= before + range_of(b) + behind);
        lemma_middles_are_equal(before, range_of(a), range_of(b), behind);
    }
    if range_of(a) == range_of(b) {
        assert(range_of(a)[1 + x.len() as int] == 's');
        assert(range_of(b)[1 + y.len() as int] == 's');
        if x.len() < y.len() {
            assert(range_of(b)[1 + x.len() as int] == y[x.len() as int]);
        } else if y.len() < x.len() {
            assert(range_of(a)[1 + y.len() as int] == x[y.len() as int]);
        }
        assert(x == range_of(a).subrange(1, 1 + x.len() as int));
        assert(y == range_of(b).subrange(1, 1 + y.len() as int));
        assert(decimal(a.end as int) == range_of(a).skip(5 + x.len() as int));
        assert(decimal(b.end as int) == range_of(b).skip(5 + y.len() as int));
    }
    reveal_strlit(
        "\n        sum by (configuration_name) (\n            increase(activator_request_count{response_code_class=\"2xx\"}",
    );
    reveal_strlit(
        "\n        sum by(configuration) (\n            label_replace(\n                increase(container_cpu_usage_seconds_total{namespace=\"default\", pod=~\"",
    );
    assert(request_query(a)[15] == ' ');
    assert(cpu_query(b)[15] == '(');
}

proof fn lemma_middles_are_equal(before: Seq<char>, a: Seq<char>, b: Seq<char>, behind: Seq<char>)
    requires
        before + a + behind == before + b + behind,
    ensures
        a == b,
{
    let (x, y) = (before + a + behind, before + b + behind);
    assert(x.len() == y.len());
    assert(a == x.subrange(before.len() as int, before.len() + a.len() as int));
    assert(b == y.subrange(before.len() as int, before.len() + a.len() as int));
}

/// A query is sent to the host that is set, as the whole of the parameter `query`.
pub proof fn law_queries_are_sent_whole(host: Seq<char>, query: Seq<char>)
    ensures
        ({
            let url = query_url(host, query);
            let path = "/api/v1/query?query="@;
            &&& url.len() == host.len() + path.len() + query.len()
            &&& url.take(host.len() as int) == host
            &&& url.subrange(host.len() as int, host.len() + path.len() as int) == path
            &&& url.skip(host.len() + path.len() as int) == query
        }),
{
    let url = query_url(host, query);
    let path = "/api/v1/query?query="@;
    assert(url.take(host.len() as int) =~= host);
    assert(url.subrange(host.len() as int, host.len() + path.len() as int) =~= path);
    assert(url.skip(host.len() + path.len() as int) =~= query);
}

/// The value of a sample is the text behind its time: whatever the time is, and whatever
/// else the sample holds. Where that is no text there is no value.
pub proof fn law_value_stands_behind_time(sample: Json, time: Json, value: Json)
    requires
        sample.member("value"@) == Json::Array(seq![time, value]),
    ensures
        value is Text ==> sample_text(sample) == Some(value->Text_0),
        !(value is Text) ==> sample_text(sample) is None,
{
}

/// What is listed was sampled: the usage of each service is the number of a sample that
/// names the service under its label, and no later sample names it. Hands back which.
pub proof fn law_listed_usage_was_sampled(
    samples: Seq<serde_json::Value>,
    label: Seq<char>,
    numbers: Seq<Option<u64>>,
    metrics: Vec<Metric>,
    listed: int,
) -> (i: int)
    requires
        tells_usage(samples, label, numbers, Ok(metrics)),
        0 <= listed < metrics@.len(),
    ensures
        0 <= i < samples.len(),
        json(samples[i]).member("metric"@).member(label) == Json::Text(
            metrics@[listed].service_name@,
        ),
        numbers[i] == Some(metrics@[listed].usage),
        forall|j: int|
            i < j < samples.len() ==> json(#[trigger] samples[j]).member("metric"@).member(label)
                != Json::Text(metrics@[listed].service_name@),
{
    let count = samples.len() as int;
    let views = metric_views(metrics@);
    assert(views[listed] == metrics@[listed]@);
    assert(usage_of(samples, label, numbers, count).contains_pair(
        views[listed].service_name,
        views[listed].usage,
    ));
    let i = lemma_usage_was_sampled(samples, label, numbers, count, views[listed].service_name);
    assert(sample_fault(json(samples[i]), label, numbers[i]) is None);
    i
}

proof fn lemma_usage_was_sampled(
    samples: Seq<serde_json::Value>,
    label: Seq<char>,
    numbers: Seq<Option<u64>>,
    count: int,
    name: Seq<char>,
) -> (i: int)
    requires
        0 <= count <= samples.len(),
        usable(samples, label, numbers, samples.len() as int),
        usage_of(samples, label, numbers, count).contains_key(name),
    ensures
        0 <= i < count,
        sample_service(json(samples[i]), label) == Some(name),
        numbers[i] == Some(usage_of(samples, label, numbers, count)[name]),
        forall|j: int|
            i < j < count ==> sample_service(json(#[trigger] samples[j]), label) != Some(name),
    decreases count,
{
    let last = count - 1;
    assert(sample_fault(json(samples[last]), label, numbers[last]) is None);
    if sample_service(json(samples[last]), label)->0 == name {
        last
    } else {
        lemma_usage_was_sampled(samples, label, numbers, last, name)
    }
}

/// Every sample is listed: each has a name, a value and a number, and its service is listed
/// once, with its number if no later sample names the service too. Hands back where.
pub proof fn law_sampled_usage_is_listed(
    samples: Seq<serde_json::Value>,
    label: Seq<char>,
    numbers: Seq<Option<u64>>,
    metrics: Vec<Metric>,
    i: int,
) -> (listed: int)
    requires
        tells_usage(samples, label, numbers, Ok(metrics)),
        0 <= i < samples.len(),
    ensures
        json(samples[i]).member("metric"@).member(label) is Text,
        json(samples[i]).member("value"@).element(1) is Text,
        numbers[i] is Some,
        0 <= listed < metrics@.len(),
        json(samples[i]).member("metric"@).member(label) == Json::Text(
            metrics@[listed].service_name@,
        ),
        (forall|j: int|
            i < j < samples.len() ==> json(#[trigger] samples[j]).member("metric"@).member(label)
                != json(samples[i]).member("metric"@).member(label)) ==> numbers[i] == Some(
            metrics@[listed].usage,
        ),
        forall|k: int|
            0 <= k < metrics@.len() && k != listed ==> (#[trigger] metrics@[k]).service_name@
                != metrics@[listed].service_name@,
{
    let count = samples.len() as int;
    let views = metric_views(metrics@);
    let usage = usage_of(samples, label, numbers, count);
    assert(sample_fault(json(samples[i]), label, numbers[i]) is None);
    let name = sample_service(json(samples[i]), label)->0;
    lemma_sampled_is_known(samples, label, numbers, count, i);
    assert(usage.contains_key(name));
    let listed = choose|k: int| 0 <= k < views.len() && (#[trigger] views[k]).service_name == name;
    assert(views[listed] == metrics@[listed]@);
    assert forall|k: int| 0 <= k < metrics@.len() && k != listed implies (
    #[trigger] metrics@[k]).service_name@ != metrics@[listed].service_name@ by {
        assert(views[k] == metrics@[k]@);
        if k < listed {
            assert(views[k].service_name != views[listed].service_name);
        } else {
            assert(views[listed].service_name != views[k].service_name);
        }
    }
    let at = law_listed_usage_was_sampled(samples, label, numbers, metrics, listed);
    if at < i {
        assert(json(samples[i]).member("metric"@).member(label) == Json::Text(name));
    }
    listed
}

proof fn lemma_sampled_is_known(
    samples: Seq<serde_json::Value>,
    label: Seq<char>,
    numbers: Seq<Option<u64>>,
    count: int,
    i: int,
)
    requires
        0 <= i < count,
    ensures
        usage_of(samples, label, numbers, count).contains_key(
            sample_service(json(samples[i]), label)->0,
        ),
    decreases count,
{
    if i < count - 1 {
        lemma_sampled_is_known(samples, label, numbers, count - 1, i);
    }
}

/// An answer is refused for its first sample that cannot be used, and for what is wrong
/// with it first: no name under its label, no text for a value, or a value that is no
/// number. The error that is answered quotes the sample, where it has no value.
pub proof fn law_first_unusable_sample_is_told(
    samples: Seq<serde_json::Value>,
    label: Seq<char>,
    numbers: Seq<Option<u64>>,
    error: UsageError,
)
    requires
        tells_usage(samples, label, numbers, Err(error)),
    ensures
        ({
            let at = error.index as int;
            let named = json(samples[at]).member("metric"@).member(label) is Text;
            let valued = json(samples[at]).member("value"@).element(1) is Text;
            &&& at < samples.len()
            &&& error.fault is Unnamed <==> !named
            &&& error.fault is NoValue <==> named && !valued
            &&& error.fault is NotANumber <==> named && valued && numbers[at] is None
            &&& !(named && valued && numbers[at] is Some)
            &&& error.fault is NoValue <==> error.error is Some
            &&& error.fault is NoValue ==> error.error->0@ == (AppErrorView::MissingValue {
                result: json_text(json(samples[at])),
            })
        }),
        forall|i: int|
            0 <= i < error.index ==> {
                let sample = json(#[trigger] samples[i]);
                &&& sample.member("metric"@).member(label) is Text
                &&& sample.member("value"@).element(1) is Text
                &&& numbers[i] is Some
            },
{
    let at = error.index as int;
    assert forall|i: int| 0 <= i < error.index implies {
        let sample = json(#[trigger] samples[i]);
        &&& sample.member("metric"@).member(label) is Text
        &&& sample.member("value"@).element(1) is Text
        &&& numbers[i] is Some
    } by {
        assert(sample_fault(json(samples[i]), label, numbers[i]) is None);
    }
}

/// What is stated of the usages of a list is stated of each as it is: its name and its bits,
/// in their order.
pub proof fn law_metrics_are_taken_as_they_are(metrics: Seq<Metric>)
    ensures
        metric_views(metrics).len() == metrics.len(),
        forall|i: int|
            0 <= i < metrics.len() ==> {
                &&& metric_views(metrics)[i].service_name == (#[trigger] metrics[i]).service_name@
                &&& metric_views(metrics)[i].usage == metrics[i].usage
            },
{
}

} // verus!
