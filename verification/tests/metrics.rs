use billing_api::config::Config;
use billing_api::metrics::{
    cpu_used_metrics, cpu_used_query, prom_query, request_served_metrics, request_served_query,
    sample_value, BillingWindow, Fault, Metric, PromqlResponse, PromqlResponseData, UsageError,
};

fn response(samples: &[&str]) -> PromqlResponse {
    let result = samples.iter().map(|s| serde_json::from_str(s).unwrap()).collect();
    PromqlResponse { data: PromqlResponseData { result } }
}

fn numbers(response: &PromqlResponse) -> Vec<Option<u64>> {
    response
        .data
        .result
        .iter()
        .map(|s| sample_value(s).and_then(|t| t.parse::<f64>().ok()).map(f64::to_bits))
        .collect()
}

fn usage(metrics: &[Metric]) -> Vec<(String, f64)> {
    let mut usage: Vec<(String, f64)> =
        metrics.iter().map(|m| (m.service_name.clone(), f64::from_bits(m.usage))).collect();
    usage.sort_by(|a, b| a.0.cmp(&b.0));
    usage
}

#[test]
fn query_urls() {
    let config = Config {
        port: 8080,
        prometheus_svc: "http://prometheus".to_owned(),
        database_url: String::new(),
        dev: false,
        knative_serving_svc: String::new(),
        billing_interval: 60,
    };
    assert_eq!(prom_query(&config, "up"), "http://prometheus/api/v1/query?query=up");
}

#[test]
fn cpu_query_text() {
    let window = BillingWindow { start: 1700000000, end: 1700000060 };
    let expected = "\n        sum by(configuration) (\n            label_replace(\n                increase(container_cpu_usage_seconds_total{namespace=\"default\", pod=~\"(.*)-.{5}-deployment-.*\"}[60s] @1700000060), \n                \"configuration\", \"$1\", \"pod\", \"(.*)-.{5}-deployment-.*\"\n            )\n        )\n        ";
    assert_eq!(cpu_used_query(window), expected);
}

#[test]
fn request_query_text() {
    let window = BillingWindow { start: 1700000000, end: 1699999999 };
    let expected = "\n        sum by (configuration_name) (\n            increase(activator_request_count{response_code_class=\"2xx\"}[-1s] @1699999999) > 0\n        )\n        ";
    assert_eq!(request_served_query(window), expected);
}

#[test]
fn query_texts_match_their_templates() {
    let window = BillingWindow { start: -3, end: 97 };
    let pods = r#"(.*)-.{5}-deployment-.*"#;
    let cpu = format!(
        r#"
        sum by(configuration) (
            label_replace(
                increase(container_cpu_usage_seconds_total{{namespace="default", pod=~"{pods}"}}[{duration}] @{at}),{space}
                "configuration", "$1", "pod", "{pods}"
            )
        )
        "#,
        pods = pods,
        at = window.end,
        duration = "100s",
        space = " ",
    );
    assert_eq!(cpu_used_query(window), cpu);
    let requests = format!(
        r#"
        sum by (configuration_name) (
            increase(activator_request_count{{response_code_class="2xx"}}[{duration}] @{at}) > 0
        )
        "#,
        at = window.end,
        duration = "100s",
    );
    assert_eq!(request_served_query(window), requests);
}

#[test]
fn sample_values() {
    let value = |text: &str| {
        let sample: serde_json::Value = serde_json::from_str(text).unwrap();
        sample_value(&sample).map(str::to_owned)
    };
    assert_eq!(value("{\"value\":[1,\"2.5\"]}"), Some("2.5".to_owned()));
    assert_eq!(value("{\"value\":[1,2.5]}"), None);
    assert_eq!(value("{\"value\":[\"1\"]}"), None);
    assert_eq!(value("{\"value\":{\"1\":\"2\"}}"), None);
    assert_eq!(value("{}"), None);
    assert_eq!(value("[]"), None);
}

#[test]
fn usage_of_each_service() {
    let response = response(&[
        "{\"metric\":{\"configuration\":\"a-1\"},\"value\":[1,\"2.5\"]}",
        "{\"metric\":{\"configuration\":\"b-2\"},\"value\":[1,\"1e3\"]}",
    ]);
    let metrics = cpu_used_metrics(&response, &numbers(&response)).unwrap();
    assert_eq!(usage(&metrics), vec![("a-1".to_owned(), 2.5), ("b-2".to_owned(), 1000.0)]);
}

#[test]
fn last_sample_of_a_service_counts() {
    let response = response(&[
        "{\"metric\":{\"configuration_name\":\"a-1\"},\"value\":[1,\"2\"]}",
        "{\"metric\":{\"configuration_name\":\"b-2\"},\"value\":[1,\"3\"]}",
        "{\"metric\":{\"configuration_name\":\"a-1\"},\"value\":[1,\"4\"]}",
    ]);
    let metrics = request_served_metrics(&response, &numbers(&response)).unwrap();
    assert_eq!(usage(&metrics), vec![("a-1".to_owned(), 4.0), ("b-2".to_owned(), 3.0)]);
}

#[test]
fn no_samples_no_usage() {
    let response = response(&[]);
    assert!(cpu_used_metrics(&response, &vec![]).unwrap().is_empty());
}

#[test]
fn unnamed_sample_is_a_fault() {
    let response = response(&[
        "{\"metric\":{\"configuration\":\"a-1\"},\"value\":[1,\"2\"]}",
        "{\"metric\":{\"configuration_name\":\"a-1\"},\"value\":[1]}",
    ]);
    let error = cpu_used_metrics(&response, &numbers(&response)).unwrap_err();
    assert!(matches!(error, UsageError { index: 1, fault: Fault::Unnamed, error: None }));
}

#[test]
fn sample_without_value_is_a_fault() {
    let response = response(&["{\"value\": [1, 2], \"metric\": {\"configuration\": \"a-1\"}}"]);
    let error = cpu_used_metrics(&response, &numbers(&response)).unwrap_err();
    assert_eq!((error.index, error.fault), (0, Fault::NoValue));
    assert_eq!(
        error.error.unwrap().message(),
        "failed to parse prometheus response: {\"metric\":{\"configuration\":\"a-1\"},\"value\":[1,2]}"
    );
}

#[test]
fn first_fault_counts() {
    let response = response(&[
        "{\"metric\":{\"configuration\":\"a-1\"},\"value\":[1,\"two\"]}",
        "{\"metric\":{\"configuration\":\"b-1\"}}",
    ]);
    let error = cpu_used_metrics(&response, &numbers(&response)).unwrap_err();
    assert!(matches!(error, UsageError { index: 0, fault: Fault::NotANumber, error: None }));
}
