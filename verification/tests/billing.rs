use billing_api::billing::{
    bill_on_cpu_used, bill_on_request_served, billings_of_cycle, debit_of, BillingCycles,
    BillingEnd, BillingPhase, BillingStash, CycleBilling, MetricKind,
};
use billing_api::config::Config;
use billing_api::effects::{Action, Charge, Event, Progress};
use billing_api::metrics::{BillingWindow, Metric};
use billing_api::org::Org;
use billing_api::project::Project;

fn config() -> Config {
    Config {
        port: 8080,
        prometheus_svc: "http://prometheus".to_owned(),
        database_url: "postgres://db".to_owned(),
        dev: false,
        knative_serving_svc: "http://knative".to_owned(),
        billing_interval: 60,
    }
}

fn metric(service_name: &str, usage: u64) -> Metric {
    Metric { service_name: service_name.to_owned(), usage }
}

#[test]
fn stash_gives_back_what_was_stashed() {
    let mut stash = BillingStash::new();
    assert_eq!(stash.get(1, MetricKind::CpuUsed), 0.0f64.to_bits());
    stash.insert(1, MetricKind::CpuUsed, 5);
    stash.insert(1, MetricKind::RequestServed, 6);
    stash.insert(2, MetricKind::CpuUsed, 7);
    stash.insert(1, MetricKind::CpuUsed, 8);
    assert_eq!(stash.get(1, MetricKind::CpuUsed), 8);
    assert_eq!(stash.get(1, MetricKind::RequestServed), 6);
    assert_eq!(stash.get(2, MetricKind::CpuUsed), 7);
    assert_eq!(stash.get(2, MetricKind::RequestServed), 0);
}

#[test]
fn windows_are_seamless() {
    let mut cycles = BillingCycles::new();
    assert_eq!(cycles.begin(100), None);
    assert_eq!(cycles.begin(160), Some(BillingWindow { start: 100, end: 160 }));
    assert_eq!(cycles.begin(225), Some(BillingWindow { start: 160, end: 225 }));
    assert_eq!(cycles.last_billing_cycle_at, Some(225));
}

#[test]
fn debits() {
    assert_eq!(debit_of(0), 0);
    assert_eq!(debit_of(1), -1);
    assert_eq!(debit_of(2147483647), -2147483647);
    assert_eq!(debit_of(2147483648), i32::MIN);
    assert_eq!(debit_of(u64::MAX), i32::MIN);
    for used in [1.0f64, 3.0, 2147483648.0, 1e30, f64::INFINITY] {
        assert_eq!(debit_of(used as u64), -used as i32);
    }
}

#[test]
fn nothing_to_bill() {
    let stash = BillingStash::new();
    let (_, progress) = bill_on_cpu_used(vec![], &stash);
    assert!(matches!(progress, Progress::Finished(BillingEnd::Billed)));
}

#[test]
fn cheap_usage_is_stashed_and_priced_again() {
    let config = config();
    let mut stash = BillingStash::new();
    stash.insert(1, MetricKind::RequestServed, 99);
    let metrics = vec![metric("a-1", 10), metric("b-1", 20), metric("c-2", 30)];
    let (run, progress) = bill_on_request_served(metrics, &stash);
    assert!(matches!(
        progress,
        Progress::Act(Action::Price { kind: MetricKind::RequestServed, usage: 10, stashed: 99 })
    ));
    let charge = Charge { used_token: 0, stashed: 11 };
    let (run, progress) = run.step(&config, &mut stash, Event::Priced(charge));
    assert!(matches!(
        progress,
        Progress::Act(Action::Price { kind: MetricKind::RequestServed, usage: 20, stashed: 11 })
    ));
    let charge = Charge { used_token: 0, stashed: 12 };
    let (run, progress) = run.step(&config, &mut stash, Event::Priced(charge));
    assert!(matches!(
        progress,
        Progress::Act(Action::Price { kind: MetricKind::RequestServed, usage: 30, stashed: 0 })
    ));
    let charge = Charge { used_token: 0, stashed: 13 };
    let (_, progress) = run.step(&config, &mut stash, Event::Priced(charge));
    assert!(matches!(progress, Progress::Finished(BillingEnd::Billed)));
    assert_eq!(stash.get(1, MetricKind::RequestServed), 12);
    assert_eq!(stash.get(2, MetricKind::RequestServed), 13);
    assert_eq!(stash.get(1, MetricKind::CpuUsed), 0);
}

#[test]
fn tokens_are_taken_off() {
    let config = config();
    let mut stash = BillingStash::new();
    let (run, progress) = bill_on_cpu_used(vec![metric("a-1", 10)], &stash);
    assert!(matches!(
        progress,
        Progress::Act(Action::Price { kind: MetricKind::CpuUsed, usage: 10, stashed: 0 })
    ));
    let charge = Charge { used_token: 4, stashed: 11 };
    let (run, progress) = run.step(&config, &mut stash, Event::Priced(charge));
    match progress {
        Progress::Act(Action::UpdateCredit { org_id, expression }) => {
            assert_eq!(org_id, 1);
            assert_eq!(expression, "token_credit + -4");
        }
        other => panic!("{other:?}"),
    }
    assert_eq!(stash.get(1, MetricKind::CpuUsed), 0);
    let org = Org { id: 1, token_credit: 6 };
    let (_, progress) = run.step(&config, &mut stash, Event::Org(Some(org)));
    assert!(matches!(progress, Progress::Finished(BillingEnd::Billed)));
    assert_eq!(stash.get(1, MetricKind::CpuUsed), 11);
}

#[test]
fn billing_to_exhaustion_stops_the_org() {
    let config = config();
    let mut stash = BillingStash::new();
    let (run, _) = bill_on_cpu_used(vec![metric("a-1", 10)], &stash);
    let charge = Charge { used_token: 4, stashed: 11 };
    let (run, _) = run.step(&config, &mut stash, Event::Priced(charge));
    let org = Org { id: 1, token_credit: -1 };
    let (run, progress) = run.step(&config, &mut stash, Event::Org(Some(org)));
    assert!(matches!(progress, Progress::Act(Action::FetchProjects { org_id: 1 })));
    let project = Project {
        id: 21,
        name: "a".to_owned(),
        org_id: 1,
        repo_clone_url: String::new(),
        repo_owner: String::new(),
        repo_name: String::new(),
        repo_revision: String::new(),
    };
    let (run, progress) = run.step(&config, &mut stash, Event::Projects(vec![project]));
    match progress {
        Progress::Act(Action::Send(request)) => assert_eq!(request.body, "{\"name\":\"a-1\"}"),
        other => panic!("{other:?}"),
    }
    let (_, progress) = run.step(&config, &mut stash, Event::Done);
    assert!(matches!(progress, Progress::Finished(BillingEnd::Billed)));
    assert_eq!(stash.get(1, MetricKind::CpuUsed), 11);
}

#[test]
fn service_of_an_unknown_org_is_deleted() {
    let config = config();
    let mut stash = BillingStash::new();
    let (run, _) = bill_on_cpu_used(vec![metric("a-b-1", 10)], &stash);
    let charge = Charge { used_token: 4, stashed: 11 };
    let (run, _) = run.step(&config, &mut stash, Event::Priced(charge));
    let (run, progress) = run.step(&config, &mut stash, Event::Org(None));
    match progress {
        Progress::Act(Action::Send(request)) => {
            assert_eq!(request.url, "http://knative/delete");
            assert_eq!(request.body, "{\"name\":\"a-b-1\"}");
        }
        other => panic!("{other:?}"),
    }
    let (_, progress) = run.step(&config, &mut stash, Event::Done);
    assert!(matches!(progress, Progress::Finished(BillingEnd::Billed)));
    assert_eq!(stash.get(1, MetricKind::CpuUsed), 11);
}

#[test]
fn service_that_names_no_org_ends_billing() {
    let config = config();
    let mut stash = BillingStash::new();
    let (run, _) = bill_on_cpu_used(vec![metric("a-1", 10), metric("web", 1)], &stash);
    let charge = Charge { used_token: 0, stashed: 11 };
    let (_, progress) = run.step(&config, &mut stash, Event::Priced(charge));
    assert!(matches!(progress, Progress::Finished(BillingEnd::Unattributable)));
    assert_eq!(stash.get(1, MetricKind::CpuUsed), 11);
}

#[test]
fn kinds_are_billed_side_by_side() {
    let config = config();
    let mut stash = BillingStash::new();
    let (requests, _) = bill_on_request_served(vec![metric("a-1", 10), metric("b-1", 1)], &stash);
    let (cpu, _) = bill_on_cpu_used(vec![metric("a-1", 20), metric("b-1", 2)], &stash);
    let charge = Charge { used_token: 0, stashed: 5 };
    let (_, progress) = cpu.step(&config, &mut stash, Event::Priced(charge));
    assert!(matches!(
        progress,
        Progress::Act(Action::Price { kind: MetricKind::CpuUsed, usage: 2, stashed: 5 })
    ));
    let charge = Charge { used_token: 0, stashed: 6 };
    let (_, progress) = requests.step(&config, &mut stash, Event::Priced(charge));
    assert!(matches!(
        progress,
        Progress::Act(Action::Price { kind: MetricKind::RequestServed, usage: 1, stashed: 6 })
    ));
    assert_eq!(stash.get(1, MetricKind::CpuUsed), 5);
    assert_eq!(stash.get(1, MetricKind::RequestServed), 6);
}

#[test]
fn each_price_is_taken_off_its_own_org() {
    let config = config();
    let mut stash = BillingStash::new();
    let metrics = vec![metric("a-1", 10), metric("b-2", 20), metric("c-1", 30)];
    let mut answers = vec![(0, 5), (7, 6), (2147483648, 8)].into_iter();
    let mut changes = Vec::new();
    let (mut run, mut progress) = bill_on_cpu_used(metrics, &stash);
    loop {
        let event = match progress {
            Progress::Act(Action::Price { kind, .. }) => {
                assert_eq!(kind, MetricKind::CpuUsed);
                let (used_token, stashed) = answers.next().unwrap();
                Event::Priced(Charge { used_token, stashed })
            }
            Progress::Act(Action::UpdateCredit { org_id, expression }) => {
                changes.push((org_id, expression));
                Event::Org(Some(Org { id: org_id, token_credit: 1 }))
            }
            Progress::Finished(end) => {
                assert_eq!(end, BillingEnd::Billed);
                break;
            }
            other => panic!("{other:?}"),
        };
        (run, progress) = run.step(&config, &mut stash, event);
    }
    assert_eq!(
        changes,
        vec![
            (2, "token_credit + -7".to_owned()),
            (1, "token_credit + -2147483648".to_owned())
        ]
    );
    assert_eq!(stash.get(1, MetricKind::CpuUsed), 8);
    assert_eq!(stash.get(2, MetricKind::CpuUsed), 6);
}

#[test]
fn failed_debit_breaks_billing_off() {
    let config = config();
    let mut stash = BillingStash::new();
    stash.insert(1, MetricKind::CpuUsed, 3);
    let (run, _) = bill_on_cpu_used(vec![metric("a-1", 10), metric("b-2", 20)], &stash);
    let charge = Charge { used_token: 4, stashed: 11 };
    let (run, _) = run.step(&config, &mut stash, Event::Priced(charge));
    let (run, progress) = run.step(&config, &mut stash, Event::Failed);
    assert!(matches!(progress, Progress::Failed));
    assert!(matches!(run.phase, BillingPhase::Ended));
    assert_eq!(run.rest.len(), 1);
    assert_eq!(stash.get(1, MetricKind::CpuUsed), 3);
    assert_eq!(stash.get(2, MetricKind::CpuUsed), 0);
}

#[test]
fn failed_removal_breaks_billing_off() {
    let config = config();
    let mut stash = BillingStash::new();
    let (run, _) = bill_on_cpu_used(vec![metric("a-1", 10)], &stash);
    let charge = Charge { used_token: 4, stashed: 11 };
    let (run, _) = run.step(&config, &mut stash, Event::Priced(charge));
    let (run, progress) = run.step(&config, &mut stash, Event::Org(None));
    assert!(matches!(progress, Progress::Act(Action::Send(_))));
    let (_, progress) = run.step(&config, &mut stash, Event::Failed);
    assert!(matches!(progress, Progress::Failed));
    assert_eq!(stash.get(1, MetricKind::CpuUsed), 0);
}

/// The price of a usage at `unit` a token, and what remains.
fn exact(usage: u64, stashed: u64, unit: f64) -> Charge {
    let total = f64::from_bits(usage) + f64::from_bits(stashed);
    let used_token = (total / unit).floor();
    Charge { used_token: used_token as u64, stashed: (total - used_token * unit).to_bits() }
}

/// Bills the usages one cycle after the other; the tokens taken are handed back.
fn bill_exactly(usages: &[f64], unit: f64, stash: &mut BillingStash) -> u64 {
    let config = config();
    let mut taken = 0;
    for usage in usages {
        let metrics = vec![metric("a-1", usage.to_bits())];
        let (mut run, mut progress) = bill_on_request_served(metrics, stash);
        loop {
            let event = match progress {
                Progress::Act(Action::Price { usage, stashed, .. }) => {
                    let charge = exact(usage, stashed, unit);
                    taken += charge.used_token;
                    Event::Priced(charge)
                }
                Progress::Act(Action::UpdateCredit { org_id, .. }) => {
                    Event::Org(Some(Org { id: org_id, token_credit: 1 }))
                }
                Progress::Finished(_) => break,
                other => panic!("{other:?}"),
            };
            (run, progress) = run.step(&config, stash, event);
        }
        let left = f64::from_bits(stash.get(1, MetricKind::RequestServed));
        assert!((0.0..unit).contains(&left));
    }
    taken
}

#[test]
fn cutting_usage_into_windows_changes_nothing() {
    let mut whole = BillingStash::new();
    assert_eq!(bill_exactly(&[3700.0], 1000.0, &mut whole), 3);
    let mut cut = BillingStash::new();
    assert_eq!(bill_exactly(&[800.0, 1900.0, 0.0, 1000.0], 1000.0, &mut cut), 3);
    assert_eq!(whole.get(1, MetricKind::RequestServed), 700.0f64.to_bits());
    assert_eq!(cut.get(1, MetricKind::RequestServed), 700.0f64.to_bits());
}

#[test]
fn each_cycle_bills_both_kinds_over_its_window() {
    let mut cycles = BillingCycles::new();
    assert_eq!(billings_of_cycle(cycles.begin(100)), vec![]);
    for (start, end) in [(100, 160), (160, 225)] {
        let window = BillingWindow { start, end };
        assert_eq!(
            billings_of_cycle(cycles.begin(end)),
            vec![
                CycleBilling { kind: MetricKind::RequestServed, window },
                CycleBilling { kind: MetricKind::CpuUsed, window },
            ]
        );
    }
}

#[test]
fn service_billed_brings_a_large_stash_below_a_token() {
    let mut stash = BillingStash::new();
    stash.insert(1, MetricKind::RequestServed, 5300.0f64.to_bits());
    stash.insert(2, MetricKind::RequestServed, 9000.0f64.to_bits());
    stash.insert(1, MetricKind::CpuUsed, 8000.0f64.to_bits());
    assert_eq!(bill_exactly(&[0.0], 1000.0, &mut stash), 5);
    assert_eq!(stash.get(1, MetricKind::RequestServed), 300.0f64.to_bits());
    assert_eq!(stash.get(2, MetricKind::RequestServed), 9000.0f64.to_bits());
    assert_eq!(stash.get(1, MetricKind::CpuUsed), 8000.0f64.to_bits());
}
