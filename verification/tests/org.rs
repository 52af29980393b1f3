use billing_api::config::Config;
use billing_api::credit::{org_update_token_credit, CreditUpdate};
use billing_api::effects::{Action, Event, Progress};
use billing_api::errors::AppError;
use billing_api::json::takes_members;
use billing_api::org::{
    is_org_token_credit_available, org_create, org_delete, org_stop, org_update, org_update_answer,
    Org, OrgDeletePhase, OrgStop, OrgUpdate,
};
use billing_api::project::Project;

fn config() -> Config {
    Config {
        port: 8080,
        prometheus_svc: "http://prometheus".to_owned(),
        database_url: "postgres://db".to_owned(),
        dev: false,
        knative_serving_svc: "http://knative".to_owned(),
        billing_interval: 60,
    }
}

fn project(name: &str, org_id: i32) -> Project {
    Project {
        id: 21,
        name: name.to_owned(),
        org_id,
        repo_clone_url: "url".to_owned(),
        repo_owner: "ada".to_owned(),
        repo_name: "repo".to_owned(),
        repo_revision: "rev".to_owned(),
    }
}

fn adding(id: i32, quantity: i32) -> (CreditUpdate, String) {
    match org_update_token_credit(id, quantity) {
        Ok((update, Action::UpdateCredit { org_id, expression })) => {
            assert_eq!(org_id, id);
            (update, expression)
        }
        other => panic!("{other:?}"),
    }
}

fn deletion<T: std::fmt::Debug>(progress: Progress<T>, name: &str) {
    match progress {
        Progress::Act(Action::Send(request)) => {
            assert_eq!(request.url, "http://knative/delete");
            assert_eq!(request.body, format!("{{\"name\":\"{name}\"}}"));
        }
        other => panic!("{other:?}"),
    }
}

#[test]
fn credit_is_available_above_zero() {
    assert!(is_org_token_credit_available(Some(Org { id: 1, token_credit: 1 })));
    assert!(!is_org_token_credit_available(Some(Org { id: 1, token_credit: 0 })));
    assert!(!is_org_token_credit_available(None));
}

#[test]
fn created_org_has_no_credit() {
    let mut record = serde_json::from_str("{\"name\":\"acme\",\"token_credit\":99}").unwrap();
    org_create(&mut record);
    assert_eq!(record.to_string(), "{\"name\":\"acme\",\"token_credit\":0}");
}

#[test]
fn records_take_members() {
    for text in ["{}", "null", "{\"a\":1}"] {
        assert!(takes_members(&serde_json::from_str(text).unwrap()), "{text}");
    }
    for text in ["[]", "1", "\"a\"", "true"] {
        assert!(!takes_members(&serde_json::from_str(text).unwrap()), "{text}");
    }
}

#[test]
fn zero_quantity_is_refused() {
    let error = org_update_token_credit(1, 0).unwrap_err();
    assert!(matches!(error, AppError::ZeroQuantity));
    assert_eq!(error.message(), "quantity must not be zero");
    assert!(matches!(org_update(1, OrgUpdate::AddTokenCredit(0)), Err(AppError::ZeroQuantity)));
}

#[test]
fn credit_expressions() {
    assert_eq!(adding(3, 5).1, "token_credit + 5");
    assert_eq!(adding(3, -5).1, "token_credit + -5");
    assert_eq!(adding(3, i32::MIN).1, "token_credit + -2147483648");
}

#[test]
fn org_update_adds_credit() {
    match org_update(4, OrgUpdate::AddTokenCredit(2147483647)) {
        Ok((CreditUpdate::Adding { quantity }, Action::UpdateCredit { org_id, expression })) => {
            assert_eq!(quantity, i32::MAX);
            assert_eq!(org_id, 4);
            assert_eq!(expression, "token_credit + 2147483647");
        }
        other => panic!("{other:?}"),
    }
}

#[test]
fn org_update_beyond_signed_numbers_wraps() {
    for (asked, quantity) in [(2147483648u32, i32::MIN), (u32::MAX, -1)] {
        match org_update(4, OrgUpdate::AddTokenCredit(asked)) {
            Ok((CreditUpdate::Adding { quantity: q }, _)) => assert_eq!(q, quantity),
            other => panic!("{other:?}"),
        }
    }
}

#[test]
fn org_update_answers() {
    let org = Org { id: 4, token_credit: 2 };
    assert_eq!(org_update_answer(4, Some(org)).unwrap(), org);
    let error = org_update_answer(-4, None).unwrap_err();
    assert!(matches!(error, AppError::OrgNotFound { id: -4 }));
    assert_eq!(error.message(), "org id: -4 could not be found");
}

#[test]
fn exhausted_org_is_stopped() {
    let config = config();
    let org = Org { id: 3, token_credit: 0 };
    let (update, _) = adding(3, -5);
    let (update, progress) = update.step(&config, Event::Org(Some(org)));
    assert!(matches!(progress, Progress::Act(Action::FetchProjects { org_id: 3 })));
    let projects = vec![project("a", 3), project("b", 3)];
    let (update, progress) = update.step(&config, Event::Projects(projects));
    deletion(progress, "a-3");
    let (update, progress) = update.step(&config, Event::Done);
    deletion(progress, "b-3");
    let (_, progress) = update.step(&config, Event::Done);
    assert!(matches!(progress, Progress::Finished(Some(o)) if o == org));
}

#[test]
fn paying_org_is_left_alone() {
    let org = Org { id: 3, token_credit: 1 };
    let (update, _) = adding(3, -5);
    let (_, progress) = update.step(&config(), Event::Org(Some(org)));
    assert!(matches!(progress, Progress::Finished(Some(o)) if o == org));
}

#[test]
fn unknown_org_changes_nothing() {
    let (update, _) = adding(3, 5);
    let (_, progress) = update.step(&config(), Event::Org(None));
    assert!(matches!(progress, Progress::Finished(None)));
}

#[test]
fn replenished_org_is_resumed() {
    let config = config();
    let org = Org { id: 3, token_credit: 5 };
    let (update, _) = adding(3, 5);
    let (update, progress) = update.step(&config, Event::Org(Some(org)));
    assert!(matches!(progress, Progress::Act(Action::FetchProjects { org_id: 3 })));
    let projects = vec![project("a", 3), project("b", 8)];
    let (update, progress) = update.step(&config, Event::Projects(projects));
    assert!(matches!(progress, Progress::Act(Action::FetchOrg { org_id: 3 })));
    let (update, progress) = update.step(&config, Event::Org(Some(org)));
    match progress {
        Progress::Act(Action::Send(request)) => {
            assert_eq!(request.url, "http://knative/rollout");
            assert!(request.body.contains("\"name\":\"a-3\""));
        }
        other => panic!("{other:?}"),
    }
    let (update, progress) = update.step(&config, Event::Done);
    assert!(matches!(progress, Progress::Act(Action::FetchOrg { org_id: 8 })));
    let (_, progress) = update.step(&config, Event::Org(None));
    assert!(matches!(progress, Progress::Finished(Some(o)) if o == org));
}

#[test]
fn indebted_org_stays_stopped() {
    let config = config();
    let org = Org { id: 3, token_credit: 0 };
    let (update, _) = adding(3, 5);
    let (update, progress) = update.step(&config, Event::Org(Some(org)));
    assert!(matches!(progress, Progress::Act(Action::FetchProjects { org_id: 3 })));
    let (_, progress) = update.step(&config, Event::Projects(vec![project("a", 3)]));
    assert!(matches!(progress, Progress::Finished(Some(o)) if o == org));
}

#[test]
fn org_stop_deletes_and_counts() {
    let config = config();
    let (stop, action) = org_stop(2);
    assert!(matches!(action, Action::FetchProjects { org_id: 2 }));
    let projects = vec![project("a", 2), project("b", 2)];
    let (stop, progress) = stop.step(&config, Event::Projects(projects));
    deletion(progress, "a-2");
    let (stop, progress) = stop.step(&config, Event::Done);
    deletion(progress, "b-2");
    let (_, progress) = stop.step(&config, Event::Done);
    assert!(matches!(progress, Progress::Finished(2)));
}

#[test]
fn org_delete_stops_projects_first() {
    let config = config();
    let (delete, action) = org_delete(2);
    assert!(matches!(action, Action::FetchProjects { org_id: 2 }));
    let (delete, progress) = delete.step(&config, Event::Projects(vec![project("a", 2)]));
    deletion(progress, "a-2");
    let (delete, progress) = delete.step(&config, Event::Done);
    assert!(matches!(progress, Progress::Act(Action::FetchProjects { org_id: 2 })));
    let projects = vec![project("a", 2), project("b", 2)];
    let (delete, progress) = delete.step(&config, Event::Projects(projects));
    deletion(progress, "a-2");
    let (delete, progress) = delete.step(&config, Event::Done);
    deletion(progress, "b-2");
    let (delete, progress) = delete.step(&config, Event::Done);
    assert!(matches!(progress, Progress::Act(Action::DeleteOrg { org_id: 2 })));
    let (_, progress) = delete.step(&config, Event::Done);
    assert!(matches!(progress, Progress::Finished(2)));
}

#[test]
fn org_delete_without_projects() {
    let config = config();
    let (delete, _) = org_delete(2);
    let (delete, progress) = delete.step(&config, Event::Projects(vec![]));
    assert!(matches!(progress, Progress::Act(Action::FetchProjects { org_id: 2 })));
    let (delete, progress) = delete.step(&config, Event::Projects(vec![]));
    assert!(matches!(progress, Progress::Act(Action::DeleteOrg { org_id: 2 })));
    let (_, progress) = delete.step(&config, Event::Done);
    assert!(matches!(progress, Progress::Finished(0)));
}

#[test]
fn failed_deletion_breaks_the_update_off() {
    let config = config();
    let org = Org { id: 3, token_credit: 0 };
    let (update, _) = adding(3, -5);
    let (update, _) = update.step(&config, Event::Org(Some(org)));
    let projects = vec![project("a", 3), project("b", 3)];
    let (update, progress) = update.step(&config, Event::Projects(projects));
    deletion(progress, "a-3");
    let (update, progress) = update.step(&config, Event::Failed);
    assert!(matches!(progress, Progress::Failed));
    assert!(matches!(update, CreditUpdate::Ended));
}

#[test]
fn failed_lookup_breaks_the_resumption_off() {
    let config = config();
    let org = Org { id: 3, token_credit: 5 };
    let (update, _) = adding(3, 5);
    let (update, _) = update.step(&config, Event::Org(Some(org)));
    let projects = vec![project("a", 3), project("b", 3)];
    let (update, _) = update.step(&config, Event::Projects(projects));
    let (update, progress) = update.step(&config, Event::Failed);
    assert!(matches!(progress, Progress::Failed));
    assert!(matches!(update, CreditUpdate::Ended));
}

#[test]
fn failed_deletion_breaks_the_stop_off() {
    let config = config();
    let (stop, _) = org_stop(2);
    let projects = vec![project("a", 2), project("b", 2)];
    let (stop, progress) = stop.step(&config, Event::Projects(projects));
    deletion(progress, "a-2");
    let (stop, progress) = stop.step(&config, Event::Failed);
    assert!(matches!(progress, Progress::Failed));
    assert!(matches!(stop, OrgStop::Ended));
}

#[test]
fn failed_deletion_keeps_the_org() {
    let config = config();
    let (delete, _) = org_delete(2);
    let (delete, progress) = delete.step(&config, Event::Projects(vec![project("a", 2)]));
    deletion(progress, "a-2");
    let (delete, progress) = delete.step(&config, Event::Failed);
    assert!(matches!(progress, Progress::Failed));
    assert!(matches!(delete.phase, OrgDeletePhase::Ended));
    let (delete, _) = org_delete(2);
    let (delete, _) = delete.step(&config, Event::Projects(vec![]));
    let (delete, _) = delete.step(&config, Event::Projects(vec![]));
    let (delete, progress) = delete.step(&config, Event::Failed);
    assert!(matches!(progress, Progress::Failed));
    assert!(matches!(delete.phase, OrgDeletePhase::Ended));
}

/// The value of an expression, over what is stored as the credit.
fn evaluate(expression: &str, stored: i64) -> i64 {
    let (column, quantity) = expression.split_once(" + ").unwrap();
    assert_eq!(column, "token_credit");
    stored + quantity.parse::<i64>().unwrap()
}

#[test]
fn changes_of_a_credit_add_up() {
    for (a, b) in [(5, 7), (5, -7), (-5, 5), (i32::MIN, i32::MAX)] {
        let (first, second) = (adding(3, a).1, adding(3, b).1);
        let sum = 10 + a as i64 + b as i64;
        assert_eq!(evaluate(&second, evaluate(&first, 10)), sum);
        assert_eq!(evaluate(&first, evaluate(&second, 10)), sum);
    }
}
