use billing_api::config::Config;
use billing_api::effects::{Action, Event, Progress};
use billing_api::org::Org;
use billing_api::project::{
    gen_project_name, project_create, service_org_id, trigger_project_deletion,
    trigger_service_deletion, Project, ProjectCreation,
};
use billing_api::rollout::{trigger_project_rollout, RolloutPhase};

fn config() -> Config {
    Config {
        port: 8080,
        prometheus_svc: "http://prometheus".to_owned(),
        database_url: "postgres://db".to_owned(),
        dev: false,
        knative_serving_svc: "http://knative".to_owned(),
        billing_interval: 60,
    }
}

fn project(name: &str, org_id: i32) -> Project {
    Project {
        id: 21,
        name: name.to_owned(),
        org_id,
        repo_clone_url: "https://git/r.git".to_owned(),
        repo_owner: "ada".to_owned(),
        repo_name: "r\"1".to_owned(),
        repo_revision: "abc".to_owned(),
    }
}

const ROLLOUT: &str = "{\"name\":\"web-7\",\"repo\":\"https://git/r.git\",\"repo-name\":\"r\\\"1\",\"repo-owner\":\"ada\",\"revision\":\"abc\"}";

#[test]
fn project_name_is_name_and_org() {
    assert_eq!(gen_project_name(&project("web", 7)), "web-7");
    assert_eq!(gen_project_name(&project("a-b", 0)), "a-b-0");
    assert_eq!(gen_project_name(&project("", i32::MAX)), "-2147483647");
    assert_eq!(gen_project_name(&project("web", -5)), "web--5");
}

#[test]
fn service_org_is_behind_the_last_dash() {
    assert_eq!(service_org_id("web-7"), Some(7));
    assert_eq!(service_org_id("a-b-12"), Some(12));
    assert_eq!(service_org_id("web-+3"), Some(3));
    assert_eq!(service_org_id("\u{e4}-1"), Some(1));
    assert_eq!(service_org_id("web"), None);
    assert_eq!(service_org_id(""), None);
    assert_eq!(service_org_id("web-"), None);
    assert_eq!(service_org_id("web-x"), None);
    assert_eq!(service_org_id("web-2147483648"), None);
}

#[test]
fn service_name_names_its_org() {
    for org_id in [0, 1, 9, 10, 2024, i32::MAX] {
        for name in ["", "web", "a-b", "-", "x-1"] {
            assert_eq!(service_org_id(&gen_project_name(&project(name, org_id))), Some(org_id));
        }
    }
}

#[test]
fn service_name_of_a_negative_org_names_another() {
    assert_eq!(service_org_id(&gen_project_name(&project("web", -5))), Some(5));
    assert_eq!(service_org_id(&gen_project_name(&project("web", i32::MIN))), None);
}

#[test]
fn service_names_are_distinct() {
    assert_ne!(gen_project_name(&project("a-1", 2)), gen_project_name(&project("a", 12)));
    assert_ne!(gen_project_name(&project("a", 1)), gen_project_name(&project("b", 1)));
}

#[test]
fn deletion_requests() {
    let request = trigger_service_deletion(&config(), "we\"b\n");
    assert_eq!(request.url, "http://knative/delete");
    assert_eq!(request.body, "{\"name\":\"we\\\"b\\n\"}");
    let request = trigger_project_deletion(&config(), &project("web", 7));
    assert_eq!(request.url, "http://knative/delete");
    assert_eq!(request.body, "{\"name\":\"web-7\"}");
}

#[test]
fn rollout_with_credit_is_sent() {
    let (rollout, action) = trigger_project_rollout(project("web", 7));
    assert!(matches!(action, Action::FetchOrg { org_id: 7 }));
    let org = Org { id: 7, token_credit: 1 };
    let (rollout, progress) = rollout.step(&config(), Event::Org(Some(org)));
    match progress {
        Progress::Act(Action::Send(request)) => {
            assert_eq!(request.url, "http://knative/rollout");
            assert_eq!(request.body, ROLLOUT);
        }
        other => panic!("{other:?}"),
    }
    let (_, progress) = rollout.step(&config(), Event::Done);
    assert!(matches!(progress, Progress::Finished(())));
}

#[test]
fn rollout_without_credit_is_not_sent() {
    for org in [None, Some(Org { id: 7, token_credit: 0 }), Some(Org { id: 7, token_credit: -1 })] {
        let (rollout, _) = trigger_project_rollout(project("web", 7));
        let (_, progress) = rollout.step(&config(), Event::Org(org));
        assert!(matches!(progress, Progress::Finished(())));
    }
}

fn creation(record: &str) -> (ProjectCreation, String) {
    match project_create(serde_json::from_str(record).unwrap()) {
        (creation, Action::InsertProject { record }) => (creation, record.to_string()),
        (_, other) => panic!("{other:?}"),
    }
}

#[test]
fn created_project_runs_the_head() {
    let (_, record) = creation("{\"name\":\"web\",\"repo_revision\":\"old\"}");
    assert_eq!(record, "{\"name\":\"web\",\"repo_revision\":\"HEAD\"}");
    let (_, record) = creation("{\"name\":\"web\",\"org_id\":7}");
    assert_eq!(record, "{\"name\":\"web\",\"org_id\":7,\"repo_revision\":\"HEAD\"}");
    let (_, record) = creation("null");
    assert_eq!(record, "{\"repo_revision\":\"HEAD\"}");
}

#[test]
fn created_project_is_rolled_out_and_answered() {
    let (creation, _) = creation("{}");
    let inserted = Event::Project(Some(project("web", 7)));
    let (creation, progress) = creation.step(&config(), inserted);
    assert!(matches!(progress, Progress::Act(Action::FetchOrg { org_id: 7 })));
    let org = Org { id: 7, token_credit: 1 };
    let (creation, progress) = creation.step(&config(), Event::Org(Some(org)));
    match progress {
        Progress::Act(Action::Send(request)) => {
            assert_eq!(request.url, "http://knative/rollout");
            assert_eq!(request.body, ROLLOUT);
        }
        other => panic!("{other:?}"),
    }
    let (creation, progress) = creation.step(&config(), Event::Done);
    match progress {
        Progress::Finished(answer) => {
            assert_eq!(answer.id, 21);
            assert_eq!(answer.name, "web");
            assert_eq!(answer.org_id, 7);
            assert_eq!(answer.repo_revision, "abc");
        }
        other => panic!("{other:?}"),
    }
    assert!(matches!(creation, ProjectCreation::Ended));
}

#[test]
fn created_project_without_credit_is_answered() {
    let (creation, _) = creation("{}");
    let inserted = Event::Project(Some(project("web", 7)));
    let (creation, _) = creation.step(&config(), inserted);
    let (_, progress) = creation.step(&config(), Event::Org(None));
    assert!(matches!(progress, Progress::Finished(answer) if answer.id == 21));
}

#[test]
fn failed_creation_is_broken_off() {
    let (inserting, _) = creation("{}");
    let (ended, progress) = inserting.step(&config(), Event::Failed);
    assert!(matches!(progress, Progress::Failed));
    assert!(matches!(ended, ProjectCreation::Ended));
    let (creation, _) = creation("{}");
    let inserted = Event::Project(Some(project("web", 7)));
    let (creation, _) = creation.step(&config(), inserted);
    let org = Org { id: 7, token_credit: 1 };
    let (creation, _) = creation.step(&config(), Event::Org(Some(org)));
    let (ended, progress) = creation.step(&config(), Event::Failed);
    assert!(matches!(progress, Progress::Failed));
    assert!(matches!(ended, ProjectCreation::Ended));
}

#[test]
fn failed_rollout_is_broken_off() {
    let (rollout, _) = trigger_project_rollout(project("web", 7));
    let (rollout, progress) = rollout.step(&config(), Event::Failed);
    assert!(matches!(progress, Progress::Failed));
    assert_eq!(rollout.phase, RolloutPhase::Ended);
    let (rollout, _) = trigger_project_rollout(project("web", 7));
    let org = Org { id: 7, token_credit: 1 };
    let (rollout, _) = rollout.step(&config(), Event::Org(Some(org)));
    let (rollout, progress) = rollout.step(&config(), Event::Failed);
    assert!(matches!(progress, Progress::Failed));
    assert_eq!(rollout.phase, RolloutPhase::Ended);
}
