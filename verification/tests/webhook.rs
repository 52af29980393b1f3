use billing_api::config::Config;
use billing_api::effects::{Action, Event, Progress};
use billing_api::org::Org;
use billing_api::project::Project;
use billing_api::webhook::{
    gh_hook_handler, kind_of_event, EventKind, GithubWebhookEvent, GithubWebhookEventRepository,
    GithubWebhookEventRepositoryOwner, Hook, HookReply,
};

fn config() -> Config {
    Config {
        port: 8080,
        prometheus_svc: "http://prometheus".to_owned(),
        database_url: "postgres://db".to_owned(),
        dev: false,
        knative_serving_svc: "http://knative".to_owned(),
        billing_interval: 60,
    }
}

fn event(head_ref: &str) -> GithubWebhookEvent {
    GithubWebhookEvent {
        after: "f00".to_owned(),
        head_ref: head_ref.to_owned(),
        repository: GithubWebhookEventRepository {
            name: "repo".to_owned(),
            default_branch: "main".to_owned(),
            owner: GithubWebhookEventRepositoryOwner { name: "ada".to_owned() },
        },
    }
}

fn project(revision: &str) -> Project {
    Project {
        id: 21,
        name: "web".to_owned(),
        org_id: 7,
        repo_clone_url: "url".to_owned(),
        repo_owner: "ada".to_owned(),
        repo_name: "repo".to_owned(),
        repo_revision: revision.to_owned(),
    }
}

fn reply(head_ref: &str, header: Option<&[u8]>) -> HookReply {
    match gh_hook_handler(event(head_ref), header).1 {
        Progress::Finished(reply) => reply,
        other => panic!("{other:?}"),
    }
}

#[test]
fn kinds_of_events() {
    assert_eq!(kind_of_event(None), EventKind::Missing);
    assert_eq!(kind_of_event(Some(b"push")), EventKind::Push);
    assert_eq!(kind_of_event(Some(b"Push")), EventKind::Unsupported);
    assert_eq!(kind_of_event(Some(b"push ")), EventKind::Unsupported);
    assert_eq!(kind_of_event(Some(b"")), EventKind::Unsupported);
    assert_eq!(kind_of_event(Some(b"a\tb")), EventKind::Unsupported);
    assert_eq!(kind_of_event(Some(b"\xff")), EventKind::Missing);
    assert_eq!(kind_of_event(Some(b"\x7f")), EventKind::Missing);
}

#[test]
fn other_branches_are_refused() {
    for head_ref in ["refs/heads/dev", "main", "refs/tags/main", "refs/heads/main2", ""] {
        assert_eq!(reply(head_ref, Some(b"push")), HookReply::NotDefaultBranch);
    }
    assert_eq!(HookReply::NotDefaultBranch.status(), 400);
    assert_eq!(HookReply::NotDefaultBranch.message(), "not default branch");
}

#[test]
fn other_events_are_refused() {
    assert_eq!(reply("refs/heads/main", Some(b"ping")), HookReply::UnsupportedEvent);
    assert_eq!(HookReply::UnsupportedEvent.status(), 400);
    assert_eq!(HookReply::UnsupportedEvent.message(), "event type not supported");
    assert_eq!(reply("refs/heads/main", None), HookReply::MissingEvent);
    assert_eq!(HookReply::MissingEvent.status(), 400);
    assert_eq!(HookReply::MissingEvent.message(), "missing event type");
}

#[test]
fn push_is_rolled_out() {
    let config = config();
    let (hook, progress) = gh_hook_handler(event("refs/heads/main"), Some(b"push"));
    match progress {
        Progress::Act(Action::FindProject { repo_owner, repo_name }) => {
            assert_eq!(repo_owner, "ada");
            assert_eq!(repo_name, "repo");
        }
        other => panic!("{other:?}"),
    }
    let (hook, progress) = hook.step(&config, Event::Project(Some(project("old"))));
    match progress {
        Progress::Act(Action::SetRevision { project_id, revision }) => {
            assert_eq!(project_id, 21);
            assert_eq!(revision, "f00");
        }
        other => panic!("{other:?}"),
    }
    let (hook, progress) = hook.step(&config, Event::Project(Some(project("f00"))));
    assert!(matches!(progress, Progress::Act(Action::FetchOrg { org_id: 7 })));
    let org = Org { id: 7, token_credit: 3 };
    let (hook, progress) = hook.step(&config, Event::Org(Some(org)));
    match progress {
        Progress::Act(Action::Send(request)) => {
            assert_eq!(request.url, "http://knative/rollout");
            assert!(request.body.contains("\"revision\":\"f00\""));
        }
        other => panic!("{other:?}"),
    }
    let (_, progress) = hook.step(&config, Event::Done);
    assert!(matches!(progress, Progress::Finished(HookReply::Accepted)));
    assert_eq!(HookReply::Accepted.status(), 200);
    assert_eq!(HookReply::Accepted.message(), "ok");
}

#[test]
fn push_without_credit_is_accepted() {
    let config = config();
    let (hook, _) = gh_hook_handler(event("refs/heads/main"), Some(b"push"));
    let (hook, _) = hook.step(&config, Event::Project(Some(project("old"))));
    let (hook, _) = hook.step(&config, Event::Project(Some(project("f00"))));
    let (_, progress) = hook.step(&config, Event::Org(None));
    assert!(matches!(progress, Progress::Finished(HookReply::Accepted)));
}

#[test]
fn push_without_project_is_ignored() {
    let (hook, _) = gh_hook_handler(event("refs/heads/main"), Some(b"push"));
    let (_, progress) = hook.step(&config(), Event::Project(None));
    assert!(matches!(progress, Progress::Finished(HookReply::Accepted)));
}

#[test]
fn failed_update_of_the_revision_rolls_nothing_out() {
    let config = config();
    let (hook, _) = gh_hook_handler(event("refs/heads/main"), Some(b"push"));
    let (hook, _) = hook.step(&config, Event::Project(Some(project("old"))));
    let (hook, progress) = hook.step(&config, Event::Failed);
    assert!(matches!(progress, Progress::Failed));
    assert!(matches!(hook, Hook::Ended));
}

#[test]
fn failed_rollout_breaks_the_hook_off() {
    let config = config();
    let (hook, _) = gh_hook_handler(event("refs/heads/main"), Some(b"push"));
    let (hook, _) = hook.step(&config, Event::Project(Some(project("old"))));
    let (hook, _) = hook.step(&config, Event::Project(Some(project("f00"))));
    let (hook, progress) = hook.step(&config, Event::Failed);
    assert!(matches!(progress, Progress::Failed));
    assert!(matches!(hook, Hook::Ended));
}
