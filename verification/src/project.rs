//! Projects, the services they run as, and the requests that roll a service out
//! or delete it.

use vstd::prelude::*;

use crate::config::Config;
use crate::effects::{Action, ActionView, Event, EventView, Progress, ProgressView};
use crate::json::{empty_object, json, json_text, set_member, string_value, text_of, Json};
use crate::org::{has_credit, Org};
use crate::rollout::{trigger_project_rollout, Rollout, RolloutPhase, RolloutView};
use crate::text::{
    chars_of, decimal, decimal_text, i32_value, law_decimal_reads_back, law_decimal_writes_number,
    lemma_digits, read_i32,
};

verus! {

/// A project: a repository that an organisation runs as a service.
#[derive(Debug)]
pub struct Project {
    /// The key of its record.
    pub id: i32,
    pub name: String,
    pub org_id: i32,
    pub repo_clone_url: String,
    pub repo_owner: String,
    pub repo_name: String,
    pub repo_revision: String,
}

/// What a project holds.
pub struct ProjectView {
    pub id: i32,
    pub name: Seq<char>,
    pub org_id: i32,
    pub repo_clone_url: Seq<char>,
    pub repo_owner: Seq<char>,
    pub repo_name: Seq<char>,
    pub repo_revision: Seq<char>,
}

impl View for Project {
    type V = ProjectView;

    open spec fn view(&self) -> ProjectView {
        ProjectView {
            id: self.id,
            name: self.name@,
            org_id: self.org_id,
            repo_clone_url: self.repo_clone_url@,
            repo_owner: self.repo_owner@,
            repo_name: self.repo_name@,
            repo_revision: self.repo_revision@,
        }
    }
}

/// What the projects of a list hold.
pub open spec fn project_views(projects: Seq<Project>) -> Seq<ProjectView> {
    projects.map_values(|project: Project| project@)
}

/// A request to the service that rolls projects out and deletes them.
#[derive(Debug)]
pub struct Request {
    pub url: String,
    pub body: String,
}

/// What a request holds.
pub struct RequestView {
    pub url: Seq<char>,
    pub body: Seq<char>,
}

impl View for Request {
    type V = RequestView;

    open spec fn view(&self) -> RequestView {
        RequestView { url: self.url@, body: self.body@ }
    }
}

/// The name of the service that a project runs as: the name of the project, a
/// dash, and the id of its organisation.
pub open spec fn service_name(project: ProjectView) -> Seq<char> {
    project.name + seq!['-'] + decimal(project.org_id as int)
}

/// The position of the last dash in `name`, or -1.
pub open spec fn last_dash(name: Seq<char>) -> int
    decreases name.len(),
{
    if name.len() == 0 {
        -1
    } else if name.last() == '-' {
        name.len() - 1
    } else {
        last_dash(name.drop_last())
    }
}

/// The organisation that a service belongs to: the number behind the last dash of
/// its name.
pub open spec fn service_org(name: Seq<char>) -> Option<i32> {
    if last_dash(name) < 0 {
        None
    } else {
        i32_value(name.skip(last_dash(name) + 1))
    }
}

/// The body of the request to roll a project out.
pub open spec fn rollout_body(project: ProjectView) -> Json {
    Json::Object(
        map![
            "name"@ => Json::Text(service_name(project)),
            "repo"@ => Json::Text(project.repo_clone_url),
            "repo-owner"@ => Json::Text(project.repo_owner),
            "repo-name"@ => Json::Text(project.repo_name),
            "revision"@ => Json::Text(project.repo_revision),
        ],
    )
}

/// The request to roll a project out, where `svc` is the address that serves it.
pub open spec fn rollout_request(svc: Seq<char>, project: ProjectView) -> RequestView {
    RequestView { url: svc + "/rollout"@, body: json_text(rollout_body(project)) }
}

/// The request to delete the service called `name`, where `svc` is the address that
/// serves it.
pub open spec fn deletion_request(svc: Seq<char>, name: Seq<char>) -> RequestView {
    RequestView {
        url: svc + "/delete"@,
        body: json_text(Json::Object(map!["name"@ => Json::Text(name)])),
    }
}

/// The name of the service that a project runs as.
pub fn gen_project_name(project: &Project) -> (name: String)
    ensures
        name@ == service_name(project@),
{
    let mut name = project.name.clone();
    name.append("-");
    proof {
        reveal_strlit("-");
    }
    let org_id = decimal_text(project.org_id as i64);
    name.append(org_id.as_str());
    name
}

/// Reads the organisation that a service belongs to off the service's name. There
/// is none where the name has no dash, or no number of 32 bits behind the last one.
pub fn service_org_id(name: &str) -> (org_id: Option<i32>)
    ensures
        org_id == service_org(name@),
{
    let chars = chars_of(name);
    let mut end: usize = chars.len();
    assert(name@.take(end as int) == name@);
    while end > 0 && chars[end - 1] != '-'
        invariant
            end <= chars.len(),
            chars@ == name@,
            last_dash(name@) == last_dash(name@.take(end as int)),
        decreases end,
    {
        assert(name@.take(end as int).drop_last() == name@.take(end - 1));
        end -= 1;
    }
    if end == 0 {
        None
    } else {
        assert(name@.take(end as int).last() == '-');
        read_i32(&chars, end)
    }
}

/// The request to roll a project out.
pub(crate) fn rollout_of(config: &Config, project: &Project) -> (request: Request)
    ensures
        request@ == rollout_request(config.knative_serving_svc@, project@),
{
    let mut url = config.knative_serving_svc.clone();
    url.append("/rollout");
    let mut body = empty_object();
    let name = gen_project_name(project);
    set_member(&mut body, "name", string_value(name.as_str()));
    set_member(&mut body, "repo", string_value(project.repo_clone_url.as_str()));
    set_member(&mut body, "repo-owner", string_value(project.repo_owner.as_str()));
    set_member(&mut body, "repo-name", string_value(project.repo_name.as_str()));
    set_member(&mut body, "revision", string_value(project.repo_revision.as_str()));
    assert(json(body) == rollout_body(project@));
    Request { url, body: text_of(&body) }
}

/// The request to delete the service called `name`.
pub fn trigger_service_deletion(config: &Config, name: &str) -> (request: Request)
    ensures
        request@ == deletion_request(config.knative_serving_svc@, name@),
{
    let mut url = config.knative_serving_svc.clone();
    url.append("/delete");
    let mut body = empty_object();
    set_member(&mut body, "name", string_value(name));
    Request { url, body: text_of(&body) }
}

/// The request to delete the service that a project runs as.
pub fn trigger_project_deletion(config: &Config, project: &Project) -> (request: Request)
    ensures
        request@ == deletion_request(config.knative_serving_svc@, service_name(project@)),
{
    let name = gen_project_name(project);
    trigger_service_deletion(config, name.as_str())
}

/// A project being created.
#[derive(Debug)]
pub enum ProjectCreation {
    /// Its record is being inserted.
    Inserting,
    /// It is being rolled out.
    RollingOut(Rollout),
    /// It has ended.
    Ended,
}

/// What the creation of a project holds.
pub enum ProjectCreationView {
    Inserting,
    RollingOut(RolloutView),
    Ended,
}

impl View for ProjectCreation {
    type V = ProjectCreationView;

    open spec fn view(&self) -> ProjectCreationView {
        match self {
            ProjectCreation::Inserting => ProjectCreationView::Inserting,
            ProjectCreation::RollingOut(rollout) => ProjectCreationView::RollingOut(rollout@),
            ProjectCreation::Ended => ProjectCreationView::Ended,
        }
    }
}

impl ProjectCreationView {
    /// Whether the creation goes on with `event`.
    pub open spec fn awaits(self, event: EventView) -> bool {
        match self {
            ProjectCreationView::Inserting => {
                ||| event is Project && event->Project_0 is Some
                ||| event is Failed
            },
            ProjectCreationView::RollingOut(rollout) => rollout.awaits(event),
            ProjectCreationView::Ended => false,
        }
    }

    /// The creation after `event`, and what comes next: the project that was inserted is
    /// rolled out, and is answered then.
    pub open spec fn next(self, svc: Seq<char>, event: EventView) -> (
        ProjectCreationView,
        ProgressView<ProjectView>,
    ) {
        match (self, event) {
            (ProjectCreationView::Inserting, EventView::Project(Some(project))) => (
                ProjectCreationView::RollingOut(
                    RolloutView { project, phase: RolloutPhase::LookingUp },
                ),
                ProgressView::Act(ActionView::FetchOrg { org_id: project.org_id }),
            ),
            (ProjectCreationView::RollingOut(rollout), _) => match rollout.next(svc, event) {
                (rollout, ProgressView::Act(action)) => (
                    ProjectCreationView::RollingOut(rollout),
                    ProgressView::Act(action),
                ),
                (rollout, ProgressView::Finished(_)) => (
                    ProjectCreationView::Ended,
                    ProgressView::Finished(rollout.project),
                ),
                (_, ProgressView::Failed) => (ProjectCreationView::Ended, ProgressView::Failed),
            },
            _ => (ProjectCreationView::Ended, ProgressView::Failed),
        }
    }

    /// The answers to `events`, one after the other.
    pub open spec fn run(self, svc: Seq<char>, events: Seq<EventView>) -> Seq<
        ProgressView<ProjectView>,
    >
        decreases events.len(),
    {
        if events.len() == 0 {
            Seq::empty()
        } else {
            let (then, progress) = self.next(svc, events.first());
            seq![progress] + then.run(svc, events.drop_first())
        }
    }

    /// Whether the creation goes on with each of `events`, one after the other.
    pub open spec fn awaits_all(self, svc: Seq<char>, events: Seq<EventView>) -> bool
        decreases events.len(),
    {
        events.len() == 0 || {
            &&& self.awaits(events.first())
            &&& self.next(svc, events.first()).0.awaits_all(svc, events.drop_first())
        }
    }
}

/// The record that is inserted for a project, where `record` was asked for: the revision to
/// run is always the head of the repository, whatever the record says.
pub open spec fn project_record(record: Json) -> Json {
    record.with_member("repo_revision"@, Json::Text("HEAD"@))
}

/// Starts to create a project from a record: the completed record is inserted.
///
/// The record has to be one that members can be set on (see
/// [`takes_members`](crate::json::takes_members)).
pub fn project_create(record: serde_json::Value) -> (started: (ProjectCreation, Action))
    requires
        json(record).takes_members(),
    ensures
        started.0@ == ProjectCreationView::Inserting,
        started.1@ == (ActionView::InsertProject { record: project_record(json(record)) }),
{
    let mut record = record;
    set_member(&mut record, "repo_revision", string_value("HEAD"));
    (ProjectCreation::Inserting, Action::InsertProject { record })
}

impl ProjectCreation {
    /// Goes on with the answer to the last action.
    pub fn step(self, config: &Config, event: Event) -> (stepped: (
        ProjectCreation,
        Progress<Project>,
    ))
        requires
            self@.awaits(event@),
        ensures
            (stepped.0@, stepped.1@) == self@.next(config.knative_serving_svc@, event@),
    {
        match (self, event) {
            (ProjectCreation::Inserting, Event::Project(Some(project))) => {
                let (rollout, action) = trigger_project_rollout(project);
                (ProjectCreation::RollingOut(rollout), Progress::Act(action))
            },
            (ProjectCreation::RollingOut(rollout), event) => {
                let (rollout, progress) = rollout.step(config, event);
                match progress {
                    Progress::Act(action) => (
                        ProjectCreation::RollingOut(rollout),
                        Progress::Act(action),
                    ),
                    Progress::Finished(_) => (
                        ProjectCreation::Ended,
                        Progress::Finished(rollout.project),
                    ),
                    Progress::Failed => (ProjectCreation::Ended, Progress::Failed),
                }
            },
            _ => (ProjectCreation::Ended, Progress::Failed),
        }
    }
}

/// The record of a created project runs the head of its repository, and says for the rest
/// what was asked for.
pub proof fn law_created_project_runs_the_head(record: Json, key: Seq<char>)
    ensures
        project_record(record) is Object,
        project_record(record).member("repo_revision"@) == Json::Text("HEAD"@),
        key != "repo_revision"@ ==> project_record(record).member(key) == record.member(key),
{
}

/// The project that was inserted is the one that is rolled out, if its organisation has
/// credit left, and the one that is answered.
pub proof fn law_created_project_is_rolled_out(
    svc: Seq<char>,
    inserted: ProjectView,
    org: Option<Org>,
)
    ensures
        ({
            let creation = ProjectCreationView::Inserting;
            let lookups = seq![EventView::Project(Some(inserted)), EventView::Org(org)];
            let lookup = ProgressView::Act(ActionView::FetchOrg { org_id: inserted.org_id });
            let rollout = ProgressView::Act(ActionView::Send(rollout_request(svc, inserted)));
            let answer = ProgressView::Finished(inserted);
            if org is Some && org->0.token_credit > 0 {
                &&& creation.awaits_all(svc, lookups.push(EventView::Done))
                &&& creation.run(svc, lookups.push(EventView::Done)) == seq![
                    lookup,
                    rollout,
                    answer,
                ]
            } else {
                &&& creation.awaits_all(svc, lookups)
                &&& creation.run(svc, lookups) == seq![lookup, answer]
            }
        }),
{
    reveal_with_fuel(ProjectCreationView::run, 4);
    reveal_with_fuel(ProjectCreationView::awaits_all, 4);
    let lookups = seq![EventView::Project(Some(inserted)), EventView::Org(org)];
    let events = if has_credit(org) {
        lookups.push(EventView::Done)
    } else {
        lookups
    };
    assert(events.drop_first().first() == EventView::Org(org));
}

/// Where the rollout of an inserted project fails, the creation fails and nothing more is
/// asked for: the record that was inserted stays.
pub proof fn law_failed_rollout_keeps_the_record(
    svc: Seq<char>,
    inserted: ProjectView,
    org: Org,
)
    requires
        org.token_credit > 0,
    ensures
        ({
            let creation = ProjectCreationView::Inserting;
            let events = seq![
                EventView::Project(Some(inserted)),
                EventView::Org(Some(org)),
                EventView::Failed,
            ];
            &&& creation.awaits_all(svc, events)
            &&& creation.run(svc, events) == seq![
                ProgressView::<ProjectView>::Act(ActionView::FetchOrg { org_id: inserted.org_id }),
                ProgressView::Act(ActionView::Send(rollout_request(svc, inserted))),
                ProgressView::Failed,
            ]
        }),
{
    reveal_with_fuel(ProjectCreationView::run, 4);
    reveal_with_fuel(ProjectCreationView::awaits_all, 4);
    let events = seq![
        EventView::Project(Some(inserted)),
        EventView::Org(Some(org)),
        EventView::Failed,
    ];
    assert(events.drop_first().first() == EventView::Org(Some(org)));
    assert(events.drop_first().drop_first().first() == EventView::Failed);
}

/// The creation of a project that an action fails in is broken off: nothing more is asked
/// for, so that a project that could not be inserted is not rolled out.
pub proof fn law_failure_breaks_creation_off(
    svc: Seq<char>,
    creation: ProjectCreationView,
    event: EventView,
)
    ensures
        creation.next(svc, EventView::Failed).1 == ProgressView::<ProjectView>::Failed,
        !creation.next(svc, EventView::Failed).0.awaits(event),
{
}

/// The creation of a project goes on with exactly the events that answer what it asked
/// for, from its start on and after each step.
pub proof fn law_creation_awaits_answers(
    svc: Seq<char>,
    record: Json,
    creation: ProjectCreationView,
    event: EventView,
    answer: EventView,
)
    ensures
        ({
            let asked = ActionView::InsertProject { record: project_record(record) };
            ProjectCreationView::Inserting.awaits(answer) == asked.is_answered_by(answer)
        }),
        creation.next(svc, event).0.awaits(answer) == creation.next(svc, event).1.is_answered_by(
            answer,
        ),
{
}

/// The last dash of a text that ends in a dash and a tail without one.
proof fn lemma_last_dash(head: Seq<char>, tail: Seq<char>)
    requires
        forall|i: int| 0 <= i < tail.len() ==> #[trigger] tail[i] != '-',
    ensures
        last_dash(head + seq!['-'] + tail) == head.len(),
    decreases tail.len(),
{
    let name = head + seq!['-'] + tail;
    if tail.len() == 0 {
        assert(name == head.push('-'));
    } else {
        let shorter = tail.drop_last();
        assert forall|i: int| 0 <= i < shorter.len() implies #[trigger] shorter[i] != '-' by {
            assert(shorter[i] == tail[i]);
        }
        lemma_last_dash(head, shorter);
        assert(name.last() == tail[tail.len() - 1]);
        assert(name.drop_last() == head + seq!['-'] + shorter);
    }
}

/// A service is billed to the organisation of the project that runs as it: the
/// organisation's id reads back from what stands behind the last dash of the service's
/// name, and what stands before it is the name of the project.
pub proof fn law_service_name_names_org(project: ProjectView)
    requires
        project.org_id >= 0,
    ensures
        service_org(service_name(project)) == Some(project.org_id),
        service_name(project).take(last_dash(service_name(project))) == project.name,
{
    let tail = decimal(project.org_id as int);
    lemma_digits(project.org_id as nat);
    lemma_last_dash(project.name, tail);
    assert(service_name(project).skip(project.name.len() as int + 1) == tail);
    law_decimal_reads_back(project.org_id);
}

/// Two projects run as the same service only where both their names and their
/// organisations are the same.
pub proof fn law_service_names_are_distinct(a: ProjectView, b: ProjectView)
    requires
        a.org_id >= 0,
        b.org_id >= 0,
        service_name(a) == service_name(b),
    ensures
        a.name == b.name,
        a.org_id == b.org_id,
{
    law_service_name_names_org(a);
    law_service_name_names_org(b);
}

/// The service of a project is named by the project, a dash, and a text that reads as the
/// id of its organisation, whatever the id is.
pub proof fn law_service_name_is_put_together(project: ProjectView)
    ensures
        ({
            let name = service_name(project);
            let dash = project.name.len() as int;
            &&& name.len() > dash + 1
            &&& name.take(dash) == project.name
            &&& name[dash] == '-'
            &&& i32_value(name.skip(dash + 1)) == Some(project.org_id)
        }),
{
    let name = service_name(project);
    let dash = project.name.len() as int;
    let tail = decimal(project.org_id as int);
    law_decimal_reads_back(project.org_id);
    law_decimal_writes_number(project.org_id as int);
    assert(name.take(dash) =~= project.name);
    assert(name.skip(dash + 1) =~= tail);
}

/// The organisation of a service is the number behind the last dash of the service's name,
/// whatever stands before that dash.
pub proof fn law_org_stands_behind_the_last_dash(head: Seq<char>, tail: Seq<char>)
    requires
        forall|i: int| 0 <= i < tail.len() ==> #[trigger] tail[i] != '-',
    ensures
        service_org(head + seq!['-'] + tail) == i32_value(tail),
        service_org(tail) is None,
    decreases tail.len(),
{
    lemma_last_dash(head, tail);
    assert((head + seq!['-'] + tail).skip(head.len() as int + 1) =~= tail);
    lemma_no_dash(tail);
}

proof fn lemma_no_dash(name: Seq<char>)
    requires
        forall|i: int| 0 <= i < name.len() ==> #[trigger] name[i] != '-',
    ensures
        last_dash(name) == -1,
    decreases name.len(),
{
    if name.len() > 0 {
        let shorter = name.drop_last();
        assert forall|i: int| 0 <= i < shorter.len() implies #[trigger] shorter[i] != '-' by {
            assert(shorter[i] == name[i]);
        }
        lemma_no_dash(shorter);
        assert(name[name.len() - 1] != '-');
    }
}

/// The request to roll a project out goes to `/rollout` and tells the name of the service,
/// which is the project's name, a dash and its organisation, and of the repository where it
/// is, whose it is, what it is called and the revision to run; nothing else. Hands back
/// what the body holds.
pub proof fn law_rollout_request_tells_the_project(svc: Seq<char>, project: ProjectView) -> (body:
    Json)
    ensures
        rollout_request(svc, project).url == svc + "/rollout"@,
        rollout_request(svc, project).body == json_text(body),
        body is Object,
        body.member("name"@) == Json::Text(
            project.name + seq!['-'] + decimal(project.org_id as int),
        ),
        body.member("repo"@) == Json::Text(project.repo_clone_url),
        body.member("repo-owner"@) == Json::Text(project.repo_owner),
        body.member("repo-name"@) == Json::Text(project.repo_name),
        body.member("revision"@) == Json::Text(project.repo_revision),
        forall|key: Seq<char>| #[trigger]
            body.members().contains_key(key) ==> key == "name"@ || key == "repo"@ || key
                == "repo-owner"@ || key == "repo-name"@ || key == "revision"@,
{
    reveal_strlit("name");
    reveal_strlit("repo");
    reveal_strlit("repo-owner");
    reveal_strlit("repo-name");
    reveal_strlit("revision");
    assert("name"@[0] != "repo"@[0]);
    assert("name"@.len() == 4 && "repo"@.len() == 4);
    assert("repo-owner"@.len() == 10 && "repo-name"@.len() == 9 && "revision"@.len() == 8);
    rollout_body(project)
}

/// The request to delete a service goes to `/delete` and tells the name of the service, and
/// nothing else. Hands back what the body holds.
pub proof fn law_deletion_request_tells_the_service(svc: Seq<char>, name: Seq<char>) -> (body: Json)
    ensures
        deletion_request(svc, name).url == svc + "/delete"@,
        deletion_request(svc, name).body == json_text(body),
        body is Object,
        body.member("name"@) == Json::Text(name),
        forall|key: Seq<char>| #[trigger] body.members().contains_key(key) ==> key == "name"@,
{
    Json::Object(map!["name"@ => Json::Text(name)])
}

/// What is stated of the projects of a list is stated of each as it is, in their order.
pub proof fn law_projects_are_taken_as_they_are(projects: Seq<Project>)
    ensures
        project_views(projects).len() == projects.len(),
        forall|i: int|
            0 <= i < projects.len() ==> {
                let project = #[trigger] projects[i];
                let taken = project_views(projects)[i];
                &&& taken.id == project.id
                &&& taken.name == project.name@
                &&& taken.org_id == project.org_id
                &&& taken.repo_clone_url == project.repo_clone_url@
                &&& taken.repo_owner == project.repo_owner@
                &&& taken.repo_name == project.repo_name@
                &&& taken.repo_revision == project.repo_revision@
            },
{
    assert forall|i: int| 0 <= i < projects.len() implies project_views(projects)[i] == (
    #[trigger] projects[i])@ by {}
}

} // verus!
