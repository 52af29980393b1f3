//! What a decision asks of the world, and what the world answers.
//!
//! A process that takes several steps (rolling a project out, updating a credit,
//! billing) hands out one [`Action`] at a time and goes on with the [`Event`] that
//! answers it. Where an action fails, the process is broken off: it asks for nothing
//! more, and takes nothing back.

use vstd::prelude::*;

use crate::billing::MetricKind;
use crate::json::{json, Json};
use crate::org::Org;
use crate::project::{project_views, Project, ProjectView, Request, RequestView};

verus! {

/// Something to be done outside.
#[derive(Debug)]
pub enum Action {
    /// Set the credit of an organisation to the value of an expression over its
    /// columns, and hand back the organisation as it is then.
    UpdateCredit { org_id: i32, expression: String },
    /// Look an organisation up.
    FetchOrg { org_id: i32 },
    /// List the projects of an organisation.
    FetchProjects { org_id: i32 },
    /// Look the project of a repository up.
    FindProject { repo_owner: String, repo_name: String },
    /// Insert the record of a new project, and hand back the project that it makes.
    InsertProject { record: serde_json::Value },
    /// Set the revision of a project, given by the key of its record, and hand back
    /// the project as it is then.
    SetRevision { project_id: i32, revision: String },
    /// Delete the record of an organisation.
    DeleteOrg { org_id: i32 },
    /// Send a request.
    Send(Request),
    /// Price a usage at the rate of its kind: `usage` was metered and `stashed` is left
    /// over from before. Both are the bits of a binary64 number.
    Price { kind: MetricKind, usage: u64, stashed: u64 },
}

/// What an action holds.
pub enum ActionView {
    UpdateCredit { org_id: i32, expression: Seq<char> },
    FetchOrg { org_id: i32 },
    FetchProjects { org_id: i32 },
    FindProject { repo_owner: Seq<char>, repo_name: Seq<char> },
    InsertProject { record: Json },
    SetRevision { project_id: i32, revision: Seq<char> },
    DeleteOrg { org_id: i32 },
    Send(RequestView),
    Price { kind: MetricKind, usage: u64, stashed: u64 },
}

impl View for Action {
    type V = ActionView;

    open spec fn view(&self) -> ActionView {
        match self {
            Action::UpdateCredit { org_id, expression } => ActionView::UpdateCredit {
                org_id: *org_id,
                expression: expression@,
            },
            Action::FetchOrg { org_id } => ActionView::FetchOrg { org_id: *org_id },
            Action::FetchProjects { org_id } => ActionView::FetchProjects { org_id: *org_id },
            Action::FindProject { repo_owner, repo_name } => ActionView::FindProject {
                repo_owner: repo_owner@,
                repo_name: repo_name@,
            },
            Action::InsertProject { record } => ActionView::InsertProject { record: json(*record) },
            Action::SetRevision { project_id, revision } => ActionView::SetRevision {
                project_id: *project_id,
                revision: revision@,
            },
            Action::DeleteOrg { org_id } => ActionView::DeleteOrg { org_id: *org_id },
            Action::Send(request) => ActionView::Send(request@),
            Action::Price { kind, usage, stashed } => ActionView::Price {
                kind: *kind,
                usage: *usage,
                stashed: *stashed,
            },
        }
    }
}

impl ActionView {
    /// Whether `event` is what answers the action: what it asks for, or that it failed.
    pub open spec fn is_answered_by(self, event: EventView) -> bool {
        event is Failed || match self {
            ActionView::UpdateCredit { .. } => event is Org,
            ActionView::FetchOrg { .. } => event is Org,
            ActionView::FetchProjects { .. } => event is Projects,
            ActionView::FindProject { .. } => event is Project,
            ActionView::InsertProject { .. } => event is Project && event->Project_0 is Some,
            ActionView::SetRevision { .. } => event is Project && event->Project_0 is Some,
            ActionView::DeleteOrg { .. } => event is Done,
            ActionView::Send(_) => event is Done,
            ActionView::Price { .. } => event is Priced,
        }
    }
}

/// The price of a usage.
#[derive(Clone, Copy, Debug, PartialEq, Eq, Structural)]
pub struct Charge {
    /// The whole tokens that the usage costs, as far as they fit.
    pub used_token: u64,
    /// What remains unbilled: the bits of a binary64 number.
    pub stashed: u64,
}

/// The answer to an action.
#[derive(Debug)]
pub enum Event {
    /// The organisation, where there is one.
    Org(Option<Org>),
    /// The projects of an organisation.
    Projects(Vec<Project>),
    /// The project, where there is one.
    Project(Option<Project>),
    /// The price of a usage.
    Priced(Charge),
    /// It is done.
    Done,
    /// It could not be done, or not be answered.
    Failed,
}

/// What an event holds.
pub enum EventView {
    Org(Option<Org>),
    Projects(Seq<ProjectView>),
    Project(Option<ProjectView>),
    Priced(Charge),
    Done,
    Failed,
}

impl View for Event {
    type V = EventView;

    open spec fn view(&self) -> EventView {
        match self {
            Event::Org(org) => EventView::Org(*org),
            Event::Projects(projects) => EventView::Projects(project_views(projects@)),
            Event::Project(Some(project)) => EventView::Project(Some(project@)),
            Event::Project(None) => EventView::Project(None),
            Event::Priced(charge) => EventView::Priced(*charge),
            Event::Done => EventView::Done,
            Event::Failed => EventView::Failed,
        }
    }
}

/// How far a process has come.
#[derive(Debug)]
pub enum Progress<T> {
    /// It goes on when this is done.
    Act(Action),
    /// It has come to its end.
    Finished(T),
    /// It was broken off, as an action failed.
    Failed,
}

/// What a progress holds.
pub enum ProgressView<T> {
    Act(ActionView),
    Finished(T),
    Failed,
}

impl<T: View> View for Progress<T> {
    type V = ProgressView<T::V>;

    open spec fn view(&self) -> ProgressView<T::V> {
        match self {
            Progress::Act(action) => ProgressView::Act(action@),
            Progress::Finished(result) => ProgressView::Finished(result@),
            Progress::Failed => ProgressView::Failed,
        }
    }
}

impl<T> ProgressView<T> {
    /// Whether the process goes on with `event`: it answers the action asked for.
    pub open spec fn is_answered_by(self, event: EventView) -> bool {
        self is Act && self->Act_0.is_answered_by(event)
    }
}

/// What is stated of an action is stated of it as it is handed out: what it is to be done
/// to, and with what.
pub proof fn law_actions_are_taken_as_they_are(action: Action)
    ensures
        match action {
            Action::UpdateCredit { org_id, expression } => {
                &&& action@ is UpdateCredit
                &&& action@->UpdateCredit_org_id == org_id
                &&& action@->expression == expression@
            },
            Action::FetchOrg { org_id } => action@ is FetchOrg && action@->FetchOrg_org_id == org_id,
            Action::FetchProjects { org_id } => {
                &&& action@ is FetchProjects
                &&& action@->FetchProjects_org_id == org_id
            },
            Action::FindProject { repo_owner, repo_name } => {
                &&& action@ is FindProject
                &&& action@->repo_owner == repo_owner@
                &&& action@->repo_name == repo_name@
            },
            Action::InsertProject { record } => {
                &&& action@ is InsertProject
                &&& action@->record == json(record)
            },
            Action::SetRevision { project_id, revision } => {
                &&& action@ is SetRevision
                &&& action@->project_id == project_id
                &&& action@->revision == revision@
            },
            Action::DeleteOrg { org_id } => {
                &&& action@ is DeleteOrg
                &&& action@->DeleteOrg_org_id == org_id
            },
            Action::Send(request) => {
                &&& action@ is Send
                &&& action@->Send_0.url == request.url@
                &&& action@->Send_0.body == request.body@
            },
            Action::Price { kind, usage, stashed } => {
                &&& action@ is Price
                &&& action@->kind == kind
                &&& action@->usage == usage
                &&& action@->stashed == stashed
            },
        },
{
}

/// What is stated of an answer is stated of it as it came.
pub proof fn law_events_are_taken_as_they_are(event: Event)
    ensures
        match event {
            Event::Org(org) => event@ is Org && event@->Org_0 == org,
            Event::Projects(projects) => {
                &&& event@ is Projects
                &&& event@->Projects_0.len() == projects@.len()
                &&& forall|i: int|
                    0 <= i < projects@.len() ==> event@->Projects_0[i] == (
                    #[trigger] projects@[i])@
            },
            Event::Project(Some(project)) => {
                &&& event@ is Project
                &&& event@->Project_0 == Some(project@)
            },
            Event::Project(None) => event@ is Project && event@->Project_0 is None,
            Event::Priced(charge) => event@ is Priced && event@->Priced_0 == charge,
            Event::Done => event@ is Done,
            Event::Failed => event@ is Failed,
        },
{
}

/// A process goes on, comes to its end, or is broken off, as it says.
pub proof fn law_progress_is_taken_as_it_is<T: View>(progress: Progress<T>)
    ensures
        match progress {
            Progress::Act(action) => progress@ is Act && progress@->Act_0 == action@,
            Progress::Finished(result) => progress@ is Finished && progress@->Finished_0 == result@,
            Progress::Failed => progress@ is Failed,
        },
{
}

} // verus!
