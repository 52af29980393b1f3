//! Rolling a project out, where its organisation has credit left.

use vstd::prelude::*;

use crate::config::Config;
use crate::effects::{Action, ActionView, Event, EventView, Progress, ProgressView};
use crate::org::{has_credit, is_org_token_credit_available, Org};
use crate::project::{rollout_of, rollout_request, Project, ProjectView};

verus! {

/// How far a rollout has come.
#[derive(Clone, Copy, Debug, PartialEq, Eq, Structural)]
pub enum RolloutPhase {
    /// The organisation is being looked up.
    LookingUp,
    /// The request is being sent.
    Sending,
    /// It has ended.
    Ended,
}

/// A rollout under way.
#[derive(Debug)]
pub struct Rollout {
    pub project: Project,
    pub phase: RolloutPhase,
}

/// What a rollout holds.
pub struct RolloutView {
    pub project: ProjectView,
    pub phase: RolloutPhase,
}

impl View for Rollout {
    type V = RolloutView;

    open spec fn view(&self) -> RolloutView {
        RolloutView { project: self.project@, phase: self.phase }
    }
}

impl RolloutView {
    /// Whether the rollout goes on with `event`.
    pub open spec fn awaits(self, event: EventView) -> bool {
        match self.phase {
            RolloutPhase::LookingUp => event is Org || event is Failed,
            RolloutPhase::Sending => event is Done || event is Failed,
            RolloutPhase::Ended => false,
        }
    }

    /// The rollout after `event`, and what comes next. Only an organisation with
    /// credit left gets its project rolled out.
    pub open spec fn next(self, svc: Seq<char>, event: EventView) -> (RolloutView, ProgressView<()>) {
        if event is Failed {
            (RolloutView { phase: RolloutPhase::Ended, ..self }, ProgressView::Failed)
        } else if self.phase is LookingUp && event is Org && has_credit(event->Org_0) {
            (
                RolloutView { phase: RolloutPhase::Sending, ..self },
                ProgressView::Act(ActionView::Send(rollout_request(svc, self.project))),
            )
        } else {
            (RolloutView { phase: RolloutPhase::Ended, ..self }, ProgressView::Finished(()))
        }
    }
}

/// Starts to roll a project out: first of all its organisation is looked up.
pub fn trigger_project_rollout(project: Project) -> (started: (Rollout, Action))
    ensures
        started.0@ == (RolloutView { project: project@, phase: RolloutPhase::LookingUp }),
        started.1@ == (ActionView::FetchOrg { org_id: project@.org_id }),
{
    let org_id = project.org_id;
    (Rollout { project, phase: RolloutPhase::LookingUp }, Action::FetchOrg { org_id })
}

impl Rollout {
    /// Goes on with the answer to the last action.
    pub fn step(self, config: &Config, event: Event) -> (stepped: (Rollout, Progress<()>))
        requires
            self@.awaits(event@),
        ensures
            (stepped.0@, stepped.1@) == self@.next(config.knative_serving_svc@, event@),
    {
        let project = self.project;
        match event {
            Event::Failed => (Rollout { project, phase: RolloutPhase::Ended }, Progress::Failed),
            Event::Org(org) => {
                if is_org_token_credit_available(org) {
                    let request = rollout_of(config, &project);
                    (
                        Rollout { project, phase: RolloutPhase::Sending },
                        Progress::Act(Action::Send(request)),
                    )
                } else {
                    (Rollout { project, phase: RolloutPhase::Ended }, Progress::Finished(()))
                }
            },
            _ => (Rollout { project, phase: RolloutPhase::Ended }, Progress::Finished(())),
        }
    }
}

/// A project is rolled out if and only if the lookup found its organisation with
/// credit left.
pub proof fn law_rollout_iff_credit(svc: Seq<char>, project: ProjectView, org: Option<Org>)
    ensures
        ({
            let rollout = RolloutView { project, phase: RolloutPhase::LookingUp };
            let progress = rollout.next(svc, EventView::Org(org)).1;
            if org is Some && org->0.token_credit > 0 {
                progress == ProgressView::<()>::Act(
                    ActionView::Send(rollout_request(svc, project)),
                )
            } else {
                progress == ProgressView::Finished(())
            }
        }),
{
}

/// A rollout that an action fails in is broken off: nothing more is asked for.
pub proof fn law_failure_breaks_rollout_off(svc: Seq<char>, rollout: RolloutView, event: EventView)
    ensures
        rollout.next(svc, EventView::Failed).1 == ProgressView::<()>::Failed,
        !rollout.next(svc, EventView::Failed).0.awaits(event),
{
}

/// A rollout goes on with exactly the events that answer what it asked for, from its start
/// on and after each step.
pub proof fn law_rollout_awaits_answers(
    svc: Seq<char>,
    project: ProjectView,
    rollout: RolloutView,
    event: EventView,
    answer: EventView,
)
    ensures
        ({
            let start = RolloutView { project, phase: RolloutPhase::LookingUp };
            let asked = ActionView::FetchOrg { org_id: project.org_id };
            start.awaits(answer) == asked.is_answered_by(answer)
        }),
        rollout.next(svc, event).0.awaits(answer) == rollout.next(svc, event).1.is_answered_by(
            answer,
        ),
{
}

/// What a rollout sends hangs on the credit that the lookup found, by its number: with one
/// token or more the request for that very project goes out, and with none, with a debt, or
/// without an organisation the rollout finishes and nothing is sent.
pub proof fn law_rollout_goes_by_the_credit(svc: Seq<char>, project: ProjectView, id: i32, credit: i32)
    ensures
        ({
            let rollout = RolloutView { project, phase: RolloutPhase::LookingUp };
            let found = rollout.next(svc, EventView::Org(Some(Org { id, token_credit: credit })));
            let missing = rollout.next(svc, EventView::Org(None));
            &&& credit >= 1 <==> found.1 is Act
            &&& credit <= 0 <==> found.1 == ProgressView::Finished(())
            &&& credit >= 1 ==> found.1->Act_0 == ActionView::Send(rollout_request(svc, project))
            &&& credit >= 1 ==> found.0.next(svc, EventView::Done).1 == ProgressView::Finished(())
            &&& missing.1 == ProgressView::Finished(())
        }),
{
}

} // verus!
