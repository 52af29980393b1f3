//! Changing the credit of an organisation, and what follows for its projects: they
//! are deleted when the credit is used up, and rolled out when it is filled up.

use vstd::prelude::*;

use crate::config::Config;
use crate::effects::{Action, ActionView, Event, EventView, Progress, ProgressView};
use crate::errors::AppError;
use crate::org::{has_credit, Org};
use crate::project::{
    deletion_request, project_views, rollout_request, service_name, trigger_project_deletion, Project,
    ProjectView,
};
use crate::rollout::{trigger_project_rollout, Rollout, RolloutPhase, RolloutView};
use crate::text::{
    decimal, decimal_text, i32_value, law_decimal_reads_back, law_decimal_writes_number,
};

verus! {

/// A change of a credit under way.
#[derive(Debug)]
pub enum CreditUpdate {
    /// The credit is being changed by `quantity`.
    Adding { quantity: i32 },
    /// The projects are being listed, to be rolled out or else to be deleted.
    Listing { org: Org, resume: bool },
    /// A project is being deleted, and `rest` is left to delete.
    Deleting { org: Org, rest: Vec<Project> },
    /// A project is being rolled out, and `rest` is left to roll out.
    RollingOut { org: Org, current: Rollout, rest: Vec<Project> },
    /// It has ended.
    Ended,
}

/// What a change of a credit holds.
pub enum CreditUpdateView {
    Adding { quantity: i32 },
    Listing { org: Org, resume: bool },
    Deleting { org: Org, rest: Seq<ProjectView> },
    RollingOut { org: Org, current: RolloutView, rest: Seq<ProjectView> },
    Ended,
}

impl View for CreditUpdate {
    type V = CreditUpdateView;

    open spec fn view(&self) -> CreditUpdateView {
        match self {
            CreditUpdate::Adding { quantity } => CreditUpdateView::Adding { quantity: *quantity },
            CreditUpdate::Listing { org, resume } => CreditUpdateView::Listing {
                org: *org,
                resume: *resume,
            },
            CreditUpdate::Deleting { org, rest } => CreditUpdateView::Deleting {
                org: *org,
                rest: project_views(rest@),
            },
            CreditUpdate::RollingOut { org, current, rest } => CreditUpdateView::RollingOut {
                org: *org,
                current: current@,
                rest: project_views(rest@),
            },
            CreditUpdate::Ended => CreditUpdateView::Ended,
        }
    }
}

/// A state of a change of a credit, and what comes next in it. At the end stands
/// the organisation as it is after the change, where there is one.
pub type CreditStep = (CreditUpdateView, ProgressView<Option<Org>>);

/// The end of the change.
pub open spec fn settled(org: Option<Org>) -> CreditStep {
    (CreditUpdateView::Ended, ProgressView::Finished(org))
}

/// The projects in `rest` are deleted one by one.
pub open spec fn deleting(svc: Seq<char>, org: Org, rest: Seq<ProjectView>) -> CreditStep {
    if rest.len() == 0 {
        settled(Some(org))
    } else {
        (
            CreditUpdateView::Deleting { org, rest: rest.drop_first() },
            ProgressView::Act(
                ActionView::Send(deletion_request(svc, service_name(rest.first()))),
            ),
        )
    }
}

/// The projects in `rest` are rolled out one by one.
pub open spec fn rolling_out(org: Org, rest: Seq<ProjectView>) -> CreditStep {
    if rest.len() == 0 {
        settled(Some(org))
    } else {
        (
            CreditUpdateView::RollingOut {
                org,
                current: RolloutView { project: rest.first(), phase: RolloutPhase::LookingUp },
                rest: rest.drop_first(),
            },
            ProgressView::Act(ActionView::FetchOrg { org_id: rest.first().org_id }),
        )
    }
}

impl CreditUpdateView {
    /// Whether the change goes on with `event`.
    pub open spec fn awaits(self, event: EventView) -> bool {
        match self {
            CreditUpdateView::Adding { .. } => event is Org || event is Failed,
            CreditUpdateView::Listing { .. } => event is Projects || event is Failed,
            CreditUpdateView::Deleting { .. } => event is Done || event is Failed,
            CreditUpdateView::RollingOut { current, .. } => current.awaits(event),
            CreditUpdateView::Ended => false,
        }
    }

    /// The change after `event`, and what comes next.
    ///
    /// Where the credit was reduced and nothing of it is left, the projects are
    /// deleted. Where it was raised they are listed, and rolled out if there is
    /// any credit.
    pub open spec fn next(self, svc: Seq<char>, event: EventView) -> CreditStep {
        match (self, event) {
            (_, EventView::Failed) => (CreditUpdateView::Ended, ProgressView::Failed),
            (CreditUpdateView::Adding { quantity }, EventView::Org(Some(org))) => if quantity < 0
                && org.token_credit >= 1 {
                settled(Some(org))
            } else {
                (
                    CreditUpdateView::Listing { org, resume: quantity >= 0 },
                    ProgressView::Act(ActionView::FetchProjects { org_id: org.id }),
                )
            },
            (CreditUpdateView::Listing { org, resume }, EventView::Projects(projects)) => if !resume {
                deleting(svc, org, projects)
            } else if org.token_credit > 0 {
                rolling_out(org, projects)
            } else {
                settled(Some(org))
            },
            (CreditUpdateView::Deleting { org, rest }, _) => deleting(svc, org, rest),
            (CreditUpdateView::RollingOut { org, current, rest }, _) => match current.next(svc, event) {
                (current, ProgressView::Act(action)) => (
                    CreditUpdateView::RollingOut { org, current, rest },
                    ProgressView::Act(action),
                ),
                (_, ProgressView::Finished(_)) => rolling_out(org, rest),
                (_, ProgressView::Failed) => (CreditUpdateView::Ended, ProgressView::Failed),
            },
            _ => settled(None),
        }
    }

    /// The answers to `events`, one after the other.
    pub open spec fn run(self, svc: Seq<char>, events: Seq<EventView>) -> Seq<
        ProgressView<Option<Org>>,
    >
        decreases events.len(),
    {
        if events.len() == 0 {
            Seq::empty()
        } else {
            let (then, progress) = self.next(svc, events.first());
            seq![progress] + then.run(svc, events.drop_first())
        }
    }

    /// Whether the change goes on with each of `events`, one after the other.
    pub open spec fn awaits_all(self, svc: Seq<char>, events: Seq<EventView>) -> bool
        decreases events.len(),
    {
        events.len() == 0 || {
            &&& self.awaits(events.first())
            &&& self.next(svc, events.first()).0.awaits_all(svc, events.drop_first())
        }
    }
}

/// The expression for a credit changed by `quantity`.
pub open spec fn credit_expression(quantity: i32) -> Seq<char> {
    "token_credit"@ + " + "@ + decimal(quantity as int)
}

/// Starts to change the credit of an organisation by `quantity`, which must not be
/// zero.
pub fn org_update_token_credit(id: i32, quantity: i32) -> (started: Result<
    (CreditUpdate, Action),
    AppError,
>)
    ensures
        match started {
            Ok((update, action)) => {
                &&& quantity != 0
                &&& update@ == CreditUpdateView::Adding { quantity }
                &&& action@ == ActionView::UpdateCredit {
                    org_id: id,
                    expression: credit_expression(quantity),
                }
            },
            Err(error) => quantity == 0 && error is ZeroQuantity,
        },
{
    if quantity == 0 {
        return Err(AppError::ZeroQuantity);
    }
    Ok(change_credit(id, quantity))
}

/// Starts to change the credit of an organisation by a quantity that is not zero.
pub(crate) fn change_credit(id: i32, quantity: i32) -> (started: (CreditUpdate, Action))
    requires
        quantity != 0,
    ensures
        started.0@ == (CreditUpdateView::Adding { quantity }),
        started.1@ == (ActionView::UpdateCredit {
            org_id: id,
            expression: credit_expression(quantity),
        }),
{
    let amount = decimal_text(quantity as i64);
    let expression = "token_credit".to_owned().concat(" + ").concat(amount.as_str());
    (CreditUpdate::Adding { quantity }, Action::UpdateCredit { org_id: id, expression })
}

fn delete_next(config: &Config, org: Org, rest: Vec<Project>) -> (stepped: (
    CreditUpdate,
    Progress<Option<Org>>,
))
    ensures
        (stepped.0@, stepped.1@) == deleting(
            config.knative_serving_svc@,
            org,
            project_views(rest@),
        ),
{
    let mut rest = rest;
    if rest.len() == 0 {
        (CreditUpdate::Ended, Progress::Finished(Some(org)))
    } else {
        let ghost before = project_views(rest@);
        let project = rest.remove(0);
        assert(project_views(rest@) == before.drop_first());
        let request = trigger_project_deletion(config, &project);
        (CreditUpdate::Deleting { org, rest }, Progress::Act(Action::Send(request)))
    }
}

fn roll_out_next(org: Org, rest: Vec<Project>) -> (stepped: (CreditUpdate, Progress<Option<Org>>))
    ensures
        (stepped.0@, stepped.1@) == rolling_out(org, project_views(rest@)),
{
    let mut rest = rest;
    if rest.len() == 0 {
        (CreditUpdate::Ended, Progress::Finished(Some(org)))
    } else {
        let ghost before = project_views(rest@);
        let project = rest.remove(0);
        assert(project_views(rest@) == before.drop_first());
        let (current, action) = trigger_project_rollout(project);
        (CreditUpdate::RollingOut { org, current, rest }, Progress::Act(action))
    }
}

impl CreditUpdate {
    /// Goes on with the answer to the last action.
    pub fn step(self, config: &Config, event: Event) -> (stepped: (
        CreditUpdate,
        Progress<Option<Org>>,
    ))
        requires
            self@.awaits(event@),
        ensures
            (stepped.0@, stepped.1@) == self@.next(config.knative_serving_svc@, event@),
    {
        match (self, event) {
            (_, Event::Failed) => (CreditUpdate::Ended, Progress::Failed),
            (CreditUpdate::Adding { quantity }, Event::Org(Some(org))) => {
                if quantity < 0 && org.token_credit >= 1 {
                    (CreditUpdate::Ended, Progress::Finished(Some(org)))
                } else {
                    (
                        CreditUpdate::Listing { org, resume: quantity >= 0 },
                        Progress::Act(Action::FetchProjects { org_id: org.id }),
                    )
                }
            },
            (CreditUpdate::Listing { org, resume }, Event::Projects(projects)) => {
                if !resume {
                    delete_next(config, org, projects)
                } else if org.token_credit > 0 {
                    roll_out_next(org, projects)
                } else {
                    (CreditUpdate::Ended, Progress::Finished(Some(org)))
                }
            },
            (CreditUpdate::Deleting { org, rest }, _) => delete_next(config, org, rest),
            (CreditUpdate::RollingOut { org, current, rest }, event) => {
                let (current, progress) = current.step(config, event);
                match progress {
                    Progress::Act(action) => (
                        CreditUpdate::RollingOut { org, current, rest },
                        Progress::Act(action),
                    ),
                    Progress::Finished(_) => roll_out_next(org, rest),
                    Progress::Failed => (CreditUpdate::Ended, Progress::Failed),
                }
            },
            _ => (CreditUpdate::Ended, Progress::Finished(None)),
        }
    }
}

/// `count` requests were sent.
pub open spec fn all_done(count: nat) -> Seq<EventView> {
    Seq::new(count, |i: int| EventView::Done)
}

/// The requests to delete each of `projects`, in their order.
pub open spec fn deletions<T>(svc: Seq<char>, projects: Seq<ProjectView>) -> Seq<ProgressView<T>> {
    projects.map_values(
        |project: ProjectView|
            ProgressView::Act(ActionView::Send(deletion_request(svc, service_name(project)))),
    )
}

/// The answers that lead through the rollout of several projects, where `found` holds
/// the organisation that was looked up for each of them.
pub open spec fn rollout_events(found: Seq<Option<Org>>) -> Seq<EventView>
    decreases found.len(),
{
    if found.len() == 0 {
        Seq::empty()
    } else {
        let first = if found.first() is Some && found.first()->0.token_credit > 0 {
            seq![EventView::Org(found.first()), EventView::Done]
        } else {
            seq![EventView::Org(found.first())]
        };
        first + rollout_events(found.drop_first())
    }
}

/// What happens in the rollout of `projects`, where `found` holds the organisation
/// that was looked up for each of them: the lookup, and the rollout if that
/// organisation has credit left.
pub open spec fn rollouts(
    svc: Seq<char>,
    projects: Seq<ProjectView>,
    found: Seq<Option<Org>>,
) -> Seq<ProgressView<Option<Org>>>
    decreases projects.len(),
{
    if projects.len() == 0 {
        Seq::empty()
    } else {
        let lookup = ProgressView::Act(
            ActionView::FetchOrg { org_id: projects.first().org_id },
        );
        let first = if found.first() is Some && found.first()->0.token_credit > 0 {
            seq![
                lookup,
                ProgressView::Act(ActionView::Send(rollout_request(svc, projects.first()))),
            ]
        } else {
            seq![lookup]
        };
        first + rollouts(svc, projects.drop_first(), found.drop_first())
    }
}

proof fn lemma_deleting(svc: Seq<char>, org: Org, rest: Seq<ProjectView>)
    ensures
        ({
            let (update, progress) = deleting(svc, org, rest);
            &&& update.awaits_all(svc, all_done(rest.len()))
            &&& seq![progress] + update.run(svc, all_done(rest.len())) == deletions(
                svc,
                rest,
            ).push(ProgressView::Finished(Some(org)))
        }),
    decreases rest.len(),
{
    let (update, progress) = deleting(svc, org, rest);
    let events = all_done(rest.len());
    if rest.len() > 0 {
        let after = rest.drop_first();
        lemma_deleting(svc, org, after);
        assert(events.drop_first() == all_done(after.len()));
        assert(deletions::<Option<Org>>(svc, rest) == seq![progress] + deletions::<Option<Org>>(
            svc,
            after,
        ));
    }
}

/// An organisation whose credit was reduced to nothing is stopped: a request to
/// delete its service goes out for every project that it has, in their order, and
/// for nothing else.
pub proof fn law_exhausted_org_is_stopped(
    svc: Seq<char>,
    quantity: i32,
    org: Org,
    projects: Seq<ProjectView>,
)
    requires
        quantity < 0,
        org.token_credit < 1,
    ensures
        ({
            let update = CreditUpdateView::Adding { quantity };
            let events = seq![EventView::Org(Some(org)), EventView::Projects(projects)] + all_done(
                projects.len(),
            );
            &&& update.awaits_all(svc, events)
            &&& update.run(svc, events) == seq![
                ProgressView::Act(ActionView::FetchProjects { org_id: org.id }),
            ] + deletions(svc, projects).push(ProgressView::Finished(Some(org)))
        }),
{
    let update = CreditUpdateView::Adding { quantity };
    let events = seq![EventView::Org(Some(org)), EventView::Projects(projects)] + all_done(
        projects.len(),
    );
    lemma_deleting(svc, org, projects);
    let listing = CreditUpdateView::Listing { org, resume: false };
    let (first, progress) = deleting(svc, org, projects);
    let tail = events.drop_first();
    assert(tail.drop_first() == all_done(projects.len()));
    assert(listing.next(svc, tail.first()) == (first, progress));
    assert(listing.awaits_all(svc, tail));
    assert(listing.run(svc, tail) == seq![progress] + first.run(svc, all_done(projects.len())));
    assert(update.run(svc, events) == seq![
        ProgressView::<Option<Org>>::Act(ActionView::FetchProjects { org_id: org.id }),
    ] + listing.run(svc, tail));
}

proof fn lemma_rolling_out(
    svc: Seq<char>,
    org: Org,
    rest: Seq<ProjectView>,
    found: Seq<Option<Org>>,
)
    requires
        found.len() == rest.len(),
    ensures
        ({
            let (update, progress) = rolling_out(org, rest);
            &&& update.awaits_all(svc, rollout_events(found))
            &&& seq![progress] + update.run(svc, rollout_events(found)) == rollouts(
                svc,
                rest,
                found,
            ).push(ProgressView::Finished(Some(org)))
        }),
    decreases rest.len(),
{
    let (update, progress) = rolling_out(org, rest);
    let events = rollout_events(found);
    if rest.len() > 0 {
        let after = rest.drop_first();
        lemma_rolling_out(svc, org, after, found.drop_first());
        let (second, second_progress) = rolling_out(org, after);
        let tail = rollout_events(found.drop_first());
        assert(events.first() == EventView::Org(found.first()));
        if has_credit(found.first()) {
            let (sent, sent_progress) = update.next(svc, events.first());
            assert(events.drop_first().first() == EventView::Done);
            assert(events.drop_first().drop_first() == tail);
            assert(sent.next(svc, EventView::Done) == (second, second_progress));
            assert(sent.awaits_all(svc, events.drop_first()));
            assert(sent.run(svc, events.drop_first()) == seq![second_progress] + second.run(
                svc,
                tail,
            ));
        } else {
            assert(events.drop_first() == tail);
            assert(update.next(svc, events.first()) == (second, second_progress));
        }
    }
}

/// An organisation whose credit was raised, and has some then, gets every project
/// that it has rolled out, in their order; a project whose organisation turns out
/// to have no credit when it is looked up is left alone.
pub proof fn law_replenished_org_is_resumed(
    svc: Seq<char>,
    quantity: i32,
    org: Org,
    projects: Seq<ProjectView>,
    found: Seq<Option<Org>>,
)
    requires
        quantity > 0,
        org.token_credit > 0,
        found.len() == projects.len(),
    ensures
        ({
            let update = CreditUpdateView::Adding { quantity };
            let events = seq![EventView::Org(Some(org)), EventView::Projects(projects)]
                + rollout_events(found);
            &&& update.awaits_all(svc, events)
            &&& update.run(svc, events) == seq![
                ProgressView::Act(ActionView::FetchProjects { org_id: org.id }),
            ] + rollouts(svc, projects, found).push(ProgressView::Finished(Some(org)))
        }),
{
    let update = CreditUpdateView::Adding { quantity };
    let events = seq![EventView::Org(Some(org)), EventView::Projects(projects)] + rollout_events(
        found,
    );
    lemma_rolling_out(svc, org, projects, found);
    let listing = CreditUpdateView::Listing { org, resume: true };
    let (first, progress) = rolling_out(org, projects);
    let tail = events.drop_first();
    assert(tail.drop_first() == rollout_events(found));
    assert(listing.next(svc, tail.first()) == (first, progress));
    assert(listing.awaits_all(svc, tail));
    assert(listing.run(svc, tail) == seq![progress] + first.run(svc, rollout_events(found)));
    assert(update.run(svc, events) == seq![
        ProgressView::<Option<Org>>::Act(ActionView::FetchProjects { org_id: org.id }),
    ] + listing.run(svc, tail));
}

/// An organisation whose credit was reduced, and still has some, keeps its projects
/// as they are.
pub proof fn law_paying_org_is_left_alone(svc: Seq<char>, quantity: i32, org: Org)
    requires
        quantity < 0,
        org.token_credit >= 1,
    ensures
        ({
            let update = CreditUpdateView::Adding { quantity };
            &&& update.next(svc, EventView::Org(Some(org))) == settled(Some(org))
            &&& update.next(svc, EventView::Org(Some(org))).1 == ProgressView::Finished(Some(org))
        }),
{
}

/// An organisation whose credit was raised, and is still used up, gets no project
/// rolled out.
pub proof fn law_indebted_org_stays_stopped(
    svc: Seq<char>,
    quantity: i32,
    org: Org,
    projects: Seq<ProjectView>,
)
    requires
        quantity > 0,
        org.token_credit <= 0,
    ensures
        ({
            let update = CreditUpdateView::Adding { quantity };
            let events = seq![EventView::Org(Some(org)), EventView::Projects(projects)];
            &&& update.awaits_all(svc, events)
            &&& update.run(svc, events) == seq![
                ProgressView::Act(ActionView::FetchProjects { org_id: org.id }),
                ProgressView::Finished(Some(org)),
            ]
        }),
{
    let update = CreditUpdateView::Adding { quantity };
    let events = seq![EventView::Org(Some(org)), EventView::Projects(projects)];
    let listing = CreditUpdateView::Listing { org, resume: true };
    let tail = events.drop_first();
    reveal_with_fuel(CreditUpdateView::run, 3);
    reveal_with_fuel(CreditUpdateView::awaits_all, 3);
    assert(listing.run(svc, tail) == seq![ProgressView::Finished(Some(org))]);
}

/// Where there is no organisation of that id, nothing is done.
pub proof fn law_unknown_org_changes_nothing(svc: Seq<char>, quantity: i32)
    ensures
        ({
            let update = CreditUpdateView::Adding { quantity };
            &&& update.next(svc, EventView::Org(None)) == settled(None)
            &&& update.next(svc, EventView::Org(None)).1 == ProgressView::Finished(None::<Org>)
        }),
{
}

/// A change of a credit that an action fails in is broken off, however far it has come:
/// nothing more is asked for, so that the projects that are left stay as they are.
pub proof fn law_failure_breaks_credit_update_off(
    svc: Seq<char>,
    update: CreditUpdateView,
    event: EventView,
)
    ensures
        update.next(svc, EventView::Failed).1 == ProgressView::<Option<Org>>::Failed,
        !update.next(svc, EventView::Failed).0.awaits(event),
{
}

pub(crate) proof fn lemma_requests_differ(svc: Seq<char>, project: ProjectView, name: Seq<char>)
    ensures
        rollout_request(svc, project) != deletion_request(svc, name),
{
    reveal_strlit("/rollout");
    reveal_strlit("/delete");
    assert((svc + "/rollout"@).len() != (svc + "/delete"@).len());
}

/// In whatever state a change is, it asks for a rollout only in answer to a lookup
/// that found an organisation with credit left.
pub proof fn law_rollout_needs_credit(svc: Seq<char>, update: CreditUpdateView, event: EventView)
    requires
        update.awaits(event),
    ensures
        forall|project: ProjectView|
            update.next(svc, event).1 == ProgressView::<Option<Org>>::Act(
                ActionView::Send(#[trigger] rollout_request(svc, project)),
            ) ==> event is Org && event->Org_0 is Some && event->Org_0->0.token_credit > 0,
{
    assert forall|project: ProjectView, name: Seq<char>|
        #[trigger] rollout_request(svc, project) != #[trigger] deletion_request(svc, name) by {
        lemma_requests_differ(svc, project, name);
    }
}

/// A change of a credit goes on with exactly the events that answer what it asked for,
/// from its start on and after each step.
pub proof fn law_credit_update_awaits_answers(
    svc: Seq<char>,
    id: i32,
    quantity: i32,
    update: CreditUpdateView,
    event: EventView,
    answer: EventView,
)
    ensures
        ({
            let start = CreditUpdateView::Adding { quantity };
            let asked = ActionView::UpdateCredit {
                org_id: id,
                expression: credit_expression(quantity),
            };
            start.awaits(answer) == asked.is_answered_by(answer)
        }),
        update.next(svc, event).0.awaits(answer) == update.next(svc, event).1.is_answered_by(
            answer,
        ),
{
}

/// A change of a credit writes the credit once: after the action that it starts with, it
/// never asks for another one that does.
pub proof fn law_credit_is_written_once(svc: Seq<char>, update: CreditUpdateView, event: EventView)
    ensures
        ({
            let progress = update.next(svc, event).1;
            progress is Act ==> !(progress->Act_0 is UpdateCredit)
        }),
{
}

/// Whether a reading of expressions, over what is stored as the credit, takes the
/// expression of each change as the stored credit plus the quantity.
pub open spec fn adds_to_stored(reading: spec_fn(Seq<char>, int) -> int) -> bool {
    forall|quantity: i32, stored: int|
        #[trigger] reading(credit_expression(quantity), stored) == stored + quantity
}

/// The number behind `token_credit + `, added to what is stored.
pub open spec fn expression_value(expression: Seq<char>, stored: int) -> int {
    stored + i32_value(expression.skip(("token_credit"@ + " + "@).len() as int))->0
}

/// The expressions of changes have such a reading, and those of different changes are
/// different.
pub proof fn law_expressions_add_to_stored()
    ensures
        adds_to_stored(|expression: Seq<char>, stored: int| expression_value(expression, stored)),
        forall|a: i32, b: i32| #[trigger]
            credit_expression(a) == #[trigger] credit_expression(b) ==> a == b,
{
    let start = "token_credit"@ + " + "@;
    assert forall|quantity: i32, stored: int|
        #[trigger] expression_value(credit_expression(quantity), stored) == stored + quantity by {
        law_decimal_reads_back(quantity);
        assert(credit_expression(quantity).skip(start.len() as int) == decimal(quantity as int));
    }
    assert forall|a: i32, b: i32| #[trigger]
        credit_expression(a) == #[trigger] credit_expression(b) implies a == b by {
        assert(expression_value(credit_expression(a), 0) == a);
        assert(expression_value(credit_expression(b), 0) == b);
    }
}

/// The credit of an organisation after several actions, where `stored` is the credit
/// before.
pub open spec fn credit_after(
    reading: spec_fn(Seq<char>, int) -> int,
    actions: Seq<ActionView>,
    org_id: i32,
    stored: int,
) -> int
    decreases actions.len(),
{
    if actions.len() == 0 {
        stored
    } else {
        let then = match actions.first() {
            ActionView::UpdateCredit { org_id: changed, expression } => if changed == org_id {
                reading(expression, stored)
            } else {
                stored
            },
            _ => stored,
        };
        credit_after(reading, actions.drop_first(), org_id, then)
    }
}

/// Whether an action changes the credit of an organisation.
pub open spec fn changes_credit_of(action: ActionView, org_id: i32) -> bool {
    action is UpdateCredit && action->UpdateCredit_org_id == org_id
}

pub(crate) proof fn lemma_credit_after_splits(
    reading: spec_fn(Seq<char>, int) -> int,
    first: Seq<ActionView>,
    second: Seq<ActionView>,
    org_id: i32,
    stored: int,
)
    ensures
        credit_after(reading, first + second, org_id, stored) == credit_after(
            reading,
            second,
            org_id,
            credit_after(reading, first, org_id, stored),
        ),
    decreases first.len(),
{
    if first.len() == 0 {
        assert(first + second == second);
    } else {
        let then = credit_after(reading, seq![first.first()], org_id, stored);
        lemma_credit_after_one(reading, first.first(), org_id, stored);
        lemma_credit_after_splits(reading, first.drop_first(), second, org_id, then);
        assert((first + second).drop_first() == first.drop_first() + second);
    }
}

pub(crate) proof fn lemma_credit_after_one(
    reading: spec_fn(Seq<char>, int) -> int,
    action: ActionView,
    org_id: i32,
    stored: int,
)
    ensures
        credit_after(reading, seq![action], org_id, stored) == if changes_credit_of(action, org_id) {
            reading(action->expression, stored)
        } else {
            stored
        },
{
    assert(seq![action].drop_first() == Seq::<ActionView>::empty());
    reveal_with_fuel(credit_after, 2);
}

/// The sum of several quantities.
pub open spec fn total(quantities: Seq<int>) -> int
    decreases quantities.len(),
{
    if quantities.len() == 0 {
        0
    } else {
        quantities.first() + total(quantities.drop_first())
    }
}

/// What an action changes the credit of an organisation by is `quantity`: zero where it
/// does not change that credit.
pub open spec fn changes_by(action: ActionView, org_id: i32, quantity: int) -> bool {
    if changes_credit_of(action, org_id) {
        &&& i32::MIN <= quantity <= i32::MAX
        &&& action->expression == credit_expression(quantity as i32)
    } else {
        quantity == 0
    }
}

/// All changes of one credit add up, whatever is done in between: no change is lost.
pub proof fn law_changes_add_up(
    reading: spec_fn(Seq<char>, int) -> int,
    actions: Seq<ActionView>,
    quantities: Seq<int>,
    org_id: i32,
    stored: int,
)
    requires
        adds_to_stored(reading),
        quantities.len() == actions.len(),
        forall|i: int|
            0 <= i < actions.len() ==> changes_by(#[trigger] actions[i], org_id, quantities[i]),
    ensures
        credit_after(reading, actions, org_id, stored) == stored + total(quantities),
    decreases actions.len(),
{
    if actions.len() > 0 {
        let quantity = quantities.first();
        assert(changes_by(actions[0], org_id, quantities[0]));
        if changes_credit_of(actions.first(), org_id) {
            assert(reading(credit_expression(quantity as i32), stored) == stored + quantity);
        }
        let rest = actions.drop_first();
        assert forall|i: int| 0 <= i < rest.len() implies changes_by(
            #[trigger] rest[i],
            org_id,
            quantities.drop_first()[i],
        ) by {
            assert(changes_by(actions[i + 1], org_id, quantities[i + 1]));
        }
        law_changes_add_up(reading, rest, quantities.drop_first(), org_id, stored + quantity);
    }
}

proof fn lemma_total_of_two(quantities: Seq<int>, i: int, j: int)
    requires
        0 <= i < quantities.len(),
        0 <= j < quantities.len(),
        i != j,
        forall|k: int| 0 <= k < quantities.len() && k != i && k != j ==> #[trigger] quantities[k]
            == 0,
    ensures
        total(quantities) == quantities[i] + quantities[j],
    decreases quantities.len(),
{
    let rest = quantities.drop_first();
    assert forall|k: int| 0 <= k < rest.len() implies #[trigger] rest[k] == quantities[k + 1] by {}
    if i == 0 {
        lemma_total_of_one(rest, j - 1);
    } else if j == 0 {
        lemma_total_of_one(rest, i - 1);
    } else {
        lemma_total_of_two(rest, i - 1, j - 1);
    }
}

proof fn lemma_total_of_one(quantities: Seq<int>, i: int)
    requires
        0 <= i < quantities.len(),
        forall|k: int| 0 <= k < quantities.len() && k != i ==> #[trigger] quantities[k] == 0,
    ensures
        total(quantities) == quantities[i],
    decreases quantities.len(),
{
    let rest = quantities.drop_first();
    assert forall|k: int| 0 <= k < rest.len() implies #[trigger] rest[k] == quantities[k + 1] by {}
    if i == 0 {
        lemma_total_of_none(rest);
    } else {
        lemma_total_of_one(rest, i - 1);
    }
}

proof fn lemma_total_of_none(quantities: Seq<int>)
    requires
        forall|k: int| 0 <= k < quantities.len() ==> #[trigger] quantities[k] == 0,
    ensures
        total(quantities) == 0,
    decreases quantities.len(),
{
    if quantities.len() > 0 {
        let rest = quantities.drop_first();
        assert forall|k: int| 0 <= k < rest.len() implies #[trigger] rest[k] == 0 by {
            assert(rest[k] == quantities[k + 1]);
        }
        lemma_total_of_none(rest);
    }
}

/// Two changes of one credit add up, in whatever order they are carried out and whatever
/// else is done before, between and after: the one is not lost to the other, and a change
/// is taken back by the opposite one.
pub proof fn law_two_changes_add_up(
    reading: spec_fn(Seq<char>, int) -> int,
    actions: Seq<ActionView>,
    i: int,
    j: int,
    a: i32,
    b: i32,
    org_id: i32,
    stored: int,
)
    requires
        adds_to_stored(reading),
        0 <= i < actions.len(),
        0 <= j < actions.len(),
        i != j,
        actions[i] == (ActionView::UpdateCredit { org_id, expression: credit_expression(a) }),
        actions[j] == (ActionView::UpdateCredit { org_id, expression: credit_expression(b) }),
        forall|k: int|
            0 <= k < actions.len() && k != i && k != j ==> !changes_credit_of(
                #[trigger] actions[k],
                org_id,
            ),
    ensures
        credit_after(reading, actions, org_id, stored) == stored + a + b,
        b == -a ==> credit_after(reading, actions, org_id, stored) == stored,
{
    let quantities = Seq::new(
        actions.len(),
        |k: int|
            if k == i {
                a as int
            } else if k == j {
                b as int
            } else {
                0
            },
    );
    lemma_total_of_two(quantities, i, j);
    law_changes_add_up(reading, actions, quantities, org_id, stored);
}

/// What an expression over the credit comes to, read as the database reads it: the column
/// `token_credit`, a plus or a minus sign between spaces, and a number that is added or
/// taken off. Any other text comes to nothing.
pub open spec fn evaluated(expression: Seq<char>, stored: int) -> Option<int> {
    let column = "token_credit"@;
    let at = column.len() as int;
    let operand = i32_value(expression.skip(at + 3));
    if expression.len() > at + 3 && expression.take(at) == column && expression[at] == ' '
        && expression[at + 2] == ' ' && operand is Some {
        if expression[at + 1] == '+' {
            Some(stored + operand->0)
        } else if expression[at + 1] == '-' {
            Some(stored - operand->0)
        } else {
            None
        }
    } else {
        None
    }
}

/// The expression of a change comes to the stored credit plus the quantity, for every
/// quantity and every credit: what is raised grows by it, and what is reduced shrinks.
pub proof fn law_expression_comes_to_the_sum(quantity: i32, stored: int)
    ensures
        evaluated(credit_expression(quantity), stored) == Some(stored + quantity),
        credit_expression(quantity).take("token_credit + "@.len() as int) == "token_credit + "@,
        i32_value(credit_expression(quantity).skip("token_credit + "@.len() as int)) == Some(
            quantity,
        ),
{
    let expression = credit_expression(quantity);
    let at = "token_credit"@.len() as int;
    reveal_strlit("token_credit");
    reveal_strlit(" + ");
    reveal_strlit("token_credit + ");
    law_decimal_reads_back(quantity);
    law_decimal_writes_number(quantity as int);
    assert(expression.take(at) =~= "token_credit"@);
    assert(expression.skip(at + 3) =~= decimal(quantity as int));
    assert(expression.take(at + 3) =~= "token_credit + "@);
}

/// An organisation whose credit was reduced to nothing, or below, gets a request to delete
/// the service of each of its projects, the first for the first and so on.
pub proof fn law_exhausted_org_loses_each_project(
    svc: Seq<char>,
    quantity: i32,
    org: Org,
    projects: Seq<ProjectView>,
    events: Seq<EventView>,
)
    requires
        quantity < 0,
        org.token_credit <= 0,
        events.len() == projects.len() + 2,
        events[0] == EventView::Org(Some(org)),
        events[1] == EventView::Projects(projects),
        forall|i: int| 2 <= i < events.len() ==> #[trigger] events[i] == EventView::Done,
    ensures
        ({
            let answers = (CreditUpdateView::Adding { quantity }).run(svc, events);
            &&& answers.len() == projects.len() + 2
            &&& answers[0] == ProgressView::<Option<Org>>::Act(
                ActionView::FetchProjects { org_id: org.id },
            )
            &&& forall|i: int|
                0 <= i < projects.len() ==> answers[i + 1] == ProgressView::<Option<Org>>::Act(
                    ActionView::Send(deletion_request(svc, service_name(#[trigger] projects[i]))),
                )
            &&& answers.last() == ProgressView::Finished(Some(org))
        }),
{
    law_exhausted_org_is_stopped(svc, quantity, org, projects);
    assert(events =~= seq![EventView::Org(Some(org)), EventView::Projects(projects)] + all_done(
        projects.len(),
    ));
}

proof fn lemma_funded_rollouts(
    svc: Seq<char>,
    projects: Seq<ProjectView>,
    found: Seq<Option<Org>>,
    i: int,
)
    requires
        found.len() == projects.len(),
        forall|k: int|
            0 <= k < found.len() ==> (#[trigger] found[k]) is Some && found[k]->0.token_credit > 0,
    ensures
        rollout_events(found).len() == 2 * found.len(),
        rollouts(svc, projects, found).len() == 2 * found.len(),
        0 <= i < found.len() ==> {
            &&& rollout_events(found)[2 * i] == EventView::Org(found[i])
            &&& rollout_events(found)[2 * i + 1] == EventView::Done
            &&& rollouts(svc, projects, found)[2 * i] == ProgressView::<Option<Org>>::Act(
                ActionView::FetchOrg { org_id: projects[i].org_id },
            )
            &&& rollouts(svc, projects, found)[2 * i + 1] == ProgressView::<Option<Org>>::Act(
                ActionView::Send(rollout_request(svc, projects[i])),
            )
        },
    decreases found.len(),
{
    if found.len() > 0 {
        let rest = found.drop_first();
        assert(found[0] == found.first());
        assert forall|k: int| 0 <= k < rest.len() implies (#[trigger] rest[k]) is Some
            && rest[k]->0.token_credit > 0 by {
            assert(rest[k] == found[k + 1]);
        }
        lemma_funded_rollouts(svc, projects.drop_first(), rest, i - 1);
    }
}

/// An organisation whose credit was raised to a token or more gets each of its projects
/// rolled out, the first first and so on, as long as the lookup before each of them finds a
/// token or more.
pub proof fn law_replenished_org_gets_each_project(
    svc: Seq<char>,
    quantity: i32,
    org: Org,
    projects: Seq<ProjectView>,
    found: Seq<Org>,
    events: Seq<EventView>,
)
    requires
        quantity > 0,
        org.token_credit >= 1,
        found.len() == projects.len(),
        forall|i: int| 0 <= i < found.len() ==> (#[trigger] found[i]).token_credit >= 1,
        events.len() == 2 * projects.len() + 2,
        events[0] == EventView::Org(Some(org)),
        events[1] == EventView::Projects(projects),
        forall|i: int|
            0 <= i < found.len() ==> {
                &&& events[2 * i + 2] == EventView::Org(Some(#[trigger] found[i]))
                &&& events[2 * i + 3] == EventView::Done
            },
    ensures
        ({
            let answers = (CreditUpdateView::Adding { quantity }).run(svc, events);
            &&& answers.len() == 2 * projects.len() + 2
            &&& answers[0] == ProgressView::<Option<Org>>::Act(
                ActionView::FetchProjects { org_id: org.id },
            )
            &&& forall|i: int|
                0 <= i < projects.len() ==> {
                    let project = #[trigger] projects[i];
                    &&& answers[2 * i + 1] == ProgressView::<Option<Org>>::Act(
                        ActionView::FetchOrg { org_id: project.org_id },
                    )
                    &&& answers[2 * i + 2] == ProgressView::<Option<Org>>::Act(
                        ActionView::Send(rollout_request(svc, project)),
                    )
                }
            &&& answers.last() == ProgressView::Finished(Some(org))
        }),
{
    let lookups = found.map_values(|org: Org| Some(org));
    assert forall|k: int| 0 <= k < lookups.len() implies (#[trigger] lookups[k]) is Some
        && lookups[k]->0.token_credit > 0 by {
        assert(found[k].token_credit >= 1);
    }
    law_replenished_org_is_resumed(svc, quantity, org, projects, lookups);
    lemma_funded_rollouts(svc, projects, lookups, -1);
    let expected = seq![EventView::Org(Some(org)), EventView::Projects(projects)]
        + rollout_events(lookups);
    assert forall|k: int| 0 <= k < expected.len() implies expected[k] == #[trigger] events[k] by {
        if k >= 2 {
            let i = (k - 2) / 2;
            lemma_funded_rollouts(svc, projects, lookups, i);
            assert(found[i].token_credit >= 1);
            assert(k == 2 * i + 2 || k == 2 * i + 3);
        }
    }
    assert(events =~= expected);
    let answers = (CreditUpdateView::Adding { quantity }).run(svc, events);
    assert forall|i: int| 0 <= i < projects.len() implies {
        let project = #[trigger] projects[i];
        &&& answers[2 * i + 1] == ProgressView::<Option<Org>>::Act(
            ActionView::FetchOrg { org_id: project.org_id },
        )
        &&& answers[2 * i + 2] == ProgressView::<Option<Org>>::Act(
            ActionView::Send(rollout_request(svc, project)),
        )
    } by {
        lemma_funded_rollouts(svc, projects, lookups, i);
    }
}

/// In the resumption of an organisation, the lookup before each project decides about that
/// project alone, by the number of tokens it finds: with one or more the project is rolled
/// out, and otherwise the next project follows at once, or the end.
pub proof fn law_each_lookup_decides(
    svc: Seq<char>,
    org: Org,
    project: ProjectView,
    rest: Seq<ProjectView>,
    found: Option<Org>,
)
    ensures
        ({
            let current = RolloutView { project, phase: RolloutPhase::LookingUp };
            let update = CreditUpdateView::RollingOut { org, current, rest };
            let progress = update.next(svc, EventView::Org(found)).1;
            if found is Some && found->0.token_credit >= 1 {
                progress == ProgressView::<Option<Org>>::Act(
                    ActionView::Send(rollout_request(svc, project)),
                )
            } else if rest.len() > 0 {
                progress == ProgressView::<Option<Org>>::Act(
                    ActionView::FetchOrg { org_id: rest[0].org_id },
                )
            } else {
                progress == ProgressView::Finished(Some(org))
            }
        }),
{
}

} // verus!
