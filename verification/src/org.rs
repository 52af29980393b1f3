//! Organisations, and the credit of tokens that they pay with.

use vstd::prelude::*;

use crate::config::Config;
use crate::credit::{
    all_done, credit_expression, deletions, org_update_token_credit, CreditUpdate, CreditUpdateView,
};
use crate::effects::{Action, ActionView, Event, EventView, Progress, ProgressView};
use crate::errors::AppError;
use crate::json::{json, number_value, set_member, Json};
use crate::project::{
    deletion_request, project_views, service_name, trigger_project_deletion, Project, ProjectView,
};

verus! {

/// An organisation.
#[derive(Clone, Copy, Debug, PartialEq, Eq, Structural)]
pub struct Org {
    pub id: i32,
    /// The tokens left to pay with.
    pub token_credit: i32,
}

/// Whether an organisation was found and has credit left.
pub open spec fn has_credit(org: Option<Org>) -> bool {
    org is Some && org->0.token_credit > 0
}

/// Whether an organisation was found and has credit left.
pub fn is_org_token_credit_available(org: Option<Org>) -> (available: bool)
    ensures
        available == has_credit(org),
{
    match org {
        Some(org) => org.token_credit > 0,
        None => false,
    }
}

/// Completes the record that an organisation is created from: it starts without
/// credit, whatever the record says.
///
/// The record has to be one that members can be set on (see
/// [`takes_members`](crate::json::takes_members)).
pub fn org_create(org: &mut serde_json::Value)
    requires
        json(*old(org)).takes_members(),
    ensures
        json(*final(org)) == json(*old(org)).with_member("token_credit"@, Json::Number(seq!['0'])),
{
    set_member(org, "token_credit", number_value(0));
}

/// A change of an organisation that its owner asks for.
#[derive(Clone, Copy, Debug, PartialEq, Eq, Structural)]
pub enum OrgUpdate {
    AddTokenCredit(u32),
}

impl OrgUpdate {
    /// What is added to the credit: the number asked for, taken as a signed one of
    /// the same bits, so that what exceeds the signed numbers is taken off instead.
    pub open spec fn quantity(self) -> i32 {
        match self {
            OrgUpdate::AddTokenCredit(quantity) => if quantity <= i32::MAX {
                quantity as i32
            } else {
                (quantity - 0x1_0000_0000) as i32
            },
        }
    }
}

/// The credit that is asked for is added, as far as signed numbers go.
pub proof fn law_credit_is_added(quantity: u32)
    requires
        quantity <= i32::MAX,
    ensures
        OrgUpdate::AddTokenCredit(quantity).quantity() == quantity,
{
}

/// Starts to change an organisation as its owner asks for.
pub fn org_update(id: i32, update: OrgUpdate) -> (started: Result<(CreditUpdate, Action), AppError>)
    ensures
        match started {
            Ok((credit, action)) => {
                &&& update.quantity() != 0
                &&& credit@ == CreditUpdateView::Adding { quantity: update.quantity() }
                &&& action@ == ActionView::UpdateCredit {
                    org_id: id,
                    expression: credit_expression(update.quantity()),
                }
            },
            Err(error) => update.quantity() == 0 && error is ZeroQuantity,
        },
{
    match update {
        OrgUpdate::AddTokenCredit(quantity) => {
            let signed: i32 = #[verifier::truncate]
            (quantity as i32);
            proof {
                if quantity > i32::MAX {
                    assert(quantity as i32 == quantity - 0x1_0000_0000) by (bit_vector)
                        requires
                            quantity > 0x7fff_ffffu32,
                    ;
                }
            }
            org_update_token_credit(id, signed)
        },
    }
}

/// What is answered when the change has come to its end: the organisation, or that
/// there is none of that id.
pub fn org_update_answer(id: i32, org: Option<Org>) -> (answer: Result<Org, AppError>)
    ensures
        match answer {
            Ok(found) => org == Some(found),
            Err(error) => org is None && error == (AppError::OrgNotFound { id }),
        },
{
    match org {
        Some(org) => Ok(org),
        None => Err(AppError::OrgNotFound { id }),
    }
}

/// The projects of an organisation being deleted.
#[derive(Debug)]
pub enum OrgStop {
    /// The projects are being listed.
    Listing,
    /// A project is being deleted, and `rest` is left of `count` to delete.
    Deleting { count: u32, rest: Vec<Project> },
    /// It has ended.
    Ended,
}

/// What the deletion of the projects holds.
pub enum OrgStopView {
    Listing,
    Deleting { count: u32, rest: Seq<ProjectView> },
    Ended,
}

impl View for OrgStop {
    type V = OrgStopView;

    open spec fn view(&self) -> OrgStopView {
        match self {
            OrgStop::Listing => OrgStopView::Listing,
            OrgStop::Deleting { count, rest } => OrgStopView::Deleting {
                count: *count,
                rest: project_views(rest@),
            },
            OrgStop::Ended => OrgStopView::Ended,
        }
    }
}

/// The projects in `rest` are deleted one by one; `count` is answered at the end.
pub open spec fn stopping(svc: Seq<char>, count: u32, rest: Seq<ProjectView>) -> (
    OrgStopView,
    ProgressView<u32>,
) {
    if rest.len() == 0 {
        (OrgStopView::Ended, ProgressView::Finished(count))
    } else {
        (
            OrgStopView::Deleting { count, rest: rest.drop_first() },
            ProgressView::Act(
                ActionView::Send(deletion_request(svc, service_name(rest.first()))),
            ),
        )
    }
}

/// A number of projects as one of 32 bits: its lowest bits.
pub open spec fn count_of(projects: nat) -> u32 {
    (projects % 0x1_0000_0000) as u32
}

impl OrgStopView {
    /// Whether the deletion goes on with `event`.
    pub open spec fn awaits(self, event: EventView) -> bool {
        match self {
            OrgStopView::Listing => event is Projects || event is Failed,
            OrgStopView::Deleting { .. } => event is Done || event is Failed,
            OrgStopView::Ended => false,
        }
    }

    /// The deletion after `event`, and what comes next: a request for each project,
    /// in their order, and then their number.
    pub open spec fn next(self, svc: Seq<char>, event: EventView) -> (
        OrgStopView,
        ProgressView<u32>,
    ) {
        match (self, event) {
            (_, EventView::Failed) => (OrgStopView::Ended, ProgressView::Failed),
            (OrgStopView::Listing, EventView::Projects(projects)) => stopping(
                svc,
                count_of(projects.len()),
                projects,
            ),
            (OrgStopView::Deleting { count, rest }, _) => stopping(svc, count, rest),
            _ => (OrgStopView::Ended, ProgressView::Failed),
        }
    }

    /// The answers to `events`, one after the other.
    pub open spec fn run(self, svc: Seq<char>, events: Seq<EventView>) -> Seq<ProgressView<u32>>
        decreases events.len(),
    {
        if events.len() == 0 {
            Seq::empty()
        } else {
            let (then, progress) = self.next(svc, events.first());
            seq![progress] + then.run(svc, events.drop_first())
        }
    }

    /// Whether the deletion goes on with each of `events`, one after the other.
    pub open spec fn awaits_all(self, svc: Seq<char>, events: Seq<EventView>) -> bool
        decreases events.len(),
    {
        events.len() == 0 || {
            &&& self.awaits(events.first())
            &&& self.next(svc, events.first()).0.awaits_all(svc, events.drop_first())
        }
    }
}

/// Starts to delete the projects of an organisation.
pub fn org_stop(id: i32) -> (started: (OrgStop, Action))
    ensures
        started.0@ == OrgStopView::Listing,
        started.1@ == (ActionView::FetchProjects { org_id: id }),
{
    (OrgStop::Listing, Action::FetchProjects { org_id: id })
}

fn stop_next(config: &Config, count: u32, rest: Vec<Project>) -> (stepped: (OrgStop, Progress<u32>))
    ensures
        (stepped.0@, stepped.1@) == stopping(
            config.knative_serving_svc@,
            count,
            project_views(rest@),
        ),
{
    let mut rest = rest;
    if rest.len() == 0 {
        (OrgStop::Ended, Progress::Finished(count))
    } else {
        let ghost before = project_views(rest@);
        let project = rest.remove(0);
        assert(project_views(rest@) == before.drop_first());
        let request = trigger_project_deletion(config, &project);
        (OrgStop::Deleting { count, rest }, Progress::Act(Action::Send(request)))
    }
}

impl OrgStop {
    /// Goes on with the answer to the last action.
    pub fn step(self, config: &Config, event: Event) -> (stepped: (OrgStop, Progress<u32>))
        requires
            self@.awaits(event@),
        ensures
            (stepped.0@, stepped.1@) == self@.next(config.knative_serving_svc@, event@),
    {
        match (self, event) {
            (_, Event::Failed) => (OrgStop::Ended, Progress::Failed),
            (OrgStop::Listing, Event::Projects(projects)) => {
                let length: u64 = projects.len() as u64;
                let count: u32 = #[verifier::truncate]
                (length as u32);
                assert(length as u32 == length % 0x1_0000_0000) by (bit_vector);
                stop_next(config, count, projects)
            },
            (OrgStop::Deleting { count, rest }, _) => stop_next(config, count, rest),
            _ => (OrgStop::Ended, Progress::Failed),
        }
    }
}

proof fn lemma_stopping(svc: Seq<char>, count: u32, rest: Seq<ProjectView>)
    ensures
        ({
            let (stop, progress) = stopping(svc, count, rest);
            &&& stop.awaits_all(svc, all_done(rest.len()))
            &&& seq![progress] + stop.run(svc, all_done(rest.len())) == deletions(svc, rest).push(
                ProgressView::Finished(count),
            )
        }),
    decreases rest.len(),
{
    let (stop, progress) = stopping(svc, count, rest);
    let events = all_done(rest.len());
    if rest.len() > 0 {
        let after = rest.drop_first();
        lemma_stopping(svc, count, after);
        assert(events.drop_first() == all_done(after.len()));
        assert(deletions::<u32>(svc, rest) == seq![progress] + deletions::<u32>(svc, after));
    }
}

/// Stopping an organisation deletes the service of every project that it has, in their
/// order, and nothing else; the number of its projects is answered.
pub proof fn law_org_stop_deletes_all(svc: Seq<char>, projects: Seq<ProjectView>)
    ensures
        ({
            let events = seq![EventView::Projects(projects)] + all_done(projects.len());
            &&& OrgStopView::Listing.awaits_all(svc, events)
            &&& OrgStopView::Listing.run(svc, events) == deletions(svc, projects).push(
                ProgressView::Finished(count_of(projects.len())),
            )
        }),
{
    let events = seq![EventView::Projects(projects)] + all_done(projects.len());
    let (first, progress) = stopping(svc, count_of(projects.len()), projects);
    lemma_stopping(svc, count_of(projects.len()), projects);
    assert(events.drop_first() == all_done(projects.len()));
    assert(OrgStopView::Listing.next(svc, events.first()) == (first, progress));
    assert(OrgStopView::Listing.run(svc, events) == seq![progress] + first.run(
        svc,
        all_done(projects.len()),
    ));
}

/// Stopping an organisation is broken off where an action fails: the projects that are
/// left stay as they are.
pub proof fn law_failure_breaks_org_stop_off(svc: Seq<char>, stop: OrgStopView, event: EventView)
    ensures
        stop.next(svc, EventView::Failed).1 == ProgressView::<u32>::Failed,
        !stop.next(svc, EventView::Failed).0.awaits(event),
{
}

/// An organisation being deleted.
#[derive(Debug)]
pub struct OrgDelete {
    pub id: i32,
    pub phase: OrgDeletePhase,
}

/// How far the deletion of an organisation has come.
#[derive(Debug)]
pub enum OrgDeletePhase {
    /// Its projects are being deleted.
    First(OrgStop),
    /// What projects are left or new are being deleted.
    Second(OrgStop),
    /// Its record is being deleted.
    Removing { projects_deleted: u32 },
    /// It has ended.
    Ended,
}

/// What the deletion of an organisation holds.
pub struct OrgDeleteView {
    pub id: i32,
    pub phase: OrgDeletePhaseView,
}

/// What the phase of a deletion holds.
pub enum OrgDeletePhaseView {
    First(OrgStopView),
    Second(OrgStopView),
    Removing { projects_deleted: u32 },
    Ended,
}

impl View for OrgDelete {
    type V = OrgDeleteView;

    open spec fn view(&self) -> OrgDeleteView {
        OrgDeleteView {
            id: self.id,
            phase: match self.phase {
                OrgDeletePhase::First(stop) => OrgDeletePhaseView::First(stop@),
                OrgDeletePhase::Second(stop) => OrgDeletePhaseView::Second(stop@),
                OrgDeletePhase::Removing { projects_deleted } => OrgDeletePhaseView::Removing {
                    projects_deleted,
                },
                OrgDeletePhase::Ended => OrgDeletePhaseView::Ended,
            },
        }
    }
}

impl OrgDeleteView {
    /// Whether the deletion goes on with `event`.
    pub open spec fn awaits(self, event: EventView) -> bool {
        match self.phase {
            OrgDeletePhaseView::First(stop) => stop.awaits(event),
            OrgDeletePhaseView::Second(stop) => stop.awaits(event),
            OrgDeletePhaseView::Removing { .. } => event is Done || event is Failed,
            OrgDeletePhaseView::Ended => false,
        }
    }

    /// The deletion broken off, as an action failed.
    pub open spec fn broken_off(self) -> (OrgDeleteView, ProgressView<u32>) {
        (OrgDeleteView { phase: OrgDeletePhaseView::Ended, ..self }, ProgressView::Failed)
    }

    /// The deletion after `event`, and what comes next. The projects are deleted
    /// twice over, then the record is; the number of projects that the second pass
    /// found is answered.
    pub open spec fn next(self, svc: Seq<char>, event: EventView) -> (
        OrgDeleteView,
        ProgressView<u32>,
    ) {
        match self.phase {
            OrgDeletePhaseView::First(stop) => match stop.next(svc, event) {
                (stop, ProgressView::Act(action)) => (
                    OrgDeleteView { phase: OrgDeletePhaseView::First(stop), ..self },
                    ProgressView::Act(action),
                ),
                (_, ProgressView::Finished(_)) => (
                    OrgDeleteView {
                        phase: OrgDeletePhaseView::Second(OrgStopView::Listing),
                        ..self
                    },
                    ProgressView::Act(ActionView::FetchProjects { org_id: self.id }),
                ),
                (_, ProgressView::Failed) => self.broken_off(),
            },
            OrgDeletePhaseView::Second(stop) => match stop.next(svc, event) {
                (stop, ProgressView::Act(action)) => (
                    OrgDeleteView { phase: OrgDeletePhaseView::Second(stop), ..self },
                    ProgressView::Act(action),
                ),
                (_, ProgressView::Finished(projects_deleted)) => (
                    OrgDeleteView {
                        phase: OrgDeletePhaseView::Removing { projects_deleted },
                        ..self
                    },
                    ProgressView::Act(ActionView::DeleteOrg { org_id: self.id }),
                ),
                (_, ProgressView::Failed) => self.broken_off(),
            },
            OrgDeletePhaseView::Removing { projects_deleted } => if event is Failed {
                self.broken_off()
            } else {
                (
                    OrgDeleteView { phase: OrgDeletePhaseView::Ended, ..self },
                    ProgressView::Finished(projects_deleted),
                )
            },
            OrgDeletePhaseView::Ended => self.broken_off(),
        }
    }

    /// The answers to `events`, one after the other.
    pub open spec fn run(self, svc: Seq<char>, events: Seq<EventView>) -> Seq<ProgressView<u32>>
        decreases events.len(),
    {
        if events.len() == 0 {
            Seq::empty()
        } else {
            let (then, progress) = self.next(svc, events.first());
            seq![progress] + then.run(svc, events.drop_first())
        }
    }

    /// Whether the deletion goes on with each of `events`, one after the other.
    pub open spec fn awaits_all(self, svc: Seq<char>, events: Seq<EventView>) -> bool
        decreases events.len(),
    {
        events.len() == 0 || {
            &&& self.awaits(events.first())
            &&& self.next(svc, events.first()).0.awaits_all(svc, events.drop_first())
        }
    }
}

/// Starts to delete an organisation.
pub fn org_delete(id: i32) -> (started: (OrgDelete, Action))
    ensures
        started.0@ == (OrgDeleteView { id, phase: OrgDeletePhaseView::First(OrgStopView::Listing) }),
        started.1@ == (ActionView::FetchProjects { org_id: id }),
{
    let (stop, action) = org_stop(id);
    (OrgDelete { id, phase: OrgDeletePhase::First(stop) }, action)
}

impl OrgDelete {
    /// Goes on with the answer to the last action.
    pub fn step(self, config: &Config, event: Event) -> (stepped: (OrgDelete, Progress<u32>))
        requires
            self@.awaits(event@),
        ensures
            (stepped.0@, stepped.1@) == self@.next(config.knative_serving_svc@, event@),
    {
        let id = self.id;
        match self.phase {
            OrgDeletePhase::First(stop) => {
                let (stop, progress) = stop.step(config, event);
                match progress {
                    Progress::Act(action) => (
                        OrgDelete { id, phase: OrgDeletePhase::First(stop) },
                        Progress::Act(action),
                    ),
                    Progress::Finished(_) => {
                        let (stop, action) = org_stop(id);
                        (
                            OrgDelete { id, phase: OrgDeletePhase::Second(stop) },
                            Progress::Act(action),
                        )
                    },
                    Progress::Failed => (
                        OrgDelete { id, phase: OrgDeletePhase::Ended },
                        Progress::Failed,
                    ),
                }
            },
            OrgDeletePhase::Second(stop) => {
                let (stop, progress) = stop.step(config, event);
                match progress {
                    Progress::Act(action) => (
                        OrgDelete { id, phase: OrgDeletePhase::Second(stop) },
                        Progress::Act(action),
                    ),
                    Progress::Finished(projects_deleted) => (
                        OrgDelete { id, phase: OrgDeletePhase::Removing { projects_deleted } },
                        Progress::Act(Action::DeleteOrg { org_id: id }),
                    ),
                    Progress::Failed => (
                        OrgDelete { id, phase: OrgDeletePhase::Ended },
                        Progress::Failed,
                    ),
                }
            },
            OrgDeletePhase::Removing { projects_deleted } => {
                let progress = match event {
                    Event::Failed => Progress::Failed,
                    _ => Progress::Finished(projects_deleted),
                };
                (OrgDelete { id, phase: OrgDeletePhase::Ended }, progress)
            },
            OrgDeletePhase::Ended => (
                OrgDelete { id, phase: OrgDeletePhase::Ended },
                Progress::Failed,
            ),
        }
    }
}

/// What follows `tail` in the first pass, where `rest` is left to delete.
proof fn lemma_first_pass(
    svc: Seq<char>,
    id: i32,
    count: u32,
    rest: Seq<ProjectView>,
    tail: Seq<EventView>,
)
    ensures
        ({
            let second = OrgDeleteView {
                id,
                phase: OrgDeletePhaseView::Second(OrgStopView::Listing),
            };
            let (stop, progress) = stopping(svc, count, rest);
            let deleting = OrgDeleteView { id, phase: OrgDeletePhaseView::First(stop) };
            let events = all_done(rest.len()) + tail;
            let listing = ProgressView::<u32>::Act(ActionView::FetchProjects { org_id: id });
            rest.len() > 0 ==> {
                &&& deleting.awaits_all(svc, events) == second.awaits_all(svc, tail)
                &&& seq![progress] + deleting.run(svc, events) == deletions(svc, rest) + seq![
                    listing,
                ] + second.run(svc, tail)
            }
        }),
    decreases rest.len(),
{
    if rest.len() > 0 {
        let second = OrgDeleteView { id, phase: OrgDeletePhaseView::Second(OrgStopView::Listing) };
        let (stop, progress) = stopping(svc, count, rest);
        let deleting = OrgDeleteView { id, phase: OrgDeletePhaseView::First(stop) };
        let events = all_done(rest.len()) + tail;
        let after = rest.drop_first();
        let then = deleting.next(svc, events.first());
        lemma_first_pass(svc, id, count, after, tail);
        assert(events.drop_first() == all_done(after.len()) + tail);
        assert(deletions::<u32>(svc, rest) == seq![progress] + deletions::<u32>(svc, after));
        if after.len() == 0 {
            assert(events.drop_first() == tail);
            assert(then.0 == second);
            assert(deletions::<u32>(svc, after) == Seq::<ProgressView<u32>>::empty());
        }
        assert(deleting.run(svc, events) == seq![then.1] + then.0.run(svc, events.drop_first()));
    }
}

/// What follows in the second pass, where `rest` is left to delete.
proof fn lemma_second_pass(
    svc: Seq<char>,
    id: i32,
    count: u32,
    rest: Seq<ProjectView>,
)
    ensures
        ({
            let (stop, progress) = stopping(svc, count, rest);
            let deleting = OrgDeleteView { id, phase: OrgDeletePhaseView::Second(stop) };
            let events = all_done(rest.len() + 1);
            let removal = ProgressView::<u32>::Act(ActionView::DeleteOrg { org_id: id });
            rest.len() > 0 ==> {
                &&& deleting.awaits_all(svc, events)
                &&& seq![progress] + deleting.run(svc, events) == deletions(svc, rest) + seq![
                    removal,
                    ProgressView::Finished(count),
                ]
            }
        }),
    decreases rest.len(),
{
    if rest.len() > 0 {
        let (stop, progress) = stopping(svc, count, rest);
        let deleting = OrgDeleteView { id, phase: OrgDeletePhaseView::Second(stop) };
        let events = all_done(rest.len() + 1);
        let after = rest.drop_first();
        let then = deleting.next(svc, events.first());
        lemma_second_pass(svc, id, count, after);
        assert(events.drop_first() == all_done(after.len() + 1));
        assert(deletions::<u32>(svc, rest) == seq![progress] + deletions::<u32>(svc, after));
        if after.len() == 0 {
            lemma_removal(svc, id, count);
            assert(deletions::<u32>(svc, after) == Seq::<ProgressView<u32>>::empty());
        }
        assert(deleting.run(svc, events) == seq![then.1] + then.0.run(svc, events.drop_first()));
    }
}

proof fn lemma_removal(svc: Seq<char>, id: i32, count: u32)
    ensures
        ({
            let removing = OrgDeleteView {
                id,
                phase: OrgDeletePhaseView::Removing { projects_deleted: count },
            };
            &&& removing.awaits_all(svc, all_done(1))
            &&& removing.run(svc, all_done(1)) == seq![ProgressView::Finished(count)]
        }),
{
    assert(all_done(1).drop_first() == Seq::<EventView>::empty());
    reveal_with_fuel(OrgDeleteView::run, 2);
    reveal_with_fuel(OrgDeleteView::awaits_all, 2);
}

/// Deleting an organisation deletes the service of every project that it has, in a
/// first pass and again in a second one over the projects listed then, and only
/// afterwards its record; the number of projects of the second pass is answered.
pub proof fn law_org_delete_stops_projects_first(
    svc: Seq<char>,
    id: i32,
    first: Seq<ProjectView>,
    second: Seq<ProjectView>,
)
    ensures
        ({
            let start = OrgDeleteView { id, phase: OrgDeletePhaseView::First(OrgStopView::Listing) };
            let events = seq![EventView::Projects(first)] + (all_done(first.len()) + (seq![
                EventView::Projects(second),
            ] + all_done(second.len() + 1)));
            &&& start.awaits_all(svc, events)
            &&& start.run(svc, events) == deletions(svc, first) + seq![
                ProgressView::Act(ActionView::FetchProjects { org_id: id }),
            ] + (deletions(svc, second) + seq![
                ProgressView::Act(ActionView::DeleteOrg { org_id: id }),
                ProgressView::Finished(count_of(second.len())),
            ])
        }),
{
    let start = OrgDeleteView { id, phase: OrgDeletePhaseView::First(OrgStopView::Listing) };
    let again = OrgDeleteView { id, phase: OrgDeletePhaseView::Second(OrgStopView::Listing) };
    let count = count_of(second.len());
    let tail = seq![EventView::Projects(second)] + all_done(second.len() + 1);
    let middle = all_done(first.len()) + tail;
    let events = seq![EventView::Projects(first)] + middle;

    assert(tail.drop_first() == all_done(second.len() + 1));
    assert(tail.first() == EventView::Projects(second));
    let (removing, removal) = again.next(svc, tail.first());
    assert(again.run(svc, tail) == seq![removal] + removing.run(svc, all_done(second.len() + 1)));
    if second.len() == 0 {
        lemma_removal(svc, id, count);
    } else {
        lemma_second_pass(svc, id, count, second);
    }
    assert(again.awaits_all(svc, tail));
    assert(again.run(svc, tail) == deletions(svc, second) + seq![
        ProgressView::Act(ActionView::DeleteOrg { org_id: id }),
        ProgressView::Finished(count),
    ]);

    assert(events.drop_first() == middle);
    assert(events.first() == EventView::Projects(first));
    let (deleting, deletion) = start.next(svc, events.first());
    assert(start.run(svc, events) == seq![deletion] + deleting.run(svc, middle));
    if first.len() == 0 {
        assert(middle == tail);
    } else {
        lemma_first_pass(svc, id, count_of(first.len()), first, tail);
    }
}

/// The deletion of an organisation is broken off where an action fails, however far it
/// has come: nothing more is asked for, so that the record of an organisation stays as
/// long as a project of it could not be deleted.
pub proof fn law_failure_breaks_org_delete_off(
    svc: Seq<char>,
    delete: OrgDeleteView,
    event: EventView,
)
    ensures
        delete.next(svc, EventView::Failed).1 == ProgressView::<u32>::Failed,
        !delete.next(svc, EventView::Failed).0.awaits(event),
{
}

/// Stopping an organisation goes on with exactly the events that answer what was asked
/// for, from its start on and after each step.
pub proof fn law_org_stop_awaits_answers(
    svc: Seq<char>,
    id: i32,
    stop: OrgStopView,
    event: EventView,
    answer: EventView,
)
    ensures
        ({
            let asked = ActionView::FetchProjects { org_id: id };
            OrgStopView::Listing.awaits(answer) == asked.is_answered_by(answer)
        }),
        stop.next(svc, event).0.awaits(answer) == stop.next(svc, event).1.is_answered_by(answer),
{
}

/// The deletion of an organisation goes on with exactly the events that answer what it
/// asked for, from its start on and after each step.
pub proof fn law_org_delete_awaits_answers(
    svc: Seq<char>,
    id: i32,
    delete: OrgDeleteView,
    event: EventView,
    answer: EventView,
)
    ensures
        ({
            let start = OrgDeleteView { id, phase: OrgDeletePhaseView::First(OrgStopView::Listing) };
            let asked = ActionView::FetchProjects { org_id: id };
            start.awaits(answer) == asked.is_answered_by(answer)
        }),
        delete.next(svc, event).0.awaits(answer) == delete.next(svc, event).1.is_answered_by(
            answer,
        ),
{
}

/// The credit asked for is taken as the signed number of 32 bits that is the same modulo
/// their range: it is added up to the largest of them, and the rest falls below zero.
pub proof fn law_credit_is_taken_modulo(quantity: u32)
    ensures
        ({
            let taken = OrgUpdate::AddTokenCredit(quantity).quantity();
            &&& taken == quantity || taken == quantity - 0x1_0000_0000
            &&& taken >= 0 <==> quantity < 0x8000_0000
            &&& taken == 0 <==> quantity == 0
        }),
{
}

/// An organisation pays with its credit from one token on: no credit is available without
/// an organisation, without a token, or in debt.
pub proof fn law_credit_is_available_from_one_token(id: i32, credit: i32)
    ensures
        has_credit(Some(Org { id, token_credit: credit })) <==> credit >= 1,
        !has_credit(None),
{
}

/// Stopping an organisation asks for the deletion of each of its projects, the first for
/// the first and so on, and answers how many they are, as far as a number of 32 bits goes.
pub proof fn law_org_stop_deletes_each(svc: Seq<char>, projects: Seq<ProjectView>)
    ensures
        ({
            let events = seq![EventView::Projects(projects)] + Seq::new(
                projects.len(),
                |i: int| EventView::Done,
            );
            let answers = OrgStopView::Listing.run(svc, events);
            &&& answers.len() == projects.len() + 1
            &&& forall|i: int|
                0 <= i < projects.len() ==> answers[i] == ProgressView::<u32>::Act(
                    ActionView::Send(deletion_request(svc, service_name(#[trigger] projects[i]))),
                )
            &&& answers.last() is Finished
            &&& (projects.len() - answers.last()->Finished_0) % 0x1_0000_0000 == 0
            &&& projects.len() <= u32::MAX ==> answers.last()->Finished_0 == projects.len()
        }),
{
    law_org_stop_deletes_all(svc, projects);
    assert(all_done(projects.len()) =~= Seq::new(projects.len(), |i: int| EventView::Done));
}

/// Deleting an organisation asks for the deletion of each project listed first, of each
/// project listed again, and of the record at last, in this order; the number of the
/// projects of the second list is answered, as far as a number of 32 bits goes.
pub proof fn law_org_delete_deletes_each(
    svc: Seq<char>,
    id: i32,
    first: Seq<ProjectView>,
    second: Seq<ProjectView>,
)
    ensures
        ({
            let start = OrgDeleteView { id, phase: OrgDeletePhaseView::First(OrgStopView::Listing) };
            let events = seq![EventView::Projects(first)] + (Seq::new(
                first.len(),
                |i: int| EventView::Done,
            ) + (seq![EventView::Projects(second)] + Seq::new(
                (second.len() + 1) as nat,
                |i: int| EventView::Done,
            )));
            let answers = start.run(svc, events);
            let (n, m) = (first.len() as int, second.len() as int);
            &&& answers.len() == n + m + 3
            &&& forall|i: int|
                0 <= i < n ==> answers[i] == ProgressView::<u32>::Act(
                    ActionView::Send(deletion_request(svc, service_name(#[trigger] first[i]))),
                )
            &&& answers[n] == ProgressView::<u32>::Act(ActionView::FetchProjects { org_id: id })
            &&& forall|i: int|
                0 <= i < m ==> answers[n + 1 + i] == ProgressView::<u32>::Act(
                    ActionView::Send(deletion_request(svc, service_name(#[trigger] second[i]))),
                )
            &&& answers[n + m + 1] == ProgressView::<u32>::Act(ActionView::DeleteOrg { org_id: id })
            &&& answers[n + m + 2] is Finished
            &&& (m - answers[n + m + 2]->Finished_0) % 0x1_0000_0000 == 0
            &&& m <= u32::MAX ==> answers[n + m + 2]->Finished_0 == m
        }),
{
    law_org_delete_stops_projects_first(svc, id, first, second);
    assert(all_done(first.len()) =~= Seq::new(first.len(), |i: int| EventView::Done));
    assert(all_done(second.len() + 1) =~= Seq::new(
        (second.len() + 1) as nat,
        |i: int| EventView::Done,
    ));
}

} // verus!
