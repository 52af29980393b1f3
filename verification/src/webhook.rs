//! Pushes to the repositories of projects, as GitHub reports them.

use vstd::prelude::*;

use crate::config::Config;
use crate::effects::{Action, ActionView, Event, EventView, Progress, ProgressView};
use crate::org::{has_credit, Org};
use crate::project::{rollout_request, ProjectView};
use crate::rollout::{trigger_project_rollout, Rollout, RolloutPhase, RolloutView};

verus! {

/// The owner of a repository.
#[derive(Debug)]
pub struct GithubWebhookEventRepositoryOwner {
    pub name: String,
}

/// A repository.
#[derive(Debug)]
pub struct GithubWebhookEventRepository {
    pub name: String,
    pub default_branch: String,
    pub owner: GithubWebhookEventRepositoryOwner,
}

/// What happened to a repository.
#[derive(Debug)]
pub struct GithubWebhookEvent {
    /// The revision afterwards.
    pub after: String,
    /// The full name of the branch that it happened on.
    pub head_ref: String,
    pub repository: GithubWebhookEventRepository,
}

/// What the header that names the kind of an event says.
#[derive(Clone, Copy, Debug, PartialEq, Eq, Structural)]
pub enum EventKind {
    /// There is no such header, or it is no text.
    Missing,
    Push,
    Unsupported,
}

/// Whether the value of a header is a text: visible ASCII, spaces and tabs.
pub open spec fn is_header_text(value: Seq<u8>) -> bool {
    forall|i: int| 0 <= i < value.len() ==> #[trigger] value[i] == 9 || 32 <= value[i] < 127
}

/// The bytes of `push`.
pub open spec fn push_bytes() -> Seq<u8> {
    seq![112, 117, 115, 104]
}

/// What the header says, given its value where there is one.
pub open spec fn event_kind(header: Option<Seq<u8>>) -> EventKind {
    match header {
        Some(value) => if !is_header_text(value) {
            EventKind::Missing
        } else if value == push_bytes() {
            EventKind::Push
        } else {
            EventKind::Unsupported
        },
        None => EventKind::Missing,
    }
}

/// What is answered to the report of an event.
#[derive(Clone, Copy, Debug, PartialEq, Eq, Structural)]
pub enum HookReply {
    Accepted,
    NotDefaultBranch,
    UnsupportedEvent,
    MissingEvent,
}

impl View for HookReply {
    type V = HookReply;

    open spec fn view(&self) -> HookReply {
        *self
    }
}

impl HookReply {
    /// The HTTP status of the answer.
    pub fn status(&self) -> (status: u16)
        ensures
            status == (if self is Accepted { 200u16 } else { 400u16 }),
    {
        match self {
            HookReply::Accepted => 200,
            _ => 400,
        }
    }

    /// The text of the answer.
    pub open spec fn text(self) -> Seq<char> {
        match self {
            HookReply::Accepted => "ok"@,
            HookReply::NotDefaultBranch => "not default branch"@,
            HookReply::UnsupportedEvent => "event type not supported"@,
            HookReply::MissingEvent => "missing event type"@,
        }
    }

    /// The text of the answer.
    pub fn message(&self) -> (message: &'static str)
        ensures
            message@ == self.text(),
    {
        match self {
            HookReply::Accepted => "ok",
            HookReply::NotDefaultBranch => "not default branch",
            HookReply::UnsupportedEvent => "event type not supported",
            HookReply::MissingEvent => "missing event type",
        }
    }
}

/// A report being handled.
#[derive(Debug)]
pub enum Hook {
    /// The project of the repository is being looked up.
    Finding { after: String },
    /// The revision of the project is being set.
    Updating,
    /// The project is being rolled out.
    RollingOut(Rollout),
    /// It has ended.
    Ended,
}

/// What the handling of a report holds.
pub enum HookView {
    Finding { after: Seq<char> },
    Updating,
    RollingOut(RolloutView),
    Ended,
}

impl View for Hook {
    type V = HookView;

    open spec fn view(&self) -> HookView {
        match self {
            Hook::Finding { after } => HookView::Finding { after: after@ },
            Hook::Updating => HookView::Updating,
            Hook::RollingOut(rollout) => HookView::RollingOut(rollout@),
            Hook::Ended => HookView::Ended,
        }
    }
}

/// The end of the handling.
pub open spec fn answered(reply: HookReply) -> (HookView, ProgressView<HookReply>) {
    (HookView::Ended, ProgressView::Finished(reply))
}

/// Whether the event happened on the default branch of its repository.
pub open spec fn on_default_branch(event: GithubWebhookEvent) -> bool {
    event.head_ref@ == "refs/heads/"@ + event.repository.default_branch@
}

/// How the handling of a report starts. Only a push to the default branch leads on
/// to the project of the repository.
pub open spec fn hook_start(event: GithubWebhookEvent, header: Option<Seq<u8>>) -> (
    HookView,
    ProgressView<HookReply>,
) {
    if !on_default_branch(event) {
        answered(HookReply::NotDefaultBranch)
    } else {
        match event_kind(header) {
            EventKind::Push => (
                HookView::Finding { after: event.after@ },
                ProgressView::Act(
                    ActionView::FindProject {
                        repo_owner: event.repository.owner.name@,
                        repo_name: event.repository.name@,
                    },
                ),
            ),
            EventKind::Unsupported => answered(HookReply::UnsupportedEvent),
            EventKind::Missing => answered(HookReply::MissingEvent),
        }
    }
}

impl HookView {
    /// Whether the handling goes on with `event`.
    pub open spec fn awaits(self, event: EventView) -> bool {
        match self {
            HookView::Finding { .. } => event is Project || event is Failed,
            HookView::Updating => {
                ||| event is Project && event->Project_0 is Some
                ||| event is Failed
            },
            HookView::RollingOut(rollout) => rollout.awaits(event),
            HookView::Ended => false,
        }
    }

    /// The handling after `event`, and what comes next: the project, where there is
    /// one, gets the revision that was pushed and is rolled out.
    pub open spec fn next(self, svc: Seq<char>, event: EventView) -> (
        HookView,
        ProgressView<HookReply>,
    ) {
        match (self, event) {
            (_, EventView::Failed) => (HookView::Ended, ProgressView::Failed),
            (HookView::Finding { after }, EventView::Project(Some(found))) => (
                HookView::Updating,
                ProgressView::Act(
                    ActionView::SetRevision { project_id: found.id, revision: after },
                ),
            ),
            (HookView::Updating, EventView::Project(Some(project))) => (
                HookView::RollingOut(RolloutView { project, phase: RolloutPhase::LookingUp }),
                ProgressView::Act(ActionView::FetchOrg { org_id: project.org_id }),
            ),
            (HookView::RollingOut(rollout), _) => match rollout.next(svc, event) {
                (rollout, ProgressView::Act(action)) => (
                    HookView::RollingOut(rollout),
                    ProgressView::Act(action),
                ),
                (_, ProgressView::Finished(_)) => answered(HookReply::Accepted),
                (_, ProgressView::Failed) => (HookView::Ended, ProgressView::Failed),
            },
            _ => answered(HookReply::Accepted),
        }
    }

    /// The answers to `events`, one after the other.
    pub open spec fn run(self, svc: Seq<char>, events: Seq<EventView>) -> Seq<
        ProgressView<HookReply>,
    >
        decreases events.len(),
    {
        if events.len() == 0 {
            Seq::empty()
        } else {
            let (then, progress) = self.next(svc, events.first());
            seq![progress] + then.run(svc, events.drop_first())
        }
    }

    /// Whether the handling goes on with each of `events`, one after the other.
    pub open spec fn awaits_all(self, svc: Seq<char>, events: Seq<EventView>) -> bool
        decreases events.len(),
    {
        events.len() == 0 || {
            &&& self.awaits(events.first())
            &&& self.next(svc, events.first()).0.awaits_all(svc, events.drop_first())
        }
    }
}

/// Reads the kind of an event off the value of its header.
pub fn kind_of_event(header: Option<&[u8]>) -> (kind: EventKind)
    ensures
        kind == event_kind(
            match header {
                Some(value) => Some(value@),
                None => None,
            },
        ),
{
    let value = match header {
        Some(value) => value,
        None => {
            return EventKind::Missing;
        },
    };
    let mut i: usize = 0;
    while i < value.len()
        invariant
            i <= value.len(),
            header == Some(value),
            forall|j: int| 0 <= j < i ==> #[trigger] value@[j] == 9 || 32 <= value@[j] < 127,
        decreases value.len() - i,
    {
        let byte: u8 = value[i];
        if byte != 9 && (byte < 32 || byte >= 127) {
            assert(!is_header_text(value@)) by {
                assert(value@[i as int] == byte);
            }
            return EventKind::Missing;
        }
        i += 1;
    }
    let push = value.len() == 4 && value[0] == 112 && value[1] == 117 && value[2] == 115
        && value[3] == 104;
    assert(push == (value@ == push_bytes())) by {
        if push {
            assert(value@ =~= push_bytes());
        }
    }
    if push {
        EventKind::Push
    } else {
        EventKind::Unsupported
    }
}

/// Starts to handle the report of an event, with the value of the header that names
/// the kind of the event.
pub fn gh_hook_handler(event: GithubWebhookEvent, header: Option<&[u8]>) -> (started: (
    Hook,
    Progress<HookReply>,
))
    ensures
        (started.0@, started.1@) == hook_start(
            event,
            match header {
                Some(value) => Some(value@),
                None => None,
            },
        ),
{
    let default_ref = "refs/heads/".to_owned().concat(event.repository.default_branch.as_str());
    if event.head_ref != default_ref {
        return (Hook::Ended, Progress::Finished(HookReply::NotDefaultBranch));
    }
    match kind_of_event(header) {
        EventKind::Push => (
            Hook::Finding { after: event.after },
            Progress::Act(
                Action::FindProject {
                    repo_owner: event.repository.owner.name,
                    repo_name: event.repository.name,
                },
            ),
        ),
        EventKind::Unsupported => (
            Hook::Ended,
            Progress::Finished(HookReply::UnsupportedEvent),
        ),
        EventKind::Missing => (Hook::Ended, Progress::Finished(HookReply::MissingEvent)),
    }
}

impl Hook {
    /// Goes on with the answer to the last action.
    pub fn step(self, config: &Config, event: Event) -> (stepped: (Hook, Progress<HookReply>))
        requires
            self@.awaits(event@),
        ensures
            (stepped.0@, stepped.1@) == self@.next(config.knative_serving_svc@, event@),
    {
        match (self, event) {
            (_, Event::Failed) => (Hook::Ended, Progress::Failed),
            (Hook::Finding { after }, Event::Project(Some(found))) => (
                Hook::Updating,
                Progress::Act(Action::SetRevision { project_id: found.id, revision: after }),
            ),
            (Hook::Updating, Event::Project(Some(project))) => {
                let (rollout, action) = trigger_project_rollout(project);
                (Hook::RollingOut(rollout), Progress::Act(action))
            },
            (Hook::RollingOut(rollout), event) => {
                let (rollout, progress) = rollout.step(config, event);
                match progress {
                    Progress::Act(action) => (Hook::RollingOut(rollout), Progress::Act(action)),
                    Progress::Finished(_) => (
                        Hook::Ended,
                        Progress::Finished(HookReply::Accepted),
                    ),
                    Progress::Failed => (Hook::Ended, Progress::Failed),
                }
            },
            _ => (Hook::Ended, Progress::Finished(HookReply::Accepted)),
        }
    }
}

/// Something is done about a report if and only if it reports a push to the default
/// branch; every other report is refused with what is wrong with it.
pub proof fn law_only_pushes_to_default_branch(
    event: GithubWebhookEvent,
    header: Option<Seq<u8>>,
)
    ensures
        hook_start(event, header).1 is Act <==> on_default_branch(event) && event_kind(header)
            is Push,
        !on_default_branch(event) ==> hook_start(event, header) == answered(
            HookReply::NotDefaultBranch,
        ),
        on_default_branch(event) && event_kind(header) is Unsupported ==> hook_start(event, header)
            == answered(HookReply::UnsupportedEvent),
        on_default_branch(event) && event_kind(header) is Missing ==> hook_start(event, header)
            == answered(HookReply::MissingEvent),
{
}

/// A push to the repository of a project sets the revision of the project that was found
/// to the one pushed and then rolls the project out as it is after that, if its organisation has
/// credit left; the report is accepted.
pub proof fn law_push_is_rolled_out(
    svc: Seq<char>,
    after: Seq<char>,
    found: ProjectView,
    updated: ProjectView,
    org: Option<Org>,
)
    ensures
        ({
            let hook = HookView::Finding { after };
            let lookups = seq![
                EventView::Project(Some(found)),
                EventView::Project(Some(updated)),
                EventView::Org(org),
            ];
            let requests = seq![
                ProgressView::Act(
                    ActionView::SetRevision { project_id: found.id, revision: after },
                ),
                ProgressView::Act(ActionView::FetchOrg { org_id: updated.org_id }),
            ];
            let accepted = ProgressView::Finished(HookReply::Accepted);
            let rollout = ProgressView::Act(ActionView::Send(rollout_request(svc, updated)));
            if org is Some && org->0.token_credit > 0 {
                &&& hook.awaits_all(svc, lookups.push(EventView::Done))
                &&& hook.run(svc, lookups.push(EventView::Done)) == requests.push(rollout).push(
                    accepted,
                )
            } else {
                &&& hook.awaits_all(svc, lookups)
                &&& hook.run(svc, lookups) == requests.push(accepted)
            }
        }),
{
    reveal_with_fuel(HookView::run, 5);
    reveal_with_fuel(HookView::awaits_all, 5);
    let hook = HookView::Finding { after };
    let lookups = seq![
        EventView::Project(Some(found)),
        EventView::Project(Some(updated)),
        EventView::Org(org),
    ];
    let events = if has_credit(org) {
        lookups.push(EventView::Done)
    } else {
        lookups
    };
    assert(events.drop_first().first() == EventView::Project(Some(updated)));
    assert(events.drop_first().drop_first().first() == EventView::Org(org));
}

/// In whatever state the handling of a report is, it asks for a rollout only in answer
/// to a lookup that found an organisation with credit left.
pub proof fn law_hook_rollout_needs_credit(svc: Seq<char>, hook: HookView, event: EventView)
    requires
        hook.awaits(event),
    ensures
        ({
            let progress = hook.next(svc, event).1;
            progress is Act && progress->Act_0 is Send ==> {
                &&& event is Org
                &&& event->Org_0 is Some
                &&& event->Org_0->0.token_credit > 0
            }
        }),
{
}

/// A push to a repository that is no project's is accepted, and nothing follows.
pub proof fn law_push_without_project_is_ignored(svc: Seq<char>, after: Seq<char>)
    ensures
        ({
            let hook = HookView::Finding { after };
            &&& hook.next(svc, EventView::Project(None)) == answered(HookReply::Accepted)
            &&& hook.next(svc, EventView::Project(None)).1 == ProgressView::Finished(
                HookReply::Accepted,
            )
        }),
{
}

/// The handling of a report that an action fails in is broken off: nothing more is asked
/// for, so that a project whose revision could not be set is not rolled out.
pub proof fn law_failure_breaks_hook_off(svc: Seq<char>, hook: HookView, event: EventView)
    ensures
        hook.next(svc, EventView::Failed).1 == ProgressView::<HookReply>::Failed,
        !hook.next(svc, EventView::Failed).0.awaits(event),
{
}

/// The handling of a report goes on with exactly the events that answer what it asked for,
/// from its start on and after each step.
pub proof fn law_hook_awaits_answers(
    svc: Seq<char>,
    report: GithubWebhookEvent,
    header: Option<Seq<u8>>,
    hook: HookView,
    event: EventView,
    answer: EventView,
)
    ensures
        hook_start(report, header).0.awaits(answer) == hook_start(report, header).1.is_answered_by(
            answer,
        ),
        hook.next(svc, event).0.awaits(answer) == hook.next(svc, event).1.is_answered_by(answer),
{
}

/// A push report leads to the lookup of the project of its repository if and only if its
/// ref is `refs/heads/` and then the name of the default branch, whatever that name is; with
/// any other ref it is refused for not being on the default branch, whatever the header
/// says.
pub proof fn law_hook_goes_by_the_ref(event: GithubWebhookEvent, header: Option<Seq<u8>>)
    ensures
        ({
            let prefix = "refs/heads/"@;
            let on_default = {
                &&& event.head_ref@.len() == prefix.len() + event.repository.default_branch@.len()
                &&& event.head_ref@.take(prefix.len() as int) == prefix
                &&& event.head_ref@.skip(prefix.len() as int) == event.repository.default_branch@
            };
            let push = header is Some && header->0 == seq![112u8, 117u8, 115u8, 104u8];
            let (hook, progress) = hook_start(event, header);
            &&& on_default && push <==> progress is Act
            &&& on_default && push ==> progress->Act_0 == ActionView::FindProject {
                repo_owner: event.repository.owner.name@,
                repo_name: event.repository.name@,
            }
            &&& on_default && push ==> hook == HookView::Finding { after: event.after@ }
            &&& !on_default <==> progress == ProgressView::Finished(HookReply::NotDefaultBranch)
            &&& !(on_default && push) ==> forall|answer: EventView| !#[trigger] hook.awaits(answer)
        }),
{
    let prefix = "refs/heads/"@;
    let branch = event.repository.default_branch@;
    assert((prefix + branch).take(prefix.len() as int) =~= prefix);
    assert((prefix + branch).skip(prefix.len() as int) =~= branch);
    if event.head_ref@.len() >= prefix.len() {
        assert(event.head_ref@ =~= event.head_ref@.take(prefix.len() as int)
            + event.head_ref@.skip(prefix.len() as int));
    }
    let pushed = seq![112u8, 117u8, 115u8, 104u8];
    assert(is_header_text(pushed)) by {
        assert forall|i: int| 0 <= i < pushed.len() implies #[trigger] pushed[i] == 9 || 32
            <= pushed[i] < 127 by {}
    }
}

/// On the default branch, what is refused is told apart by the header: one that is missing,
/// or holds a byte that is neither a tab nor from the space to the tilde, is missing, and
/// any text but `push` is not supported.
pub proof fn law_hook_goes_by_the_header(event: GithubWebhookEvent, value: Seq<u8>)
    requires
        event.head_ref@ == "refs/heads/"@ + event.repository.default_branch@,
        value != seq![112u8, 117u8, 115u8, 104u8],
    ensures
        hook_start(event, None).1 == ProgressView::Finished(HookReply::MissingEvent),
        (exists|i: int|
            0 <= i < value.len() && #[trigger] value[i] != 9 && (value[i] < 32 || value[i] > 126))
            ==> hook_start(event, Some(value)).1 == ProgressView::Finished(HookReply::MissingEvent),
        (forall|i: int|
            0 <= i < value.len() ==> #[trigger] value[i] == 9 || 32 <= value[i] <= 126)
            ==> hook_start(event, Some(value)).1 == ProgressView::Finished(
            HookReply::UnsupportedEvent,
        ),
{
}

} // verus!
