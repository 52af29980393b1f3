//! Billing: in each cycle, what services used is priced, the tokens that it costs
//! are taken off the credit of their organisations, and what does not make up a
//! whole token is stashed for the next cycle.

use std::collections::HashMap;

use vstd::prelude::*;

use crate::config::Config;
use crate::credit::{
    change_credit, credit_expression, evaluated, law_credit_is_written_once,
    law_expression_comes_to_the_sum, lemma_requests_differ, CreditUpdate, CreditUpdateView,
};
use crate::effects::{Action, ActionView, Charge, Event, EventView, Progress, ProgressView};
use crate::metrics::{metric_views, BillingWindow, Metric, MetricView};
use crate::org::Org;
use crate::project::{
    deletion_request, law_org_stands_behind_the_last_dash, rollout_request, service_org,
    service_org_id, trigger_service_deletion, ProjectView,
};
use crate::text::i32_value;

verus! {

/// What is billed.
#[derive(Clone, Copy, Debug, Hash, PartialEq, Eq, Structural)]
pub enum MetricKind {
    RequestServed,
    CpuUsed,
}

/// The usage of each organisation that is not billed yet, by kind: the bits of
/// binary64 numbers.
#[derive(Debug)]
pub struct BillingStash {
    request_served: HashMap<i32, u64>,
    cpu_used: HashMap<i32, u64>,
}

impl View for BillingStash {
    type V = Map<(i32, MetricKind), u64>;

    closed spec fn view(&self) -> Map<(i32, MetricKind), u64> {
        Map::new(
            |key: (i32, MetricKind)|
                match key.1 {
                    MetricKind::RequestServed => self.request_served@.contains_key(key.0),
                    MetricKind::CpuUsed => self.cpu_used@.contains_key(key.0),
                },
            |key: (i32, MetricKind)|
                match key.1 {
                    MetricKind::RequestServed => self.request_served@[key.0],
                    MetricKind::CpuUsed => self.cpu_used@[key.0],
                },
        )
    }
}

/// What is stashed for an organisation: the bits of zero where nothing is.
pub open spec fn stashed(stash: Map<(i32, MetricKind), u64>, org_id: i32, kind: MetricKind) -> u64 {
    if stash.contains_key((org_id, kind)) {
        stash[(org_id, kind)]
    } else {
        0
    }
}

impl BillingStash {
    /// A stash with nothing in it.
    pub fn new() -> (stash: BillingStash)
        ensures
            stash@ == Map::<(i32, MetricKind), u64>::empty(),
    {
        let stash = BillingStash { request_served: HashMap::new(), cpu_used: HashMap::new() };
        assert(stash@ =~= Map::<(i32, MetricKind), u64>::empty());
        stash
    }

    /// What is stashed for an organisation.
    pub fn get(&self, org_id: i32, kind: MetricKind) -> (usage: u64)
        ensures
            usage == stashed(self@, org_id, kind),
    {
        broadcast use vstd::std_specs::hash::group_hash_axioms;

        let found = match kind {
            MetricKind::RequestServed => self.request_served.get(&org_id),
            MetricKind::CpuUsed => self.cpu_used.get(&org_id),
        };
        match found {
            Some(usage) => *usage,
            None => 0,
        }
    }

    /// Stashes a usage for an organisation, in place of what was stashed before.
    pub fn insert(&mut self, org_id: i32, kind: MetricKind, usage: u64)
        ensures
            final(self)@ == old(self)@.insert((org_id, kind), usage),
    {
        broadcast use vstd::std_specs::hash::group_hash_axioms;

        match kind {
            MetricKind::RequestServed => {
                self.request_served.insert(org_id, usage);
            },
            MetricKind::CpuUsed => {
                self.cpu_used.insert(org_id, usage);
            },
        }
        assert(self@ =~= old(self)@.insert((org_id, kind), usage));
    }
}

/// The succession of billing cycles.
#[derive(Clone, Copy, Debug, PartialEq, Eq, Structural)]
pub struct BillingCycles {
    /// When the last one began, in seconds since the epoch.
    pub last_billing_cycle_at: Option<i64>,
}

impl BillingCycles {
    /// No cycle has begun yet.
    pub fn new() -> (cycles: BillingCycles)
        ensures
            cycles.last_billing_cycle_at is None,
    {
        BillingCycles { last_billing_cycle_at: None }
    }

    /// Begins a cycle. It bills the time since the one before; the first one bills
    /// nothing.
    pub fn begin(&mut self, now: i64) -> (window: Option<BillingWindow>)
        ensures
            final(self).last_billing_cycle_at == Some(now),
            window == cycle_window(old(self).last_billing_cycle_at, now),
    {
        let last = self.last_billing_cycle_at;
        self.last_billing_cycle_at = Some(now);
        match last {
            Some(start) => Some(BillingWindow { start, end: now }),
            None => None,
        }
    }
}

/// The time that a cycle bills, where the one before began at `last`.
pub open spec fn cycle_window(last: Option<i64>, now: i64) -> Option<BillingWindow> {
    match last {
        Some(start) => Some(BillingWindow { start, end: now }),
        None => None,
    }
}

/// A billing that a cycle starts: one kind of usage, over one window.
#[derive(Clone, Copy, Debug, PartialEq, Eq, Structural)]
pub struct CycleBilling {
    pub kind: MetricKind,
    pub window: BillingWindow,
}

/// The billings that a cycle starts: each kind once, over its window; none where there is
/// nothing to bill.
pub open spec fn cycle_billings(window: Option<BillingWindow>) -> Seq<CycleBilling> {
    match window {
        Some(window) => seq![
            CycleBilling { kind: MetricKind::RequestServed, window },
            CycleBilling { kind: MetricKind::CpuUsed, window },
        ],
        None => Seq::empty(),
    }
}

/// Tells the billings that a cycle starts.
pub fn billings_of_cycle(window: Option<BillingWindow>) -> (billings: Vec<CycleBilling>)
    ensures
        billings@ == cycle_billings(window),
{
    let mut billings = Vec::new();
    if let Some(window) = window {
        billings.push(CycleBilling { kind: MetricKind::RequestServed, window });
        billings.push(CycleBilling { kind: MetricKind::CpuUsed, window });
    }
    billings
}

/// The billings that the cycles that begin at `times` start, one cycle after the other.
pub open spec fn all_billings(last: Option<i64>, times: Seq<i64>) -> Seq<CycleBilling>
    decreases times.len(),
{
    if times.len() == 0 {
        Seq::empty()
    } else {
        cycle_billings(cycle_window(last, times.first())) + all_billings(
            Some(times.first()),
            times.drop_first(),
        )
    }
}

/// The windows that one kind of usage is billed over, in their order.
pub open spec fn windows_of(billings: Seq<CycleBilling>, kind: MetricKind) -> Seq<BillingWindow>
    decreases billings.len(),
{
    if billings.len() == 0 {
        Seq::empty()
    } else {
        let rest = windows_of(billings.drop_first(), kind);
        if billings.first().kind == kind {
            seq![billings.first().window] + rest
        } else {
            rest
        }
    }
}

/// When the last cycle began, after those that begin at `times`.
pub open spec fn last_cycle(last: Option<i64>, times: Seq<i64>) -> Option<i64>
    decreases times.len(),
{
    if times.len() == 0 {
        last
    } else {
        last_cycle(Some(times.first()), times.drop_first())
    }
}

/// When cycles began, with the last one before them.
pub open spec fn moments(last: Option<i64>, times: Seq<i64>) -> Seq<i64> {
    match last {
        Some(start) => seq![start] + times,
        None => times,
    }
}

proof fn lemma_windows_of_cycle(
    window: Option<BillingWindow>,
    rest: Seq<CycleBilling>,
    kind: MetricKind,
)
    ensures
        windows_of(cycle_billings(window) + rest, kind) == match window {
            Some(window) => seq![window] + windows_of(rest, kind),
            None => windows_of(rest, kind),
        },
{
    let billings = cycle_billings(window) + rest;
    match window {
        Some(_) => {
            assert(billings.drop_first().drop_first() == rest);
            reveal_with_fuel(windows_of, 3);
        },
        None => {
            assert(billings == rest);
        },
    }
}

/// The windows of the cycles that begin at `times`, one after the other.
pub open spec fn cycle_windows(last: Option<i64>, times: Seq<i64>) -> Seq<Option<BillingWindow>>
    decreases times.len(),
{
    if times.len() == 0 {
        Seq::empty()
    } else {
        seq![cycle_window(last, times.first())] + cycle_windows(
            Some(times.first()),
            times.drop_first(),
        )
    }
}

/// No time goes unbilled and none is billed twice: each cycle but the first bills
/// from the beginning of the cycle before to its own. Both kinds of usage are billed once
/// over each of these windows, and over no other; the beginning of the last cycle is kept.
pub proof fn law_windows_are_seamless(last: Option<i64>, times: Seq<i64>, kind: MetricKind)
    ensures
        cycle_windows(last, times).len() == times.len(),
        times.len() > 0 ==> cycle_windows(last, times)[0] == cycle_window(last, times[0]),
        forall|i: int|
            0 < i < times.len() ==> #[trigger] cycle_windows(last, times)[i] == Some(
                BillingWindow { start: times[i - 1], end: times[i] },
            ),
        ({
            let windows = windows_of(all_billings(last, times), kind);
            let moments = match last {
                Some(start) => seq![start] + times,
                None => times,
            };
            &&& windows.len() == if moments.len() == 0 {
                0
            } else {
                moments.len() - 1
            }
            &&& forall|i: int|
                0 <= i < windows.len() ==> #[trigger] windows[i] == (BillingWindow {
                    start: moments[i],
                    end: moments[i + 1],
                })
        }),
        times.len() > 0 ==> last_cycle(last, times) == Some(times.last()),
    decreases times.len(),
{
    if times.len() > 0 {
        let rest = times.drop_first();
        let windows = cycle_windows(last, times);
        let tail = cycle_windows(Some(times.first()), rest);
        law_windows_are_seamless(Some(times.first()), rest, kind);
        let window = cycle_window(last, times.first());
        lemma_windows_of_cycle(window, all_billings(Some(times.first()), rest), kind);
        assert(moments(Some(times.first()), rest) == times);
        assert forall|i: int| 0 < i < times.len() implies #[trigger] windows[i] == Some(
            BillingWindow { start: times[i - 1], end: times[i] },
        ) by {
            assert(windows[i] == tail[i - 1]);
        }
    }
}

/// What a number of tokens changes a credit by: it is taken off, as far as a signed
/// number of 32 bits goes.
pub open spec fn debit(used_token: u64) -> i32 {
    if used_token < 0x8000_0000 {
        (-used_token) as i32
    } else {
        i32::MIN
    }
}

/// Takes a number of tokens as a change of a credit.
pub fn debit_of(used_token: u64) -> (quantity: i32)
    ensures
        quantity == debit(used_token),
{
    if used_token < 0x8000_0000 {
        -(used_token as i32)
    } else {
        i32::MIN
    }
}

/// How billing ends.
#[derive(Clone, Copy, Debug, PartialEq, Eq, Structural)]
pub enum BillingEnd {
    /// Every service is billed.
    Billed,
    /// A service has a name that names no organisation.
    Unattributable,
}

impl View for BillingEnd {
    type V = BillingEnd;

    open spec fn view(&self) -> BillingEnd {
        *self
    }
}

/// What is being done about a service.
#[derive(Debug)]
pub enum BillingPhase {
    /// Its usage is being priced.
    Pricing { org_id: i32, service_name: String },
    /// Its price is being taken off the credit of its organisation.
    Debiting { org_id: i32, service_name: String, stashed: u64, update: CreditUpdate },
    /// It is being deleted, as its organisation does not exist.
    Removing { org_id: i32, service_name: String, stashed: u64 },
    /// Billing has ended.
    Ended,
}

/// What the phase of billing holds.
pub enum BillingPhaseView {
    Pricing { org_id: i32, service_name: Seq<char> },
    Debiting { org_id: i32, service_name: Seq<char>, stashed: u64, update: CreditUpdateView },
    Removing { org_id: i32, service_name: Seq<char>, stashed: u64 },
    Ended,
}

impl View for BillingPhase {
    type V = BillingPhaseView;

    open spec fn view(&self) -> BillingPhaseView {
        match self {
            BillingPhase::Pricing { org_id, service_name } => BillingPhaseView::Pricing {
                org_id: *org_id,
                service_name: service_name@,
            },
            BillingPhase::Debiting { org_id, service_name, stashed, update } =>
                BillingPhaseView::Debiting {
                org_id: *org_id,
                service_name: service_name@,
                stashed: *stashed,
                update: update@,
            },
            BillingPhase::Removing { org_id, service_name, stashed } =>
                BillingPhaseView::Removing {
                org_id: *org_id,
                service_name: service_name@,
                stashed: *stashed,
            },
            BillingPhase::Ended => BillingPhaseView::Ended,
        }
    }
}

/// The services being billed for one kind of usage, one after the other.
#[derive(Debug)]
pub struct BillingRun {
    pub kind: MetricKind,
    /// The services that are not billed yet, but for the one at hand.
    pub rest: Vec<Metric>,
    pub phase: BillingPhase,
}

/// What billing holds.
pub struct BillingRunView {
    pub kind: MetricKind,
    pub rest: Seq<MetricView>,
    pub phase: BillingPhaseView,
}

impl View for BillingRun {
    type V = BillingRunView;

    open spec fn view(&self) -> BillingRunView {
        BillingRunView { kind: self.kind, rest: metric_views(self.rest@), phase: self.phase@ }
    }
}

/// A state of billing, the stash in it, and what comes next.
pub struct BillingStep {
    pub run: BillingRunView,
    pub stash: Map<(i32, MetricKind), u64>,
    pub progress: ProgressView<BillingEnd>,
}

/// The end of billing.
pub open spec fn ended(
    kind: MetricKind,
    rest: Seq<MetricView>,
    stash: Map<(i32, MetricKind), u64>,
    end: BillingEnd,
) -> BillingStep {
    BillingStep {
        run: BillingRunView { kind, rest, phase: BillingPhaseView::Ended },
        stash,
        progress: ProgressView::Finished(end),
    }
}

/// The next service of `rest` is billed: its usage is priced together with what is
/// stashed for its organisation.
pub open spec fn billing(
    kind: MetricKind,
    rest: Seq<MetricView>,
    stash: Map<(i32, MetricKind), u64>,
) -> BillingStep {
    if rest.len() == 0 {
        ended(kind, rest, stash, BillingEnd::Billed)
    } else {
        let metric = rest.first();
        match service_org(metric.service_name) {
            Some(org_id) => BillingStep {
                run: BillingRunView {
                    kind,
                    rest: rest.drop_first(),
                    phase: BillingPhaseView::Pricing { org_id, service_name: metric.service_name },
                },
                stash,
                progress: ProgressView::Act(
                    ActionView::Price {
                        kind,
                        usage: metric.usage,
                        stashed: stashed(stash, org_id, kind),
                    },
                ),
            },
            None => ended(kind, rest.drop_first(), stash, BillingEnd::Unattributable),
        }
    }
}

impl BillingRunView {
    /// Whether billing goes on with `event`.
    pub open spec fn awaits(self, event: EventView) -> bool {
        match self.phase {
            BillingPhaseView::Pricing { .. } => event is Priced || event is Failed,
            BillingPhaseView::Debiting { update, .. } => update.awaits(event),
            BillingPhaseView::Removing { .. } => event is Done || event is Failed,
            BillingPhaseView::Ended => false,
        }
    }

    /// The service at hand is billed: what remains of its usage is stashed, and the
    /// next service follows.
    pub open spec fn booked(
        self,
        stash: Map<(i32, MetricKind), u64>,
        org_id: i32,
        remainder: u64,
    ) -> BillingStep {
        billing(self.kind, self.rest, stash.insert((org_id, self.kind), remainder))
    }

    /// Billing broken off, as an action failed: the stash stays as it is.
    pub open spec fn broken_off(self, stash: Map<(i32, MetricKind), u64>) -> BillingStep {
        BillingStep {
            run: BillingRunView { phase: BillingPhaseView::Ended, ..self },
            stash,
            progress: ProgressView::Failed,
        }
    }

    /// Billing after `event`, and what comes next.
    ///
    /// Where a usage costs tokens, they are taken off the credit of the organisation;
    /// where there is no such organisation, the service is deleted. The remainder is
    /// stashed after that.
    pub open spec fn next(
        self,
        svc: Seq<char>,
        stash: Map<(i32, MetricKind), u64>,
        event: EventView,
    ) -> BillingStep {
        match (self.phase, event) {
            (_, EventView::Failed) => self.broken_off(stash),
            (
                BillingPhaseView::Pricing { org_id, service_name },
                EventView::Priced(Charge { used_token, stashed }),
            ) => if used_token > 0 {
                let quantity = debit(used_token);
                BillingStep {
                    run: BillingRunView {
                        phase: BillingPhaseView::Debiting {
                            org_id,
                            service_name,
                            stashed,
                            update: CreditUpdateView::Adding { quantity },
                        },
                        ..self
                    },
                    stash,
                    progress: ProgressView::Act(
                        ActionView::UpdateCredit {
                            org_id,
                            expression: credit_expression(quantity),
                        },
                    ),
                }
            } else {
                self.booked(stash, org_id, stashed)
            },
            (BillingPhaseView::Debiting { org_id, service_name, stashed, update }, _) =>
            match update.next(svc, event) {
                (update, ProgressView::Act(action)) => BillingStep {
                    run: BillingRunView {
                        phase: BillingPhaseView::Debiting {
                            org_id,
                            service_name,
                            stashed,
                            update,
                        },
                        ..self
                    },
                    stash,
                    progress: ProgressView::Act(action),
                },
                (_, ProgressView::Finished(Some(_))) => self.booked(stash, org_id, stashed),
                (_, ProgressView::Finished(None)) => BillingStep {
                    run: BillingRunView {
                        phase: BillingPhaseView::Removing { org_id, service_name, stashed },
                        ..self
                    },
                    stash,
                    progress: ProgressView::Act(
                        ActionView::Send(deletion_request(svc, service_name)),
                    ),
                },
                (_, ProgressView::Failed) => self.broken_off(stash),
            },
            (BillingPhaseView::Removing { org_id, stashed, .. }, _) => self.booked(
                stash,
                org_id,
                stashed,
            ),
            _ => self.broken_off(stash),
        }
    }
}

fn bill_next(kind: MetricKind, rest: Vec<Metric>, stash: &BillingStash) -> (started: (
    BillingRun,
    Progress<BillingEnd>,
))
    ensures
        (BillingStep { run: started.0@, stash: stash@, progress: started.1@ }) == billing(
            kind,
            metric_views(rest@),
            stash@,
        ),
{
    let mut rest = rest;
    if rest.len() == 0 {
        return (
            BillingRun { kind, rest, phase: BillingPhase::Ended },
            Progress::Finished(BillingEnd::Billed),
        );
    }
    let ghost before = metric_views(rest@);
    let metric = rest.remove(0);
    assert(metric_views(rest@) == before.drop_first());
    assert(before.first() == metric@);
    match service_org_id(metric.service_name.as_str()) {
        Some(org_id) => {
            let stashed = stash.get(org_id, kind);
            let usage = metric.usage;
            let phase = BillingPhase::Pricing { org_id, service_name: metric.service_name };
            (
                BillingRun { kind, rest, phase },
                Progress::Act(Action::Price { kind, usage, stashed }),
            )
        },
        None => (
            BillingRun { kind, rest, phase: BillingPhase::Ended },
            Progress::Finished(BillingEnd::Unattributable),
        ),
    }
}

/// Starts to bill the requests that services served.
pub fn bill_on_request_served(metrics: Vec<Metric>, stash: &BillingStash) -> (started: (
    BillingRun,
    Progress<BillingEnd>,
))
    ensures
        (BillingStep { run: started.0@, stash: stash@, progress: started.1@ }) == billing(
            MetricKind::RequestServed,
            metric_views(metrics@),
            stash@,
        ),
{
    bill_next(MetricKind::RequestServed, metrics, stash)
}

/// Starts to bill the CPU seconds that services used.
pub fn bill_on_cpu_used(metrics: Vec<Metric>, stash: &BillingStash) -> (started: (
    BillingRun,
    Progress<BillingEnd>,
))
    ensures
        (BillingStep { run: started.0@, stash: stash@, progress: started.1@ }) == billing(
            MetricKind::CpuUsed,
            metric_views(metrics@),
            stash@,
        ),
{
    bill_next(MetricKind::CpuUsed, metrics, stash)
}

impl BillingRun {
    /// Goes on with the answer to the last action.
    pub fn step(self, config: &Config, stash: &mut BillingStash, event: Event) -> (stepped: (
        BillingRun,
        Progress<BillingEnd>,
    ))
        requires
            self@.awaits(event@),
        ensures
            (BillingStep { run: stepped.0@, stash: final(stash)@, progress: stepped.1@ })
                == self@.next(config.knative_serving_svc@, old(stash)@, event@),
    {
        let kind = self.kind;
        let rest = self.rest;
        match (self.phase, event) {
            (_, Event::Failed) => (
                BillingRun { kind, rest, phase: BillingPhase::Ended },
                Progress::Failed,
            ),
            (
                BillingPhase::Pricing { org_id, service_name },
                Event::Priced(Charge { used_token, stashed }),
            ) => {
                if used_token > 0 {
                    let quantity = debit_of(used_token);
                    let (update, action) = change_credit(org_id, quantity);
                    let phase = BillingPhase::Debiting { org_id, service_name, stashed, update };
                    (BillingRun { kind, rest, phase }, Progress::Act(action))
                } else {
                    stash.insert(org_id, kind, stashed);
                    bill_next(kind, rest, stash)
                }
            },
            (BillingPhase::Debiting { org_id, service_name, stashed, update }, event) => {
                let (update, progress) = update.step(config, event);
                match progress {
                    Progress::Act(action) => {
                        let phase = BillingPhase::Debiting {
                            org_id,
                            service_name,
                            stashed,
                            update,
                        };
                        (BillingRun { kind, rest, phase }, Progress::Act(action))
                    },
                    Progress::Finished(Some(_)) => {
                        stash.insert(org_id, kind, stashed);
                        bill_next(kind, rest, stash)
                    },
                    Progress::Finished(None) => {
                        let request = trigger_service_deletion(config, service_name.as_str());
                        let phase = BillingPhase::Removing { org_id, service_name, stashed };
                        (BillingRun { kind, rest, phase }, Progress::Act(Action::Send(request)))
                    },
                    Progress::Failed => (
                        BillingRun { kind, rest, phase: BillingPhase::Ended },
                        Progress::Failed,
                    ),
                }
            },
            (BillingPhase::Removing { org_id, stashed, .. }, _) => {
                stash.insert(org_id, kind, stashed);
                bill_next(kind, rest, stash)
            },
            _ => (BillingRun { kind, rest, phase: BillingPhase::Ended }, Progress::Failed),
        }
    }
}

/// A usage that costs tokens always takes some off the credit, and takes off all of
/// them as far as numbers of 32 bits go.
pub proof fn law_debit_takes_off(used_token: u64)
    ensures
        used_token > 0 ==> debit(used_token) < 0,
        used_token <= 0x8000_0000 ==> debit(used_token) == -used_token,
        used_token > 0x8000_0000 ==> debit(used_token) == i32::MIN,
{
}

/// Billing one kind of usage leaves what is stashed of the other kind as it is, and
/// in each step all but one organisation's stash.
pub proof fn law_billing_keeps_other_stashes(
    svc: Seq<char>,
    run: BillingRunView,
    stash: Map<(i32, MetricKind), u64>,
    event: EventView,
    org_id: i32,
    kind: MetricKind,
)
    requires
        kind != run.kind || match run.phase {
            BillingPhaseView::Pricing { org_id: at_hand, .. } => org_id != at_hand,
            BillingPhaseView::Debiting { org_id: at_hand, .. } => org_id != at_hand,
            BillingPhaseView::Removing { org_id: at_hand, .. } => org_id != at_hand,
            BillingPhaseView::Ended => true,
        },
    ensures
        stashed(run.next(svc, stash, event).stash, org_id, kind) == stashed(stash, org_id, kind),
{
}

impl BillingRunView {
    /// Whether nothing that is left to bill, nor the service at hand, concerns what is
    /// stashed of `kind` for an organisation.
    pub open spec fn leaves_alone(self, org_id: i32, kind: MetricKind) -> bool {
        kind != self.kind || {
            &&& forall|i: int|
                0 <= i < self.rest.len() ==> service_org((#[trigger] self.rest[i]).service_name)
                    != Some(org_id)
            &&& match self.phase {
                BillingPhaseView::Pricing { org_id: at_hand, .. } => org_id != at_hand,
                BillingPhaseView::Debiting { org_id: at_hand, .. } => org_id != at_hand,
                BillingPhaseView::Removing { org_id: at_hand, .. } => org_id != at_hand,
                BillingPhaseView::Ended => true,
            }
        }
    }
}

proof fn lemma_start_leaves_alone(
    kind: MetricKind,
    metrics: Seq<MetricView>,
    stash: Map<(i32, MetricKind), u64>,
    org_id: i32,
    other: MetricKind,
)
    requires
        other != kind || forall|i: int|
            0 <= i < metrics.len() ==> service_org((#[trigger] metrics[i]).service_name) != Some(
                org_id,
            ),
    ensures
        billing(kind, metrics, stash).run.leaves_alone(org_id, other),
        billing(kind, metrics, stash).stash == stash,
{
    if metrics.len() > 0 {
        let rest = metrics.drop_first();
        assert(metrics[0] == metrics.first());
        assert forall|i: int| 0 <= i < rest.len() implies #[trigger] rest[i] == metrics[i + 1] by {}
    }
}

proof fn lemma_run_leaves_alone(
    svc: Seq<char>,
    step: BillingStep,
    events: Seq<EventView>,
    org_id: i32,
    kind: MetricKind,
)
    requires
        step.run.leaves_alone(org_id, kind),
    ensures
        ({
            let after = step.after(svc, events).stash;
            &&& after.contains_key((org_id, kind)) == step.stash.contains_key((org_id, kind))
            &&& stashed(after, org_id, kind) == stashed(step.stash, org_id, kind)
        }),
    decreases events.len(),
{
    if events.len() > 0 {
        let run = step.run;
        let then = run.next(svc, step.stash, events.first());
        match run.phase {
            BillingPhaseView::Pricing { org_id: at_hand, .. } => {
                let remainder = events.first()->Priced_0.stashed;
                let stash = step.stash.insert((at_hand, run.kind), remainder);
                lemma_start_leaves_alone(run.kind, run.rest, stash, org_id, kind);
            },
            BillingPhaseView::Debiting { org_id: at_hand, stashed, .. } => {
                let stash = step.stash.insert((at_hand, run.kind), stashed);
                lemma_start_leaves_alone(run.kind, run.rest, stash, org_id, kind);
            },
            BillingPhaseView::Removing { org_id: at_hand, stashed, .. } => {
                let stash = step.stash.insert((at_hand, run.kind), stashed);
                lemma_start_leaves_alone(run.kind, run.rest, stash, org_id, kind);
            },
            BillingPhaseView::Ended => {},
        }
        lemma_run_leaves_alone(svc, then, events.drop_first(), org_id, kind);
    }
}

/// Billing one kind of usage leaves what is stashed of the other kind as it is, and what is
/// stashed for organisations that none of the services names, whatever is answered and
/// however far billing comes.
pub proof fn law_run_keeps_other_stashes(
    svc: Seq<char>,
    kind: MetricKind,
    metrics: Seq<MetricView>,
    stash: Map<(i32, MetricKind), u64>,
    events: Seq<EventView>,
    org_id: i32,
    other: MetricKind,
)
    requires
        other != kind || forall|i: int|
            0 <= i < metrics.len() ==> service_org((#[trigger] metrics[i]).service_name) != Some(
                org_id,
            ),
    ensures
        ({
            let after = billing(kind, metrics, stash).after(svc, events).stash;
            &&& after.contains_key((org_id, other)) == stash.contains_key((org_id, other))
            &&& stashed(after, org_id, other) == stashed(stash, org_id, other)
        }),
{
    lemma_start_leaves_alone(kind, metrics, stash, org_id, other);
    lemma_run_leaves_alone(svc, billing(kind, metrics, stash), events, org_id, other);
}

/// The two kinds of usage can be billed side by side: in whatever order a step of the
/// one and a step of the other come, both lead to the same, and so does the stash.
pub proof fn law_kinds_do_not_interfere(
    svc: Seq<char>,
    a: BillingRunView,
    b: BillingRunView,
    stash: Map<(i32, MetricKind), u64>,
    to_a: EventView,
    to_b: EventView,
)
    requires
        a.kind != b.kind,
    ensures
        ({
            let a_first = a.next(svc, stash, to_a);
            let b_second = b.next(svc, a_first.stash, to_b);
            let b_first = b.next(svc, stash, to_b);
            let a_second = a.next(svc, b_first.stash, to_a);
            &&& a_first.run == a_second.run
            &&& a_first.progress == a_second.progress
            &&& b_first.run == b_second.run
            &&& b_first.progress == b_second.progress
            &&& a_second.stash == b_second.stash
        }),
{
    let a_first = a.next(svc, stash, to_a);
    let b_second = b.next(svc, a_first.stash, to_b);
    let b_first = b.next(svc, stash, to_b);
    let a_second = a.next(svc, b_first.stash, to_a);
    assert(a_second.stash =~= b_second.stash);
}

/// What remains of a usage is stashed only when its price is settled: while a credit
/// is being reduced, or a service deleted, the stash is as it was before.
pub proof fn law_stash_waits_for_settlement(
    svc: Seq<char>,
    run: BillingRunView,
    stash: Map<(i32, MetricKind), u64>,
    event: EventView,
)
    ensures
        ({
            let step = run.next(svc, stash, event);
            step.run.phase is Debiting || step.run.phase is Removing ==> step.stash == stash
        }),
{
}

/// Billing that an action fails in is broken off: nothing more is asked for, the services
/// that are left are not billed, and the stash stays as it is.
pub proof fn law_failure_breaks_billing_off(
    svc: Seq<char>,
    run: BillingRunView,
    stash: Map<(i32, MetricKind), u64>,
    event: EventView,
)
    ensures
        ({
            let step = run.next(svc, stash, EventView::Failed);
            &&& step.progress == ProgressView::<BillingEnd>::Failed
            &&& step.stash == stash
            &&& !step.run.awaits(event)
        }),
{
}

/// What remains of a usage is not forgotten: the next service of the same
/// organisation is priced together with it, in this cycle or in a later one.
pub proof fn law_remainder_is_priced_again(
    kind: MetricKind,
    rest: Seq<MetricView>,
    stash: Map<(i32, MetricKind), u64>,
    org_id: i32,
    remainder: u64,
)
    requires
        rest.len() > 0,
        service_org(rest.first().service_name) == Some(org_id),
    ensures
        billing(kind, rest, stash.insert((org_id, kind), remainder)).progress == (
        ProgressView::<BillingEnd>::Act(
            ActionView::Price { kind, usage: rest.first().usage, stashed: remainder },
        )),
{
}

/// Whether a change of a credit is one that reduces it.
pub open spec fn reduces(update: CreditUpdateView) -> bool {
    match update {
        CreditUpdateView::Adding { quantity } => quantity < 0,
        CreditUpdateView::Listing { resume, .. } => !resume,
        CreditUpdateView::Deleting { .. } => true,
        CreditUpdateView::RollingOut { .. } => false,
        CreditUpdateView::Ended => true,
    }
}

impl BillingRunView {
    /// Whether the credit at hand, if any, is being reduced.
    pub open spec fn only_debits(self) -> bool {
        self.phase is Debiting ==> reduces(self.phase->update)
    }
}

/// Billing only ever reduces credits: it starts out like that and each step keeps it
/// so.
pub proof fn law_billing_only_debits(
    svc: Seq<char>,
    kind: MetricKind,
    metrics: Seq<MetricView>,
    stash: Map<(i32, MetricKind), u64>,
    run: BillingRunView,
    event: EventView,
)
    ensures
        billing(kind, metrics, stash).run.only_debits(),
        run.only_debits() && run.awaits(event) ==> run.next(svc, stash, event).run.only_debits(),
{
}

/// Billing never rolls a project out.
pub proof fn law_billing_never_rolls_out(
    svc: Seq<char>,
    run: BillingRunView,
    stash: Map<(i32, MetricKind), u64>,
    event: EventView,
    project: ProjectView,
)
    requires
        run.only_debits(),
        run.awaits(event),
    ensures
        run.next(svc, stash, event).progress != (ProgressView::<BillingEnd>::Act(
            ActionView::Send(rollout_request(svc, project)),
        )),
{
    assert forall|name: Seq<char>|
        rollout_request(svc, project) != #[trigger] deletion_request(svc, name) by {
        lemma_requests_differ(svc, project, name);
    }
}

/// Whether `events` lead a change of a credit to its end, which is `result`.
pub open spec fn completes(
    svc: Seq<char>,
    update: CreditUpdateView,
    events: Seq<EventView>,
    result: Option<Org>,
) -> bool
    decreases events.len(),
{
    events.len() > 0 && update.awaits(events.first()) && match update.next(svc, events.first()) {
        (update, ProgressView::Act(_)) => completes(svc, update, events.drop_first(), result),
        (_, ProgressView::Finished(org)) => org == result && events.len() == 1,
        (_, ProgressView::Failed) => false,
    }
}

/// How the billing of one service goes: its price, the answers that lead through the
/// change of the credit, where the price is not zero, and the organisation then.
pub struct Billing {
    pub charge: Charge,
    pub events: Seq<EventView>,
    pub org: Option<Org>,
}

impl Billing {
    /// Whether the answers lead through.
    pub open spec fn completes(self, svc: Seq<char>) -> bool {
        self.charge.used_token > 0 ==> completes(
            svc,
            CreditUpdateView::Adding { quantity: debit(self.charge.used_token) },
            self.events,
            self.org,
        )
    }

    /// All that is answered while the service is billed.
    pub open spec fn answers(self) -> Seq<EventView> {
        let priced = seq![EventView::Priced(self.charge)];
        if self.charge.used_token == 0 {
            priced
        } else if self.org is Some {
            priced + self.events
        } else {
            priced + self.events + seq![EventView::Done]
        }
    }
}

impl BillingStep {
    /// Where billing has come to after `events`.
    pub open spec fn after(self, svc: Seq<char>, events: Seq<EventView>) -> BillingStep
        decreases events.len(),
    {
        if events.len() == 0 {
            self
        } else {
            self.run.next(svc, self.stash, events.first()).after(svc, events.drop_first())
        }
    }

    /// The answers to `events`, one after the other.
    pub open spec fn trace(self, svc: Seq<char>, events: Seq<EventView>) -> Seq<
        ProgressView<BillingEnd>,
    >
        decreases events.len(),
    {
        if events.len() == 0 {
            Seq::empty()
        } else {
            let then = self.run.next(svc, self.stash, events.first());
            seq![then.progress] + then.trace(svc, events.drop_first())
        }
    }

    /// Whether billing goes on with each of `events`, one after the other.
    pub open spec fn awaits_all(self, svc: Seq<char>, events: Seq<EventView>) -> bool
        decreases events.len(),
    {
        events.len() == 0 || {
            &&& self.run.awaits(events.first())
            &&& self.run.next(svc, self.stash, events.first()).awaits_all(
                svc,
                events.drop_first(),
            )
        }
    }
}

/// The changes of credits that are asked for among several progresses, in their order.
pub open spec fn credit_changes(progresses: Seq<ProgressView<BillingEnd>>) -> Seq<ActionView>
    decreases progresses.len(),
{
    if progresses.len() == 0 {
        Seq::empty()
    } else {
        let rest = credit_changes(progresses.drop_first());
        match progresses.first() {
            ProgressView::Act(action) => if action is UpdateCredit {
                seq![action] + rest
            } else {
                rest
            },
            _ => rest,
        }
    }
}

/// The change of a credit that the price of one service leads to: the price is taken off
/// the credit of its organisation, where it is not zero.
pub open spec fn debits_of(org_id: i32, charge: Charge) -> Seq<ActionView> {
    if charge.used_token > 0 {
        seq![
            ActionView::UpdateCredit {
                org_id,
                expression: credit_expression(debit(charge.used_token)),
            },
        ]
    } else {
        Seq::empty()
    }
}

/// The changes of credits that the prices of several services lead to, in their order.
pub open spec fn debits(metrics: Seq<MetricView>, billings: Seq<Billing>) -> Seq<ActionView>
    decreases metrics.len(),
{
    if metrics.len() == 0 {
        Seq::empty()
    } else {
        debits_of(service_org(metrics.first().service_name)->0, billings.first().charge) + debits(
            metrics.drop_first(),
            billings.drop_first(),
        )
    }
}

/// All that is answered while several services are billed.
pub open spec fn all_answers(billings: Seq<Billing>) -> Seq<EventView>
    decreases billings.len(),
{
    if billings.len() == 0 {
        Seq::empty()
    } else {
        billings.first().answers() + all_answers(billings.drop_first())
    }
}

/// The stash after several services were billed: for each of their organisations,
/// what remained of the last usage.
pub open spec fn stash_after(
    kind: MetricKind,
    metrics: Seq<MetricView>,
    stash: Map<(i32, MetricKind), u64>,
    billings: Seq<Billing>,
) -> Map<(i32, MetricKind), u64>
    decreases metrics.len(),
{
    if metrics.len() == 0 {
        stash
    } else {
        stash_after(
            kind,
            metrics.drop_first(),
            stash.insert(
                (service_org(metrics.first().service_name)->0, kind),
                billings.first().charge.stashed,
            ),
            billings.drop_first(),
        )
    }
}

pub(crate) proof fn lemma_after_splits(
    step: BillingStep,
    svc: Seq<char>,
    first: Seq<EventView>,
    second: Seq<EventView>,
)
    ensures
        step.after(svc, first + second) == step.after(svc, first).after(svc, second),
        step.awaits_all(svc, first + second) == (step.awaits_all(svc, first) && step.after(
            svc,
            first,
        ).awaits_all(svc, second)),
        step.trace(svc, first + second) == step.trace(svc, first) + step.after(svc, first).trace(
            svc,
            second,
        ),
    decreases first.len(),
{
    if first.len() == 0 {
        assert(first + second == second);
        assert(step.trace(svc, first) + step.trace(svc, second) == step.trace(svc, second));
    } else {
        let then = step.run.next(svc, step.stash, first.first());
        lemma_after_splits(then, svc, first.drop_first(), second);
        assert((first + second).drop_first() == first.drop_first() + second);
        assert((first + second).first() == first.first());
    }
}

proof fn lemma_credit_changes_add(
    first: Seq<ProgressView<BillingEnd>>,
    second: Seq<ProgressView<BillingEnd>>,
)
    ensures
        credit_changes(first + second) == credit_changes(first) + credit_changes(second),
    decreases first.len(),
{
    if first.len() == 0 {
        assert(first + second == second);
    } else {
        lemma_credit_changes_add(first.drop_first(), second);
        assert((first + second).drop_first() == first.drop_first() + second);
    }
}

/// What one event leads to, and what the rest does.
proof fn lemma_trace_of_first(step: BillingStep, svc: Seq<char>, events: Seq<EventView>)
    requires
        events.len() > 0,
    ensures
        ({
            let then = step.run.next(svc, step.stash, events.first());
            credit_changes(step.trace(svc, events)) == credit_changes(seq![then.progress])
                + credit_changes(then.trace(svc, events.drop_first()))
        }),
{
    let then = step.run.next(svc, step.stash, events.first());
    lemma_credit_changes_add(seq![then.progress], then.trace(svc, events.drop_first()));
}

proof fn lemma_changes_of_one(progress: ProgressView<BillingEnd>)
    ensures
        credit_changes(seq![progress]) == match progress {
            ProgressView::Act(action) => if action is UpdateCredit {
                seq![action]
            } else {
                Seq::empty()
            },
            _ => Seq::empty(),
        },
{
    assert(seq![progress].drop_first() == Seq::<ProgressView<BillingEnd>>::empty());
    reveal_with_fuel(credit_changes, 2);
}

proof fn lemma_debiting(
    svc: Seq<char>,
    step: BillingStep,
    events: Seq<EventView>,
    result: Option<Org>,
)
    requires
        step.run.phase is Debiting,
        completes(svc, step.run.phase->update, events, result),
    ensures
        ({
            let org_id = step.run.phase->Debiting_org_id;
            let service_name = step.run.phase->Debiting_service_name;
            let remainder = step.run.phase->Debiting_stashed;
            &&& step.awaits_all(svc, events)
            &&& credit_changes(step.trace(svc, events)) == Seq::<ActionView>::empty()
            &&& result is Some ==> step.after(svc, events) == step.run.booked(
                step.stash,
                org_id,
                remainder,
            )
            &&& result is None ==> {
                let end = step.after(svc, events);
                &&& end.run.kind == step.run.kind
                &&& end.run.rest == step.run.rest
                &&& end.stash == step.stash
                &&& end.run.phase == BillingPhaseView::Removing {
                    org_id,
                    service_name,
                    stashed: remainder,
                }
                &&& end.progress == ProgressView::<BillingEnd>::Act(
                    ActionView::Send(deletion_request(svc, service_name)),
                )
            }
        }),
    decreases events.len(),
{
    let then = step.run.next(svc, step.stash, events.first());
    assert(step.after(svc, events) == then.after(svc, events.drop_first()));
    lemma_trace_of_first(step, svc, events);
    lemma_changes_of_one(then.progress);
    match step.run.phase->update.next(svc, events.first()) {
        (_, ProgressView::Act(_)) => {
            lemma_debiting(svc, then, events.drop_first(), result);
        },
        (_, ProgressView::Finished(_)) => {
            assert(events.drop_first().len() == 0);
            assert(then.awaits_all(svc, events.drop_first()));
        },
        (_, ProgressView::Failed) => {},
    }
}

/// In whatever state billing is, it asks for a change of a credit if and only if a usage
/// turns out to cost tokens; what it asks for then is to take them off the credit of the
/// organisation whose service is at hand.
pub proof fn law_only_prices_change_credits(
    svc: Seq<char>,
    run: BillingRunView,
    stash: Map<(i32, MetricKind), u64>,
    event: EventView,
)
    requires
        run.awaits(event),
    ensures
        credit_changes(seq![run.next(svc, stash, event).progress]) == match (run.phase, event) {
            (BillingPhaseView::Pricing { org_id, .. }, EventView::Priced(charge)) => debits_of(
                org_id,
                charge,
            ),
            _ => Seq::<ActionView>::empty(),
        },
{
    lemma_changes_of_one(run.next(svc, stash, event).progress);
}

/// A service at hand is billed by its price and by the answers that lead through the
/// change of the credit; where its organisation does not exist, by its deletion too.
/// What remains of its usage is stashed then, and the next service follows. The credit
/// of its organisation is changed once where the price is not zero, and no credit else.
pub proof fn law_service_is_billed(
    svc: Seq<char>,
    step: BillingStep,
    org_id: i32,
    service_name: Seq<char>,
    bill: Billing,
)
    requires
        step.run.phase == (BillingPhaseView::Pricing { org_id, service_name }),
        bill.completes(svc),
    ensures
        step.awaits_all(svc, bill.answers()),
        step.after(svc, bill.answers()) == step.run.booked(
            step.stash,
            org_id,
            bill.charge.stashed,
        ),
        step.after(svc, bill.answers()) == billing(
            step.run.kind,
            step.run.rest,
            step.stash.insert((org_id, step.run.kind), bill.charge.stashed),
        ),
        credit_changes(step.trace(svc, bill.answers())) == debits_of(org_id, bill.charge),
{
    let priced = EventView::Priced(bill.charge);
    let then = step.run.next(svc, step.stash, priced);
    lemma_trace_of_first(step, svc, bill.answers());
    lemma_changes_of_one(then.progress);
    if bill.charge.used_token == 0 {
        assert(bill.answers().drop_first() == Seq::<EventView>::empty());
        assert(step.after(svc, bill.answers()) == then.after(svc, Seq::empty()));
        assert(then.awaits_all(svc, Seq::empty()));
    } else {
        lemma_debiting(svc, then, bill.events, bill.org);
        if bill.org is Some {
            assert(bill.answers().drop_first() == bill.events);
        } else {
            let done = seq![EventView::Done];
            assert(bill.answers().drop_first() == bill.events + done);
            lemma_after_splits(then, svc, bill.events, done);
            let removing = then.after(svc, bill.events);
            assert(done.drop_first() == Seq::<EventView>::empty());
            let booked = removing.run.next(svc, removing.stash, EventView::Done);
            assert(removing.after(svc, done) == booked.after(svc, Seq::empty()));
            assert(booked.awaits_all(svc, done.drop_first()));
            lemma_credit_changes_add(then.trace(svc, bill.events), removing.trace(svc, done));
            lemma_trace_of_first(removing, svc, done);
            lemma_changes_of_one(booked.progress);
        }
    }
}

/// Billing bills every service, once and in turn, and ends with the remainder of the
/// last usage of each organisation in the stash. Each service whose price is not zero
/// leads to one change of a credit: the price is taken off the credit of its own
/// organisation. Nothing else changes a credit.
pub proof fn law_every_service_is_billed(
    svc: Seq<char>,
    kind: MetricKind,
    metrics: Seq<MetricView>,
    stash: Map<(i32, MetricKind), u64>,
    billings: Seq<Billing>,
)
    requires
        billings.len() == metrics.len(),
        forall|i: int|
            0 <= i < metrics.len() ==> service_org((#[trigger] metrics[i]).service_name) is Some,
        forall|i: int| 0 <= i < billings.len() ==> (#[trigger] billings[i]).completes(svc),
    ensures
        billing(kind, metrics, stash).awaits_all(svc, all_answers(billings)),
        billing(kind, metrics, stash).after(svc, all_answers(billings)) == ended(
            kind,
            Seq::empty(),
            stash_after(kind, metrics, stash, billings),
            BillingEnd::Billed,
        ),
        ({
            let start = billing(kind, metrics, stash);
            credit_changes(seq![start.progress] + start.trace(svc, all_answers(billings))) == debits(
                metrics,
                billings,
            )
        }),
    decreases metrics.len(),
{
    let step = billing(kind, metrics, stash);
    lemma_credit_changes_add(seq![step.progress], step.trace(svc, all_answers(billings)));
    lemma_changes_of_one(step.progress);
    if metrics.len() == 0 {
        assert(metrics == Seq::<MetricView>::empty());
    } else {
        let metric = metrics.first();
        let bill = billings.first();
        assert(metrics[0] == metric);
        assert(billings[0] == bill);
        let org_id = service_org(metric.service_name)->0;
        law_service_is_billed(svc, step, org_id, metric.service_name, bill);
        lemma_after_splits(step, svc, bill.answers(), all_answers(billings.drop_first()));
        let rest = metrics.drop_first();
        assert forall|i: int| 0 <= i < rest.len() implies service_org(
            (#[trigger] rest[i]).service_name,
        ) is Some by {
            assert(rest[i] == metrics[i + 1]);
        }
        law_every_service_is_billed(
            svc,
            kind,
            rest,
            stash.insert((org_id, kind), bill.charge.stashed),
            billings.drop_first(),
        );
        let after = step.after(svc, bill.answers());
        let tail = after.trace(svc, all_answers(billings.drop_first()));
        lemma_credit_changes_add(step.trace(svc, bill.answers()), tail);
        lemma_credit_changes_add(seq![after.progress], tail);
        lemma_changes_of_one(after.progress);
    }
}

/// Billing goes on with exactly the events that answer what it asked for, from its start
/// on and after each step.
pub proof fn law_billing_awaits_answers(
    svc: Seq<char>,
    kind: MetricKind,
    metrics: Seq<MetricView>,
    stash: Map<(i32, MetricKind), u64>,
    run: BillingRunView,
    event: EventView,
    answer: EventView,
)
    ensures
        ({
            let start = billing(kind, metrics, stash);
            start.run.awaits(answer) == start.progress.is_answered_by(answer)
        }),
        ({
            let step = run.next(svc, stash, event);
            step.run.awaits(answer) == step.progress.is_answered_by(answer)
        }),
{
}

/// What was stashed last is found, for each organisation and each kind apart; where nothing
/// was, it is zero.
pub proof fn law_stash_gives_back(
    stash: Map<(i32, MetricKind), u64>,
    org_id: i32,
    kind: MetricKind,
    usage: u64,
    other_org: i32,
    other_kind: MetricKind,
)
    ensures
        stashed(Map::empty(), org_id, kind) == 0,
        stashed(stash.insert((org_id, kind), usage), org_id, kind) == usage,
        (other_org, other_kind) != (org_id, kind) ==> stashed(
            stash.insert((org_id, kind), usage),
            other_org,
            other_kind,
        ) == stashed(stash, other_org, other_kind),
        stashed(stash.remove((org_id, kind)), org_id, kind) == 0,
{
}

/// Billing takes the services in turn. The question for a price names the kind that is
/// billed, the usage of the first service, and what is stashed of that kind for the
/// organisation behind the last dash of the service's name: zero where nothing is. It ends
/// where no service is left, and where there is no such number.
pub proof fn law_first_service_is_priced(
    kind: MetricKind,
    rest: Seq<MetricView>,
    stash: Map<(i32, MetricKind), u64>,
    head: Seq<char>,
    tail: Seq<char>,
)
    requires
        forall|i: int| 0 <= i < tail.len() ==> #[trigger] tail[i] != '-',
    ensures
        ({
            let end = billing(kind, rest, stash);
            rest.len() == 0 ==> {
                &&& end.progress == ProgressView::Finished(BillingEnd::Billed)
                &&& end.stash == stash
            }
        }),
        rest.len() > 0 && rest[0].service_name == head + seq!['-'] + tail ==> {
            let step = billing(kind, rest, stash);
            &&& step.stash == stash
            &&& step.run.rest == rest.drop_first()
            &&& i32_value(tail) is None ==> step.progress == ProgressView::Finished(
                BillingEnd::Unattributable,
            )
            &&& i32_value(tail) is Some && stash.contains_key((i32_value(tail)->0, kind))
                ==> step.progress == ProgressView::<BillingEnd>::Act(
                ActionView::Price {
                    kind,
                    usage: rest[0].usage,
                    stashed: stash[(i32_value(tail)->0, kind)],
                },
            )
            &&& i32_value(tail) is Some && !stash.contains_key((i32_value(tail)->0, kind))
                ==> step.progress == ProgressView::<BillingEnd>::Act(
                ActionView::Price { kind, usage: rest[0].usage, stashed: 0 },
            )
        },
        rest.len() > 0 && rest[0].service_name == tail ==> billing(kind, rest, stash).progress
            == ProgressView::Finished(BillingEnd::Unattributable),
{
    law_org_stands_behind_the_last_dash(head, tail);
}

impl BillingStep {
    /// Whether billing is at its place among `metrics`: what is left to bill is their end,
    /// the service at hand the one before, and what is asked is about that service.
    pub open spec fn is_in_place(
        self,
        svc: Seq<char>,
        kind: MetricKind,
        metrics: Seq<MetricView>,
    ) -> bool {
        let at = metrics.len() - self.run.rest.len() - 1;
        &&& self.run.kind == kind
        &&& self.run.rest.len() <= metrics.len()
        &&& self.run.rest == metrics.skip(at + 1)
        &&& match self.run.phase {
            BillingPhaseView::Pricing { org_id, service_name } => {
                &&& at >= 0
                &&& service_name == metrics[at].service_name
                &&& service_org(service_name) == Some(org_id)
                &&& self.progress == ProgressView::<BillingEnd>::Act(
                    ActionView::Price {
                        kind,
                        usage: metrics[at].usage,
                        stashed: stashed(self.stash, org_id, kind),
                    },
                )
            },
            BillingPhaseView::Debiting { org_id, service_name, .. } => {
                &&& at >= 0
                &&& service_name == metrics[at].service_name
                &&& service_org(service_name) == Some(org_id)
                &&& self.progress is Act
                &&& !(self.progress->Act_0 is Price)
                &&& self.progress->Act_0 is UpdateCredit
                    ==> self.progress->Act_0->UpdateCredit_org_id == org_id
            },
            BillingPhaseView::Removing { org_id, service_name, .. } => {
                &&& at >= 0
                &&& service_name == metrics[at].service_name
                &&& service_org(service_name) == Some(org_id)
                &&& self.progress == ProgressView::<BillingEnd>::Act(
                    ActionView::Send(deletion_request(svc, service_name)),
                )
            },
            BillingPhaseView::Ended => !(self.progress is Act),
        }
    }
}

proof fn lemma_start_is_in_place(
    svc: Seq<char>,
    kind: MetricKind,
    metrics: Seq<MetricView>,
    rest: Seq<MetricView>,
    stash: Map<(i32, MetricKind), u64>,
)
    requires
        rest.len() <= metrics.len(),
        rest == metrics.skip(metrics.len() - rest.len()),
    ensures
        billing(kind, rest, stash).is_in_place(svc, kind, metrics),
{
    if rest.len() > 0 {
        let at = metrics.len() - rest.len();
        assert(rest[0] == metrics[at]);
        assert(rest.drop_first() =~= metrics.skip(at + 1));
    }
}

proof fn lemma_step_is_in_place(
    svc: Seq<char>,
    kind: MetricKind,
    metrics: Seq<MetricView>,
    step: BillingStep,
    event: EventView,
)
    requires
        step.is_in_place(svc, kind, metrics),
    ensures
        step.run.next(svc, step.stash, event).is_in_place(svc, kind, metrics),
{
    let run = step.run;
    match run.phase {
        BillingPhaseView::Pricing { org_id, .. } => {
            let stash = step.stash.insert((org_id, kind), event->Priced_0.stashed);
            lemma_start_is_in_place(svc, kind, metrics, run.rest, stash);
        },
        BillingPhaseView::Debiting { org_id, stashed, update, .. } => {
            let stash = step.stash.insert((org_id, kind), stashed);
            lemma_start_is_in_place(svc, kind, metrics, run.rest, stash);
            law_credit_is_written_once(svc, update, event);
        },
        BillingPhaseView::Removing { org_id, stashed, .. } => {
            let stash = step.stash.insert((org_id, kind), stashed);
            lemma_start_is_in_place(svc, kind, metrics, run.rest, stash);
        },
        BillingPhaseView::Ended => {},
    }
}

proof fn lemma_run_is_in_place(
    svc: Seq<char>,
    kind: MetricKind,
    metrics: Seq<MetricView>,
    step: BillingStep,
    events: Seq<EventView>,
)
    requires
        step.is_in_place(svc, kind, metrics),
    ensures
        step.after(svc, events).is_in_place(svc, kind, metrics),
    decreases events.len(),
{
    if events.len() > 0 {
        lemma_step_is_in_place(svc, kind, metrics, step, events.first());
        let then = step.run.next(svc, step.stash, events.first());
        lemma_run_is_in_place(svc, kind, metrics, then, events.drop_first());
    }
}

/// Whatever was stashed before, whatever has been answered and however far billing has come:
/// a question for a price names the kind that is billed, so that requests are priced at the
/// rate of requests and CPU seconds at that of CPU seconds. It is about one of the services,
/// by its own usage, together with what is stashed of that kind for its organisation at that
/// time: zero where nothing is.
pub proof fn law_prices_are_asked_by_kind(
    svc: Seq<char>,
    kind: MetricKind,
    metrics: Seq<MetricView>,
    stash: Map<(i32, MetricKind), u64>,
    events: Seq<EventView>,
)
    ensures
        ({
            let step = billing(kind, metrics, stash).after(svc, events);
            let at = metrics.len() - step.run.rest.len() - 1;
            let asked = step.progress->Act_0;
            let key = (service_org(metrics[at].service_name)->0, kind);
            step.progress is Act && asked is Price ==> {
                &&& asked->kind == kind
                &&& 0 <= at < metrics.len()
                &&& service_org(metrics[at].service_name) is Some
                &&& asked->usage == metrics[at].usage
                &&& step.stash.contains_key(key) ==> asked->stashed == step.stash[key]
                &&& !step.stash.contains_key(key) ==> asked->stashed == 0
            }
        }),
{
    assert(metrics.skip(0) =~= metrics);
    lemma_start_is_in_place(svc, kind, metrics, metrics, stash);
    lemma_run_is_in_place(svc, kind, metrics, billing(kind, metrics, stash), events);
}

/// However far billing has come, a change of a credit that it asks for is one of the credit
/// of the organisation that the service at hand names, and the only requests that it sends
/// while a price is being settled for want of an organisation are to delete that service.
pub proof fn law_settlement_is_about_the_service_at_hand(
    svc: Seq<char>,
    kind: MetricKind,
    metrics: Seq<MetricView>,
    stash: Map<(i32, MetricKind), u64>,
    events: Seq<EventView>,
)
    ensures
        ({
            let step = billing(kind, metrics, stash).after(svc, events);
            let at = metrics.len() - step.run.rest.len() - 1;
            let asked = step.progress->Act_0;
            &&& step.progress is Act ==> 0 <= at < metrics.len()
            &&& step.progress is Act && asked is UpdateCredit ==> service_org(
                metrics[at].service_name,
            ) == Some(asked->UpdateCredit_org_id)
            &&& step.run.phase is Removing ==> step.progress == ProgressView::<BillingEnd>::Act(
                ActionView::Send(deletion_request(svc, metrics[at].service_name)),
            )
        }),
{
    assert(metrics.skip(0) =~= metrics);
    lemma_start_is_in_place(svc, kind, metrics, metrics, stash);
    lemma_run_is_in_place(svc, kind, metrics, billing(kind, metrics, stash), events);
}

/// A price is taken off the credit of the organisation whose service is at hand: what is
/// asked for comes to the stored credit less the tokens, as far as a signed number of 32
/// bits goes, and nothing is stashed until that is settled. A price of no token changes no
/// credit, and what remains is stashed at once.
pub proof fn law_price_is_taken_off(
    svc: Seq<char>,
    run: BillingRunView,
    stash: Map<(i32, MetricKind), u64>,
    org_id: i32,
    service_name: Seq<char>,
    charge: Charge,
    stored: int,
)
    requires
        run.phase == (BillingPhaseView::Pricing { org_id, service_name }),
    ensures
        ({
            let step = run.next(svc, stash, EventView::Priced(charge));
            let asked = step.progress->Act_0;
            let tokens: int = if charge.used_token <= 0x8000_0000 {
                charge.used_token as int
            } else {
                0x8000_0000
            };
            &&& charge.used_token > 0 ==> {
                &&& step.progress is Act
                &&& asked is UpdateCredit
                &&& asked->UpdateCredit_org_id == org_id
                &&& evaluated(asked->expression, stored) == Some(stored - tokens)
                &&& step.stash == stash
            }
            &&& charge.used_token == 0 ==> {
                &&& !(step.progress is Act && asked is UpdateCredit)
                &&& step.stash == stash.insert((org_id, run.kind), charge.stashed)
            }
        }),
{
    law_expression_comes_to_the_sum(debit(charge.used_token), stored);
}

/// What remains of a price is stashed for its organisation and its kind when the price is
/// settled: with the organisation as it is then, where it has a token or more left, or with
/// the answer that the service of a missing organisation is deleted.
pub proof fn law_remainder_is_stashed(
    svc: Seq<char>,
    run: BillingRunView,
    stash: Map<(i32, MetricKind), u64>,
    org_id: i32,
    service_name: Seq<char>,
    remainder: u64,
    quantity: i32,
    org: Org,
)
    requires
        quantity < 0,
        run.phase == (BillingPhaseView::Debiting {
            org_id,
            service_name,
            stashed: remainder,
            update: CreditUpdateView::Adding { quantity },
        }),
    ensures
        ({
            let settled = run.next(svc, stash, EventView::Org(Some(org)));
            let missing = run.next(svc, stash, EventView::Org(None));
            let removed = missing.run.next(svc, missing.stash, EventView::Done);
            &&& org.token_credit >= 1 ==> settled.stash == stash.insert(
                (org_id, run.kind),
                remainder,
            )
            &&& org.token_credit < 1 ==> {
                &&& settled.stash == stash
                &&& settled.progress == ProgressView::<BillingEnd>::Act(
                    ActionView::FetchProjects { org_id: org.id },
                )
            }
            &&& missing.stash == stash
            &&& missing.progress == ProgressView::<BillingEnd>::Act(
                ActionView::Send(deletion_request(svc, service_name)),
            )
            &&& removed.stash == stash.insert((org_id, run.kind), remainder)
        }),
{
}

} // verus!
