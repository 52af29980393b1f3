//! What billing promises about amounts: no usage is lost and none is billed twice.
//!
//! Usages are carried as the bits of binary64 numbers. What is stated here is stated over
//! any reading of such bits as whole numbers (every finite one is a whole multiple of the
//! smallest), and for prices that are exact in that reading.

use vstd::prelude::*;

use crate::billing::{
    all_answers, billing, credit_changes, debit, debits, debits_of, law_every_service_is_billed,
    law_service_is_billed, lemma_after_splits, stashed, Billing, BillingPhaseView, BillingRunView,
    BillingStep, MetricKind,
};
use crate::credit::{
    adds_to_stored, credit_after, credit_expression, lemma_credit_after_one,
    lemma_credit_after_splits,
};
use crate::effects::{ActionView, Charge, EventView, ProgressView};
use crate::metrics::MetricView;
use crate::project::service_org;

verus! {

/// A reading of usages as whole numbers, and the usage that costs one token.
pub struct Rate {
    pub reading: spec_fn(u64) -> int,
    pub unit: int,
}

impl Rate {
    /// The usage that some bits stand for.
    pub open spec fn of(self, bits: u64) -> int {
        (self.reading)(bits)
    }

    /// A token costs something, and the bits of zero are read as zero.
    pub open spec fn is_valid(self) -> bool {
        self.unit > 0 && self.of(0) == 0
    }

    /// Whether a usage is less than what costs a token.
    pub open spec fn is_part(self, bits: u64) -> bool {
        0 <= self.of(bits) < self.unit
    }

    /// Whether a price is exact: the tokens and what remains make up what was used and
    /// what was left over before, and what remains does not cost a whole token.
    pub open spec fn is_exact(self, usage: u64, left_over: u64, charge: Charge) -> bool {
        &&& self.of(charge.stashed) + self.unit * charge.used_token == self.of(usage) + self.of(
            left_over,
        )
        &&& self.is_part(charge.stashed)
    }

    /// Whether no organisation has a whole token's worth of a kind in the stash.
    pub open spec fn holds_parts(
        self,
        stash: Map<(i32, MetricKind), u64>,
        kind: MetricKind,
    ) -> bool {
        forall|org_id: i32| self.is_part(#[trigger] stashed(stash, org_id, kind))
    }

    /// Whether `event`, if it answers a question for a price, answers it exactly.
    pub open spec fn answers_exactly(self, step: BillingStep, event: EventView) -> bool {
        match (step.progress, event) {
            (
                ProgressView::Act(ActionView::Price { usage, stashed, .. }),
                EventView::Priced(charge),
            ) => self.is_exact(usage, stashed, charge),
            _ => true,
        }
    }

    /// Whether all prices among `events` are exact.
    pub open spec fn all_exact(
        self,
        svc: Seq<char>,
        step: BillingStep,
        events: Seq<EventView>,
    ) -> bool
        decreases events.len(),
    {
        events.len() == 0 || {
            &&& self.answers_exactly(step, events.first())
            &&& self.all_exact(
                svc,
                step.run.next(svc, step.stash, events.first()),
                events.drop_first(),
            )
        }
    }

    /// Whether neither the stash nor what is about to be stashed is a whole token's worth.
    pub open spec fn keeps_parts(self, step: BillingStep) -> bool {
        &&& self.holds_parts(step.stash, step.run.kind)
        &&& match step.run.phase {
            BillingPhaseView::Pricing { .. } => step.progress is Act && step.progress->Act_0
                is Price,
            BillingPhaseView::Debiting { stashed, .. } => self.is_part(stashed),
            BillingPhaseView::Removing { stashed, .. } => self.is_part(stashed),
            BillingPhaseView::Ended => true,
        }
    }
}

proof fn lemma_booking_keeps_parts(
    rate: Rate,
    run: BillingRunView,
    stash: Map<(i32, MetricKind), u64>,
    org_id: i32,
    remainder: u64,
)
    requires
        rate.holds_parts(stash, run.kind),
        rate.is_part(remainder),
    ensures
        rate.keeps_parts(run.booked(stash, org_id, remainder)),
{
    let after = stash.insert((org_id, run.kind), remainder);
    assert forall|other: i32| rate.is_part(#[trigger] stashed(after, other, run.kind)) by {
        if other != org_id {
            assert(stashed(after, other, run.kind) == stashed(stash, other, run.kind));
        }
    }
}

/// Each step of billing keeps what is stashed below a whole token's worth.
pub proof fn law_step_keeps_parts(
    svc: Seq<char>,
    rate: Rate,
    step: BillingStep,
    event: EventView,
)
    requires
        rate.is_valid(),
        rate.keeps_parts(step),
        step.run.awaits(event),
        rate.answers_exactly(step, event),
    ensures
        rate.keeps_parts(step.run.next(svc, step.stash, event)),
{
    let run = step.run;
    if !(event is Failed) {
        match run.phase {
            BillingPhaseView::Pricing { org_id, .. } => {
                let remainder = event->Priced_0.stashed;
                lemma_booking_keeps_parts(rate, run, step.stash, org_id, remainder);
            },
            BillingPhaseView::Debiting { org_id, stashed, .. } => {
                lemma_booking_keeps_parts(rate, run, step.stash, org_id, stashed);
            },
            BillingPhaseView::Removing { org_id, stashed, .. } => {
                lemma_booking_keeps_parts(rate, run, step.stash, org_id, stashed);
            },
            BillingPhaseView::Ended => {},
        }
    }
}

proof fn lemma_run_keeps_parts(
    svc: Seq<char>,
    rate: Rate,
    step: BillingStep,
    events: Seq<EventView>,
)
    requires
        rate.is_valid(),
        rate.keeps_parts(step),
        step.awaits_all(svc, events),
        rate.all_exact(svc, step, events),
    ensures
        rate.keeps_parts(step.after(svc, events)),
        step.after(svc, events).run.kind == step.run.kind,
    decreases events.len(),
{
    if events.len() > 0 {
        law_step_keeps_parts(svc, rate, step, events.first());
        let then = step.run.next(svc, step.stash, events.first());
        lemma_run_keeps_parts(svc, rate, then, events.drop_first());
    }
}

/// The stash never holds a whole token's worth: however far billing comes, whether it
/// bills every service or is broken off, what is stashed for each organisation costs less
/// than a token.
pub proof fn law_stash_stays_below_token(
    svc: Seq<char>,
    rate: Rate,
    kind: MetricKind,
    metrics: Seq<MetricView>,
    stash: Map<(i32, MetricKind), u64>,
    events: Seq<EventView>,
)
    requires
        rate.is_valid(),
        rate.holds_parts(stash, kind),
        billing(kind, metrics, stash).awaits_all(svc, events),
        rate.all_exact(svc, billing(kind, metrics, stash), events),
    ensures
        rate.holds_parts(billing(kind, metrics, stash).after(svc, events).stash, kind),
{
    lemma_run_keeps_parts(svc, rate, billing(kind, metrics, stash), events);
}

/// A stash with nothing in it holds no whole token's worth.
pub proof fn law_empty_stash_holds_parts(rate: Rate, kind: MetricKind)
    requires
        rate.is_valid(),
    ensures
        rate.holds_parts(Map::empty(), kind),
{
}

/// One cycle of billing: the services that it bills, and how the billing of each goes.
pub struct Cycle {
    pub metrics: Seq<MetricView>,
    pub billings: Seq<Billing>,
}

impl Cycle {
    /// Whether every service names an organisation and is billed to the end.
    pub open spec fn completes(self, svc: Seq<char>) -> bool {
        &&& self.billings.len() == self.metrics.len()
        &&& forall|i: int|
            0 <= i < self.metrics.len() ==> service_org((#[trigger] self.metrics[i]).service_name)
                is Some
        &&& forall|i: int|
            0 <= i < self.billings.len() ==> (#[trigger] self.billings[i]).completes(svc)
    }

    /// The cycle without its first service.
    pub open spec fn rest(self) -> Cycle {
        Cycle { metrics: self.metrics.drop_first(), billings: self.billings.drop_first() }
    }

    /// Whether it bills a service of an organisation.
    pub open spec fn serves(self, org_id: i32) -> bool {
        exists|i: int|
            0 <= i < self.metrics.len() && service_org((#[trigger] self.metrics[i]).service_name)
                == Some(org_id)
    }

    /// Whether all its prices are exact.
    pub open spec fn is_exact(
        self,
        svc: Seq<char>,
        rate: Rate,
        kind: MetricKind,
        stash: Map<(i32, MetricKind), u64>,
    ) -> bool {
        rate.all_exact(svc, billing(kind, self.metrics, stash), all_answers(self.billings))
    }

    /// What is stashed after it.
    pub open spec fn stash_after(
        self,
        svc: Seq<char>,
        kind: MetricKind,
        stash: Map<(i32, MetricKind), u64>,
    ) -> Map<(i32, MetricKind), u64> {
        billing(kind, self.metrics, stash).after(svc, all_answers(self.billings)).stash
    }

    /// What the services of an organisation used.
    pub open spec fn usage(self, rate: Rate, org_id: i32) -> int
        decreases self.metrics.len(),
    {
        if self.metrics.len() == 0 {
            0
        } else {
            let first = if service_org(self.metrics.first().service_name) == Some(org_id) {
                rate.of(self.metrics.first().usage)
            } else {
                0
            };
            first + self.rest().usage(rate, org_id)
        }
    }

    /// The tokens that the services of an organisation cost.
    pub open spec fn tokens(self, org_id: i32) -> int
        decreases self.metrics.len(),
    {
        if self.metrics.len() == 0 {
            0
        } else {
            let first = if service_org(self.metrics.first().service_name) == Some(org_id) {
                self.billings.first().charge.used_token as int
            } else {
                0
            };
            first + self.rest().tokens(org_id)
        }
    }

    /// What the credit of an organisation is changed by, all in all (see
    /// [`law_cycle_changes_credit`]).
    pub open spec fn credit_change(self, org_id: i32) -> int
        decreases self.metrics.len(),
    {
        if self.metrics.len() == 0 {
            0
        } else {
            let first = if service_org(self.metrics.first().service_name) == Some(org_id) {
                debit(self.billings.first().charge.used_token) as int
            } else {
                0
            };
            first + self.rest().credit_change(org_id)
        }
    }
}

proof fn lemma_all_exact_splits(
    svc: Seq<char>,
    rate: Rate,
    step: BillingStep,
    first: Seq<EventView>,
    second: Seq<EventView>,
)
    ensures
        rate.all_exact(svc, step, first + second) == (rate.all_exact(svc, step, first)
            && rate.all_exact(svc, step.after(svc, first), second)),
    decreases first.len(),
{
    if first.len() == 0 {
        assert(first + second == second);
    } else {
        let then = step.run.next(svc, step.stash, first.first());
        lemma_all_exact_splits(svc, rate, then, first.drop_first(), second);
        assert((first + second).drop_first() == first.drop_first() + second);
    }
}

proof fn lemma_rest_completes(svc: Seq<char>, cycle: Cycle)
    requires
        cycle.completes(svc),
        cycle.metrics.len() > 0,
    ensures
        cycle.rest().completes(svc),
        service_org(cycle.metrics.first().service_name) is Some,
        cycle.billings.first().completes(svc),
{
    let rest = cycle.rest();
    assert(cycle.metrics[0] == cycle.metrics.first());
    assert(cycle.billings[0] == cycle.billings.first());
    assert forall|i: int| 0 <= i < rest.metrics.len() implies service_org(
        (#[trigger] rest.metrics[i]).service_name,
    ) is Some by {
        assert(rest.metrics[i] == cycle.metrics[i + 1]);
    }
    assert forall|i: int| 0 <= i < rest.billings.len() implies (
    #[trigger] rest.billings[i]).completes(svc) by {
        assert(rest.billings[i] == cycle.billings[i + 1]);
    }
}

/// No usage of an organisation is lost, and none is billed twice: what its services used
/// in a cycle, and what was stashed before, is what its tokens cost and what is stashed
/// then. What is stashed then is less than a token's worth where the cycle bills a service
/// of the organisation, whatever was stashed before, and where less was stashed before.
pub proof fn law_usage_is_accounted_for(
    svc: Seq<char>,
    rate: Rate,
    kind: MetricKind,
    stash: Map<(i32, MetricKind), u64>,
    cycle: Cycle,
    org_id: i32,
)
    requires
        rate.is_valid(),
        cycle.completes(svc),
        cycle.is_exact(svc, rate, kind, stash),
    ensures
        ({
            let after = cycle.stash_after(svc, kind, stash);
            &&& rate.of(stashed(after, org_id, kind)) + rate.unit * cycle.tokens(org_id) == rate.of(
                stashed(stash, org_id, kind),
            ) + cycle.usage(rate, org_id)
            &&& cycle.serves(org_id) || rate.is_part(stashed(stash, org_id, kind)) ==> rate.is_part(
                stashed(after, org_id, kind),
            )
        }),
    decreases cycle.metrics.len(),
{
    let step = billing(kind, cycle.metrics, stash);
    let unit = rate.unit;
    if cycle.metrics.len() == 0 {
        assert(unit * 0 == 0) by (nonlinear_arith);
    } else {
        let metric = cycle.metrics.first();
        let bill = cycle.billings.first();
        let rest = cycle.rest();
        lemma_rest_completes(svc, cycle);
        let own = service_org(metric.service_name)->0;
        let then = stash.insert((own, kind), bill.charge.stashed);
        let answers = bill.answers();
        let tail = all_answers(rest.billings);
        law_service_is_billed(svc, step, own, metric.service_name, bill);
        lemma_after_splits(step, svc, answers, tail);
        lemma_all_exact_splits(svc, rate, step, answers, tail);
        assert(all_answers(cycle.billings) == answers + tail);
        assert(step.after(svc, answers) == billing(kind, rest.metrics, then));
        assert(rate.all_exact(svc, step, answers));
        assert(answers.first() == EventView::Priced(bill.charge));
        assert(rate.is_exact(metric.usage, stashed(stash, own, kind), bill.charge));
        law_usage_is_accounted_for(svc, rate, kind, then, rest, org_id);
        if cycle.serves(org_id) && own != org_id {
            let i = choose|i: int|
                0 <= i < cycle.metrics.len() && service_org(
                    (#[trigger] cycle.metrics[i]).service_name,
                ) == Some(org_id);
            assert(rest.metrics[i - 1] == cycle.metrics[i]);
            assert(rest.serves(org_id));
        }
        let used = bill.charge.used_token as int;
        let later = rest.tokens(org_id);
        assert(unit * (used + later) == unit * used + unit * later) by (nonlinear_arith);
    }
}

proof fn lemma_debits_change_credit(
    reading: spec_fn(Seq<char>, int) -> int,
    cycle: Cycle,
    org_id: i32,
    stored: int,
)
    requires
        adds_to_stored(reading),
        forall|i: int|
            0 <= i < cycle.metrics.len() ==> service_org(
                (#[trigger] cycle.metrics[i]).service_name,
            ) is Some,
    ensures
        credit_after(reading, debits(cycle.metrics, cycle.billings), org_id, stored) == stored
            + cycle.credit_change(org_id),
    decreases cycle.metrics.len(),
{
    if cycle.metrics.len() > 0 {
        let rest = cycle.rest();
        let metric = cycle.metrics[0];
        let own = service_org(metric.service_name)->0;
        let charge = cycle.billings.first().charge;
        let quantity = debit(charge.used_token);
        let tail = debits(rest.metrics, rest.billings);
        lemma_credit_after_splits(reading, debits_of(own, charge), tail, org_id, stored);
        if charge.used_token > 0 {
            let action = debits_of(own, charge)[0];
            assert(debits_of(own, charge) == seq![action]);
            lemma_credit_after_one(reading, action, org_id, stored);
            assert(reading(credit_expression(quantity), stored) == stored + quantity);
        }
        assert forall|i: int| 0 <= i < rest.metrics.len() implies service_org(
            (#[trigger] rest.metrics[i]).service_name,
        ) is Some by {
            assert(rest.metrics[i] == cycle.metrics[i + 1]);
        }
        let then = credit_after(reading, debits_of(own, charge), org_id, stored);
        lemma_debits_change_credit(reading, rest, org_id, then);
    }
}

/// The changes of credits that a cycle asks for, and that come of the prices of its
/// services, change the credit of each organisation by the sum of what its services are
/// debited: their quantities add up to that.
pub proof fn law_cycle_changes_credit(
    svc: Seq<char>,
    reading: spec_fn(Seq<char>, int) -> int,
    kind: MetricKind,
    stash: Map<(i32, MetricKind), u64>,
    cycle: Cycle,
    org_id: i32,
    stored: int,
)
    requires
        adds_to_stored(reading),
        cycle.completes(svc),
    ensures
        credit_after(reading, debits(cycle.metrics, cycle.billings), org_id, stored) == stored
            + cycle.credit_change(org_id),
        ({
            let start = billing(kind, cycle.metrics, stash);
            let asked = seq![start.progress] + start.trace(svc, all_answers(cycle.billings));
            credit_after(reading, credit_changes(asked), org_id, stored) == stored
                + cycle.credit_change(org_id)
        }),
{
    lemma_debits_change_credit(reading, cycle, org_id, stored);
    law_every_service_is_billed(svc, kind, cycle.metrics, stash, cycle.billings);
}

proof fn lemma_tokens_are_taken_off(cycle: Cycle, org_id: i32)
    ensures
        cycle.tokens(org_id) >= 0,
        cycle.tokens(org_id) <= 0x8000_0000 ==> cycle.credit_change(org_id) == -cycle.tokens(org_id),
    decreases cycle.metrics.len(),
{
    if cycle.metrics.len() > 0 {
        lemma_tokens_are_taken_off(cycle.rest(), org_id);
    }
}

/// Amounts that are made up of whole units and a part of one are equal only where both
/// are.
proof fn lemma_parts_are_unique(unit: int, a: int, b: int, part_a: int, part_b: int)
    requires
        0 <= part_a < unit,
        0 <= part_b < unit,
        part_a + unit * a == part_b + unit * b,
    ensures
        a == b,
        part_a == part_b,
{
    assert(a == b) by (nonlinear_arith)
        requires
            0 <= part_a < unit,
            0 <= part_b < unit,
            part_a + unit * a == part_b + unit * b,
    ;
}

/// How usage is cut into windows changes neither the tokens taken nor what is left: where
/// an organisation used as much in two cycles as in one that covers both, the two cost as
/// many tokens as the one, change the credit by as much, as far as a signed number of 32
/// bits goes, and leave as much in the stash. Less than a token's worth has to be stashed
/// before only where the organisation has no service billed.
pub proof fn law_windows_do_not_matter(
    svc: Seq<char>,
    rate: Rate,
    kind: MetricKind,
    stash: Map<(i32, MetricKind), u64>,
    first: Cycle,
    second: Cycle,
    whole: Cycle,
    org_id: i32,
)
    requires
        rate.is_valid(),
        rate.is_part(stashed(stash, org_id, kind)) || {
            &&& first.serves(org_id) || second.serves(org_id)
            &&& whole.serves(org_id)
        },
        first.completes(svc),
        second.completes(svc),
        whole.completes(svc),
        first.is_exact(svc, rate, kind, stash),
        second.is_exact(svc, rate, kind, first.stash_after(svc, kind, stash)),
        whole.is_exact(svc, rate, kind, stash),
        first.usage(rate, org_id) + second.usage(rate, org_id) == whole.usage(rate, org_id),
    ensures
        first.tokens(org_id) + second.tokens(org_id) == whole.tokens(org_id),
        whole.tokens(org_id) <= 0x8000_0000 ==> first.credit_change(org_id) + second.credit_change(
            org_id,
        ) == whole.credit_change(org_id),
        ({
            let between = first.stash_after(svc, kind, stash);
            let cut = second.stash_after(svc, kind, between);
            let uncut = whole.stash_after(svc, kind, stash);
            rate.of(stashed(cut, org_id, kind)) == rate.of(stashed(uncut, org_id, kind))
        }),
{
    let between = first.stash_after(svc, kind, stash);
    let cut = second.stash_after(svc, kind, between);
    let uncut = whole.stash_after(svc, kind, stash);
    law_usage_is_accounted_for(svc, rate, kind, stash, first, org_id);
    law_usage_is_accounted_for(svc, rate, kind, between, second, org_id);
    law_usage_is_accounted_for(svc, rate, kind, stash, whole, org_id);
    lemma_tokens_are_taken_off(first, org_id);
    lemma_tokens_are_taken_off(second, org_id);
    lemma_tokens_are_taken_off(whole, org_id);
    let unit = rate.unit;
    let (a, b) = (first.tokens(org_id), second.tokens(org_id));
    assert(unit * (a + b) == unit * a + unit * b) by (nonlinear_arith);
    lemma_parts_are_unique(
        unit,
        a + b,
        whole.tokens(org_id),
        rate.of(stashed(cut, org_id, kind)),
        rate.of(stashed(uncut, org_id, kind)),
    );
}

} // verus!
