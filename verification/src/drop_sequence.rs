//! Dropping a sequence.
//!
//! The ownership of a sequence is dropped after the sequence itself, which may not even
//! exist.
use vstd::prelude::*;

use crate::error::ErrorCode;

verus! {

/// The name of a sequence, and the tenant it belongs to.
#[derive(Debug)]
pub struct SequenceIdent {
    pub tenant: String,
    pub name: String,
}

/// A plan to drop a sequence.
#[derive(Debug)]
pub struct DropSequencePlan {
    pub ident: SequenceIdent,
    /// A sequence that does not exist is no error.
    pub if_exists: bool,
}

/// A request to the catalog.
#[derive(Debug)]
pub struct DropSequenceReq {
    pub ident: SequenceIdent,
    pub if_exists: bool,
}

/// Something that a role can own.
#[derive(Debug)]
pub enum OwnershipObject {
    Sequence { name: String },
}

/// What is to be done next.
#[derive(Debug)]
pub enum DropSequenceStep {
    /// Look up the default catalog.
    GetCatalog,
    /// Look up whether privileges on sequences are checked.
    GetPrivilegeCheck,
    /// Ask the catalog to drop the sequence. `revoke` tells whether its ownership is to
    /// go too.
    DropSequence { req: DropSequenceReq, revoke: bool },
    /// Take the ownership of the sequence away from its role. `success` tells whether
    /// there was a sequence to drop.
    RevokeOwnership { tenant: String, object: OwnershipObject, success: bool },
    /// Forget what is cached of the tenant's roles. `success` tells whether there was a
    /// sequence to drop.
    InvalidateRoleCache { tenant: String, success: bool },
    /// Nothing.
    Done(Result<(), ErrorCode>),
}

/// What came of a step.
#[derive(Debug)]
pub enum DropSequenceEvent {
    /// The catalog was found, the ownership revoked, or the cache cleared.
    Succeeded,
    /// Whether privileges on sequences are checked.
    PrivilegeCheck(bool),
    /// The catalog answered. `success` tells whether there was a sequence to drop.
    Dropped { success: bool },
    /// The step failed.
    Failed(ErrorCode),
}

/// The text that a string prints as for debugging.
pub uninterp spec fn debug_text(text: Seq<char>) -> Seq<char>;

/// `Debug` of `str`. Trusted: the text is a function of the string.
#[verifier::external_body]
fn str_debug(text: &str) -> (debug: String)
    ensures
        debug@ == debug_text(text@),
{
    format!("{:?}", text)
}

impl SequenceIdent {
    pub open spec fn same(self, other: SequenceIdent) -> bool {
        self.tenant@ == other.tenant@ && self.name@ == other.name@
    }
}

/// The error of a sequence that does not exist.
pub open spec fn is_unknown_sequence(error: ErrorCode, name: Seq<char>) -> bool {
    error matches ErrorCode::UnknownSequence(text) && text@ == "unknown sequence "@ + debug_text(
        name,
    )
}

/// The error of a sequence that does not exist, with its name as it is to be shown.
pub fn unknown_sequence(name: &str) -> (error: ErrorCode)
    ensures
        error matches ErrorCode::UnknownSequence(text) && text@ == "unknown sequence "@ + name@,
{
    let mut text = String::from_str("unknown sequence ");
    text.append(name);
    ErrorCode::UnknownSequence(text)
}

impl DropSequenceStep {
    /// Whether a step can have this outcome.
    pub open spec fn expects(self, event: DropSequenceEvent) -> bool {
        match self {
            DropSequenceStep::GetCatalog => event is Succeeded || event is Failed,
            DropSequenceStep::GetPrivilegeCheck => event is PrivilegeCheck || event is Failed,
            DropSequenceStep::RevokeOwnership { .. } => event is Succeeded || event is Failed,
            DropSequenceStep::InvalidateRoleCache { .. } => event is Succeeded,
            DropSequenceStep::DropSequence { .. } => event is Dropped || event is Failed,
            DropSequenceStep::Done(_) => false,
        }
    }

    /// The step that asks the catalog to carry out a plan.
    pub open spec fn is_drop(self, plan: DropSequencePlan, check: bool) -> bool {
        self matches DropSequenceStep::DropSequence { req, revoke } && req.ident.same(plan.ident)
            && req.if_exists == plan.if_exists && revoke == check
    }

    /// The step that revokes the ownership of the sequence of a plan.
    pub open spec fn is_revoke(self, plan: DropSequencePlan, dropped: bool) -> bool {
        self matches DropSequenceStep::RevokeOwnership {
            tenant,
            object: OwnershipObject::Sequence { name },
            success,
        } && tenant@ == plan.ident.tenant@ && name@ == plan.ident.name@ && success == dropped
    }

    /// The step that clears the role cache for a plan.
    pub open spec fn is_invalidate(self, plan: DropSequencePlan, dropped: bool) -> bool {
        self matches DropSequenceStep::InvalidateRoleCache { tenant, success } && tenant@
            == plan.ident.tenant@ && success == dropped
    }

    /// The end of a plan to which the catalog answered.
    pub open spec fn is_end(self, plan: DropSequencePlan, success: bool) -> bool {
        if success || plan.if_exists {
            self == DropSequenceStep::Done(Ok(()))
        } else {
            self matches DropSequenceStep::Done(Err(error)) && is_unknown_sequence(
                error,
                plan.ident.name@,
            )
        }
    }

    /// What follows a step of a plan.
    pub open spec fn is_after(
        self,
        plan: DropSequencePlan,
        before: DropSequenceStep,
        event: DropSequenceEvent,
    ) -> bool {
        match event {
            DropSequenceEvent::Failed(error) => self == DropSequenceStep::Done(Err(error)),
            DropSequenceEvent::PrivilegeCheck(check) => self.is_drop(plan, check),
            DropSequenceEvent::Dropped { success } => match before {
                DropSequenceStep::DropSequence { revoke: true, .. } => self.is_revoke(
                    plan,
                    success,
                ),
                _ => self.is_end(plan, success),
            },
            DropSequenceEvent::Succeeded => match before {
                DropSequenceStep::RevokeOwnership { success, .. } => self.is_invalidate(
                    plan,
                    success,
                ),
                DropSequenceStep::InvalidateRoleCache { success, .. } => self.is_end(plan, success),
                _ => self == DropSequenceStep::GetPrivilegeCheck,
            },
        }
    }
}

/// Drops a sequence. `X` is the context of the query.
pub struct DropSequenceInterpreter<X> {
    pub ctx: X,
    pub plan: DropSequencePlan,
}

impl<X> DropSequenceInterpreter<X> {
    pub fn try_create(ctx: X, plan: DropSequencePlan) -> (interpreter: Result<
        DropSequenceInterpreter<X>,
        ErrorCode,
    >)
        ensures
            interpreter == Ok::<_, ErrorCode>(DropSequenceInterpreter { ctx, plan }),
    {
        Ok(DropSequenceInterpreter { ctx, plan })
    }

    pub fn name(&self) -> (name: &'static str)
        ensures
            name@ == "DropSequenceInterpreter"@,
    {
        "DropSequenceInterpreter"
    }

    pub fn is_ddl(&self) -> (is_ddl: bool)
        ensures
            is_ddl,
    {
        true
    }

    /// The first step.
    pub fn start(&self) -> (step: DropSequenceStep)
        ensures
            step == DropSequenceStep::GetCatalog,
    {
        DropSequenceStep::GetCatalog
    }

    /// The step after `step`, of which came `event`.
    pub fn next(&self, step: DropSequenceStep, event: DropSequenceEvent) -> (next: DropSequenceStep)
        requires
            step.expects(event),
        ensures
            next.is_after(self.plan, step, event),
            event matches DropSequenceEvent::Failed(error) ==> next == DropSequenceStep::Done(
                Err(error),
            ),
            event matches DropSequenceEvent::PrivilegeCheck(check) ==> (
            next matches DropSequenceStep::DropSequence { req, revoke } && req.ident.tenant@
                == self.plan.ident.tenant@ && req.ident.name@ == self.plan.ident.name@
                && req.if_exists == self.plan.if_exists && revoke == check),
            event matches DropSequenceEvent::Dropped { success } ==> (
            step matches DropSequenceStep::DropSequence { req, revoke } && if revoke {
                next matches DropSequenceStep::RevokeOwnership {
                    tenant,
                    object: OwnershipObject::Sequence { name },
                    success: dropped,
                } && tenant@ == self.plan.ident.tenant@ && name@ == self.plan.ident.name@
                    && dropped == success
            } else {
                next is Done && (next == DropSequenceStep::Done(Ok(())) <==> success
                    || self.plan.if_exists)
            }),
            event is Succeeded && step is GetCatalog ==> next is GetPrivilegeCheck,
            event is Succeeded ==> (step matches DropSequenceStep::RevokeOwnership {
                tenant,
                object,
                success,
            } ==> (next matches DropSequenceStep::InvalidateRoleCache {
                tenant: forgotten,
                success: dropped,
            } && forgotten@ == self.plan.ident.tenant@ && dropped == success)),
            event is Succeeded ==> (step matches DropSequenceStep::InvalidateRoleCache {
                tenant,
                success,
            } ==> next is Done && (next == DropSequenceStep::Done(Ok(())) <==> success
                || self.plan.if_exists)),
    {
        match event {
            DropSequenceEvent::Failed(error) => DropSequenceStep::Done(Err(error)),
            DropSequenceEvent::PrivilegeCheck(check) => self.drop_step(check),
            DropSequenceEvent::Dropped { success } => match step {
                DropSequenceStep::DropSequence { revoke: true, .. } => {
                    let name = self.plan.ident.name.clone();
                    DropSequenceStep::RevokeOwnership {
                        tenant: self.plan.ident.tenant.clone(),
                        object: OwnershipObject::Sequence { name },
                        success,
                    }
                },
                _ => self.end(success),
            },
            DropSequenceEvent::Succeeded => match step {
                DropSequenceStep::RevokeOwnership {
                    success,
                    ..
                } => DropSequenceStep::InvalidateRoleCache {
                    tenant: self.plan.ident.tenant.clone(),
                    success,
                },
                DropSequenceStep::InvalidateRoleCache { success, .. } => self.end(success),
                _ => DropSequenceStep::GetPrivilegeCheck,
            },
        }
    }

    fn drop_step(&self, revoke: bool) -> (step: DropSequenceStep)
        ensures
            step.is_drop(self.plan, revoke),
    {
        let ident = SequenceIdent {
            tenant: self.plan.ident.tenant.clone(),
            name: self.plan.ident.name.clone(),
        };
        DropSequenceStep::DropSequence {
            req: DropSequenceReq { ident, if_exists: self.plan.if_exists },
            revoke,
        }
    }

    fn end(&self, success: bool) -> (step: DropSequenceStep)
        ensures
            step.is_end(self.plan, success),
    {
        if !success && !self.plan.if_exists {
            let name = str_debug(self.plan.ident.name.as_str());
            DropSequenceStep::Done(Err(unknown_sequence(name.as_str())))
        } else {
            DropSequenceStep::Done(Ok(()))
        }
    }
}

/// A way of carrying out a plan: its steps, and what came of each but the last.
pub open spec fn is_run(
    plan: DropSequencePlan,
    steps: Seq<DropSequenceStep>,
    events: Seq<DropSequenceEvent>,
) -> bool {
    &&& steps.len() == events.len() + 1
    &&& steps[0] == DropSequenceStep::GetCatalog
    &&& forall|i: int|
        0 <= i < events.len() ==> (#[trigger] steps[i]).expects(events[i]) && steps[i + 1].is_after(
            plan,
            steps[i],
            events[i],
        )
    &&& steps.last() is Done
}

/// A step that fails is the last one, and its error is the outcome. Without a failure
/// the outcome is the answer of the catalog to the one request to drop the sequence: a
/// success where there was one, or where the plan allows for there being none, and else
/// an error that names the sequence.
pub proof fn law_outcome_is_the_answer_of_the_catalog(
    plan: DropSequencePlan,
    steps: Seq<DropSequenceStep>,
    events: Seq<DropSequenceEvent>,
)
    requires
        is_run(plan, steps, events),
    ensures
        events.len() > 0,
        forall|i: int| 0 <= i < events.len() - 1 ==> !(#[trigger] events[i] is Failed),
        forall|i: int| 0 <= i < steps.len() && #[trigger] steps[i] is DropSequence ==> i == 2,
        match events.last() {
            DropSequenceEvent::Failed(error) => steps.last() == DropSequenceStep::Done(Err(error)),
            _ => events.len() >= 3 && steps[2] is DropSequence && (events[2] matches
                DropSequenceEvent::Dropped { success } && steps.last().is_end(plan, success)),
        },
{
    lemma_run(plan, steps, events);
}

/// The sequence goes before its ownership. The role service is left alone unless
/// privileges on sequences are checked and the catalog has answered the request to drop
/// the sequence. Then the ownership is revoked, whether there was a sequence or not,
/// and after that the role cache is cleared.
pub proof fn law_sequence_goes_before_its_ownership(
    plan: DropSequencePlan,
    steps: Seq<DropSequenceStep>,
    events: Seq<DropSequenceEvent>,
)
    requires
        is_run(plan, steps, events),
    ensures
        forall|i: int|
            0 <= i < steps.len() && (#[trigger] steps[i] is RevokeOwnership
                || steps[i] is InvalidateRoleCache) ==> i > 2 && events[1]
                == DropSequenceEvent::PrivilegeCheck(true) && steps[2].is_drop(plan, true)
                && events[2] is Dropped,
        events.len() >= 3 && events[1] == DropSequenceEvent::PrivilegeCheck(true) ==> (
        events[2] matches DropSequenceEvent::Dropped { success } ==> steps[3].is_revoke(
            plan,
            success,
        ) && (events[3] is Failed || steps[4].is_invalidate(plan, success))),
{
    lemma_run(plan, steps, events);
}

/// The steps of a run, one by one.
proof fn lemma_run(
    plan: DropSequencePlan,
    steps: Seq<DropSequenceStep>,
    events: Seq<DropSequenceEvent>,
)
    requires
        is_run(plan, steps, events),
    ensures
        1 <= events.len() <= 5,
        forall|i: int| 0 <= i < events.len() - 1 ==> !(#[trigger] events[i] is Failed),
        events.last() matches DropSequenceEvent::Failed(error) ==> steps.last()
            == DropSequenceStep::Done(Err(error)),
        steps[0] is GetCatalog,
        events.len() == 1 ==> events[0] is Failed,
        events.len() >= 2 ==> steps[1] is GetPrivilegeCheck,
        events.len() == 2 ==> events[1] is Failed,
        events.len() >= 3 ==> (events[1] matches DropSequenceEvent::PrivilegeCheck(check)
            && steps[2].is_drop(plan, check) && (events[2] is Failed || (events[2] matches
            DropSequenceEvent::Dropped { success } && if check {
            steps[3].is_revoke(plan, success)
        } else {
            steps[3].is_end(plan, success)
        }))),
        events.len() >= 4 ==> events[1] == DropSequenceEvent::PrivilegeCheck(true)
            && steps[3].is_revoke(plan, events[2]->success),
        events.len() == 4 ==> events[3] is Failed,
        events.len() == 5 ==> steps[4].is_invalidate(plan, events[2]->success)
            && steps[5].is_end(plan, events[2]->success) && events[4] is Succeeded,
{
    let n = events.len() as int;
    assert(n > 0);
    assert(steps[0].expects(events[0]));
    if n > 1 {
        assert(steps[1].expects(events[1]));
    }
    if n > 2 {
        assert(steps[2].expects(events[2]));
    }
    if n > 3 {
        assert(steps[3].expects(events[3]));
    }
    if n > 4 {
        assert(steps[4].expects(events[4]));
    }
    if n > 5 {
        assert(steps[5].expects(events[5]));
    }
}

/// Which outcome a step can have: a look-up or a call succeeds or fails, the setting is on
/// or off, the catalog answers or fails, and clearing a cache cannot fail.
pub proof fn law_steps_have_their_outcomes(step: DropSequenceStep, event: DropSequenceEvent)
    ensures
        step is GetCatalog ==> (step.expects(event) <==> event is Succeeded || event is Failed),
        step is GetPrivilegeCheck ==> (step.expects(event) <==> event is PrivilegeCheck
            || event is Failed),
        step is DropSequence ==> (step.expects(event) <==> event is Dropped || event is Failed),
        step is RevokeOwnership ==> (step.expects(event) <==> event is Succeeded
            || event is Failed),
        step is InvalidateRoleCache ==> (step.expects(event) <==> event is Succeeded),
        step is Done ==> !step.expects(event),
{
}

/// How a plan ends once the catalog has answered: with success where there was a sequence
/// or the plan allows for there being none, and else with an error that shows the name of
/// the sequence.
pub proof fn law_plan_ends_by_the_answer(
    plan: DropSequencePlan,
    end: DropSequenceStep,
    success: bool,
)
    requires
        end.is_end(plan, success),
    ensures
        success ==> end == DropSequenceStep::Done(Ok(())),
        plan.if_exists ==> end == DropSequenceStep::Done(Ok(())),
        !success && !plan.if_exists ==> (end matches DropSequenceStep::Done(
            Err(ErrorCode::UnknownSequence(text)),
        ) && text@ == "unknown sequence "@ + debug_text(plan.ident.name@)),
{
}

/// Every request of a run is about the sequence of the plan, whatever the setting says and
/// whatever the services answer. The catalog is asked to drop the sequence of that tenant
/// and name, and told whether there may be none, just as the plan says. The ownership that
/// is revoked is that of the same sequence, and the cache that is cleared that of its
/// tenant.
pub proof fn law_requests_carry_what_the_plan_says(
    plan: DropSequencePlan,
    steps: Seq<DropSequenceStep>,
    events: Seq<DropSequenceEvent>,
    i: int,
)
    requires
        steps.len() == events.len() + 1,
        steps[0] is GetCatalog,
        forall|j: int|
            0 <= j < events.len() ==> (#[trigger] steps[j]).expects(events[j]) && steps[j
                + 1].is_after(plan, steps[j], events[j]),
        0 <= i < steps.len(),
    ensures
        steps[i] matches DropSequenceStep::DropSequence { req, revoke } ==> req.ident.tenant@
            == plan.ident.tenant@ && req.ident.name@ == plan.ident.name@ && req.if_exists
            == plan.if_exists,
        steps[i] matches DropSequenceStep::RevokeOwnership {
            tenant,
            object: OwnershipObject::Sequence { name },
            success,
        } ==> tenant@ == plan.ident.tenant@ && name@ == plan.ident.name@,
        steps[i] matches DropSequenceStep::InvalidateRoleCache { tenant, success } ==> tenant@
            == plan.ident.tenant@,
{
    if i > 0 {
        assert(steps[i - 1].expects(events[i - 1]));
    }
}

/// A run without a failure, step by step. The catalog is looked up, then the setting, then
/// the sequence is dropped. With the setting off that is all. With the setting on the
/// ownership is revoked and the role cache cleared after that, in this order and whatever
/// the catalog answered. The outcome is a success just where there was a sequence or the
/// plan allows for there being none.
pub proof fn law_run_takes_its_steps_in_order(
    plan: DropSequencePlan,
    steps: Seq<DropSequenceStep>,
    events: Seq<DropSequenceEvent>,
    check: bool,
    success: bool,
)
    requires
        steps.len() == events.len() + 1,
        steps[0] is GetCatalog,
        forall|j: int|
            0 <= j < events.len() ==> (#[trigger] steps[j]).expects(events[j]) && steps[j
                + 1].is_after(plan, steps[j], events[j]),
        steps.last() is Done,
        forall|j: int| 0 <= j < events.len() ==> !(#[trigger] events[j] is Failed),
        forall|j: int|
            0 <= j < events.len() && #[trigger] events[j] is PrivilegeCheck ==> events[j]
                == DropSequenceEvent::PrivilegeCheck(check),
        forall|j: int|
            0 <= j < events.len() && #[trigger] events[j] is Dropped ==> events[j] == (
            DropSequenceEvent::Dropped { success }),
    ensures
        steps.len() == (if check {
            6int
        } else {
            4int
        }),
        steps[1] is GetPrivilegeCheck,
        steps[2] is DropSequence,
        check ==> steps[3] is RevokeOwnership && steps[4] is InvalidateRoleCache,
        steps.last() == DropSequenceStep::Done(Ok(())) <==> success || plan.if_exists,
{
    lemma_run(plan, steps, events);
    let n = events.len() as int;
    assert(!(events[n - 1] is Failed));
    assert(events.last() == events[n - 1]);
    assert(events[1] is PrivilegeCheck);
    assert(events[2] is Dropped);
    assert(steps[2].expects(events[2]));
}

/// A failure of any step is the outcome, and nothing is done after it. Before the catalog
/// has answered that it dropped the sequence, no ownership is revoked.
pub proof fn law_failure_ends_the_run(
    plan: DropSequencePlan,
    before: DropSequenceStep,
    after: DropSequenceStep,
    error: ErrorCode,
)
    requires
        before.expects(DropSequenceEvent::Failed(error)),
        after.is_after(plan, before, DropSequenceEvent::Failed(error)),
    ensures
        after == DropSequenceStep::Done(Err(error)),
        forall|event: DropSequenceEvent| !#[trigger] after.expects(event),
{
}

/// The ownership of a sequence is revoked only in answer to a request to drop it that was
/// made with the setting on.
pub proof fn law_revoke_follows_a_drop(
    plan: DropSequencePlan,
    before: DropSequenceStep,
    event: DropSequenceEvent,
    after: DropSequenceStep,
)
    requires
        before.expects(event),
        after.is_after(plan, before, event),
        after is RevokeOwnership,
    ensures
        before matches DropSequenceStep::DropSequence { req, revoke } && revoke,
        event is Dropped,
{
}

} // verus!
