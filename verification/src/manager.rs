//! The model-session lifecycle manager.
//!
//! Per subject category the node keeps at most one model session: a spawned
//! inference subprocess together with its open connection. This module makes
//! the lifecycle decisions — which categories must have a session brought up
//! and which must have theirs torn down so that session existence agrees with
//! current slice ownership. Spawning, connecting and killing are carried out
//! by the caller, which reports the subprocess side effects this module plans.

use vstd::prelude::*;

use crate::face::Expression;
use crate::hashspace::expression_is_assigned;
use crate::hashspace::slice_key_of;
use crate::slices::AssignmentStore;
use crate::slices::Slice;
use crate::slices::covers;

verus! {

/// The subprocess operation that reconciliation plans for one category.
#[derive(Clone, Copy, Debug, PartialEq, Eq, Structural)]
pub enum SessionAction {
    /// Spawn the category's inference subprocess and open a connection.
    Start,
    /// Terminate the subprocess and drop the connection.
    Stop,
    /// Ownership and session existence already agree: do nothing.
    Keep,
}

/// The operation that reconciliation takes when a category's session
/// existence is `present` and its slice ownership is `owned`.
pub open spec fn reconcile_action(present: bool, owned: bool) -> SessionAction {
    if owned && !present {
        SessionAction::Start
    } else if !owned && present {
        SessionAction::Stop
    } else {
        SessionAction::Keep
    }
}

/// Which categories currently have a model session.
pub struct SessionManager {
    anger_session: bool,
    happiness_session: bool,
}

impl SessionManager {
    /// True iff a session is recorded for category `e`.
    pub closed spec fn has_session(self, e: Expression) -> bool {
        match e {
            Expression::Anger => self.anger_session,
            Expression::Happiness => self.happiness_session,
        }
    }

    /// A manager with no sessions.
    pub fn new() -> (m: SessionManager)
        ensures
            forall|e: Expression| !m.has_session(e),
    {
        SessionManager { anger_session: false, happiness_session: false }
    }

    /// True iff a session is recorded for category `expr`.
    pub fn session_exists(&self, expr: &Expression) -> (have: bool)
        ensures
            have == self.has_session(*expr),
    {
        match expr {
            Expression::Anger => self.anger_session,
            Expression::Happiness => self.happiness_session,
        }
    }

    /// Reconcile one category's session existence against current ownership,
    /// and plan the subprocess operation that makes the two agree.
    pub fn update_model(&mut self, store: &AssignmentStore, expr: &Expression) -> (action:
        SessionAction)
        ensures
            action == reconcile_action(
                old(self).has_session(*expr),
                covers(store@, slice_key_of(*expr)),
            ),
            final(self).has_session(*expr) == covers(store@, slice_key_of(*expr)),
            forall|e: Expression|
                e != *expr ==> final(self).has_session(e) == old(self).has_session(e),
    {
        let owned = expression_is_assigned(store, expr);
        let have = self.session_exists(expr);
        if owned == have {
            SessionAction::Keep
        } else {
            match expr {
                Expression::Anger => {
                    self.anger_session = owned;
                },
                Expression::Happiness => {
                    self.happiness_session = owned;
                },
            }
            if owned {
                SessionAction::Start
            } else {
                SessionAction::Stop
            }
        }
    }

    /// Reconcile every known category: after the call, session existence
    /// agrees with slice ownership for all of them. The returned plan lists,
    /// per category, the subprocess operation the caller must perform.
    pub fn update_models(&mut self, store: &AssignmentStore) -> (plan: Vec<
        (Expression, SessionAction),
    >)
        ensures
            plan@.len() == 2,
            plan@[0] == (
                Expression::Anger,
                reconcile_action(
                    old(self).has_session(Expression::Anger),
                    covers(store@, slice_key_of(Expression::Anger)),
                ),
            ),
            plan@[1] == (
                Expression::Happiness,
                reconcile_action(
                    old(self).has_session(Expression::Happiness),
                    covers(store@, slice_key_of(Expression::Happiness)),
                ),
            ),
            forall|e: Expression| final(self).has_session(e) == covers(store@, slice_key_of(e)),
    {
        let mut plan: Vec<(Expression, SessionAction)> = Vec::new();
        let anger_action = self.update_model(store, &Expression::Anger);
        plan.push((Expression::Anger, anger_action));
        let happiness_action = self.update_model(store, &Expression::Happiness);
        plan.push((Expression::Happiness, happiness_action));
        assert forall|e: Expression| self.has_session(e) == covers(
            store@,
            slice_key_of(e),
        ) by {
            match e {
                Expression::Anger => {},
                Expression::Happiness => {},
            }
        }
        plan
    }
}

/// Reconciliation is idempotent: a manager whose sessions already agree with
/// slice ownership — as they do right after any reconciliation against the
/// same store — plans no subprocess operation for any category.
pub proof fn lemma_reconcile_idempotent(m: SessionManager, ss: Seq<Slice>)
    requires
        forall|e: Expression| m.has_session(e) == covers(ss, slice_key_of(e)),
    ensures
        forall|e: Expression|
            reconcile_action(m.has_session(e), covers(ss, slice_key_of(e)))
                == SessionAction::Keep,
{
}

} // verus!
