//! Shared ownership of the assignment store across execution contexts.
//!
//! Many client connections query ownership at the same time as the control
//! listener applies deltas. The store therefore lives behind a verified
//! reader–writer lock: `Contains` queries take shared read access and never
//! serialize against each other, one `Apply` at a time takes exclusive write
//! access, and the lock's invariant says that every value placed in the lock
//! is a well-formed store. A reader can thus never observe a partially
//! mutated slice collection: mutation happens on an exclusively owned value,
//! and only a store that satisfies the invariant again can be handed back.

use vstd::prelude::*;
use vstd::rwlock::RwLock;
use vstd::rwlock::RwLockPredicate;

use crate::control::ControlError;
use crate::control::ControlStep;
use crate::control::Update;
use crate::control::apply_update;
use crate::control::process_control_line;
use crate::control::sp_update;
use crate::face::Expression;
use crate::manager::SessionManager;
use crate::message::RejectReason;
use crate::message::Response;
use crate::message::sp_request;
use crate::route::ClientStep;
use crate::route::process_client_line;
use crate::slices::AssignmentStore;

verus! {

/// The lock invariant: whatever store value sits in the lock is well formed.
pub struct StoreWf {}

impl RwLockPredicate<AssignmentStore> for StoreWf {
    open spec fn inv(self, v: AssignmentStore) -> bool {
        v.wf()
    }
}

/// The assignment store behind a reader–writer lock.
pub struct SharedStore {
    lock: RwLock<AssignmentStore, StoreWf>,
}

impl SharedStore {
    /// A sharable store that owns nothing.
    pub fn new() -> SharedStore {
        SharedStore { lock: RwLock::new(AssignmentStore::new(), Ghost(StoreWf {})) }
    }

    /// True iff `key` lies within some owned slice, under shared read
    /// access: the store observed is well formed, and concurrent readers do
    /// not exclude each other.
    pub fn contains(&self, key: u64) -> bool {
        let handle = self.lock.acquire_read();
        let owned = handle.borrow().contains(key);
        handle.release_read();
        owned
    }

    /// Decode and route one client line under shared read access: the store
    /// observed is well formed, and routing never blocks other readers.
    ///
    /// Which way an owned subject goes depends on the slices the lock holds
    /// at that moment; everything else the step can say is pinned: a line is
    /// skipped exactly when it is not a request record, a dispatch carries
    /// the decoded subject and payload, and the only immediate answer is the
    /// not-assigned rejection for the decoded subject.
    pub fn process_client_line(&self, line: &[u8]) -> (step: ClientStep)
        ensures
            step == ClientStep::Skip <==> sp_request(line@) is None,
            step matches ClientStep::Dispatch(e, p) ==> sp_request(line@) == Some((e, p@)),
            step matches ClientStep::Respond(r) ==> (sp_request(line@) matches Some((subject, _))
                && r == (Response::Reject { reason: RejectReason::NotAssigned, subject })),
    {
        let handle = self.lock.acquire_read();
        let step = process_client_line(handle.borrow(), line);
        handle.release_read();
        step
    }

    /// Apply one decoded delta under exclusive write access: the mutation is
    /// invisible until the well-formed result is handed back to the lock.
    pub fn apply_update(&self, update: &Update) -> Result<(), crate::control::ControlError> {
        let (mut store, write_handle) = self.lock.acquire_write();
        let r = apply_update(&mut store, update);
        write_handle.release_write(store);
        r
    }

    /// Process one control line under exclusive write access, reconciling
    /// the given session manager against the store that results.
    ///
    /// Which delta outcome arises depends on the slices the lock holds at
    /// that moment; everything else the step can say is pinned: a line is
    /// reported malformed exactly when it is not an update record, a
    /// malformed line changes nothing and plans nothing, and a plan always
    /// covers exactly the two categories, in order.
    pub fn process_control_line(&self, manager: &mut SessionManager, line: &[u8]) -> (step:
        ControlStep)
        ensures
            step.error == Some(ControlError::Malformed) <==> sp_update(line@) is None,
            sp_update(line@) is None ==> *final(manager) == *old(manager) && step.plan is None,
            step.plan matches Some(p) ==> p@.len() == 2 && p@[0].0 == Expression::Anger
                && p@[1].0 == Expression::Happiness,
    {
        let (mut store, write_handle) = self.lock.acquire_write();
        let step = process_control_line(&mut store, manager, line);
        write_handle.release_write(store);
        step
    }
}

} // verus!
