use slicelet::control::ControlError;
use slicelet::control::Update;
use slicelet::control::apply_update;
use slicelet::control::process_control_line;
use slicelet::face::Expression;
use slicelet::hashspace::to_slice_key;
use slicelet::manager::SessionAction;
use slicelet::manager::SessionManager;
use slicelet::message::RejectReason;
use slicelet::message::Request;
use slicelet::message::Response;
use slicelet::route::ClientStep;
use slicelet::route::DispatchOutcome;
use slicelet::route::ProtocolError;
use slicelet::route::RouteDecision;
use slicelet::route::generate_response;
use slicelet::route::handle_request;
use slicelet::route::process_client_line;
use slicelet::shared::SharedStore;
use slicelet::slices::AssignmentStore;
use slicelet::slices::Slice;

#[test]
fn slice_keys_are_deterministic_fnv1a() {
    assert_eq!(to_slice_key(&Expression::Anger), 6599063010953979632);
    assert_eq!(to_slice_key(&Expression::Happiness), 14139283075062042006);
    assert_eq!(to_slice_key(&Expression::Anger), to_slice_key(&Expression::Anger));
}

#[test]
fn reconcile_starts_sessions_for_owned_categories() {
    let mut store = AssignmentStore::new();
    let key = to_slice_key(&Expression::Anger);
    let assigned = vec![Slice { start: key, end: key }];
    let nothing: Vec<Slice> = Vec::new();
    assert!(store.apply(&assigned, &nothing).is_ok());

    let mut manager = SessionManager::new();
    let plan = manager.update_models(&store);
    assert_eq!(
        plan,
        vec![
            (Expression::Anger, SessionAction::Start),
            (Expression::Happiness, SessionAction::Keep),
        ]
    );
    assert!(manager.session_exists(&Expression::Anger));
    assert!(!manager.session_exists(&Expression::Happiness));
}

#[test]
fn reconcile_twice_plans_no_subprocess_operation() {
    let mut store = AssignmentStore::new();
    let key = to_slice_key(&Expression::Happiness);
    let assigned = vec![Slice { start: key, end: key }];
    let nothing: Vec<Slice> = Vec::new();
    assert!(store.apply(&assigned, &nothing).is_ok());

    let mut manager = SessionManager::new();
    let first = manager.update_models(&store);
    assert_eq!(first[1], (Expression::Happiness, SessionAction::Start));
    // No ownership change in between: the second reconciliation is a no-op.
    let second = manager.update_models(&store);
    assert_eq!(
        second,
        vec![
            (Expression::Anger, SessionAction::Keep),
            (Expression::Happiness, SessionAction::Keep),
        ]
    );
}

#[test]
fn reconcile_stops_sessions_for_lost_categories() {
    let mut store = AssignmentStore::new();
    let key = to_slice_key(&Expression::Anger);
    let assigned = vec![Slice { start: key, end: key }];
    let nothing: Vec<Slice> = Vec::new();
    assert!(store.apply(&assigned, &nothing).is_ok());

    let mut manager = SessionManager::new();
    manager.update_models(&store);
    assert!(store.apply(&nothing, &assigned).is_ok());
    let plan = manager.update_models(&store);
    assert_eq!(plan[0], (Expression::Anger, SessionAction::Stop));
    assert!(!manager.session_exists(&Expression::Anger));
}

#[test]
fn unowned_subject_is_rejected_without_dispatch() {
    let store = AssignmentStore::new();
    let request = Request { subject: Expression::Anger, payload: vec![1] };
    let decision = handle_request(&store, &request);
    assert_eq!(
        decision,
        RouteDecision::Respond(Response::Reject {
            reason: RejectReason::NotAssigned,
            subject: Expression::Anger,
        })
    );
}

#[test]
fn owned_subject_is_dispatched() {
    let mut store = AssignmentStore::new();
    let key = to_slice_key(&Expression::Anger);
    let assigned = vec![Slice { start: key, end: key }];
    let nothing: Vec<Slice> = Vec::new();
    assert!(store.apply(&assigned, &nothing).is_ok());
    let request = Request { subject: Expression::Anger, payload: vec![1] };
    assert_eq!(handle_request(&store, &request), RouteDecision::Dispatch(Expression::Anger));
}

#[test]
fn prediction_bytes_map_to_accept_and_protocol_errors() {
    let one = generate_response(Expression::Anger, DispatchOutcome::Reply(b'1'));
    assert_eq!(one, Ok(Response::Accept { matches: true }));
    let zero = generate_response(Expression::Anger, DispatchOutcome::Reply(b'0'));
    assert_eq!(zero, Ok(Response::Accept { matches: false }));
    let odd = generate_response(Expression::Anger, DispatchOutcome::Reply(b'7'));
    assert_eq!(odd, Err(ProtocolError::UnexpectedPrediction(b'7')));
}

#[test]
fn failed_dispatch_rejects_with_its_own_reason() {
    let r = generate_response(Expression::Happiness, DispatchOutcome::Failed);
    assert_eq!(
        r,
        Ok(Response::Reject {
            reason: RejectReason::DispatchFailed,
            subject: Expression::Happiness,
        })
    );
}

#[test]
fn conflicting_delta_is_refused_whole() {
    let mut store = AssignmentStore::new();
    // Overlapping assigned slices break the partitioner's guarantee.
    let update = Update {
        assigned: vec![Slice { start: 0, end: 10 }, Slice { start: 5, end: 15 }],
        unassigned: Vec::new(),
    };
    assert_eq!(apply_update(&mut store, &update), Err(ControlError::ConflictingDelta));
    assert_eq!(store.len(), 0);
    // A slice with reversed bounds is refused too.
    let reversed = Update {
        assigned: vec![Slice { start: 10, end: 0 }],
        unassigned: Vec::new(),
    };
    assert_eq!(apply_update(&mut store, &reversed), Err(ControlError::ConflictingDelta));
    assert_eq!(store.len(), 0);
}

#[test]
fn control_line_applies_delta_and_plans_subprocesses() {
    let mut store = AssignmentStore::new();
    let mut manager = SessionManager::new();
    let key = to_slice_key(&Expression::Anger);
    let line = format!(
        "{{\"assigned\":[{{\"start\":{},\"end\":{}}}],\"unassigned\":[]}}\n",
        key, key
    );
    let step = process_control_line(&mut store, &mut manager, line.as_bytes());
    assert_eq!(step.error, None);
    let plan = step.plan.unwrap();
    assert_eq!(plan[0], (Expression::Anger, SessionAction::Start));
    assert!(store.contains(key));
}

#[test]
fn malformed_control_line_is_skipped() {
    let mut store = AssignmentStore::new();
    let mut manager = SessionManager::new();
    let step = process_control_line(&mut store, &mut manager, b"nonsense\n");
    assert_eq!(step.error, Some(ControlError::Malformed));
    assert!(step.plan.is_none());
    assert_eq!(store.len(), 0);
}

#[test]
fn control_line_reports_unknown_unassigned_entry() {
    let mut store = AssignmentStore::new();
    let mut manager = SessionManager::new();
    let step = process_control_line(
        &mut store,
        &mut manager,
        b"{\"assigned\":[],\"unassigned\":[{\"start\":1,\"end\":2}]}\n",
    );
    assert_eq!(step.error, Some(ControlError::UnassignedNotOwned));
    assert!(step.plan.is_some());
}

#[test]
fn end_to_end_request_served_once_slice_is_assigned() {
    // The control channel delivers a slice that covers the Anger key; a
    // client request for Anger is then dispatched, the subprocess predicts a
    // match, and the accepting response goes out.
    let mut store = AssignmentStore::new();
    let mut manager = SessionManager::new();
    let key = to_slice_key(&Expression::Anger);
    let low = key.saturating_sub(100);
    let high = key.saturating_add(100);
    let line =
        format!("{{\"assigned\":[{{\"start\":{},\"end\":{}}}],\"unassigned\":[]}}\n", low, high);
    let step = process_control_line(&mut store, &mut manager, line.as_bytes());
    assert_eq!(step.error, None);
    assert_eq!(step.plan.unwrap()[0], (Expression::Anger, SessionAction::Start));

    let request_line = b"{\"subject\":\"Anger\",\"payload\":[1,2,3]}\n";
    let routed = process_client_line(&store, request_line);
    match routed {
        ClientStep::Dispatch(subject, payload) => {
            assert_eq!(subject, Expression::Anger);
            assert_eq!(payload, vec![1, 2, 3]);
        },
        other => panic!("expected a dispatch, got {:?}", other),
    }
    let response = generate_response(Expression::Anger, DispatchOutcome::Reply(b'1')).unwrap();
    assert_eq!(response.serialize(), b"{\"Accept\":{\"matches\":true}}\n".to_vec());
}

#[test]
fn end_to_end_request_rejected_after_slice_is_unassigned() {
    let mut store = AssignmentStore::new();
    let mut manager = SessionManager::new();
    let key = to_slice_key(&Expression::Anger);
    let assign =
        format!("{{\"assigned\":[{{\"start\":{},\"end\":{}}}],\"unassigned\":[]}}\n", key, key);
    process_control_line(&mut store, &mut manager, assign.as_bytes());
    assert!(manager.session_exists(&Expression::Anger));

    // The slice covering the key goes away: the subprocess is stopped and a
    // later request is rejected at once, contacting nothing.
    let unassign =
        format!("{{\"assigned\":[],\"unassigned\":[{{\"start\":{},\"end\":{}}}]}}\n", key, key);
    let step = process_control_line(&mut store, &mut manager, unassign.as_bytes());
    assert_eq!(step.error, None);
    assert_eq!(step.plan.unwrap()[0], (Expression::Anger, SessionAction::Stop));
    assert!(!manager.session_exists(&Expression::Anger));

    let routed = process_client_line(&store, b"{\"subject\":\"Anger\",\"payload\":[9]}\n");
    assert_eq!(
        routed,
        ClientStep::Respond(Response::Reject {
            reason: RejectReason::NotAssigned,
            subject: Expression::Anger,
        })
    );
}

#[test]
fn skipped_client_line_leaves_connection_logic_untouched() {
    let store = AssignmentStore::new();
    assert_eq!(process_client_line(&store, b"not a request\n"), ClientStep::Skip);
}

#[test]
fn shared_store_serves_reads_and_writes() {
    let shared = SharedStore::new();
    let key = to_slice_key(&Expression::Anger);
    assert!(!shared.contains(key));
    let update = Update {
        assigned: vec![Slice { start: key, end: key }],
        unassigned: Vec::new(),
    };
    assert!(shared.apply_update(&update).is_ok());
    assert!(shared.contains(key));
    let mut manager = SessionManager::new();
    let unassign =
        format!("{{\"assigned\":[],\"unassigned\":[{{\"start\":{},\"end\":{}}}]}}\n", key, key);
    let step = shared.process_control_line(&mut manager, unassign.as_bytes());
    assert_eq!(step.error, None);
    assert!(!shared.contains(key));
    // Lines that decode to nothing are skipped through the shared store too.
    assert_eq!(shared.process_client_line(b"junk\n"), ClientStep::Skip);
    let bad = shared.process_control_line(&mut manager, b"junk\n");
    assert_eq!(bad.error, Some(ControlError::Malformed));
    assert!(bad.plan.is_none());
}
