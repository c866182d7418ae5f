use slicelet::control::Update;
use slicelet::face::Expression;
use slicelet::message::ParseError;
use slicelet::message::RejectReason;
use slicelet::message::Request;
use slicelet::message::Response;
use slicelet::slices::Slice;

#[test]
fn request_serializes_to_exact_json_line() {
    let req = Request { subject: Expression::Anger, payload: vec![1, 2, 255] };
    assert_eq!(req.serialize(), b"{\"subject\":\"Anger\",\"payload\":[1,2,255]}\n".to_vec());
}

#[test]
fn request_with_empty_payload_serializes_to_empty_array() {
    let req = Request { subject: Expression::Happiness, payload: Vec::new() };
    assert_eq!(req.serialize(), b"{\"subject\":\"Happiness\",\"payload\":[]}\n".to_vec());
}

#[test]
fn request_round_trips_through_bytes() {
    let req = Request { subject: Expression::Happiness, payload: vec![0, 17, 42, 200] };
    let encoded = req.serialize();
    assert_eq!(Request::deserialize(&encoded), Ok(req));
}

#[test]
fn request_deserializes_without_trailing_newline() {
    let parsed = Request::deserialize(b"{\"subject\":\"Anger\",\"payload\":[7]}").unwrap();
    assert_eq!(parsed.subject, Expression::Anger);
    assert_eq!(parsed.payload, vec![7]);
}

#[test]
fn request_tolerates_trailing_whitespace_only() {
    let parsed = Request::deserialize(b"{\"subject\":\"Anger\",\"payload\":[5]}\r\n").unwrap();
    assert_eq!(parsed.payload, vec![5]);
    let padded = Request::deserialize(b"{\"subject\":\"Anger\",\"payload\":[5]}\n  \t").unwrap();
    assert_eq!(padded.payload, vec![5]);
}

#[test]
fn request_tolerates_json_whitespace_between_tokens() {
    let parsed =
        Request::deserialize(b"{\"subject\": \"Anger\", \"payload\": [1, 2, 3]}\n").unwrap();
    assert_eq!(parsed.subject, Expression::Anger);
    assert_eq!(parsed.payload, vec![1, 2, 3]);
    let spread = Request::deserialize(
        b" {\t\"subject\" : \"Happiness\" ,\r\n  \"payload\" : [ 10 ,20 , 30 ] } \n",
    )
    .unwrap();
    assert_eq!(spread.subject, Expression::Happiness);
    assert_eq!(spread.payload, vec![10, 20, 30]);
    let empty = Request::deserialize(b"{ \"subject\": \"Anger\", \"payload\": [ ] }\n").unwrap();
    assert!(empty.payload.is_empty());
}

#[test]
fn request_members_may_come_in_either_order() {
    let parsed =
        Request::deserialize(b"{\"payload\":[9,8],\"subject\":\"Happiness\"}\n").unwrap();
    assert_eq!(parsed.subject, Expression::Happiness);
    assert_eq!(parsed.payload, vec![9, 8]);
}

#[test]
fn payload_values_with_leading_zeros_are_rejected() {
    // A leading zero is not a JSON number.
    assert_eq!(
        Request::deserialize(b"{\"subject\":\"Anger\",\"payload\":[007]}\n"),
        Err(ParseError::Malformed)
    );
    // A lone zero still is.
    let parsed = Request::deserialize(b"{\"subject\":\"Anger\",\"payload\":[0]}\n").unwrap();
    assert_eq!(parsed.payload, vec![0]);
}

#[test]
fn malformed_request_lines_are_rejected() {
    for line in [
        &b""[..],
        &b"\n"[..],
        &b"{\"subject\":\"Anger\"}\n"[..],
        &b"{\"subject\":\"Boredom\",\"payload\":[]}\n"[..],
        &b"{\"subject\":\"Anger\",\"payload\":[256]}\n"[..],
        &b"{\"subject\":\"Anger\",\"payload\":[1,]}\n"[..],
        &b"{\"subject\":\"Anger\",\"payload\":[]}x\n"[..],
        &b"{\"subject\":\"Anger\",\"subject\":\"Anger\"}\n"[..],
        &b"not json at all\n"[..],
    ] {
        assert_eq!(Request::deserialize(line), Err(ParseError::Malformed));
    }
}

#[test]
fn accept_response_serializes_to_exact_json_line() {
    let yes = Response::Accept { matches: true };
    assert_eq!(yes.serialize(), b"{\"Accept\":{\"matches\":true}}\n".to_vec());
    let no = Response::Accept { matches: false };
    assert_eq!(no.serialize(), b"{\"Accept\":{\"matches\":false}}\n".to_vec());
}

#[test]
fn reject_response_serializes_with_reason_and_subject() {
    let resp = Response::Reject { reason: RejectReason::NotAssigned, subject: Expression::Anger };
    assert_eq!(
        resp.serialize(),
        b"{\"Reject\":{\"reason\":\"not assigned to handle category\",\"subject\":\"Anger\"}}\n"
            .to_vec()
    );
    let outage = Response::Reject {
        reason: RejectReason::DispatchFailed,
        subject: Expression::Happiness,
    };
    assert_eq!(
        outage.serialize(),
        b"{\"Reject\":{\"reason\":\"model dispatch failed\",\"subject\":\"Happiness\"}}\n".to_vec()
    );
}

#[test]
fn response_round_trips_through_bytes() {
    for resp in [
        Response::Accept { matches: true },
        Response::Accept { matches: false },
        Response::Reject { reason: RejectReason::NotAssigned, subject: Expression::Happiness },
        Response::Reject { reason: RejectReason::DispatchFailed, subject: Expression::Anger },
    ] {
        let encoded = resp.serialize();
        assert_eq!(Response::deserialize(&encoded), Ok(resp));
    }
}

#[test]
fn response_tolerates_json_whitespace_and_member_order() {
    let accept = Response::deserialize(b"{ \"Accept\": { \"matches\": true } }\n").unwrap();
    assert_eq!(accept, Response::Accept { matches: true });
    let reject = Response::deserialize(
        b"{\"Reject\":{\"subject\":\"Anger\",\"reason\":\"not assigned to handle category\"}}\n",
    )
    .unwrap();
    assert_eq!(
        reject,
        Response::Reject { reason: RejectReason::NotAssigned, subject: Expression::Anger }
    );
}

#[test]
fn malformed_response_lines_are_rejected() {
    for line in [
        &b"{\"Accept\":{\"matches\":maybe}}\n"[..],
        &b"{\"Reject\":{\"reason\":\"something else\",\"subject\":\"Anger\"}}\n"[..],
        &b"{}"[..],
    ] {
        assert_eq!(Response::deserialize(line), Err(ParseError::Malformed));
    }
}

#[test]
fn update_deserializes_assigned_and_unassigned_slices() {
    let upd = Update::deserialize(
        b"{\"assigned\":[{\"start\":0,\"end\":100},{\"start\":200,\"end\":300}],\"unassigned\":[{\"start\":400,\"end\":400}]}\n",
    )
    .unwrap();
    assert_eq!(
        upd.assigned,
        vec![Slice { start: 0, end: 100 }, Slice { start: 200, end: 300 }]
    );
    assert_eq!(upd.unassigned, vec![Slice { start: 400, end: 400 }]);
}

#[test]
fn update_deserializes_empty_lists() {
    let upd = Update::deserialize(b"{\"assigned\":[],\"unassigned\":[]}\n").unwrap();
    assert!(upd.assigned.is_empty());
    assert!(upd.unassigned.is_empty());
}

#[test]
fn update_accepts_u64_extremes() {
    let upd = Update::deserialize(
        b"{\"assigned\":[{\"start\":0,\"end\":18446744073709551615}],\"unassigned\":[]}\n",
    )
    .unwrap();
    assert_eq!(upd.assigned, vec![Slice { start: 0, end: u64::MAX }]);
}

#[test]
fn update_tolerates_json_whitespace_and_member_order() {
    let upd = Update::deserialize(
        b"{ \"assigned\": [ { \"start\": 0, \"end\": 100 } ], \"unassigned\": [ ] }\n",
    )
    .unwrap();
    assert_eq!(upd.assigned, vec![Slice { start: 0, end: 100 }]);
    assert!(upd.unassigned.is_empty());
    let swapped =
        Update::deserialize(b"{\"unassigned\":[],\"assigned\":[{\"end\":7,\"start\":3}]}\n")
            .unwrap();
    assert_eq!(swapped.assigned, vec![Slice { start: 3, end: 7 }]);
    assert!(swapped.unassigned.is_empty());
}

#[test]
fn malformed_update_lines_are_rejected() {
    for line in [
        &b"{\"assigned\":[{\"start\":0,\"end\":18446744073709551616}],\"unassigned\":[]}\n"[..],
        &b"{\"assigned\":[{\"start\":0}],\"unassigned\":[]}\n"[..],
        &b"{\"assigned\":[{\"start\":01,\"end\":2}],\"unassigned\":[]}\n"[..],
        &b"{\"assigned\":[]}\n"[..],
        &b"garbage\n"[..],
        &b""[..],
    ] {
        assert_eq!(Update::deserialize(line), Err(ParseError::Malformed));
    }
}

#[test]
fn serialized_request_is_valid_json_with_the_declared_fields() {
    let req = Request { subject: Expression::Anger, payload: vec![3, 250] };
    let encoded = req.serialize();
    let value: serde_json::Value = serde_json::from_slice(&encoded).unwrap();
    assert_eq!(value["subject"], serde_json::Value::String("Anger".to_string()));
    let payload: Vec<u64> =
        value["payload"].as_array().unwrap().iter().map(|v| v.as_u64().unwrap()).collect();
    assert_eq!(payload, vec![3, 250]);
}

#[test]
fn serialized_response_is_valid_json_with_the_declared_fields() {
    let resp = Response::Reject { reason: RejectReason::NotAssigned, subject: Expression::Anger };
    let encoded = resp.serialize();
    let value: serde_json::Value = serde_json::from_slice(&encoded).unwrap();
    assert_eq!(
        value["Reject"]["reason"],
        serde_json::Value::String("not assigned to handle category".to_string())
    );
    assert_eq!(value["Reject"]["subject"], serde_json::Value::String("Anger".to_string()));
}
