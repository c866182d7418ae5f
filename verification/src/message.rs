//! The client-facing message types and their wire codecs.
//!
//! A request names a subject category and carries the payload to classify; a
//! response either accepts with the classification outcome or rejects with a
//! reason. Both travel as one newline-terminated JSON record. The encoders
//! state the exact bytes they produce; the decoders mirror a
//! specification-level parser, so what a record means is pinned for every
//! input, and decoding an encoded message gives the message back. The
//! decoders take the record's members in either order and tolerate the
//! whitespace JSON allows between tokens; the strings of this protocol —
//! keys, category names, reasons — need no escape sequences, and escaped
//! spellings of them are not accepted.

use vstd::prelude::*;

use crate::face::Expression;
use crate::json::byte_token;
use crate::json::dec_nat;
use crate::json::is_digit;
use crate::json::is_ws;
use crate::json::lemma_dec_nat_digits;
use crate::json::lemma_parse_dec;
use crate::json::lemma_tok_at;
use crate::json::only_ws_from;
use crate::json::parse_tok;
use crate::json::parse_u8_tok;
use crate::json::push_dec_u64;
use crate::json::quoted;
use crate::json::skip_ws;
use crate::json::sp_tok;
use crate::json::sp_u8_tok;
use crate::json::ws_end;
use crate::json::ws_only;

verus! {

/// Why the node refuses to serve a request.
#[derive(Clone, Copy, Debug, PartialEq, Eq, Hash, Structural)]
pub enum RejectReason {
    /// The subject's hash key lies outside every owned slice: another node
    /// must serve this request.
    NotAssigned,
    /// The subject is owned but the exchange with its inference subprocess
    /// failed; distinct from `NotAssigned` so that a routing rejection can be
    /// told apart from a backend outage.
    DispatchFailed,
}

impl RejectReason {
    /// The reason as it appears on the wire:
    /// `not assigned to handle category` or `model dispatch failed`.
    pub open spec fn spec_message(self) -> Seq<u8> {
        match self {
            RejectReason::NotAssigned => seq![110u8, 111u8, 116u8, 32u8, 97u8, 115u8, 115u8, 105u8, 103u8, 110u8, 101u8, 100u8, 32u8, 116u8, 111u8, 32u8, 104u8, 97u8, 110u8, 100u8, 108u8, 101u8, 32u8, 99u8, 97u8, 116u8, 101u8, 103u8, 111u8, 114u8, 121u8],
            RejectReason::DispatchFailed => seq![109u8, 111u8, 100u8, 101u8, 108u8, 32u8, 100u8, 105u8, 115u8, 112u8, 97u8, 116u8, 99u8, 104u8, 32u8, 102u8, 97u8, 105u8, 108u8, 101u8, 100u8],
        }
    }

    /// Build the reason's wire message.
    pub fn message_bytes(&self) -> (m: Vec<u8>)
        ensures
            m@ == self.spec_message(),
    {
        let mut m: Vec<u8> = Vec::new();
        match self {
            RejectReason::NotAssigned => {
                m.push(110);
                m.push(111);
                m.push(116);
                m.push(32);
                m.push(97);
                m.push(115);
                m.push(115);
                m.push(105);
                m.push(103);
                m.push(110);
                m.push(101);
                m.push(100);
                m.push(32);
                m.push(116);
                m.push(111);
                m.push(32);
                m.push(104);
                m.push(97);
                m.push(110);
                m.push(100);
                m.push(108);
                m.push(101);
                m.push(32);
                m.push(99);
                m.push(97);
                m.push(116);
                m.push(101);
                m.push(103);
                m.push(111);
                m.push(114);
                m.push(121);
            },
            RejectReason::DispatchFailed => {
                m.push(109);
                m.push(111);
                m.push(100);
                m.push(101);
                m.push(108);
                m.push(32);
                m.push(100);
                m.push(105);
                m.push(115);
                m.push(112);
                m.push(97);
                m.push(116);
                m.push(99);
                m.push(104);
                m.push(32);
                m.push(102);
                m.push(97);
                m.push(105);
                m.push(108);
                m.push(101);
                m.push(100);
            },
        }
        proof {
            assert(m@ =~= self.spec_message());
        }
        m
    }
}

/// A record that could not be decoded.
#[derive(Clone, Copy, Debug, PartialEq, Eq, Structural)]
pub enum ParseError {
    /// The line is not a record of the expected shape.
    Malformed,
}

/// A classification request: the subject category asked about, and the raw
/// payload to classify.
#[derive(Clone, Debug, PartialEq, Eq)]
pub struct Request {
    pub subject: Expression,
    pub payload: Vec<u8>,
}

/// The node's answer to a request.
#[derive(Clone, Copy, Debug, PartialEq, Eq, Structural)]
pub enum Response {
    /// The request was served: whether the payload matches the subject.
    Accept { matches: bool },
    /// The request was not served, and why.
    Reject { reason: RejectReason, subject: Expression },
}

/// Wire literal `{"subject":"`: the opening of a request record, up to the subject name.
pub open spec fn lit_req_open() -> Seq<u8> {
    seq![123u8, 34u8, 115u8, 117u8, 98u8, 106u8, 101u8, 99u8, 116u8, 34u8, 58u8, 34u8]
}

/// Build [`lit_req_open`] as bytes.
pub fn req_open_bytes() -> (out: Vec<u8>)
    ensures
        out@ == lit_req_open(),
{
    let mut out: Vec<u8> = Vec::new();
    out.push(123);
    out.push(34);
    out.push(115);
    out.push(117);
    out.push(98);
    out.push(106);
    out.push(101);
    out.push(99);
    out.push(116);
    out.push(34);
    out.push(58);
    out.push(34);
    proof {
        assert(out@ =~= lit_req_open());
    }
    out
}

/// Wire literal `","payload":[`: between the subject name and the payload bytes.
pub open spec fn lit_req_mid() -> Seq<u8> {
    seq![34u8, 44u8, 34u8, 112u8, 97u8, 121u8, 108u8, 111u8, 97u8, 100u8, 34u8, 58u8, 91u8]
}

/// Build [`lit_req_mid`] as bytes.
pub fn req_mid_bytes() -> (out: Vec<u8>)
    ensures
        out@ == lit_req_mid(),
{
    let mut out: Vec<u8> = Vec::new();
    out.push(34);
    out.push(44);
    out.push(34);
    out.push(112);
    out.push(97);
    out.push(121);
    out.push(108);
    out.push(111);
    out.push(97);
    out.push(100);
    out.push(34);
    out.push(58);
    out.push(91);
    proof {
        assert(out@ =~= lit_req_mid());
    }
    out
}

/// Wire literal `]}`: the closing of a request record.
pub open spec fn lit_req_close() -> Seq<u8> {
    seq![93u8, 125u8]
}

/// Build [`lit_req_close`] as bytes.
pub fn req_close_bytes() -> (out: Vec<u8>)
    ensures
        out@ == lit_req_close(),
{
    let mut out: Vec<u8> = Vec::new();
    out.push(93);
    out.push(125);
    proof {
        assert(out@ =~= lit_req_close());
    }
    out
}

/// Wire literal `{"Accept":{"matches":`: the opening of an accepting response.
pub open spec fn lit_accept_open() -> Seq<u8> {
    seq![123u8, 34u8, 65u8, 99u8, 99u8, 101u8, 112u8, 116u8, 34u8, 58u8, 123u8, 34u8, 109u8, 97u8, 116u8, 99u8, 104u8, 101u8, 115u8, 34u8, 58u8]
}

/// Build [`lit_accept_open`] as bytes.
pub fn accept_open_bytes() -> (out: Vec<u8>)
    ensures
        out@ == lit_accept_open(),
{
    let mut out: Vec<u8> = Vec::new();
    out.push(123);
    out.push(34);
    out.push(65);
    out.push(99);
    out.push(99);
    out.push(101);
    out.push(112);
    out.push(116);
    out.push(34);
    out.push(58);
    out.push(123);
    out.push(34);
    out.push(109);
    out.push(97);
    out.push(116);
    out.push(99);
    out.push(104);
    out.push(101);
    out.push(115);
    out.push(34);
    out.push(58);
    proof {
        assert(out@ =~= lit_accept_open());
    }
    out
}

/// Wire literal `true`: the JSON spelling of true.
pub open spec fn lit_true() -> Seq<u8> {
    seq![116u8, 114u8, 117u8, 101u8]
}

/// Build [`lit_true`] as bytes.
pub fn lit_true_bytes() -> (out: Vec<u8>)
    ensures
        out@ == lit_true(),
{
    let mut out: Vec<u8> = Vec::new();
    out.push(116);
    out.push(114);
    out.push(117);
    out.push(101);
    proof {
        assert(out@ =~= lit_true());
    }
    out
}

/// Wire literal `false`: the JSON spelling of false.
pub open spec fn lit_false() -> Seq<u8> {
    seq![102u8, 97u8, 108u8, 115u8, 101u8]
}

/// Build [`lit_false`] as bytes.
pub fn lit_false_bytes() -> (out: Vec<u8>)
    ensures
        out@ == lit_false(),
{
    let mut out: Vec<u8> = Vec::new();
    out.push(102);
    out.push(97);
    out.push(108);
    out.push(115);
    out.push(101);
    proof {
        assert(out@ =~= lit_false());
    }
    out
}

/// Wire literal `}}`: the closing of an accepting response.
pub open spec fn lit_accept_close() -> Seq<u8> {
    seq![125u8, 125u8]
}

/// Build [`lit_accept_close`] as bytes.
pub fn accept_close_bytes() -> (out: Vec<u8>)
    ensures
        out@ == lit_accept_close(),
{
    let mut out: Vec<u8> = Vec::new();
    out.push(125);
    out.push(125);
    proof {
        assert(out@ =~= lit_accept_close());
    }
    out
}

/// Wire literal `{"Reject":{"reason":"`: the opening of a rejecting response, up to the reason.
pub open spec fn lit_reject_open() -> Seq<u8> {
    seq![123u8, 34u8, 82u8, 101u8, 106u8, 101u8, 99u8, 116u8, 34u8, 58u8, 123u8, 34u8, 114u8, 101u8, 97u8, 115u8, 111u8, 110u8, 34u8, 58u8, 34u8]
}

/// Build [`lit_reject_open`] as bytes.
pub fn reject_open_bytes() -> (out: Vec<u8>)
    ensures
        out@ == lit_reject_open(),
{
    let mut out: Vec<u8> = Vec::new();
    out.push(123);
    out.push(34);
    out.push(82);
    out.push(101);
    out.push(106);
    out.push(101);
    out.push(99);
    out.push(116);
    out.push(34);
    out.push(58);
    out.push(123);
    out.push(34);
    out.push(114);
    out.push(101);
    out.push(97);
    out.push(115);
    out.push(111);
    out.push(110);
    out.push(34);
    out.push(58);
    out.push(34);
    proof {
        assert(out@ =~= lit_reject_open());
    }
    out
}

/// Wire literal `","subject":"`: between the reason and the subject name.
pub open spec fn lit_reject_mid() -> Seq<u8> {
    seq![34u8, 44u8, 34u8, 115u8, 117u8, 98u8, 106u8, 101u8, 99u8, 116u8, 34u8, 58u8, 34u8]
}

/// Build [`lit_reject_mid`] as bytes.
pub fn reject_mid_bytes() -> (out: Vec<u8>)
    ensures
        out@ == lit_reject_mid(),
{
    let mut out: Vec<u8> = Vec::new();
    out.push(34);
    out.push(44);
    out.push(34);
    out.push(115);
    out.push(117);
    out.push(98);
    out.push(106);
    out.push(101);
    out.push(99);
    out.push(116);
    out.push(34);
    out.push(58);
    out.push(34);
    proof {
        assert(out@ =~= lit_reject_mid());
    }
    out
}

/// Wire literal `"}}`: the closing of a rejecting response.
pub open spec fn lit_reject_close() -> Seq<u8> {
    seq![34u8, 125u8, 125u8]
}

/// Build [`lit_reject_close`] as bytes.
pub fn reject_close_bytes() -> (out: Vec<u8>)
    ensures
        out@ == lit_reject_close(),
{
    let mut out: Vec<u8> = Vec::new();
    out.push(34);
    out.push(125);
    out.push(125);
    proof {
        assert(out@ =~= lit_reject_close());
    }
    out
}

/// Key token `'subject'` (quotes included): the request and reject member naming the subject.
pub open spec fn lit_key_subject() -> Seq<u8> {
    seq![34u8, 115u8, 117u8, 98u8, 106u8, 101u8, 99u8, 116u8, 34u8]
}

/// Build [`lit_key_subject`] as bytes.
pub fn key_subject_bytes() -> (out: Vec<u8>)
    ensures
        out@ == lit_key_subject(),
{
    let mut out: Vec<u8> = Vec::new();
    out.push(34);
    out.push(115);
    out.push(117);
    out.push(98);
    out.push(106);
    out.push(101);
    out.push(99);
    out.push(116);
    out.push(34);
    proof {
        assert(out@ =~= lit_key_subject());
    }
    out
}

/// Key token `'payload'` (quotes included): the request member carrying the payload.
pub open spec fn lit_key_payload() -> Seq<u8> {
    seq![34u8, 112u8, 97u8, 121u8, 108u8, 111u8, 97u8, 100u8, 34u8]
}

/// Build [`lit_key_payload`] as bytes.
pub fn key_payload_bytes() -> (out: Vec<u8>)
    ensures
        out@ == lit_key_payload(),
{
    let mut out: Vec<u8> = Vec::new();
    out.push(34);
    out.push(112);
    out.push(97);
    out.push(121);
    out.push(108);
    out.push(111);
    out.push(97);
    out.push(100);
    out.push(34);
    proof {
        assert(out@ =~= lit_key_payload());
    }
    out
}

/// Key token `'Accept'` (quotes included): the accepting response variant.
pub open spec fn lit_key_accept() -> Seq<u8> {
    seq![34u8, 65u8, 99u8, 99u8, 101u8, 112u8, 116u8, 34u8]
}

/// Build [`lit_key_accept`] as bytes.
pub fn key_accept_bytes() -> (out: Vec<u8>)
    ensures
        out@ == lit_key_accept(),
{
    let mut out: Vec<u8> = Vec::new();
    out.push(34);
    out.push(65);
    out.push(99);
    out.push(99);
    out.push(101);
    out.push(112);
    out.push(116);
    out.push(34);
    proof {
        assert(out@ =~= lit_key_accept());
    }
    out
}

/// Key token `'Reject'` (quotes included): the rejecting response variant.
pub open spec fn lit_key_reject() -> Seq<u8> {
    seq![34u8, 82u8, 101u8, 106u8, 101u8, 99u8, 116u8, 34u8]
}

/// Build [`lit_key_reject`] as bytes.
pub fn key_reject_bytes() -> (out: Vec<u8>)
    ensures
        out@ == lit_key_reject(),
{
    let mut out: Vec<u8> = Vec::new();
    out.push(34);
    out.push(82);
    out.push(101);
    out.push(106);
    out.push(101);
    out.push(99);
    out.push(116);
    out.push(34);
    proof {
        assert(out@ =~= lit_key_reject());
    }
    out
}

/// Key token `'matches'` (quotes included): the accepting response's member.
pub open spec fn lit_key_matches() -> Seq<u8> {
    seq![34u8, 109u8, 97u8, 116u8, 99u8, 104u8, 101u8, 115u8, 34u8]
}

/// Build [`lit_key_matches`] as bytes.
pub fn key_matches_bytes() -> (out: Vec<u8>)
    ensures
        out@ == lit_key_matches(),
{
    let mut out: Vec<u8> = Vec::new();
    out.push(34);
    out.push(109);
    out.push(97);
    out.push(116);
    out.push(99);
    out.push(104);
    out.push(101);
    out.push(115);
    out.push(34);
    proof {
        assert(out@ =~= lit_key_matches());
    }
    out
}

/// Key token `'reason'` (quotes included): the reject member carrying the reason.
pub open spec fn lit_key_reason() -> Seq<u8> {
    seq![34u8, 114u8, 101u8, 97u8, 115u8, 111u8, 110u8, 34u8]
}

/// Build [`lit_key_reason`] as bytes.
pub fn key_reason_bytes() -> (out: Vec<u8>)
    ensures
        out@ == lit_key_reason(),
{
    let mut out: Vec<u8> = Vec::new();
    out.push(34);
    out.push(114);
    out.push(101);
    out.push(97);
    out.push(115);
    out.push(111);
    out.push(110);
    out.push(34);
    proof {
        assert(out@ =~= lit_key_reason());
    }
    out
}

// ---------------------------------------------------------------------------
// Value tokens: subject names, reasons, booleans.
// ---------------------------------------------------------------------------

/// Build the quoted name token of a subject.
fn quoted_name_bytes(e: &Expression) -> (out: Vec<u8>)
    ensures
        out@ == quoted(e.spec_name()),
{
    let mut out: Vec<u8> = Vec::new();
    out.push(34);
    let mut name = e.name_bytes();
    out.append(&mut name);
    out.push(34);
    proof {
        assert(out@ =~= quoted(e.spec_name()));
    }
    out
}

/// Build the quoted message token of a reject reason.
fn quoted_message_bytes(reason: &RejectReason) -> (out: Vec<u8>)
    ensures
        out@ == quoted(reason.spec_message()),
{
    let mut out: Vec<u8> = Vec::new();
    out.push(34);
    let mut message = reason.message_bytes();
    out.append(&mut message);
    out.push(34);
    proof {
        assert(out@ =~= quoted(reason.spec_message()));
    }
    out
}

/// The quoted subject name token at position `i`.
pub open spec fn sp_subject_value(s: Seq<u8>, i: int) -> Option<(Expression, int)> {
    match sp_tok(s, i, quoted(Expression::Anger.spec_name())) {
        Option::Some(j) => Option::Some((Expression::Anger, j)),
        Option::None => match sp_tok(s, i, quoted(Expression::Happiness.spec_name())) {
            Option::Some(j) => Option::Some((Expression::Happiness, j)),
            Option::None => Option::None,
        },
    }
}

/// Read the quoted subject name token at position `i`.
fn parse_subject_value(s: &[u8], i: usize) -> (r: Option<(Expression, usize)>)
    requires
        i <= s@.len(),
    ensures
        match r {
            Some((e, j)) => sp_subject_value(s@, i as int) == Some((e, j as int)) && i <= j
                <= s@.len(),
            None => sp_subject_value(s@, i as int) is None,
        },
{
    let anger = quoted_name_bytes(&Expression::Anger);
    match parse_tok(s, i, &anger) {
        Some(j) => Some((Expression::Anger, j)),
        None => {
            let happiness = quoted_name_bytes(&Expression::Happiness);
            match parse_tok(s, i, &happiness) {
                Some(j) => Some((Expression::Happiness, j)),
                None => None,
            }
        },
    }
}

/// A quoted subject name placed at position `i` parses back to itself.
proof fn lemma_subject_value_at(s: Seq<u8>, i: int, subject: Expression)
    requires
        0 <= i,
        i + subject.spec_name().len() + 2 <= s.len(),
        s.subrange(i, i + subject.spec_name().len() + 2) == quoted(subject.spec_name()),
    ensures
        sp_subject_value(s, i) == Some((subject, i + subject.spec_name().len() + 2)),
{
    let q = quoted(subject.spec_name());
    assert(q[0] == 34);
    lemma_tok_at(s, i, q);
    match subject {
        Expression::Anger => {
        },
        Expression::Happiness => {
            assert(s[i] == 34 && s[i + 1] == 72) by {
                assert(s.subrange(i, i + 11)[0] == q[0]);
                assert(s.subrange(i, i + 11)[1] == q[1]);
            }
            assert(ws_end(s, i) == i);
            assert(sp_tok(s, i, quoted(Expression::Anger.spec_name())) is None) by {
                let aq = quoted(Expression::Anger.spec_name());
                if i + 7 <= s.len() && s.subrange(i, i + 7) == aq {
                    assert(s.subrange(i, i + 7)[1] == aq[1]);
                    assert(s[i + 1] == 65);
                }
            }
        },
    }
}

/// The quoted reject reason token at position `i`.
pub open spec fn sp_reason_value(s: Seq<u8>, i: int) -> Option<(RejectReason, int)> {
    match sp_tok(s, i, quoted(RejectReason::NotAssigned.spec_message())) {
        Option::Some(j) => Option::Some((RejectReason::NotAssigned, j)),
        Option::None => match sp_tok(s, i, quoted(RejectReason::DispatchFailed.spec_message())) {
            Option::Some(j) => Option::Some((RejectReason::DispatchFailed, j)),
            Option::None => Option::None,
        },
    }
}

/// Read the quoted reject reason token at position `i`.
fn parse_reason_value(s: &[u8], i: usize) -> (r: Option<(RejectReason, usize)>)
    requires
        i <= s@.len(),
    ensures
        match r {
            Some((e, j)) => sp_reason_value(s@, i as int) == Some((e, j as int)) && i <= j
                <= s@.len(),
            None => sp_reason_value(s@, i as int) is None,
        },
{
    let not_assigned = quoted_message_bytes(&RejectReason::NotAssigned);
    match parse_tok(s, i, &not_assigned) {
        Some(j) => Some((RejectReason::NotAssigned, j)),
        None => {
            let dispatch_failed = quoted_message_bytes(&RejectReason::DispatchFailed);
            match parse_tok(s, i, &dispatch_failed) {
                Some(j) => Some((RejectReason::DispatchFailed, j)),
                None => None,
            }
        },
    }
}

/// A quoted reason message placed at position `i` parses back to itself.
proof fn lemma_reason_value_at(s: Seq<u8>, i: int, reason: RejectReason)
    requires
        0 <= i,
        i + reason.spec_message().len() + 2 <= s.len(),
        s.subrange(i, i + reason.spec_message().len() + 2) == quoted(reason.spec_message()),
    ensures
        sp_reason_value(s, i) == Some((reason, i + reason.spec_message().len() + 2)),
{
    let q = quoted(reason.spec_message());
    assert(q[0] == 34);
    lemma_tok_at(s, i, q);
    match reason {
        RejectReason::NotAssigned => {
        },
        RejectReason::DispatchFailed => {
            assert(s[i] == 34 && s[i + 1] == 109) by {
                assert(s.subrange(i, i + 23)[0] == q[0]);
                assert(s.subrange(i, i + 23)[1] == q[1]);
            }
            assert(ws_end(s, i) == i);
            assert(sp_tok(s, i, quoted(RejectReason::NotAssigned.spec_message())) is None) by {
                let nq = quoted(RejectReason::NotAssigned.spec_message());
                if i + 33 <= s.len() && s.subrange(i, i + 33) == nq {
                    assert(s.subrange(i, i + 33)[1] == nq[1]);
                    assert(s[i + 1] == 110);
                }
            }
        },
    }
}

/// The JSON boolean token at position `i`.
pub open spec fn sp_bool_value(s: Seq<u8>, i: int) -> Option<(bool, int)> {
    match sp_tok(s, i, lit_true()) {
        Option::Some(j) => Option::Some((true, j)),
        Option::None => match sp_tok(s, i, lit_false()) {
            Option::Some(j) => Option::Some((false, j)),
            Option::None => Option::None,
        },
    }
}

/// Read the JSON boolean token at position `i`.
fn parse_bool_value(s: &[u8], i: usize) -> (r: Option<(bool, usize)>)
    requires
        i <= s@.len(),
    ensures
        match r {
            Some((b, j)) => sp_bool_value(s@, i as int) == Some((b, j as int)) && i <= j
                <= s@.len(),
            None => sp_bool_value(s@, i as int) is None,
        },
{
    let word_true = lit_true_bytes();
    match parse_tok(s, i, &word_true) {
        Some(j) => Some((true, j)),
        None => {
            let word_false = lit_false_bytes();
            match parse_tok(s, i, &word_false) {
                Some(j) => Some((false, j)),
                None => None,
            }
        },
    }
}

/// A boolean word placed at position `i` parses back to itself.
proof fn lemma_bool_value_at(s: Seq<u8>, i: int, b: bool)
    requires
        0 <= i,
        i + (if b { lit_true() } else { lit_false() }).len() <= s.len(),
        s.subrange(i, i + (if b { lit_true() } else { lit_false() }).len() as int) == (if b {
            lit_true()
        } else {
            lit_false()
        }),
    ensures
        sp_bool_value(s, i) == Some((b, i + (if b { lit_true() } else { lit_false() }).len() as int)),
{
    if b {
        lemma_tok_at(s, i, lit_true());
    } else {
        assert(s[i] == 102) by {
            assert(s.subrange(i, i + 5)[0] == lit_false()[0]);
        }
        assert(ws_end(s, i) == i);
        assert(sp_tok(s, i, lit_true()) is None) by {
            if i + 4 <= s.len() && s.subrange(i, i + 4) == lit_true() {
                assert(s.subrange(i, i + 4)[0] == 116);
                assert(s[i] == 116);
            }
        }
        lemma_tok_at(s, i, lit_false());
    }
}

// ---------------------------------------------------------------------------
// The payload region: decimal byte values between `[` and `]`.
// ---------------------------------------------------------------------------

/// The payload bytes as they appear on the wire: decimal values separated by
/// commas, nothing for an empty payload.
pub open spec fn enc_payload_items(items: Seq<u8>) -> Seq<u8>
    decreases items.len(),
{
    if items.len() == 0 {
        Seq::empty()
    } else if items.len() == 1 {
        dec_nat(items[0] as nat)
    } else {
        dec_nat(items[0] as nat) + seq![44u8] + enc_payload_items(items.drop_first())
    }
}

/// Append the wire form of `items[i..]`.
fn push_items_from(out: &mut Vec<u8>, items: &Vec<u8>, i: usize)
    requires
        i <= items@.len(),
    ensures
        final(out)@ == old(out)@ + enc_payload_items(items@.skip(i as int)),
    decreases items@.len() - i,
{
    let ghost suffix = items@.skip(i as int);
    if i < items.len() {
        push_dec_u64(out, items[i] as u64);
        proof {
            assert(suffix[0] == items@[i as int]);
        }
        if i + 1 < items.len() {
            out.push(44);
            push_items_from(out, items, i + 1);
            proof {
                assert(suffix.drop_first() =~= items@.skip(i as int + 1));
                assert(enc_payload_items(suffix) == dec_nat(suffix[0] as nat) + seq![44u8]
                    + enc_payload_items(suffix.drop_first()));
                assert(out@ =~= old(out)@ + enc_payload_items(suffix));
            }
        } else {
            proof {
                assert(suffix.len() == 1);
                assert(out@ =~= old(out)@ + enc_payload_items(suffix));
            }
        }
    } else {
        proof {
            assert(suffix =~= Seq::<u8>::empty());
            assert(out@ =~= old(out)@ + enc_payload_items(suffix));
        }
    }
}

/// One or more payload values at position `i`, comma separated and closed by
/// `]`: the values and the position after the `]`.
pub open spec fn sp_u8_items(s: Seq<u8>, i: int) -> Option<(Seq<u8>, int)>
    decreases s.len() - i,
{
    match sp_u8_tok(s, i) {
        Option::None => Option::None,
        Option::Some((v, j)) => {
            let m = ws_end(s, j);
            if m < s.len() && s[m] == 44 {
                if i < m + 1 {
                    match sp_u8_items(s, m + 1) {
                        Option::None => Option::None,
                        Option::Some((rest, k)) => Option::Some((seq![v] + rest, k)),
                    }
                } else {
                    Option::None
                }
            } else if m < s.len() && s[m] == 93 {
                Option::Some((seq![v], m + 1))
            } else {
                Option::None
            }
        },
    }
}

/// The payload array at position `i`: `[`, values or nothing, `]`; the
/// values and the position after the `]`.
pub open spec fn sp_array_u8(s: Seq<u8>, i: int) -> Option<(Seq<u8>, int)> {
    match sp_tok(s, i, seq![91u8]) {
        Option::None => Option::None,
        Option::Some(i1) => {
            let j = ws_end(s, i1);
            if j < s.len() && s[j] == 93 {
                Option::Some((Seq::empty(), j + 1))
            } else {
                sp_u8_items(s, i1)
            }
        },
    }
}

/// Read the comma-separated payload values at position `i`, up to and past
/// the closing `]`.
fn parse_u8_items(s: &[u8], i: usize) -> (r: Option<(Vec<u8>, usize)>)
    requires
        i <= s@.len(),
    ensures
        match r {
            Some((v, j)) => sp_u8_items(s@, i as int) == Some((v@, j as int)) && i < j
                <= s@.len(),
            None => sp_u8_items(s@, i as int) is None,
        },
    decreases s@.len() - i,
{
    match parse_u8_tok(s, i) {
        None => None,
        Some((v, j)) => {
            let m = skip_ws(s, j);
            if m < s.len() && s[m] == 44 {
                match parse_u8_items(s, m + 1) {
                    None => None,
                    Some((rest, k)) => {
                        let mut items: Vec<u8> = Vec::new();
                        items.push(v);
                        let mut rest = rest;
                        let ghost rest_view = rest@;
                        items.append(&mut rest);
                        proof {
                            assert(items@ =~= seq![v] + rest_view);
                        }
                        Some((items, k))
                    },
                }
            } else if m < s.len() && s[m] == 93 {
                let mut items: Vec<u8> = Vec::new();
                items.push(v);
                proof {
                    assert(items@ =~= seq![v]);
                }
                Some((items, m + 1))
            } else {
                None
            }
        },
    }
}

/// Read the payload array at position `i`.
fn parse_array_u8(s: &[u8], i: usize) -> (r: Option<(Vec<u8>, usize)>)
    requires
        i <= s@.len(),
    ensures
        match r {
            Some((v, j)) => sp_array_u8(s@, i as int) == Some((v@, j as int)) && i <= j
                <= s@.len(),
            None => sp_array_u8(s@, i as int) is None,
        },
{
    let lbrack = byte_token(91);
    let i1 = match parse_tok(s, i, &lbrack) {
        Some(x) => x,
        None => {
            return None;
        },
    };
    let j = skip_ws(s, i1);
    if j < s.len() && s[j] == 93 {
        let items: Vec<u8> = Vec::new();
        proof {
            assert(items@ =~= Seq::<u8>::empty());
        }
        Some((items, j + 1))
    } else {
        parse_u8_items(s, i1)
    }
}

/// Payload items written into a larger record, with the closing `]` right
/// after them, parse back to themselves.
proof fn lemma_parse_enc_items(s: Seq<u8>, i: int, items: Seq<u8>)
    requires
        0 <= i,
        items.len() >= 1,
        i + enc_payload_items(items).len() + 1 <= s.len(),
        s.subrange(i, i + enc_payload_items(items).len() as int) == enc_payload_items(items),
        s[i + enc_payload_items(items).len() as int] == 93,
    ensures
        sp_u8_items(s, i) == Some((items, i + enc_payload_items(items).len() + 1)),
    decreases items.len(),
{
    let e = enc_payload_items(items);
    let v0 = items[0];
    let d = dec_nat(v0 as nat);
    lemma_dec_nat_digits(v0 as nat);
    if items.len() == 1 {
        assert(e == d);
        assert(is_digit(s[i])) by {
            assert(s.subrange(i, i + e.len() as int)[0] == e[0]);
        }
        assert(ws_end(s, i) == i);
        lemma_parse_dec(s, i, v0 as u64);
        let j = i + d.len() as int;
        assert(s[j] == 93);
        assert(ws_end(s, j) == j);
        assert(seq![v0] =~= items);
    } else {
        let rest = items.drop_first();
        assert(e == d + seq![44u8] + enc_payload_items(rest));
        let j = i + d.len() as int;
        assert(is_digit(s[i])) by {
            assert(s.subrange(i, i + e.len() as int)[0] == e[0]);
        }
        assert(ws_end(s, i) == i);
        assert forall|k: int| 0 <= k < d.len() implies #[trigger] s.subrange(i, j)[k] == d[k] by {
            assert(s.subrange(i, i + e.len() as int)[k] == e[k]);
        }
        assert(s.subrange(i, j) =~= d);
        assert(s[j] == 44) by {
            assert(s.subrange(i, i + e.len() as int)[d.len() as int] == e[d.len() as int]);
        }
        lemma_parse_dec(s, i, v0 as u64);
        assert(ws_end(s, j) == j);
        let er = enc_payload_items(rest);
        assert forall|k: int| 0 <= k < er.len() implies #[trigger] s.subrange(
            j + 1,
            j + 1 + er.len() as int,
        )[k] == er[k] by {
            assert(s.subrange(i, i + e.len() as int)[d.len() + 1 + k] == e[d.len() + 1 + k]);
        }
        assert(s.subrange(j + 1, j + 1 + er.len() as int) =~= er);
        assert(i + e.len() == j + 1 + er.len());
        lemma_parse_enc_items(s, j + 1, rest);
        assert(seq![v0] + rest =~= items);
    }
}

// ---------------------------------------------------------------------------
// Members and whole records.
// ---------------------------------------------------------------------------

/// The `"subject"` member at position `i`: key, colon, subject name.
pub open spec fn sp_member_subject(s: Seq<u8>, i: int) -> Option<(Expression, int)> {
    match sp_tok(s, i, lit_key_subject()) {
        Option::None => Option::None,
        Option::Some(i1) => match sp_tok(s, i1, seq![58u8]) {
            Option::None => Option::None,
            Option::Some(i2) => sp_subject_value(s, i2),
        },
    }
}

/// The `"payload"` member at position `i`: key, colon, byte array.
pub open spec fn sp_member_payload(s: Seq<u8>, i: int) -> Option<(Seq<u8>, int)> {
    match sp_tok(s, i, lit_key_payload()) {
        Option::None => Option::None,
        Option::Some(i1) => match sp_tok(s, i1, seq![58u8]) {
            Option::None => Option::None,
            Option::Some(i2) => sp_array_u8(s, i2),
        },
    }
}

/// The `"reason"` member at position `i`: key, colon, reason message.
pub open spec fn sp_member_reason(s: Seq<u8>, i: int) -> Option<(RejectReason, int)> {
    match sp_tok(s, i, lit_key_reason()) {
        Option::None => Option::None,
        Option::Some(i1) => match sp_tok(s, i1, seq![58u8]) {
            Option::None => Option::None,
            Option::Some(i2) => sp_reason_value(s, i2),
        },
    }
}

/// Read the `"subject"` member at position `i`.
fn parse_member_subject(s: &[u8], i: usize) -> (r: Option<(Expression, usize)>)
    requires
        i <= s@.len(),
    ensures
        match r {
            Some((e, j)) => sp_member_subject(s@, i as int) == Some((e, j as int)) && i <= j
                <= s@.len(),
            None => sp_member_subject(s@, i as int) is None,
        },
{
    let key = key_subject_bytes();
    let i1 = match parse_tok(s, i, &key) {
        Some(x) => x,
        None => {
            return None;
        },
    };
    let colon = byte_token(58);
    let i2 = match parse_tok(s, i1, &colon) {
        Some(x) => x,
        None => {
            return None;
        },
    };
    parse_subject_value(s, i2)
}

/// Read the `"payload"` member at position `i`.
fn parse_member_payload(s: &[u8], i: usize) -> (r: Option<(Vec<u8>, usize)>)
    requires
        i <= s@.len(),
    ensures
        match r {
            Some((v, j)) => sp_member_payload(s@, i as int) == Some((v@, j as int)) && i <= j
                <= s@.len(),
            None => sp_member_payload(s@, i as int) is None,
        },
{
    let key = key_payload_bytes();
    let i1 = match parse_tok(s, i, &key) {
        Some(x) => x,
        None => {
            return None;
        },
    };
    let colon = byte_token(58);
    let i2 = match parse_tok(s, i1, &colon) {
        Some(x) => x,
        None => {
            return None;
        },
    };
    parse_array_u8(s, i2)
}

/// Read the `"reason"` member at position `i`.
fn parse_member_reason(s: &[u8], i: usize) -> (r: Option<(RejectReason, usize)>)
    requires
        i <= s@.len(),
    ensures
        match r {
            Some((e, j)) => sp_member_reason(s@, i as int) == Some((e, j as int)) && i <= j
                <= s@.len(),
            None => sp_member_reason(s@, i as int) is None,
        },
{
    let key = key_reason_bytes();
    let i1 = match parse_tok(s, i, &key) {
        Some(x) => x,
        None => {
            return None;
        },
    };
    let colon = byte_token(58);
    let i2 = match parse_tok(s, i1, &colon) {
        Some(x) => x,
        None => {
            return None;
        },
    };
    parse_reason_value(s, i2)
}

/// The two request members, in either order.
pub open spec fn sp_request_body(s: Seq<u8>, i: int) -> Option<((Expression, Seq<u8>), int)> {
    match sp_member_subject(s, i) {
        Option::Some((subject, i1)) => match sp_tok(s, i1, seq![44u8]) {
            Option::None => Option::None,
            Option::Some(i2) => match sp_member_payload(s, i2) {
                Option::None => Option::None,
                Option::Some((payload, i3)) => Option::Some(((subject, payload), i3)),
            },
        },
        Option::None => match sp_member_payload(s, i) {
            Option::None => Option::None,
            Option::Some((payload, i1)) => match sp_tok(s, i1, seq![44u8]) {
                Option::None => Option::None,
                Option::Some(i2) => match sp_member_subject(s, i2) {
                    Option::None => Option::None,
                    Option::Some((subject, i3)) => Option::Some(((subject, payload), i3)),
                },
            },
        },
    }
}

/// Read the two request members, in either order.
fn parse_request_body(s: &[u8], i: usize) -> (r: Option<((Expression, Vec<u8>), usize)>)
    requires
        i <= s@.len(),
    ensures
        match r {
            Some(((subject, payload), j)) => sp_request_body(s@, i as int) == Some(
                ((subject, payload@), j as int),
            ) && i <= j <= s@.len(),
            None => sp_request_body(s@, i as int) is None,
        },
{
    let comma = byte_token(44);
    match parse_member_subject(s, i) {
        Some((subject, i1)) => {
            let i2 = match parse_tok(s, i1, &comma) {
                Some(x) => x,
                None => {
                    return None;
                },
            };
            match parse_member_payload(s, i2) {
                Some((payload, i3)) => Some(((subject, payload), i3)),
                None => None,
            }
        },
        None => {
            let (payload, i1) = match parse_member_payload(s, i) {
                Some(p) => p,
                None => {
                    return None;
                },
            };
            let i2 = match parse_tok(s, i1, &comma) {
                Some(x) => x,
                None => {
                    return None;
                },
            };
            match parse_member_subject(s, i2) {
                Some((subject, i3)) => Some(((subject, payload), i3)),
                None => None,
            }
        },
    }
}

/// The two reject members, in either order.
pub open spec fn sp_reject_body(s: Seq<u8>, i: int) -> Option<((RejectReason, Expression), int)> {
    match sp_member_reason(s, i) {
        Option::Some((reason, i1)) => match sp_tok(s, i1, seq![44u8]) {
            Option::None => Option::None,
            Option::Some(i2) => match sp_member_subject(s, i2) {
                Option::None => Option::None,
                Option::Some((subject, i3)) => Option::Some(((reason, subject), i3)),
            },
        },
        Option::None => match sp_member_subject(s, i) {
            Option::None => Option::None,
            Option::Some((subject, i1)) => match sp_tok(s, i1, seq![44u8]) {
                Option::None => Option::None,
                Option::Some(i2) => match sp_member_reason(s, i2) {
                    Option::None => Option::None,
                    Option::Some((reason, i3)) => Option::Some(((reason, subject), i3)),
                },
            },
        },
    }
}

/// Read the two reject members, in either order.
fn parse_reject_body(s: &[u8], i: usize) -> (r: Option<((RejectReason, Expression), usize)>)
    requires
        i <= s@.len(),
    ensures
        match r {
            Some(((reason, subject), j)) => sp_reject_body(s@, i as int) == Some(
                ((reason, subject), j as int),
            ) && i <= j <= s@.len(),
            None => sp_reject_body(s@, i as int) is None,
        },
{
    let comma = byte_token(44);
    match parse_member_reason(s, i) {
        Some((reason, i1)) => {
            let i2 = match parse_tok(s, i1, &comma) {
                Some(x) => x,
                None => {
                    return None;
                },
            };
            match parse_member_subject(s, i2) {
                Some((subject, i3)) => Some(((reason, subject), i3)),
                None => None,
            }
        },
        None => {
            let (subject, i1) = match parse_member_subject(s, i) {
                Some(p) => p,
                None => {
                    return None;
                },
            };
            let i2 = match parse_tok(s, i1, &comma) {
                Some(x) => x,
                None => {
                    return None;
                },
            };
            match parse_member_reason(s, i2) {
                Some((reason, i3)) => Some(((reason, subject), i3)),
                None => None,
            }
        },
    }
}

/// The bytes of one request record: subject, payload, newline.
pub open spec fn spec_request_line(subject: Expression, payload: Seq<u8>) -> Seq<u8> {
    lit_req_open() + subject.spec_name() + lit_req_mid() + enc_payload_items(payload)
        + lit_req_close() + seq![10u8]
}

/// A whole request record: its subject and payload, when `s` is one JSON
/// request line — members in either order, with the whitespace JSON allows
/// between tokens, and trailing whitespace after the record.
pub open spec fn sp_request(s: Seq<u8>) -> Option<(Expression, Seq<u8>)> {
    match sp_tok(s, 0, seq![123u8]) {
        Option::None => Option::None,
        Option::Some(i0) => match sp_request_body(s, i0) {
            Option::None => Option::None,
            Option::Some(((subject, payload), i1)) => match sp_tok(s, i1, seq![125u8]) {
                Option::None => Option::None,
                Option::Some(i2) => if ws_only(s, i2) {
                    Option::Some((subject, payload))
                } else {
                    Option::None
                },
            },
        },
    }
}


/// The bytes of one response record.
pub open spec fn spec_response_line(resp: Response) -> Seq<u8> {
    match resp {
        Response::Accept { matches } => lit_accept_open() + (if matches {
            lit_true()
        } else {
            lit_false()
        }) + lit_accept_close() + seq![10u8],
        Response::Reject { reason, subject } => lit_reject_open() + reason.spec_message()
            + lit_reject_mid() + subject.spec_name() + lit_reject_close() + seq![10u8],
    }
}

/// A whole response record, when `s` is one JSON response line — members in
/// either order, with the whitespace JSON allows between tokens, and
/// trailing whitespace after the record.
pub open spec fn sp_response(s: Seq<u8>) -> Option<Response> {
    match sp_tok(s, 0, seq![123u8]) {
        Option::None => Option::None,
        Option::Some(i0) => match sp_tok(s, i0, lit_key_accept()) {
            Option::Some(i1) => match sp_tok(s, i1, seq![58u8]) {
                Option::None => Option::None,
                Option::Some(i2) => match sp_tok(s, i2, seq![123u8]) {
                    Option::None => Option::None,
                    Option::Some(i3) => match sp_tok(s, i3, lit_key_matches()) {
                        Option::None => Option::None,
                        Option::Some(i4) => match sp_tok(s, i4, seq![58u8]) {
                            Option::None => Option::None,
                            Option::Some(i5) => match sp_bool_value(s, i5) {
                                Option::None => Option::None,
                                Option::Some((matches, i6)) => match sp_tok(s, i6, seq![125u8]) {
                                    Option::None => Option::None,
                                    Option::Some(i7) => match sp_tok(s, i7, seq![125u8]) {
                                        Option::None => Option::None,
                                        Option::Some(i8) => if ws_only(s, i8) {
                                            Option::Some(Response::Accept { matches })
                                        } else {
                                            Option::None
                                        },
                                    },
                                },
                            },
                        },
                    },
                },
            },
            Option::None => match sp_tok(s, i0, lit_key_reject()) {
                Option::None => Option::None,
                Option::Some(i1) => match sp_tok(s, i1, seq![58u8]) {
                    Option::None => Option::None,
                    Option::Some(i2) => match sp_tok(s, i2, seq![123u8]) {
                        Option::None => Option::None,
                        Option::Some(i3) => match sp_reject_body(s, i3) {
                            Option::None => Option::None,
                            Option::Some(((reason, subject), i4)) => match sp_tok(
                                s,
                                i4,
                                seq![125u8],
                            ) {
                                Option::None => Option::None,
                                Option::Some(i5) => match sp_tok(s, i5, seq![125u8]) {
                                    Option::None => Option::None,
                                    Option::Some(i6) => if ws_only(s, i6) {
                                        Option::Some(Response::Reject { reason, subject })
                                    } else {
                                        Option::None
                                    },
                                },
                            },
                        },
                    },
                },
            },
        },
    }
}

impl Request {
    /// Encode the request as one newline-terminated record.
    pub fn serialize(&self) -> (out: Vec<u8>)
        ensures
            out@ == spec_request_line(self.subject, self.payload@),
    {
        let mut out: Vec<u8> = Vec::new();
        let mut chunk = req_open_bytes();
        out.append(&mut chunk);
        let mut name = self.subject.name_bytes();
        out.append(&mut name);
        let mut mid = req_mid_bytes();
        out.append(&mut mid);
        proof {
            assert(self.payload@.skip(0) =~= self.payload@);
        }
        push_items_from(&mut out, &self.payload, 0);
        let mut close = req_close_bytes();
        out.append(&mut close);
        out.push(10);
        proof {
            assert(out@ =~= spec_request_line(self.subject, self.payload@));
        }
        out
    }

    /// Decode one request record: the request back when `serialized` is one
    /// JSON request line, an error otherwise.
    pub fn deserialize(serialized: &[u8]) -> (r: Result<Request, ParseError>)
        ensures
            match r {
                Ok(req) => sp_request(serialized@) == Some((req.subject, req.payload@)),
                Err(e) => sp_request(serialized@) is None && e == ParseError::Malformed,
            },
    {
        let lbrace = byte_token(123);
        let i0 = match parse_tok(serialized, 0, &lbrace) {
            Some(i) => i,
            None => {
                return Err(ParseError::Malformed);
            },
        };
        let ((subject, payload), i1) = match parse_request_body(serialized, i0) {
            Some(p) => p,
            None => {
                return Err(ParseError::Malformed);
            },
        };
        let rbrace = byte_token(125);
        let i2 = match parse_tok(serialized, i1, &rbrace) {
            Some(i) => i,
            None => {
                return Err(ParseError::Malformed);
            },
        };
        if only_ws_from(serialized, i2) {
            Ok(Request { subject, payload })
        } else {
            Err(ParseError::Malformed)
        }
    }
}

impl Response {
    /// Encode the response as one newline-terminated record.
    pub fn serialize(&self) -> (out: Vec<u8>)
        ensures
            out@ == spec_response_line(*self),
    {
        let mut out: Vec<u8> = Vec::new();
        match self {
            Response::Accept { matches } => {
                let mut chunk = accept_open_bytes();
                out.append(&mut chunk);
                if *matches {
                    let mut word = lit_true_bytes();
                    out.append(&mut word);
                } else {
                    let mut word = lit_false_bytes();
                    out.append(&mut word);
                }
                let mut close = accept_close_bytes();
                out.append(&mut close);
                out.push(10);
            },
            Response::Reject { reason, subject } => {
                let mut chunk = reject_open_bytes();
                out.append(&mut chunk);
                let mut message = reason.message_bytes();
                out.append(&mut message);
                let mut mid = reject_mid_bytes();
                out.append(&mut mid);
                let mut name = subject.name_bytes();
                out.append(&mut name);
                let mut close = reject_close_bytes();
                out.append(&mut close);
                out.push(10);
            },
        }
        proof {
            assert(out@ =~= spec_response_line(*self));
        }
        out
    }

    /// Decode one response record: the response back when `serialized` is
    /// one JSON response line, an error otherwise.
    pub fn deserialize(serialized: &[u8]) -> (r: Result<Response, ParseError>)
        ensures
            match r {
                Ok(resp) => sp_response(serialized@) == Some(resp),
                Err(e) => sp_response(serialized@) is None && e == ParseError::Malformed,
            },
    {
        let lbrace = byte_token(123);
        let rbrace = byte_token(125);
        let colon = byte_token(58);
        let i0 = match parse_tok(serialized, 0, &lbrace) {
            Some(i) => i,
            None => {
                return Err(ParseError::Malformed);
            },
        };
        let accept_key = key_accept_bytes();
        match parse_tok(serialized, i0, &accept_key) {
            Some(i1) => {
                let i2 = match parse_tok(serialized, i1, &colon) {
                    Some(i) => i,
                    None => {
                        return Err(ParseError::Malformed);
                    },
                };
                let i3 = match parse_tok(serialized, i2, &lbrace) {
                    Some(i) => i,
                    None => {
                        return Err(ParseError::Malformed);
                    },
                };
                let matches_key = key_matches_bytes();
                let i4 = match parse_tok(serialized, i3, &matches_key) {
                    Some(i) => i,
                    None => {
                        return Err(ParseError::Malformed);
                    },
                };
                let i5 = match parse_tok(serialized, i4, &colon) {
                    Some(i) => i,
                    None => {
                        return Err(ParseError::Malformed);
                    },
                };
                let (matches, i6) = match parse_bool_value(serialized, i5) {
                    Some(p) => p,
                    None => {
                        return Err(ParseError::Malformed);
                    },
                };
                let i7 = match parse_tok(serialized, i6, &rbrace) {
                    Some(i) => i,
                    None => {
                        return Err(ParseError::Malformed);
                    },
                };
                let i8 = match parse_tok(serialized, i7, &rbrace) {
                    Some(i) => i,
                    None => {
                        return Err(ParseError::Malformed);
                    },
                };
                if only_ws_from(serialized, i8) {
                    Ok(Response::Accept { matches })
                } else {
                    Err(ParseError::Malformed)
                }
            },
            None => {
                let reject_key = key_reject_bytes();
                let i1 = match parse_tok(serialized, i0, &reject_key) {
                    Some(i) => i,
                    None => {
                        return Err(ParseError::Malformed);
                    },
                };
                let i2 = match parse_tok(serialized, i1, &colon) {
                    Some(i) => i,
                    None => {
                        return Err(ParseError::Malformed);
                    },
                };
                let i3 = match parse_tok(serialized, i2, &lbrace) {
                    Some(i) => i,
                    None => {
                        return Err(ParseError::Malformed);
                    },
                };
                let ((reason, subject), i4) = match parse_reject_body(serialized, i3) {
                    Some(p) => p,
                    None => {
                        return Err(ParseError::Malformed);
                    },
                };
                let i5 = match parse_tok(serialized, i4, &rbrace) {
                    Some(i) => i,
                    None => {
                        return Err(ParseError::Malformed);
                    },
                };
                let i6 = match parse_tok(serialized, i5, &rbrace) {
                    Some(i) => i,
                    None => {
                        return Err(ParseError::Malformed);
                    },
                };
                if only_ws_from(serialized, i6) {
                    Ok(Response::Reject { reason, subject })
                } else {
                    Err(ParseError::Malformed)
                }
            },
        }
    }
}

// ---------------------------------------------------------------------------
// Round trips: decoding an encoded record gives the record back.
// ---------------------------------------------------------------------------

/// The fixed tokens in front of a request line's payload array sit exactly
/// where the encoder puts them.
#[verifier::rlimit(100)]
#[verifier::spinoff_prover]
proof fn lemma_request_line_tokens_head(subject: Expression, payload: Seq<u8>)
    ensures
        ({
            let s = spec_request_line(subject, payload);
            let n = subject.spec_name().len() as int;
            let el = enc_payload_items(payload).len() as int;
            &&& s.len() == 28 + n + el
            &&& sp_tok(s, 0, seq![123u8]) == Some(1int)
            &&& sp_member_subject(s, 1) == Some((subject, 13 + n))
            &&& sp_tok(s, 13 + n, seq![44u8]) == Some(14 + n)
            &&& sp_tok(s, 14 + n, lit_key_payload()) == Some(23 + n)
            &&& sp_tok(s, 23 + n, seq![58u8]) == Some(24 + n)
            &&& sp_tok(s, 24 + n, seq![91u8]) == Some(25 + n)
        }),
{
    let s = spec_request_line(subject, payload);
    let name = subject.spec_name();
    let n = name.len() as int;
    assert(s.subrange(0, 1) =~= seq![123u8]);
    lemma_tok_at(s, 0, seq![123u8]);
    assert(s.subrange(1, 10) =~= lit_key_subject());
    lemma_tok_at(s, 1, lit_key_subject());
    assert(s.subrange(10, 11) =~= seq![58u8]);
    lemma_tok_at(s, 10, seq![58u8]);
    assert(s.subrange(11, 13 + n) =~= quoted(name));
    lemma_subject_value_at(s, 11, subject);
    assert(s.subrange(13 + n, 14 + n) =~= seq![44u8]);
    lemma_tok_at(s, 13 + n, seq![44u8]);
    assert(s.subrange(14 + n, 23 + n) =~= lit_key_payload());
    lemma_tok_at(s, 14 + n, lit_key_payload());
    assert(s.subrange(23 + n, 24 + n) =~= seq![58u8]);
    lemma_tok_at(s, 23 + n, seq![58u8]);
    assert(s.subrange(24 + n, 25 + n) =~= seq![91u8]);
    lemma_tok_at(s, 24 + n, seq![91u8]);
}

/// The closing tokens of a request line sit exactly where the encoder puts
/// them.
#[verifier::rlimit(100)]
#[verifier::spinoff_prover]
proof fn lemma_request_line_tokens_tail(subject: Expression, payload: Seq<u8>)
    ensures
        ({
            let s = spec_request_line(subject, payload);
            let n = subject.spec_name().len() as int;
            let el = enc_payload_items(payload).len() as int;
            &&& sp_tok(s, 26 + n + el, seq![125u8]) == Some(27 + n + el)
            &&& ws_only(s, 27 + n + el)
        }),
{
    let s = spec_request_line(subject, payload);
    let name = subject.spec_name();
    let n = name.len() as int;
    let e = enc_payload_items(payload);
    let el = e.len() as int;
    assert(s.len() == 28 + n + el);
    assert(s.subrange(26 + n + el, 27 + n + el) =~= seq![125u8]);
    lemma_tok_at(s, 26 + n + el, seq![125u8]);
    assert(ws_only(s, 27 + n + el)) by {
        assert forall|j: int| 27 + n + el <= j < s.len() implies is_ws(#[trigger] s[j]) by {
            assert(j == 27 + n + el);
            assert(s[j] == 10);
        }
    }
}

/// A request line with an empty payload parses back to itself.
#[verifier::rlimit(100)]
#[verifier::spinoff_prover]
proof fn lemma_request_line_parses_empty(subject: Expression, payload: Seq<u8>)
    requires
        payload.len() == 0,
    ensures
        sp_request(spec_request_line(subject, payload)) == Some((subject, payload)),
{
    lemma_request_line_tokens_head(subject, payload);
    lemma_request_line_tokens_tail(subject, payload);
    let s = spec_request_line(subject, payload);
    let name = subject.spec_name();
    let n = name.len() as int;
    let e = enc_payload_items(payload);
    let el = e.len() as int;
    assert(el == 0);
    assert(s[25 + n] == 93);
    assert(ws_end(s, 25 + n) == 25 + n);
    assert(Seq::<u8>::empty() =~= payload);
    assert(sp_array_u8(s, 24 + n) == Some((payload, 26 + n)));
}

/// A request line with a non-empty payload parses back to itself.
#[verifier::rlimit(100)]
#[verifier::spinoff_prover]
proof fn lemma_request_line_parses_items(subject: Expression, payload: Seq<u8>)
    requires
        payload.len() >= 1,
    ensures
        sp_request(spec_request_line(subject, payload)) == Some((subject, payload)),
{
    lemma_request_line_tokens_head(subject, payload);
    lemma_request_line_tokens_tail(subject, payload);
    let s = spec_request_line(subject, payload);
    let name = subject.spec_name();
    let n = name.len() as int;
    let e = enc_payload_items(payload);
    let el = e.len() as int;
    assert(s.subrange(25 + n, 25 + n + el) =~= e);
    assert(s[25 + n + el] == 93);
    lemma_dec_nat_digits(payload[0] as nat);
    assert(e[0] == dec_nat(payload[0] as nat)[0]);
    assert(is_digit(s[25 + n])) by {
        assert(s.subrange(25 + n, 25 + n + el)[0] == e[0]);
    }
    assert(ws_end(s, 25 + n) == 25 + n);
    lemma_parse_enc_items(s, 25 + n, payload);
    assert(sp_array_u8(s, 24 + n) == Some((payload, 26 + n + el)));
}

/// Decoding an encoded request yields the same subject and payload, for
/// every subject and payload.
pub proof fn lemma_request_round_trip(subject: Expression, payload: Seq<u8>)
    ensures
        sp_request(spec_request_line(subject, payload)) == Some((subject, payload)),
{
    if payload.len() == 0 {
        lemma_request_line_parses_empty(subject, payload);
    } else {
        lemma_request_line_parses_items(subject, payload);
    }
}

/// The accepting response line parses back to itself.
#[verifier::rlimit(100)]
#[verifier::spinoff_prover]
proof fn lemma_accept_line_parses(matches: bool)
    ensures
        sp_response(spec_response_line(Response::Accept { matches })) == Some(
            Response::Accept { matches },
        ),
{
    let resp = Response::Accept { matches };
    let s = spec_response_line(resp);
    let word = if matches {
        lit_true()
    } else {
        lit_false()
    };
    assert(s.subrange(0, 1) =~= seq![123u8]);
    lemma_tok_at(s, 0, seq![123u8]);
    assert(s.subrange(1, 9) =~= lit_key_accept());
    lemma_tok_at(s, 1, lit_key_accept());
    assert(s.subrange(9, 10) =~= seq![58u8]);
    lemma_tok_at(s, 9, seq![58u8]);
    assert(s.subrange(10, 11) =~= seq![123u8]);
    lemma_tok_at(s, 10, seq![123u8]);
    assert(s.subrange(11, 20) =~= lit_key_matches());
    lemma_tok_at(s, 11, lit_key_matches());
    assert(s.subrange(20, 21) =~= seq![58u8]);
    lemma_tok_at(s, 20, seq![58u8]);
    assert(s.subrange(21, 21 + word.len() as int) =~= word);
    lemma_bool_value_at(s, 21, matches);
    if matches {
        assert(s.len() == 28);
        assert(s.subrange(25, 26) =~= seq![125u8]);
        lemma_tok_at(s, 25, seq![125u8]);
        assert(s.subrange(26, 27) =~= seq![125u8]);
        lemma_tok_at(s, 26, seq![125u8]);
        assert(ws_only(s, 27)) by {
            assert forall|j: int| 27 <= j < s.len() implies is_ws(#[trigger] s[j]) by {
                assert(j == 27);
                assert(s[j] == 10);
            }
        }
    } else {
        assert(s.len() == 29);
        assert(s.subrange(26, 27) =~= seq![125u8]);
        lemma_tok_at(s, 26, seq![125u8]);
        assert(s.subrange(27, 28) =~= seq![125u8]);
        lemma_tok_at(s, 27, seq![125u8]);
        assert(ws_only(s, 28)) by {
            assert forall|j: int| 28 <= j < s.len() implies is_ws(#[trigger] s[j]) by {
                assert(j == 28);
                assert(s[j] == 10);
            }
        }
    }
}

/// The rejecting response line parses back to itself.
#[verifier::rlimit(100)]
#[verifier::spinoff_prover]
proof fn lemma_reject_line_parses(reason: RejectReason, subject: Expression)
    ensures
        sp_response(spec_response_line(Response::Reject { reason, subject })) == Some(
            Response::Reject { reason, subject },
        ),
{
    let resp = Response::Reject { reason, subject };
    let s = spec_response_line(resp);
            let message = reason.spec_message();
            let m = message.len() as int;
            let name = subject.spec_name();
            let n = name.len() as int;
            assert(s.len() == 38 + m + n);
            assert(s.subrange(0, 1) =~= seq![123u8]);
            lemma_tok_at(s, 0, seq![123u8]);
            // The record opens with the Reject key, so the Accept branch of
            // the grammar is not taken.
            assert(s.subrange(1, 9) =~= lit_key_reject());
            assert(s[1] == 34 && s[2] == 82) by {
                assert(s.subrange(1, 9)[0] == lit_key_reject()[0]);
                assert(s.subrange(1, 9)[1] == lit_key_reject()[1]);
            }
            assert(ws_end(s, 1) == 1);
            assert(sp_tok(s, 1, lit_key_accept()) is None) by {
                if 9 <= s.len() && s.subrange(1, 9) == lit_key_accept() {
                    assert(s.subrange(1, 9)[1] == lit_key_accept()[1]);
                    assert(s[2] == 65);
                }
            }
            lemma_tok_at(s, 1, lit_key_reject());
            assert(s.subrange(9, 10) =~= seq![58u8]);
            lemma_tok_at(s, 9, seq![58u8]);
            assert(s.subrange(10, 11) =~= seq![123u8]);
            lemma_tok_at(s, 10, seq![123u8]);
            assert(s.subrange(11, 19) =~= lit_key_reason());
            lemma_tok_at(s, 11, lit_key_reason());
            assert(s.subrange(19, 20) =~= seq![58u8]);
            lemma_tok_at(s, 19, seq![58u8]);
            assert(s.subrange(20, 22 + m) =~= quoted(message));
            lemma_reason_value_at(s, 20, reason);
            assert(s.subrange(22 + m, 23 + m) =~= seq![44u8]);
            lemma_tok_at(s, 22 + m, seq![44u8]);
            assert(s.subrange(23 + m, 32 + m) =~= lit_key_subject());
            lemma_tok_at(s, 23 + m, lit_key_subject());
            assert(s.subrange(32 + m, 33 + m) =~= seq![58u8]);
            lemma_tok_at(s, 32 + m, seq![58u8]);
            assert(s.subrange(33 + m, 35 + m + n) =~= quoted(name));
            lemma_subject_value_at(s, 33 + m, subject);
            assert(s.subrange(35 + m + n, 36 + m + n) =~= seq![125u8]);
            lemma_tok_at(s, 35 + m + n, seq![125u8]);
            assert(s.subrange(36 + m + n, 37 + m + n) =~= seq![125u8]);
            lemma_tok_at(s, 36 + m + n, seq![125u8]);
            assert(ws_only(s, 37 + m + n)) by {
                assert forall|j: int| 37 + m + n <= j < s.len() implies is_ws(#[trigger] s[j]) by {
                    assert(j == 37 + m + n);
                    assert(s[j] == 10);
                }
            }
}

/// Decoding an encoded response yields the same response, for every
/// response.
pub proof fn lemma_response_round_trip(resp: Response)
    ensures
        sp_response(spec_response_line(resp)) == Some(resp),
{
    match resp {
        Response::Accept { matches } => {
            lemma_accept_line_parses(matches);
        },
        Response::Reject { reason, subject } => {
            lemma_reject_line_parses(reason, subject);
        },
    }
}

} // verus!
