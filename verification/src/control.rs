//! The assignment control channel: decoding and applying ownership deltas.
//!
//! The partitioner streams updates, one newline-terminated JSON record per
//! delta: slices that become owned and slices that stop being owned. A
//! decoded delta is checked against the partitioner's own guarantees —
//! well-formed, non-overlapping slices — before it touches the store. The
//! partitioner already promises these upstream; they are re-checked here all
//! the same, because the store's sorted, disjoint invariant rests on them,
//! and a delta that breaks them is refused whole, so the store invariant can
//! never be lost to a bad line. After a delta is applied, the session manager is
//! reconciled and the resulting subprocess plan handed back to the caller.

use vstd::prelude::*;

use crate::face::Expression;
use crate::hashspace::slice_key_of;
use crate::json::byte_token;
use crate::json::only_ws_from;
use crate::json::parse_tok;
use crate::json::parse_u64_tok;
use crate::json::skip_ws;
use crate::json::sp_tok;
use crate::json::sp_u64_tok;
use crate::json::ws_end;
use crate::json::ws_only;
use crate::manager::SessionAction;
use crate::manager::SessionManager;
use crate::manager::reconcile_action;
use crate::message::ParseError;
use crate::slices::AssignmentStore;
use crate::slices::Slice;
use crate::slices::StoreError;
use crate::slices::covers;
use crate::slices::slice_wf;
use crate::slices::slices_disjoint;

verus! {

/// An ownership delta from the partitioner: each slice of `assigned` becomes
/// owned, each slice of `unassigned` stops being owned.
#[derive(Clone, Debug, PartialEq, Eq)]
pub struct Update {
    pub assigned: Vec<Slice>,
    pub unassigned: Vec<Slice>,
}

/// What can go wrong with one control line.
#[derive(Clone, Copy, Debug, PartialEq, Eq, Structural)]
pub enum ControlError {
    /// The line is not an update record: it is skipped.
    Malformed,
    /// The delta breaks the partitioner's guarantee of well-formed,
    /// non-overlapping slices: the whole delta is refused.
    ConflictingDelta,
    /// A slice to unassign was not owned: the store and the partitioner have
    /// come out of sync. The entry was dropped, the rest of the delta holds.
    UnassignedNotOwned,
}

/// Key token `'assigned'` (quotes included): the update member listing slices that become owned.
pub open spec fn lit_key_assigned() -> Seq<u8> {
    seq![34u8, 97u8, 115u8, 115u8, 105u8, 103u8, 110u8, 101u8, 100u8, 34u8]
}

/// Build [`lit_key_assigned`] as bytes.
pub fn key_assigned_bytes() -> (out: Vec<u8>)
    ensures
        out@ == lit_key_assigned(),
{
    let mut out: Vec<u8> = Vec::new();
    out.push(34);
    out.push(97);
    out.push(115);
    out.push(115);
    out.push(105);
    out.push(103);
    out.push(110);
    out.push(101);
    out.push(100);
    out.push(34);
    proof {
        assert(out@ =~= lit_key_assigned());
    }
    out
}

/// Key token `'unassigned'` (quotes included): the update member listing slices that stop being owned.
pub open spec fn lit_key_unassigned() -> Seq<u8> {
    seq![34u8, 117u8, 110u8, 97u8, 115u8, 115u8, 105u8, 103u8, 110u8, 101u8, 100u8, 34u8]
}

/// Build [`lit_key_unassigned`] as bytes.
pub fn key_unassigned_bytes() -> (out: Vec<u8>)
    ensures
        out@ == lit_key_unassigned(),
{
    let mut out: Vec<u8> = Vec::new();
    out.push(34);
    out.push(117);
    out.push(110);
    out.push(97);
    out.push(115);
    out.push(115);
    out.push(105);
    out.push(103);
    out.push(110);
    out.push(101);
    out.push(100);
    out.push(34);
    proof {
        assert(out@ =~= lit_key_unassigned());
    }
    out
}

/// Key token `'start'` (quotes included): a slice's lower bound.
pub open spec fn lit_key_start() -> Seq<u8> {
    seq![34u8, 115u8, 116u8, 97u8, 114u8, 116u8, 34u8]
}

/// Build [`lit_key_start`] as bytes.
pub fn key_start_bytes() -> (out: Vec<u8>)
    ensures
        out@ == lit_key_start(),
{
    let mut out: Vec<u8> = Vec::new();
    out.push(34);
    out.push(115);
    out.push(116);
    out.push(97);
    out.push(114);
    out.push(116);
    out.push(34);
    proof {
        assert(out@ =~= lit_key_start());
    }
    out
}

/// Key token `'end'` (quotes included): a slice's upper bound.
pub open spec fn lit_key_end() -> Seq<u8> {
    seq![34u8, 101u8, 110u8, 100u8, 34u8]
}

/// Build [`lit_key_end`] as bytes.
pub fn key_end_bytes() -> (out: Vec<u8>)
    ensures
        out@ == lit_key_end(),
{
    let mut out: Vec<u8> = Vec::new();
    out.push(34);
    out.push(101);
    out.push(110);
    out.push(100);
    out.push(34);
    proof {
        assert(out@ =~= lit_key_end());
    }
    out
}

// ---------------------------------------------------------------------------
// Decoding update records.
// ---------------------------------------------------------------------------

/// A slice-bound member at position `i`: the given key, colon, number.
pub open spec fn sp_member_u64(s: Seq<u8>, i: int, key: Seq<u8>) -> Option<(u64, int)> {
    match sp_tok(s, i, key) {
        Option::None => Option::None,
        Option::Some(i1) => match sp_tok(s, i1, seq![58u8]) {
            Option::None => Option::None,
            Option::Some(i2) => sp_u64_tok(s, i2),
        },
    }
}

/// The two slice-bound members, in either order.
pub open spec fn sp_slice_body(s: Seq<u8>, i: int) -> Option<(Slice, int)> {
    match sp_member_u64(s, i, lit_key_start()) {
        Option::Some((start, i1)) => match sp_tok(s, i1, seq![44u8]) {
            Option::None => Option::None,
            Option::Some(i2) => match sp_member_u64(s, i2, lit_key_end()) {
                Option::None => Option::None,
                Option::Some((end, i3)) => Option::Some((Slice { start, end }, i3)),
            },
        },
        Option::None => match sp_member_u64(s, i, lit_key_end()) {
            Option::None => Option::None,
            Option::Some((end, i1)) => match sp_tok(s, i1, seq![44u8]) {
                Option::None => Option::None,
                Option::Some(i2) => match sp_member_u64(s, i2, lit_key_start()) {
                    Option::None => Option::None,
                    Option::Some((start, i3)) => Option::Some((Slice { start, end }, i3)),
                },
            },
        },
    }
}

/// One slice object at position `i`: its bounds and the position after it.
pub open spec fn sp_slice(s: Seq<u8>, i: int) -> Option<(Slice, int)> {
    match sp_tok(s, i, seq![123u8]) {
        Option::None => Option::None,
        Option::Some(i0) => match sp_slice_body(s, i0) {
            Option::None => Option::None,
            Option::Some((sl, i1)) => match sp_tok(s, i1, seq![125u8]) {
                Option::None => Option::None,
                Option::Some(i2) => Option::Some((sl, i2)),
            },
        },
    }
}

/// One or more slices at position `i`, comma separated and closed by `]`:
/// the slices and the position after the `]`.
pub open spec fn sp_slice_items(s: Seq<u8>, i: int) -> Option<(Seq<Slice>, int)>
    decreases s.len() - i,
{
    match sp_slice(s, i) {
        Option::None => Option::None,
        Option::Some((v, j)) => {
            let m = ws_end(s, j);
            if m < s.len() && s[m] == 44 {
                if i < m + 1 {
                    match sp_slice_items(s, m + 1) {
                        Option::None => Option::None,
                        Option::Some((rest, k)) => Option::Some((seq![v] + rest, k)),
                    }
                } else {
                    Option::None
                }
            } else if m < s.len() && s[m] == 93 {
                Option::Some((seq![v], m + 1))
            } else {
                Option::None
            }
        },
    }
}

/// A slice array at position `i`: `[`, slices or nothing, `]`; the slices
/// and the position after the `]`.
pub open spec fn sp_array_slices(s: Seq<u8>, i: int) -> Option<(Seq<Slice>, int)> {
    match sp_tok(s, i, seq![91u8]) {
        Option::None => Option::None,
        Option::Some(i1) => {
            let j = ws_end(s, i1);
            if j < s.len() && s[j] == 93 {
                Option::Some((Seq::empty(), j + 1))
            } else {
                sp_slice_items(s, i1)
            }
        },
    }
}

/// A slice-list member at position `i`: the given key, colon, slice array.
pub open spec fn sp_member_slices(s: Seq<u8>, i: int, key: Seq<u8>) -> Option<(Seq<Slice>, int)> {
    match sp_tok(s, i, key) {
        Option::None => Option::None,
        Option::Some(i1) => match sp_tok(s, i1, seq![58u8]) {
            Option::None => Option::None,
            Option::Some(i2) => sp_array_slices(s, i2),
        },
    }
}

/// A whole update record: the assigned and unassigned slices, when `s` is
/// one JSON update line — members in either order, with the whitespace JSON
/// allows between tokens, and trailing whitespace after the record.
pub open spec fn sp_update(s: Seq<u8>) -> Option<(Seq<Slice>, Seq<Slice>)> {
    match sp_tok(s, 0, seq![123u8]) {
        Option::None => Option::None,
        Option::Some(i0) => match sp_member_slices(s, i0, lit_key_assigned()) {
            Option::Some((assigned, i1)) => match sp_tok(s, i1, seq![44u8]) {
                Option::None => Option::None,
                Option::Some(i2) => match sp_member_slices(s, i2, lit_key_unassigned()) {
                    Option::None => Option::None,
                    Option::Some((unassigned, i3)) => match sp_tok(s, i3, seq![125u8]) {
                        Option::None => Option::None,
                        Option::Some(i4) => if ws_only(s, i4) {
                            Option::Some((assigned, unassigned))
                        } else {
                            Option::None
                        },
                    },
                },
            },
            Option::None => match sp_member_slices(s, i0, lit_key_unassigned()) {
                Option::None => Option::None,
                Option::Some((unassigned, i1)) => match sp_tok(s, i1, seq![44u8]) {
                    Option::None => Option::None,
                    Option::Some(i2) => match sp_member_slices(s, i2, lit_key_assigned()) {
                        Option::None => Option::None,
                        Option::Some((assigned, i3)) => match sp_tok(s, i3, seq![125u8]) {
                            Option::None => Option::None,
                            Option::Some(i4) => if ws_only(s, i4) {
                                Option::Some((assigned, unassigned))
                            } else {
                                Option::None
                            },
                        },
                    },
                },
            },
        },
    }
}

/// Read a slice-bound member at position `i`.
fn parse_member_u64(s: &[u8], i: usize, key: &Vec<u8>) -> (r: Option<(u64, usize)>)
    requires
        i <= s@.len(),
    ensures
        match r {
            Some((v, j)) => sp_member_u64(s@, i as int, key@) == Some((v, j as int)) && i <= j
                <= s@.len(),
            None => sp_member_u64(s@, i as int, key@) is None,
        },
{
    let i1 = match parse_tok(s, i, key) {
        Some(x) => x,
        None => {
            return None;
        },
    };
    let colon = byte_token(58);
    let i2 = match parse_tok(s, i1, &colon) {
        Some(x) => x,
        None => {
            return None;
        },
    };
    parse_u64_tok(s, i2)
}

/// Read one slice object at position `i`.
fn parse_slice(s: &[u8], i: usize) -> (r: Option<(Slice, usize)>)
    requires
        i <= s@.len(),
    ensures
        match r {
            Some((v, j)) => sp_slice(s@, i as int) == Some((v, j as int)) && i < j <= s@.len(),
            None => sp_slice(s@, i as int) is None,
        },
{
    let lbrace = byte_token(123);
    let i0 = match parse_tok(s, i, &lbrace) {
        Some(x) => x,
        None => {
            return None;
        },
    };
    let comma = byte_token(44);
    let key_start = key_start_bytes();
    let key_end = key_end_bytes();
    let (body, i1) = match parse_member_u64(s, i0, &key_start) {
        Some((start, j0)) => {
            let j1 = match parse_tok(s, j0, &comma) {
                Some(x) => x,
                None => {
                    return None;
                },
            };
            match parse_member_u64(s, j1, &key_end) {
                Some((end, j2)) => (Slice { start, end }, j2),
                None => {
                    return None;
                },
            }
        },
        None => {
            let (end, j0) = match parse_member_u64(s, i0, &key_end) {
                Some(p) => p,
                None => {
                    return None;
                },
            };
            let j1 = match parse_tok(s, j0, &comma) {
                Some(x) => x,
                None => {
                    return None;
                },
            };
            match parse_member_u64(s, j1, &key_start) {
                Some((start, j2)) => (Slice { start, end }, j2),
                None => {
                    return None;
                },
            }
        },
    };
    let rbrace = byte_token(125);
    match parse_tok(s, i1, &rbrace) {
        Some(i2) => Some((body, i2)),
        None => None,
    }
}

/// Read the comma-separated slices at position `i`, up to and past the
/// closing `]`.
fn parse_slice_items(s: &[u8], i: usize) -> (r: Option<(Vec<Slice>, usize)>)
    requires
        i <= s@.len(),
    ensures
        match r {
            Some((v, j)) => sp_slice_items(s@, i as int) == Some((v@, j as int)) && i < j
                <= s@.len(),
            None => sp_slice_items(s@, i as int) is None,
        },
    decreases s@.len() - i,
{
    match parse_slice(s, i) {
        None => None,
        Some((v, j)) => {
            let m = skip_ws(s, j);
            if m < s.len() && s[m] == 44 {
                match parse_slice_items(s, m + 1) {
                    None => None,
                    Some((rest, k)) => {
                        let mut items: Vec<Slice> = Vec::new();
                        items.push(v);
                        let mut rest = rest;
                        let ghost rest_view = rest@;
                        items.append(&mut rest);
                        proof {
                            assert(items@ =~= seq![v] + rest_view);
                        }
                        Some((items, k))
                    },
                }
            } else if m < s.len() && s[m] == 93 {
                let mut items: Vec<Slice> = Vec::new();
                items.push(v);
                proof {
                    assert(items@ =~= seq![v]);
                }
                Some((items, m + 1))
            } else {
                None
            }
        },
    }
}

/// Read a slice array at position `i`.
fn parse_array_slices(s: &[u8], i: usize) -> (r: Option<(Vec<Slice>, usize)>)
    requires
        i <= s@.len(),
    ensures
        match r {
            Some((v, j)) => sp_array_slices(s@, i as int) == Some((v@, j as int)) && i <= j
                <= s@.len(),
            None => sp_array_slices(s@, i as int) is None,
        },
{
    let lbrack = byte_token(91);
    let i1 = match parse_tok(s, i, &lbrack) {
        Some(x) => x,
        None => {
            return None;
        },
    };
    let j = skip_ws(s, i1);
    if j < s.len() && s[j] == 93 {
        let items: Vec<Slice> = Vec::new();
        proof {
            assert(items@ =~= Seq::<Slice>::empty());
        }
        Some((items, j + 1))
    } else {
        parse_slice_items(s, i1)
    }
}

/// Read a slice-list member at position `i`.
fn parse_member_slices(s: &[u8], i: usize, key: &Vec<u8>) -> (r: Option<(Vec<Slice>, usize)>)
    requires
        i <= s@.len(),
    ensures
        match r {
            Some((v, j)) => sp_member_slices(s@, i as int, key@) == Some((v@, j as int)) && i <= j
                <= s@.len(),
            None => sp_member_slices(s@, i as int, key@) is None,
        },
{
    let i1 = match parse_tok(s, i, key) {
        Some(x) => x,
        None => {
            return None;
        },
    };
    let colon = byte_token(58);
    let i2 = match parse_tok(s, i1, &colon) {
        Some(x) => x,
        None => {
            return None;
        },
    };
    parse_array_slices(s, i2)
}

impl Update {
    /// Decode one update record: the delta back when `serialized` is one
    /// JSON update line, an error otherwise.
    pub fn deserialize(serialized: &[u8]) -> (r: Result<Update, ParseError>)
        ensures
            match r {
                Ok(upd) => sp_update(serialized@) == Some((upd.assigned@, upd.unassigned@)),
                Err(e) => sp_update(serialized@) is None && e == ParseError::Malformed,
            },
    {
        let lbrace = byte_token(123);
        let i0 = match parse_tok(serialized, 0, &lbrace) {
            Some(i) => i,
            None => {
                return Err(ParseError::Malformed);
            },
        };
        let comma = byte_token(44);
        let key_assigned = key_assigned_bytes();
        let key_unassigned = key_unassigned_bytes();
        let ((assigned, unassigned), i3) = match parse_member_slices(
            serialized,
            i0,
            &key_assigned,
        ) {
            Some((assigned, i1)) => {
                let i2 = match parse_tok(serialized, i1, &comma) {
                    Some(x) => x,
                    None => {
                        return Err(ParseError::Malformed);
                    },
                };
                match parse_member_slices(serialized, i2, &key_unassigned) {
                    Some((unassigned, j)) => ((assigned, unassigned), j),
                    None => {
                        return Err(ParseError::Malformed);
                    },
                }
            },
            None => {
                let (unassigned, i1) = match parse_member_slices(
                    serialized,
                    i0,
                    &key_unassigned,
                ) {
                    Some(p) => p,
                    None => {
                        return Err(ParseError::Malformed);
                    },
                };
                let i2 = match parse_tok(serialized, i1, &comma) {
                    Some(x) => x,
                    None => {
                        return Err(ParseError::Malformed);
                    },
                };
                match parse_member_slices(serialized, i2, &key_assigned) {
                    Some((assigned, j)) => ((assigned, unassigned), j),
                    None => {
                        return Err(ParseError::Malformed);
                    },
                }
            },
        };
        let rbrace = byte_token(125);
        let i4 = match parse_tok(serialized, i3, &rbrace) {
            Some(i) => i,
            None => {
                return Err(ParseError::Malformed);
            },
        };
        if only_ws_from(serialized, i4) {
            Ok(Update { assigned, unassigned })
        } else {
            Err(ParseError::Malformed)
        }
    }
}

// ---------------------------------------------------------------------------
// Checking a delta against the partitioner's guarantees.
// ---------------------------------------------------------------------------

/// The guarantees a delta must meet before it may touch the store: every
/// assigned slice well formed, the assigned slices pairwise disjoint and
/// disjoint from every owned slice that the delta does not unassign, and no
/// slice unassigned twice.
pub open spec fn delta_admissible(pre: Seq<Slice>, assigned: Seq<Slice>, unassigned: Seq<
    Slice,
>) -> bool {
    &&& (forall|i: int| 0 <= i < assigned.len() ==> slice_wf(#[trigger] assigned[i]))
    &&& (forall|i: int, j: int|
        0 <= i < j < assigned.len() ==> slices_disjoint(
            #[trigger] assigned[i],
            #[trigger] assigned[j],
        ))
    &&& (forall|i: int, x: Slice|
        0 <= i < assigned.len() && #[trigger] pre.contains(x) && !unassigned.contains(x)
            ==> slices_disjoint(#[trigger] assigned[i], x))
    &&& (forall|i: int, j: int| 0 <= i < j < unassigned.len() ==> unassigned[i] != unassigned[j])
}

/// Check that every slice is well formed.
#[verifier::loop_isolation(false)]
fn all_wf(v: &Vec<Slice>) -> (r: bool)
    ensures
        r == (forall|i: int| 0 <= i < v@.len() ==> slice_wf(#[trigger] v@[i])),
{
    let mut i: usize = 0;
    while i < v.len()
        invariant
            i <= v@.len(),
            forall|k: int| 0 <= k < i ==> slice_wf(#[trigger] v@[k]),
        decreases v@.len() - i,
    {
        let s = v[i];
        if s.start > s.end {
            assert(!slice_wf(v@[i as int]));
            return false;
        }
        i = i + 1;
    }
    true
}

/// Check that the slices are pairwise disjoint.
#[verifier::loop_isolation(false)]
fn pairwise_disjoint(v: &Vec<Slice>) -> (r: bool)
    ensures
        r == (forall|i: int, j: int|
            0 <= i < j < v@.len() ==> slices_disjoint(#[trigger] v@[i], #[trigger] v@[j])),
{
    let mut i: usize = 0;
    while i < v.len()
        invariant
            i <= v@.len(),
            forall|a: int, b: int|
                0 <= a < b < v@.len() && a < i ==> slices_disjoint(
                    #[trigger] v@[a],
                    #[trigger] v@[b],
                ),
        decreases v@.len() - i,
    {
        let x = v[i];
        let mut j: usize = i + 1;
        while j < v.len()
            invariant
                i < j <= v@.len() || (i + 1 == j && j > v@.len()),
                i < v@.len(),
                forall|b: int| i < b < j ==> slices_disjoint(v@[i as int], #[trigger] v@[b]),
            decreases v@.len() - j,
        {
            let y = v[j];
            if !(x.end < y.start || y.end < x.start) {
                assert(!slices_disjoint(v@[i as int], v@[j as int]));
                return false;
            }
            j = j + 1;
        }
        proof {
            assert forall|a: int, b: int| 0 <= a < b < v@.len() && a < i + 1 implies
                slices_disjoint(#[trigger] v@[a], #[trigger] v@[b]) by {
                if a == i {
                    assert(slices_disjoint(v@[i as int], v@[b]));
                }
            }
        }
        i = i + 1;
    }
    true
}

/// Check that no slice occurs twice.
#[verifier::loop_isolation(false)]
fn no_duplicates(v: &Vec<Slice>) -> (r: bool)
    ensures
        r == (forall|i: int, j: int| 0 <= i < j < v@.len() ==> v@[i] != v@[j]),
{
    let mut i: usize = 0;
    while i < v.len()
        invariant
            i <= v@.len(),
            forall|a: int, b: int| 0 <= a < b < v@.len() && a < i ==> v@[a] != v@[b],
        decreases v@.len() - i,
    {
        let x = v[i];
        let mut j: usize = i + 1;
        while j < v.len()
            invariant
                i < j <= v@.len() || (i + 1 == j && j > v@.len()),
                i < v@.len(),
                forall|b: int| i < b < j ==> v@[i as int] != v@[b],
            decreases v@.len() - j,
        {
            if x == v[j] {
                assert(v@[i as int] == v@[j as int]);
                return false;
            }
            j = j + 1;
        }
        proof {
            assert forall|a: int, b: int| 0 <= a < b < v@.len() && a < i + 1 implies v@[a]
                != v@[b] by {
                if a == i {
                    assert(v@[i as int] != v@[b]);
                }
            }
        }
        i = i + 1;
    }
    true
}

/// Check whether `x` occurs in `v`.
#[verifier::loop_isolation(false)]
fn contains_slice(v: &Vec<Slice>, x: Slice) -> (r: bool)
    ensures
        r == v@.contains(x),
{
    let mut i: usize = 0;
    while i < v.len()
        invariant
            i <= v@.len(),
            forall|k: int| 0 <= k < i ==> v@[k] != x,
        decreases v@.len() - i,
    {
        if v[i] == x {
            assert(v@[i as int] == x);
            return true;
        }
        i = i + 1;
    }
    assert(!v@.contains(x)) by {
        if v@.contains(x) {
            let k = choose|k: int| 0 <= k < v@.len() && v@[k] == x;
        }
    }
    false
}

/// Check that every assigned slice is disjoint from every owned slice that
/// the delta does not unassign.
#[verifier::loop_isolation(false)]
fn assigned_disjoint_from_kept(
    store: &AssignmentStore,
    assigned: &Vec<Slice>,
    unassigned: &Vec<Slice>,
) -> (r: bool)
    ensures
        r == (forall|i: int, x: Slice|
            0 <= i < assigned@.len() && #[trigger] store@.contains(x) && !unassigned@.contains(x)
                ==> slices_disjoint(#[trigger] assigned@[i], x)),
{
    let mut i: usize = 0;
    while i < assigned.len()
        invariant
            i <= assigned@.len(),
            forall|a: int, x: Slice|
                0 <= a < i && #[trigger] store@.contains(x) && !unassigned@.contains(x)
                    ==> slices_disjoint(#[trigger] assigned@[a], x),
        decreases assigned@.len() - i,
    {
        let s = assigned[i];
        let mut k: usize = 0;
        while k < store.len()
            invariant
                k <= store@.len(),
                i < assigned@.len(),
                s == assigned@[i as int],
                forall|t: int|
                    0 <= t < k && !unassigned@.contains(#[trigger] store@[t]) ==> slices_disjoint(
                        assigned@[i as int],
                        store@[t],
                    ),
            decreases store@.len() - k,
        {
            let x = store.get(k);
            if !contains_slice(unassigned, x) {
                if !(s.end < x.start || x.end < s.start) {
                    proof {
                        assert(store@.contains(store@[k as int]));
                        assert(!slices_disjoint(assigned@[i as int], store@[k as int]));
                    }
                    return false;
                }
            }
            k = k + 1;
        }
        proof {
            assert forall|x: Slice|
                #[trigger] store@.contains(x) && !unassigned@.contains(x) implies slices_disjoint(
                assigned@[i as int],
                x,
            ) by {
                let t = choose|t: int| 0 <= t < store@.len() && store@[t] == x;
            }
        }
        i = i + 1;
    }
    true
}

// ---------------------------------------------------------------------------
// Applying a delta and reconciling.
// ---------------------------------------------------------------------------

/// Apply one decoded delta to the store, refusing it whole if it breaks the
/// partitioner's guarantees, and reporting an unassigned slice that was not
/// owned.
pub fn apply_update(store: &mut AssignmentStore, update: &Update) -> (r: Result<(), ControlError>)
    requires
        old(store).wf(),
    ensures
        final(store).wf(),
        !delta_admissible(old(store)@, update.assigned@, update.unassigned@) ==> (final(store)@
            == old(store)@ && r == Err::<(), ControlError>(ControlError::ConflictingDelta)),
        delta_admissible(old(store)@, update.assigned@, update.unassigned@) ==> ((forall|x: Slice|
            final(store)@.contains(x) <==> ((old(store)@.contains(x)
                && !update.unassigned@.contains(x)) || update.assigned@.contains(x))) && (r is Ok <==> (forall|j: int|
            0 <= j < update.unassigned@.len() ==> old(store)@.contains(
                #[trigger] update.unassigned@[j],
            ))) && (r is Ok || r == Err::<(), ControlError>(ControlError::UnassignedNotOwned))),
{
    if !all_wf(&update.assigned) {
        return Err(ControlError::ConflictingDelta);
    }
    if !pairwise_disjoint(&update.assigned) {
        return Err(ControlError::ConflictingDelta);
    }
    if !assigned_disjoint_from_kept(store, &update.assigned, &update.unassigned) {
        return Err(ControlError::ConflictingDelta);
    }
    if !no_duplicates(&update.unassigned) {
        return Err(ControlError::ConflictingDelta);
    }
    match store.apply(&update.assigned, &update.unassigned) {
        Ok(()) => Ok(()),
        Err(StoreError::UnassignedNotOwned) => Err(ControlError::UnassignedNotOwned),
    }
}

/// The result of one control line: what went wrong with it, if anything,
/// and the subprocess plan to carry out, when a delta was applied.
#[derive(Debug, PartialEq, Eq)]
pub struct ControlStep {
    /// The parse or integrity problem the line had, if any.
    pub error: Option<ControlError>,
    /// The per-category subprocess operations that reconciliation planned.
    pub plan: Option<Vec<(Expression, SessionAction)>>,
}

/// Process one raw line from the control connection: decode the delta,
/// apply it to the store, and reconcile the session manager.
///
/// A malformed line is skipped and nothing changes. A delta that breaks the
/// partitioner's guarantees is refused whole and nothing changes. Otherwise
/// the delta is applied — dropping, and reporting, unassigned slices that
/// were not owned — and the returned plan says which subprocesses to start
/// or stop.
pub fn process_control_line(
    store: &mut AssignmentStore,
    manager: &mut SessionManager,
    line: &[u8],
) -> (step: ControlStep)
    requires
        old(store).wf(),
    ensures
        final(store).wf(),
        match sp_update(line@) {
            Option::None => final(store)@ == old(store)@ && *final(manager) == *old(manager)
                && step.error == Some(ControlError::Malformed) && step.plan is None,
            Option::Some((assigned, unassigned)) => if !delta_admissible(
                old(store)@,
                assigned,
                unassigned,
            ) {
                final(store)@ == old(store)@ && *final(manager) == *old(manager) && step.error
                    == Some(ControlError::ConflictingDelta) && step.plan is None
            } else {
                &&& (forall|x: Slice|
                    final(store)@.contains(x) <==> ((old(store)@.contains(x)
                        && !unassigned.contains(x)) || assigned.contains(x)))
                &&& (step.error is None <==> (forall|j: int|
                    0 <= j < unassigned.len() ==> old(store)@.contains(#[trigger] unassigned[j])))
                &&& (step.error is None || step.error == Some(ControlError::UnassignedNotOwned))
                &&& (forall|e: Expression|
                    final(manager).has_session(e) == covers(final(store)@, slice_key_of(e)))
                &&& (step.plan matches Some(p) && p@.len() == 2 && p@[0] == (
                    Expression::Anger,
                    reconcile_action(
                        old(manager).has_session(Expression::Anger),
                        covers(final(store)@, slice_key_of(Expression::Anger)),
                    ),
                ) && p@[1] == (
                    Expression::Happiness,
                    reconcile_action(
                        old(manager).has_session(Expression::Happiness),
                        covers(final(store)@, slice_key_of(Expression::Happiness)),
                    ),
                ))
            },
        },
{
    match Update::deserialize(line) {
        Err(_) => ControlStep { error: Some(ControlError::Malformed), plan: None },
        Ok(update) => {
            let applied = apply_update(store, &update);
            match &applied {
                Err(ControlError::ConflictingDelta) => ControlStep {
                    error: Some(ControlError::ConflictingDelta),
                    plan: None,
                },
                Err(e) => {
                    let e = *e;
                    proof {
                        // Carry the which-slices-were-owned report over to
                        // the decoded delta's own sequences.
                        match sp_update(line@) {
                            Option::Some((assigned0, unassigned0)) => {
                                if forall|j: int|
                                    0 <= j < unassigned0.len() ==> old(store)@.contains(
                                        #[trigger] unassigned0[j],
                                    ) {
                                    assert forall|j: int|
                                        0 <= j < update.unassigned@.len() implies old(
                                        store,
                                    )@.contains(#[trigger] update.unassigned@[j]) by {
                                        assert(old(store)@.contains(unassigned0[j]));
                                    }
                                }
                            },
                            Option::None => {},
                        }
                    }
                    let plan = manager.update_models(store);
                    ControlStep { error: Some(e), plan: Some(plan) }
                },
                Ok(()) => {
                    proof {
                        // Carry the which-slices-were-owned report over to
                        // the decoded delta's own sequences.
                        match sp_update(line@) {
                            Option::Some((assigned0, unassigned0)) => {
                                assert forall|j: int|
                                    0 <= j < unassigned0.len() implies old(store)@.contains(
                                    #[trigger] unassigned0[j],
                                ) by {
                                    assert(old(store)@.contains(update.unassigned@[j]));
                                }
                            },
                            Option::None => {},
                        }
                    }
                    let plan = manager.update_models(store);
                    ControlStep { error: None, plan: Some(plan) }
                },
            }
        },
    }
}

} // verus!
