//! The hash router: placing a subject category into the shared hash space.
//!
//! The partitioner and every node of the fleet must place a category at the
//! same key, or requests are silently misrouted. The placement used here is
//! the 64-bit FNV-1a hash of the category's name.

use vstd::prelude::*;

use crate::face::Expression;
use crate::slices::AssignmentStore;
use crate::slices::covers;

verus! {

/// The offset basis of the 64-bit FNV-1a hash.
pub const FNV_OFFSET_BASIS: u64 = 0xcbf29ce484222325;

/// The prime of the 64-bit FNV-1a hash.
pub const FNV_PRIME: u64 = 0x100000001b3;

/// One FNV-1a step: fold byte `b` into state `h`.
pub open spec fn fnv1a_step(h: u64, b: u8) -> u64 {
    (h ^ (b as u64)).wrapping_mul(FNV_PRIME)
}

/// The 64-bit FNV-1a hash of `bytes`.
pub open spec fn fnv1a(bytes: Seq<u8>) -> u64
    decreases bytes.len(),
{
    if bytes.len() == 0 {
        FNV_OFFSET_BASIS
    } else {
        fnv1a_step(fnv1a(bytes.drop_last()), bytes.last())
    }
}

/// The key at which a subject category sits in the shared hash space.
pub open spec fn slice_key_of(e: Expression) -> u64 {
    fnv1a(e.spec_name())
}

/// Compute the hash-space key of `expr`: deterministic and free of local
/// state, so that every node of the fleet routes a category the same way.
#[verifier::loop_isolation(false)]
pub fn to_slice_key(expr: &Expression) -> (k: u64)
    ensures
        k == slice_key_of(*expr),
{
    let name = expr.name_bytes();
    let n = name.len();
    let mut h: u64 = FNV_OFFSET_BASIS;
    let mut i: usize = 0;
    while i < n
        invariant
            i <= n,
            h == fnv1a(name@.take(i as int)),
        decreases n - i,
    {
        proof {
            assert(name@.take(i as int + 1).drop_last() =~= name@.take(i as int));
            assert(name@.take(i as int + 1).last() == name@[i as int]);
        }
        h = (h ^ (name[i] as u64)).wrapping_mul(FNV_PRIME);
        i = i + 1;
    }
    proof {
        assert(name@.take(n as int) =~= name@);
    }
    h
}

/// True iff this node currently owns the slice of the hash space that the
/// category `expr` falls into.
pub fn expression_is_assigned(store: &AssignmentStore, expr: &Expression) -> (assigned: bool)
    ensures
        assigned == covers(store@, slice_key_of(*expr)),
{
    let key = to_slice_key(expr);
    store.contains(key)
}

} // verus!
