//! Registries as the outcome of a history of operations.
//!
//! A registry starts empty and changes only by binding a handle to a resource
//! and by unbinding a handle from everything. This module says, for any such
//! history, who the subscribers of a resource are, and proves that the
//! registry agrees.

use crate::server::{added, removed, targets, without, Handle};
use vstd::prelude::*;

verus! {

/// One change to a registry.
pub ghost enum RegistryOp {
    /// `handle` is bound to `resource`.
    Add { resource: Seq<char>, handle: Handle },
    /// `handle` is unbound from every resource.
    Remove { handle: Handle },
}

/// The registry `m` after `op`.
pub open spec fn apply(m: Map<Seq<char>, Seq<Handle>>, op: RegistryOp) -> Map<
    Seq<char>,
    Seq<Handle>,
> {
    match op {
        RegistryOp::Add { resource, handle } => added(m, resource, handle),
        RegistryOp::Remove { handle } => removed(m, handle),
    }
}

/// The registry that `ops`, applied in order to an empty registry, lead to.
pub open spec fn replay(ops: Seq<RegistryOp>) -> Map<Seq<char>, Seq<Handle>>
    decreases ops.len(),
{
    if ops.len() == 0 {
        Map::empty()
    } else {
        apply(replay(ops.drop_last()), ops.last())
    }
}

/// `op` unbinds `h`.
pub open spec fn unbinds(op: RegistryOp, h: Handle) -> bool {
    op == (RegistryOp::Remove { handle: h })
}

/// Operation `i` of `ops` binds a handle to `r`, and no later operation of
/// `ops` unbinds that handle.
pub open spec fn is_live_add(ops: Seq<RegistryOp>, i: int, r: Seq<char>) -> bool {
    &&& 0 <= i < ops.len()
    &&& ops[i] matches RegistryOp::Add { resource, handle }
    &&& resource == r
    &&& forall|j: int| i < j < ops.len() ==> !unbinds(#[trigger] ops[j], handle)
}

/// The handle that `op` binds or unbinds.
pub open spec fn handle_of(op: RegistryOp) -> Handle {
    match op {
        RegistryOp::Add { resource, handle } => handle,
        RegistryOp::Remove { handle } => handle,
    }
}

/// The handles bound to `r` by one of the first `k` operations of `ops` and
/// not unbound by any later operation of `ops`, in the order they were bound.
pub open spec fn live_among(ops: Seq<RegistryOp>, r: Seq<char>, k: int) -> Seq<Handle>
    decreases k,
{
    if k <= 0 {
        Seq::empty()
    } else if is_live_add(ops, k - 1, r) {
        live_among(ops, r, k - 1).push(handle_of(ops[k - 1]))
    } else {
        live_among(ops, r, k - 1)
    }
}

/// The handles that `ops` bound to `r` and did not unbind afterwards, in the
/// order they were bound.
pub open spec fn live(ops: Seq<RegistryOp>, r: Seq<char>) -> Seq<Handle> {
    live_among(ops, r, ops.len() as int)
}

/// Looking up `r` after binding `h` to `q`.
pub proof fn lemma_targets_added(
    m: Map<Seq<char>, Seq<Handle>>,
    q: Seq<char>,
    h: Handle,
    r: Seq<char>,
)
    ensures
        targets(added(m, q, h), r) == if r == q {
            targets(m, r).push(h)
        } else {
            targets(m, r)
        },
{
}

/// Looking up `r` after unbinding `h`: the former subscribers of `r` but `h`.
pub proof fn lemma_targets_removed(m: Map<Seq<char>, Seq<Handle>>, h: Handle, r: Seq<char>)
    ensures
        targets(removed(m, h), r) == without(targets(m, r), h),
{
    reveal(Seq::filter);
    assert(without(Seq::<Handle>::empty(), h) =~= Seq::<Handle>::empty());
}

/// Dropping `h` from a sequence that ends in `x`.
proof fn lemma_without_push(s: Seq<Handle>, x: Handle, h: Handle)
    ensures
        without(s.push(x), h) == if x != h {
            without(s, h).push(x)
        } else {
            without(s, h)
        },
{
    reveal(Seq::filter);
    assert(s.push(x).drop_last() =~= s);
}

/// A binding as the last operation leaves the earlier bindings as they were.
proof fn lemma_live_among_after_add(ops: Seq<RegistryOp>, r: Seq<char>, k: int)
    requires
        ops.len() > 0,
        ops.last() is Add,
        0 <= k < ops.len(),
    ensures
        live_among(ops, r, k) == live_among(ops.drop_last(), r, k),
    decreases k,
{
    if k > 0 {
        lemma_live_among_after_add(ops, r, k - 1);
        let before = ops.drop_last();
        assert(before[k - 1] == ops[k - 1]);
        if is_live_add(before, k - 1, r) {
            assert forall|j: int| k - 1 < j < ops.len() implies !unbinds(
                #[trigger] ops[j],
                handle_of(ops[k - 1]),
            ) by {
                if j < before.len() {
                    assert(before[j] == ops[j]);
                }
            }
        }
        if is_live_add(ops, k - 1, r) {
            assert forall|j: int| k - 1 < j < before.len() implies !unbinds(
                #[trigger] before[j],
                handle_of(ops[k - 1]),
            ) by {
                assert(before[j] == ops[j]);
            }
        }
    }
}

/// An unbinding of `h` as the last operation drops `h` from the earlier
/// bindings and leaves the others as they were.
proof fn lemma_live_among_after_remove(ops: Seq<RegistryOp>, r: Seq<char>, k: int, h: Handle)
    requires
        ops.len() > 0,
        ops.last() == (RegistryOp::Remove { handle: h }),
        0 <= k < ops.len(),
    ensures
        live_among(ops, r, k) == without(live_among(ops.drop_last(), r, k), h),
    decreases k,
{
    reveal(Seq::filter);
    if k > 0 {
        lemma_live_among_after_remove(ops, r, k - 1, h);
        let before = ops.drop_last();
        let x = handle_of(ops[k - 1]);
        assert(before[k - 1] == ops[k - 1]);
        lemma_without_push(live_among(before, r, k - 1), x, h);
        if is_live_add(before, k - 1, r) && x != h {
            assert forall|j: int| k - 1 < j < ops.len() implies !unbinds(#[trigger] ops[j], x) by {
                if j < before.len() {
                    assert(before[j] == ops[j]);
                }
            }
        }
        if is_live_add(ops, k - 1, r) {
            assert(!unbinds(ops[ops.len() - 1], x));
            assert forall|j: int| k - 1 < j < before.len() implies !unbinds(
                #[trigger] before[j],
                x,
            ) by {
                assert(before[j] == ops[j]);
            }
        }
    } else {
        assert(without(Seq::<Handle>::empty(), h) =~= Seq::<Handle>::empty());
    }
}

/// After any history of bindings and unbindings, the subscribers of a
/// resource are exactly the handles that were bound to it and not unbound
/// since, in the order they were bound, whatever happened to other resources
/// in between.
pub proof fn lemma_replay_targets(ops: Seq<RegistryOp>, r: Seq<char>)
    ensures
        targets(replay(ops), r) == live(ops, r),
    decreases ops.len(),
{
    if ops.len() > 0 {
        let before = ops.drop_last();
        let k = before.len() as int;
        lemma_replay_targets(before, r);
        match ops.last() {
            RegistryOp::Add { resource, handle } => {
                lemma_targets_added(replay(before), resource, handle, r);
                lemma_live_among_after_add(ops, r, k);
            },
            RegistryOp::Remove { handle } => {
                lemma_targets_removed(replay(before), handle, r);
                lemma_live_among_after_remove(ops, r, k, handle);
            },
        }
    }
}

/// Dropping `h` from a sequence leaves nothing of `h`, and nothing more to drop.
proof fn lemma_without_is_final(s: Seq<Handle>, h: Handle)
    ensures
        !without(s, h).contains(h),
        without(without(s, h), h) == without(s, h),
    decreases s.len(),
{
    reveal(Seq::filter);
    if s.len() > 0 {
        let rest = s.drop_last();
        lemma_without_is_final(rest, h);
        assert(rest.push(s.last()) =~= s);
        lemma_without_push(rest, s.last(), h);
        if s.last() != h {
            lemma_without_push(without(rest, h), s.last(), h);
            let kept = without(rest, h).push(s.last());
            assert forall|i: int| 0 <= i < kept.len() implies kept[i] != h by {
                if i < kept.len() - 1 {
                    assert(without(rest, h).contains(kept[i]));
                }
            }
        }
    } else {
        assert(without(s, h) =~= s);
    }
}

/// Once a handle is unbound, no resource has it among its subscribers, even
/// if it had been bound to several.
pub proof fn lemma_removed_is_absent(m: Map<Seq<char>, Seq<Handle>>, h: Handle, r: Seq<char>)
    ensures
        !targets(removed(m, h), r).contains(h),
{
    lemma_targets_removed(m, h, r);
    lemma_without_is_final(targets(m, r), h);
}

/// Unbinding a handle a second time changes nothing.
pub proof fn lemma_remove_twice(m: Map<Seq<char>, Seq<Handle>>, h: Handle)
    ensures
        removed(removed(m, h), h) == removed(m, h),
{
    assert forall|r: Seq<char>| m.dom().contains(r) implies removed(removed(m, h), h)[r]
        == removed(m, h)[r] by {
        lemma_without_is_final(m[r], h);
    }
    assert(removed(removed(m, h), h) =~= removed(m, h));
}

/// Unbinding a handle that is bound to nothing changes no resource's subscribers.
pub proof fn lemma_remove_absent(m: Map<Seq<char>, Seq<Handle>>, h: Handle, r: Seq<char>)
    requires
        forall|q: Seq<char>| !targets(m, q).contains(h),
    ensures
        targets(removed(m, h), r) == targets(m, r),
{
    lemma_targets_removed(m, h, r);
    lemma_keep_all(targets(m, r), h);
}

/// Dropping `h` from a sequence that does not hold it leaves the sequence.
proof fn lemma_keep_all(s: Seq<Handle>, h: Handle)
    requires
        !s.contains(h),
    ensures
        without(s, h) == s,
    decreases s.len(),
{
    reveal(Seq::filter);
    if s.len() > 0 {
        let rest = s.drop_last();
        assert forall|i: int| 0 <= i < rest.len() implies rest[i] != h by {
            assert(rest[i] == s[i]);
            assert(s.contains(s[i]));
        }
        lemma_keep_all(rest, h);
        assert(s.contains(s.last()));
        assert(rest.push(s.last()) =~= s);
    } else {
        assert(without(s, h) =~= s);
    }
}

/// Every handle among the live ones was bound by a live binding.
proof fn lemma_live_among_member(ops: Seq<RegistryOp>, r: Seq<char>, k: int, x: Handle)
    requires
        live_among(ops, r, k).contains(x),
    ensures
        exists|i: int| 0 <= i < k && is_live_add(ops, i, r) && handle_of(ops[i]) == x,
    decreases k,
{
    if k > 0 {
        let earlier = live_among(ops, r, k - 1);
        if is_live_add(ops, k - 1, r) && handle_of(ops[k - 1]) == x {
        } else {
            let all = live_among(ops, r, k);
            let i = choose|i: int| 0 <= i < all.len() && all[i] == x;
            if is_live_add(ops, k - 1, r) {
                assert(i < earlier.len());
                assert(earlier[i] == x);
            }
            assert(earlier.contains(x));
            lemma_live_among_member(ops, r, k - 1, x);
        }
    }
}

/// A handle that was unbound and not bound again since is a subscriber of
/// no resource, whatever else happened before or after.
pub proof fn lemma_unbound_stays_absent(ops: Seq<RegistryOp>, k: int, h: Handle, r: Seq<char>)
    requires
        0 <= k < ops.len(),
        ops[k] == (RegistryOp::Remove { handle: h }),
        forall|j: int| k < j < ops.len() && #[trigger] ops[j] is Add ==> handle_of(ops[j]) != h,
    ensures
        !targets(replay(ops), r).contains(h),
{
    lemma_replay_targets(ops, r);
    if live(ops, r).contains(h) {
        lemma_live_among_member(ops, r, ops.len() as int, h);
        let i = choose|i: int|
            0 <= i < ops.len() && is_live_add(ops, i, r) && handle_of(ops[i]) == h;
        if i < k {
            assert(unbinds(ops[k], h));
        }
    }
}

} // verus!
