//! The subscription registry: which subscribers are bound to which resource.

use crate::broadcast::{Broadcast, BroadcastView};
use vstd::prelude::*;

verus! {

/// The identity of one live connection: the token its transport gave it.
///
/// Two handles denote the same connection exactly when their tokens are equal.
#[derive(Clone, Copy, Debug, PartialEq, Eq, Structural, Hash)]
pub struct Handle {
    pub token: usize,
}

impl Handle {
    /// The handle of the connection that the transport identifies by `token`.
    pub fn new(token: usize) -> (h: Handle)
        ensures
            h.token == token,
    {
        Handle { token }
    }

    /// The token identifying the connection.
    pub fn token(&self) -> (t: usize)
        ensures
            t == self.token,
    {
        self.token
    }
}

/// The subscribers bound to `r` in `m`, oldest first; none for an unknown resource.
pub open spec fn targets(m: Map<Seq<char>, Seq<Handle>>, r: Seq<char>) -> Seq<Handle> {
    if m.dom().contains(r) {
        m[r]
    } else {
        Seq::empty()
    }
}

/// `m` after `h` has been bound to `r`: `h` comes last among the subscribers
/// of `r`, and no other resource changes.
pub open spec fn added(m: Map<Seq<char>, Seq<Handle>>, r: Seq<char>, h: Handle) -> Map<
    Seq<char>,
    Seq<Handle>,
> {
    m.insert(r, targets(m, r).push(h))
}

/// The subscribers in `s` other than `h`, in their order in `s`.
pub open spec fn without(s: Seq<Handle>, h: Handle) -> Seq<Handle> {
    s.filter(|x: Handle| x != h)
}

/// `m` after `h` has been unbound from every resource.
pub open spec fn removed(m: Map<Seq<char>, Seq<Handle>>, h: Handle) -> Map<
    Seq<char>,
    Seq<Handle>,
> {
    Map::new(|r: Seq<char>| m.dom().contains(r), |r: Seq<char>| without(m[r], h))
}

/// The subscribers of one resource path.
struct Bucket {
    res: String,
    handles: Vec<Handle>,
}

/// The registry of subscribers, by resource path.
///
/// Its view maps each resource path that was ever bound to the handles
/// currently bound to it, in the order they were added.
pub struct ServerInner {
    clients: Vec<Bucket>,
}

/// No two buckets are for the same resource path.
spec fn distinct_keys(buckets: Seq<Bucket>) -> bool {
    forall|i: int, j: int|
        0 <= i < buckets.len() && 0 <= j < buckets.len() && #[trigger] buckets[i].res@
            == #[trigger] buckets[j].res@ ==> i == j
}

/// Bucket `i` is the one for resource path `r`.
spec fn keyed_at(buckets: Seq<Bucket>, i: int, r: Seq<char>) -> bool {
    0 <= i < buckets.len() && buckets[i].res@ == r
}

/// The registry that `buckets` stand for: each bucket's resource path mapped
/// to its handles.
spec fn model(buckets: Seq<Bucket>) -> Map<Seq<char>, Seq<Handle>> {
    Map::new(
        |r: Seq<char>| exists|i: int| keyed_at(buckets, i, r),
        |r: Seq<char>| buckets[choose|i: int| keyed_at(buckets, i, r)].handles@,
    )
}

/// What the model holds for the resource path of bucket `i`.
proof fn lemma_model_at(buckets: Seq<Bucket>, i: int)
    requires
        distinct_keys(buckets),
        0 <= i < buckets.len(),
    ensures
        model(buckets).dom().contains(buckets[i].res@),
        model(buckets)[buckets[i].res@] == buckets[i].handles@,
        targets(model(buckets), buckets[i].res@) == buckets[i].handles@,
{
    assert(keyed_at(buckets, i, buckets[i].res@));
}

/// A resource path that no bucket is for has no subscribers.
proof fn lemma_model_absent(buckets: Seq<Bucket>, r: Seq<char>)
    requires
        forall|i: int| 0 <= i < buckets.len() ==> buckets[i].res@ != r,
    ensures
        !model(buckets).dom().contains(r),
        targets(model(buckets), r) == Seq::<Handle>::empty(),
{
    assert(forall|i: int| !keyed_at(buckets, i, r));
}

/// Appending `h` to bucket `i` binds `h` to that bucket's resource path.
proof fn lemma_bind_existing(before: Seq<Bucket>, after: Seq<Bucket>, i: int, h: Handle)
    requires
        distinct_keys(before),
        0 <= i < before.len(),
        after.len() == before.len(),
        forall|j: int| 0 <= j < before.len() && j != i ==> after[j] == before[j],
        after[i].res@ == before[i].res@,
        after[i].handles@ == before[i].handles@.push(h),
    ensures
        distinct_keys(after),
        model(after) == added(model(before), before[i].res@, h),
{
    let key = before[i].res@;
    assert(forall|j: int| 0 <= j < before.len() ==> #[trigger] after[j].res@ == before[j].res@);
    assert(distinct_keys(after));
    let expected = added(model(before), key, h);
    lemma_model_at(before, i);
    lemma_model_at(after, i);
    assert forall|r: Seq<char>| model(after).dom().contains(r) <==> expected.dom().contains(
        r,
    ) by {
        if model(after).dom().contains(r) {
            let j = choose|j: int| keyed_at(after, j, r);
            assert(keyed_at(before, j, r));
        }
        if model(before).dom().contains(r) {
            let j = choose|j: int| keyed_at(before, j, r);
            assert(keyed_at(after, j, r));
        }
    }
    assert forall|r: Seq<char>| model(after).dom().contains(r) implies model(after)[r]
        == expected[r] by {
        let j = choose|j: int| keyed_at(after, j, r);
        lemma_model_at(after, j);
        lemma_model_at(before, j);
    }
    assert(model(after) =~= expected);
}

/// Appending a bucket for an unseen resource path binds its handle to that path.
proof fn lemma_bind_fresh(before: Seq<Bucket>, bucket: Bucket, h: Handle)
    requires
        distinct_keys(before),
        forall|j: int| 0 <= j < before.len() ==> before[j].res@ != bucket.res@,
        bucket.handles@ == seq![h],
    ensures
        distinct_keys(before.push(bucket)),
        model(before.push(bucket)) == added(model(before), bucket.res@, h),
{
    let after = before.push(bucket);
    let key = bucket.res@;
    let last = before.len() as int;
    assert(forall|j: int| 0 <= j < before.len() ==> #[trigger] after[j].res@ == before[j].res@);
    assert(after[last].res@ == key);
    assert(distinct_keys(after));
    let expected = added(model(before), key, h);
    lemma_model_absent(before, key);
    lemma_model_at(after, last);
    assert(Seq::<Handle>::empty().push(h) =~= seq![h]);
    assert forall|r: Seq<char>| model(after).dom().contains(r) <==> expected.dom().contains(
        r,
    ) by {
        if model(after).dom().contains(r) {
            let j = choose|j: int| keyed_at(after, j, r);
            if j < last {
                assert(keyed_at(before, j, r));
            }
        }
        if model(before).dom().contains(r) {
            let j = choose|j: int| keyed_at(before, j, r);
            assert(keyed_at(after, j, r));
        }
    }
    assert forall|r: Seq<char>| model(after).dom().contains(r) implies model(after)[r]
        == expected[r] by {
        let j = choose|j: int| keyed_at(after, j, r);
        lemma_model_at(after, j);
        if j < last {
            lemma_model_at(before, j);
        }
    }
    assert(model(after) =~= expected);
}

impl View for ServerInner {
    type V = Map<Seq<char>, Seq<Handle>>;

    closed spec fn view(&self) -> Map<Seq<char>, Seq<Handle>> {
        model(self.clients@)
    }
}

/// Binds `h` to `key` in `buckets`.
fn bind(buckets: &mut Vec<Bucket>, key: String, h: Handle)
    requires
        distinct_keys(old(buckets)@),
    ensures
        distinct_keys(final(buckets)@),
        model(final(buckets)@) == added(model(old(buckets)@), key@, h),
{
    let n = buckets.len();
    let mut i: usize = 0;
    while i < n
        invariant
            n == buckets.len(),
            i <= n,
            *buckets == *old(buckets),
            distinct_keys(buckets@),
            forall|j: int| 0 <= j < i ==> buckets[j].res@ != key@,
        decreases n - i,
    {
        if buckets[i].res == key {
            buckets[i].handles.push(h);
            proof {
                lemma_bind_existing(old(buckets)@, buckets@, i as int, h);
            }
            return ;
        }
        i += 1;
    }
    let mut handles: Vec<Handle> = Vec::new();
    handles.push(h);
    let bucket = Bucket { res: key, handles };
    proof {
        assert(bucket.handles@ =~= seq![h]);
        lemma_bind_fresh(old(buckets)@, bucket, h);
    }
    buckets.push(bucket);
}

/// Filtering every bucket's handles unbinds `h` from every resource path.
proof fn lemma_unbind(before: Seq<Bucket>, after: Seq<Bucket>, h: Handle)
    requires
        distinct_keys(before),
        after.len() == before.len(),
        forall|j: int| 0 <= j < before.len() ==> #[trigger] after[j].res@ == before[j].res@,
        forall|j: int|
            0 <= j < before.len() ==> #[trigger] after[j].handles@ == without(
                before[j].handles@,
                h,
            ),
    ensures
        distinct_keys(after),
        model(after) == removed(model(before), h),
{
    assert(distinct_keys(after));
    let expected = removed(model(before), h);
    assert forall|r: Seq<char>| model(after).dom().contains(r) <==> expected.dom().contains(
        r,
    ) by {
        if model(after).dom().contains(r) {
            let j = choose|j: int| keyed_at(after, j, r);
            assert(keyed_at(before, j, r));
        }
        if model(before).dom().contains(r) {
            let j = choose|j: int| keyed_at(before, j, r);
            assert(keyed_at(after, j, r));
        }
    }
    assert forall|r: Seq<char>| model(after).dom().contains(r) implies model(after)[r]
        == expected[r] by {
        let j = choose|j: int| keyed_at(after, j, r);
        lemma_model_at(after, j);
        lemma_model_at(before, j);
    }
    assert(model(after) =~= expected);
}

/// The handles of `handles` other than `h`, in their order.
fn retain_others(handles: &Vec<Handle>, h: Handle) -> (kept: Vec<Handle>)
    ensures
        kept@ == without(handles@, h),
{
    let mut kept: Vec<Handle> = Vec::new();
    let n = handles.len();
    let mut i: usize = 0;
    proof {
        reveal(Seq::filter);
        assert(handles@.take(0) =~= Seq::<Handle>::empty());
    }
    while i < n
        invariant
            n == handles.len(),
            i <= n,
            kept@ == without(handles@.take(i as int), h),
        decreases n - i,
    {
        let x = handles[i];
        proof {
            reveal(Seq::filter);
            assert(handles@.take(i + 1).drop_last() =~= handles@.take(i as int));
        }
        if x.token != h.token {
            kept.push(x);
        }
        i += 1;
    }
    proof {
        assert(handles@.take(n as int) =~= handles@);
    }
    kept
}

/// Unbinds `h` from every resource path of `buckets`.
fn unbind(buckets: &mut Vec<Bucket>, h: Handle)
    requires
        distinct_keys(old(buckets)@),
    ensures
        distinct_keys(final(buckets)@),
        model(final(buckets)@) == removed(model(old(buckets)@), h),
{
    let n = buckets.len();
    let mut i: usize = 0;
    while i < n
        invariant
            n == buckets.len(),
            n == old(buckets).len(),
            i <= n,
            forall|j: int| 0 <= j < n ==> #[trigger] buckets[j].res@ == old(buckets)[j].res@,
            forall|j: int|
                0 <= j < i ==> #[trigger] buckets[j].handles@ == without(
                    old(buckets)[j].handles@,
                    h,
                ),
            forall|j: int|
                i <= j < n ==> #[trigger] buckets[j].handles@ == old(buckets)[j].handles@,
        decreases n - i,
    {
        let kept = retain_others(&buckets[i].handles, h);
        buckets[i].handles = kept;
        i += 1;
    }
    proof {
        lemma_unbind(old(buckets)@, buckets@, h);
    }
}

/// A copy of the handles bound to `key` in `buckets`.
fn lookup(buckets: &Vec<Bucket>, key: &String) -> (found: Vec<Handle>)
    requires
        distinct_keys(buckets@),
    ensures
        found@ == targets(model(buckets@), key@),
{
    let n = buckets.len();
    let mut i: usize = 0;
    while i < n
        invariant
            n == buckets.len(),
            i <= n,
            distinct_keys(buckets@),
            forall|j: int| 0 <= j < i ==> buckets[j].res@ != key@,
        decreases n - i,
    {
        if buckets[i].res == *key {
            proof {
                lemma_model_at(buckets@, i as int);
            }
            return buckets[i].handles.clone();
        }
        i += 1;
    }
    proof {
        lemma_model_absent(buckets@, key@);
    }
    Vec::new()
}

impl ServerInner {
    #[verifier::type_invariant]
    spec fn well_formed(&self) -> bool {
        distinct_keys(self.clients@)
    }

    /// An empty registry: no resource has a subscriber.
    pub fn new() -> (inner: ServerInner)
        ensures
            inner@ == Map::<Seq<char>, Seq<Handle>>::empty(),
    {
        let inner = ServerInner { clients: Vec::new() };
        assert(inner@ =~= Map::<Seq<char>, Seq<Handle>>::empty()) by {
            assert(forall|r: Seq<char>, i: int| !keyed_at(inner.clients@, i, r));
        }
        inner
    }

    /// Takes the buckets out, leaving the registry empty.
    fn take_buckets(&mut self) -> (buckets: Vec<Bucket>)
        ensures
            distinct_keys(buckets@),
            model(buckets@) == old(self)@,
    {
        let mut taken = ServerInner { clients: Vec::new() };
        std::mem::swap(self, &mut taken);
        proof {
            use_type_invariant(&taken);
        }
        taken.clients
    }

    /// Binds `sender` to `res`, after the subscribers already bound to it.
    ///
    /// A resource seen for the first time gets a collection of its own. Adding
    /// the same handle twice binds it twice.
    pub fn add_client(&mut self, res: &str, sender: &Handle)
        ensures
            final(self)@ == added(old(self)@, res@, *sender),
    {
        let mut buckets = self.take_buckets();
        bind(&mut buckets, res.to_owned(), *sender);
        *self = ServerInner { clients: buckets };
    }

    /// Unbinds `sender` from every resource, whichever it was bound to.
    ///
    /// The other subscribers keep their order. A handle that is bound to
    /// nothing is not an error: the registry stays as it is.
    pub fn remove_client(&mut self, sender: &Handle)
        ensures
            final(self)@ == removed(old(self)@, *sender),
    {
        let mut buckets = self.take_buckets();
        unbind(&mut buckets, *sender);
        *self = ServerInner { clients: buckets };
    }

    /// A snapshot of the handles bound to `res`, oldest first. An unknown
    /// resource has none.
    pub fn broadcast_targets(&self, res: &str) -> (handles: Vec<Handle>)
        ensures
            handles@ == targets(self@, res@),
    {
        proof {
            use_type_invariant(self);
        }
        let key = res.to_owned();
        lookup(&self.clients, &key)
    }

    /// Starts the broadcast of `msg` to the handles bound to `res` right now.
    ///
    /// The broadcast works on a snapshot: later changes to the registry do
    /// not reach it. An unknown resource gives a broadcast with no target.
    pub fn broadcast(&self, res: &str, msg: String) -> (b: Broadcast)
        ensures
            b@ == (BroadcastView {
                pending: targets(self@, res@),
                payload: msg@,
                failed: Seq::empty(),
            }),
    {
        Broadcast::new(self.broadcast_targets(res), msg)
    }
}

impl Default for ServerInner {
    /// An empty registry.
    fn default() -> (inner: ServerInner)
        ensures
            inner@ == Map::<Seq<char>, Seq<Handle>>::empty(),
    {
        ServerInner::new()
    }
}

} // verus!
