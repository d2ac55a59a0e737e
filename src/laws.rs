use crate::registry::{
    lemma_broadcasted_wf, lemma_delivered, lemma_kept_all_but, lemma_kept_membership,
    lemma_unregistered, ConnectionId, RegistryView,
};
use tokio::sync::mpsc::UnboundedSender;
use vstd::prelude::*;

verus! {

/// One operation on a registry, as seen by the abstract state.
pub enum RegistryOp {
    /// Register a handle (skipped once identifiers are exhausted).
    Register(UnboundedSender<String>),
    /// Unregister an identifier.
    Unregister(ConnectionId),
    /// Broadcast `frame`; the handles of the identifiers in `gone` refuse it.
    Broadcast(Set<ConnectionId>, Seq<char>),
}

/// Which handles accept a frame when those of `gone` refuse it.
pub open spec fn acceptance(ids: Seq<ConnectionId>, gone: Set<ConnectionId>) -> Seq<bool> {
    Seq::new(ids.len(), |i: int| !gone.contains(ids[i]))
}

/// Every position but `k` accepts.
pub open spec fn all_but(n: nat, k: int) -> Seq<bool> {
    Seq::new(n, |i: int| i != k)
}

/// The state after one operation.
pub open spec fn apply(v: RegistryView, op: RegistryOp) -> RegistryView {
    match op {
        RegistryOp::Register(h) => if v.next_id < u64::MAX {
            v.registered(h)
        } else {
            v
        },
        RegistryOp::Unregister(id) => v.unregistered(id),
        RegistryOp::Broadcast(gone, frame) => v.broadcasted(acceptance(v.ids, gone), frame),
    }
}

/// The state after a sequence of operations, applied in order.
pub open spec fn run(v: RegistryView, ops: Seq<RegistryOp>) -> RegistryView
    decreases ops.len(),
{
    if ops.len() == 0 {
        v
    } else {
        apply(run(v, ops.drop_last()), ops.last())
    }
}

/// A broadcast reaches exactly the handles registered when it runs: each of
/// them is offered the frame exactly once, stays exactly when its queue
/// accepted it, and no other identifier's handle is touched. The state stays
/// well formed.
pub proof fn lemma_broadcast_reaches_exactly_registered(
    v: RegistryView,
    accepted: Seq<bool>,
    frame: Seq<char>,
)
    requires
        v.wf(),
        accepted.len() == v.ids.len(),
    ensures
        v.broadcasted(accepted, frame).wf(),
        v.broadcasted(accepted, frame).models.dom() == v.models.dom(),
        forall|i: int|
            0 <= i < v.ids.len() ==> #[trigger] v.broadcasted(accepted, frame).models[v.ids[i]]
                == v.models[v.ids[i]].after_offer(frame, accepted[i]),
        forall|i: int|
            0 <= i < v.ids.len() ==> (#[trigger] v.broadcasted(accepted, frame).ids.contains(v.ids[i])
                <==> accepted[i]),
        forall|k: ConnectionId| #[trigger]
            v.broadcasted(accepted, frame).ids.contains(k) ==> v.ids.contains(k),
        forall|k: ConnectionId|
            v.models.dom().contains(k) && !v.ids.contains(k) ==> #[trigger] v.broadcasted(
                accepted,
                frame,
            ).models[k] == v.models[k],
{
    lemma_broadcasted_wf(v, accepted, frame);
    lemma_delivered(v, accepted, frame);
    assert forall|i: int| 0 <= i < v.ids.len() implies (#[trigger] v.broadcasted(
        accepted,
        frame,
    ).ids.contains(v.ids[i]) <==> accepted[i]) by {
        lemma_kept_membership(v.ids, accepted, i);
    }
}

/// A handle unregistered before a broadcast is not reached by it: it is not
/// registered afterwards and its model is untouched.
pub proof fn lemma_unregistered_not_reached(
    v: RegistryView,
    id: ConnectionId,
    gone: Set<ConnectionId>,
    frame: Seq<char>,
)
    requires
        v.wf(),
    ensures
        !apply(apply(v, RegistryOp::Unregister(id)), RegistryOp::Broadcast(gone, frame)).ids.contains(
            id,
        ),
        v.models.dom().contains(id) ==> apply(
            apply(v, RegistryOp::Unregister(id)),
            RegistryOp::Broadcast(gone, frame),
        ).models[id] == v.models[id],
{
    let u = v.unregistered(id);
    lemma_unregistered(v, id);
    lemma_broadcast_reaches_exactly_registered(u, acceptance(u.ids, gone), frame);
}

/// Every operation keeps the state well formed, so any sequence of
/// registrations, unregistrations and broadcasts does too.
pub proof fn lemma_run_wf(v: RegistryView, ops: Seq<RegistryOp>)
    requires
        v.wf(),
    ensures
        run(v, ops).wf(),
    decreases ops.len(),
{
    if ops.len() > 0 {
        let u = run(v, ops.drop_last());
        lemma_run_wf(v, ops.drop_last());
        match ops.last() {
            RegistryOp::Register(h) => {
                if u.next_id < u64::MAX {
                    let w = u.registered(h);
                    assert forall|a: int, b: int| 0 <= a < b < w.ids.len() implies w.ids[a]
                        < w.ids[b] by {
                        assert(w.ids[a] == u.ids[a]);
                        if b < u.ids.len() {
                            assert(w.ids[b] == u.ids[b]);
                        }
                    }
                    assert forall|a: int| 0 <= a < w.ids.len() implies w.ids[a] < w.next_id
                        && w.models.dom().contains(#[trigger] w.ids[a]) && w.models[w.ids[a]]
                        == w.handles[a] by {
                        if a < u.ids.len() {
                            assert(w.ids[a] == u.ids[a]);
                        }
                    }
                }
            },
            RegistryOp::Unregister(id) => {
                lemma_unregistered(u, id);
            },
            RegistryOp::Broadcast(gone, frame) => {
                lemma_broadcasted_wf(u, acceptance(u.ids, gone), frame);
            },
        }
    }
}

/// After any sequence of operations, a broadcast reaches exactly the handles
/// registered at that moment: each is offered the frame once, those whose
/// receivers are not gone accept it and stay, the others are dropped, and no
/// identifier outside the registry is touched.
pub proof fn lemma_broadcast_after_run(
    v: RegistryView,
    ops: Seq<RegistryOp>,
    gone: Set<ConnectionId>,
    frame: Seq<char>,
)
    requires
        v.wf(),
    ensures
        ({
            let u = run(v, ops);
            let w = run(v, ops.push(RegistryOp::Broadcast(gone, frame)));
            &&& w.wf()
            &&& forall|k: ConnectionId| #[trigger]
                w.ids.contains(k) <==> (u.ids.contains(k) && !gone.contains(k))
            &&& forall|k: ConnectionId| #[trigger]
                u.ids.contains(k) ==> w.models[k] == u.models[k].after_offer(frame, !gone.contains(k))
            &&& forall|k: ConnectionId|
                u.models.dom().contains(k) && !u.ids.contains(k) ==> #[trigger] w.models[k]
                    == u.models[k]
        }),
{
    let u = run(v, ops);
    let op = RegistryOp::Broadcast(gone, frame);
    assert(ops.push(op).drop_last() =~= ops);
    lemma_run_wf(v, ops);
    let accepted = acceptance(u.ids, gone);
    lemma_broadcast_reaches_exactly_registered(u, accepted, frame);
    let w = u.broadcasted(accepted, frame);
    assert forall|k: ConnectionId| #[trigger] u.ids.contains(k) implies w.models[k]
        == u.models[k].after_offer(frame, !gone.contains(k)) by {
        let i = choose|i: int| 0 <= i < u.ids.len() && u.ids[i] == k;
        assert(w.models[u.ids[i]] == u.models[u.ids[i]].after_offer(frame, accepted[i]));
    }
    assert forall|k: ConnectionId| #[trigger] w.ids.contains(k) <==> (u.ids.contains(k)
        && !gone.contains(k)) by {
        if u.ids.contains(k) {
            let i = choose|i: int| 0 <= i < u.ids.len() && u.ids[i] == k;
            assert(w.ids.contains(u.ids[i]) <==> accepted[i]);
        }
    }
}

/// Unregistering is idempotent, and unregistering an identifier that is not
/// registered changes nothing.
pub proof fn lemma_unregister_idempotent(v: RegistryView, id: ConnectionId)
    requires
        v.wf(),
    ensures
        v.unregistered(id).unregistered(id) == v.unregistered(id),
        !v.ids.contains(id) ==> v.unregistered(id) == v,
{
    lemma_unregistered(v, id);
}

/// Two frames broadcast one after the other are accepted, by every handle
/// still registered after both, in the order they were broadcast.
pub proof fn lemma_per_receiver_order(
    v: RegistryView,
    first_accepted: Seq<bool>,
    first: Seq<char>,
    second_accepted: Seq<bool>,
    second: Seq<char>,
)
    requires
        v.wf(),
        first_accepted.len() == v.ids.len(),
        second_accepted.len() == v.broadcasted(first_accepted, first).ids.len(),
    ensures
        forall|k: ConnectionId| #[trigger]
            v.broadcasted(first_accepted, first).broadcasted(second_accepted, second).ids.contains(
                k,
            ) ==> v.broadcasted(first_accepted, first).broadcasted(
                second_accepted,
                second,
            ).models[k].accepted() == v.models[k].accepted().push(first).push(second),
{
    let u = v.broadcasted(first_accepted, first);
    let w = u.broadcasted(second_accepted, second);
    lemma_broadcast_reaches_exactly_registered(v, first_accepted, first);
    lemma_broadcast_reaches_exactly_registered(u, second_accepted, second);
    assert forall|k: ConnectionId| #[trigger] w.ids.contains(k) implies w.models[k].accepted()
        == v.models[k].accepted().push(first).push(second) by {
        assert(u.ids.contains(k));
        let j = choose|j: int| 0 <= j < u.ids.len() && u.ids[j] == k;
        assert(w.ids.contains(u.ids[j]));
        assert(second_accepted[j]);
        assert(v.ids.contains(k));
        let i = choose|i: int| 0 <= i < v.ids.len() && v.ids[i] == k;
        assert(u.ids.contains(v.ids[i]));
        assert(first_accepted[i]);
        v.models[k].lemma_after_offer(first, true);
        u.models[k].lemma_after_offer(second, true);
    }
}

/// A handle that refuses a frame does not stop the others from getting it:
/// every handle is offered the frame, every other one accepts it and stays,
/// and only the refusing one is removed.
pub proof fn lemma_failing_receiver_isolated(v: RegistryView, k: int, frame: Seq<char>)
    requires
        v.wf(),
        0 <= k < v.ids.len(),
    ensures
        v.broadcasted(all_but(v.ids.len(), k), frame).ids == v.ids.remove(k),
        v.broadcasted(all_but(v.ids.len(), k), frame).models[v.ids[k]] == v.models[v.ids[k]].after_offer(
            frame,
            false,
        ),
        forall|i: int|
            0 <= i < v.ids.len() && i != k ==> #[trigger] v.broadcasted(
                all_but(v.ids.len(), k),
                frame,
            ).models[v.ids[i]] == v.models[v.ids[i]].after_offer(frame, true),
{
    let accepted = all_but(v.ids.len(), k);
    assert(accepted == Seq::new(v.ids.len(), |i: int| i != k));
    lemma_kept_all_but(v.ids, k);
    lemma_broadcast_reaches_exactly_registered(v, accepted, frame);
    assert forall|i: int| 0 <= i < v.ids.len() && i != k implies #[trigger] v.broadcasted(
        all_but(v.ids.len(), k),
        frame,
    ).models[v.ids[i]] == v.models[v.ids[i]].after_offer(frame, true) by {
        assert(accepted[i]);
    }
}

} // verus!
