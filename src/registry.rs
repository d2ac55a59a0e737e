use crate::outbox::Outbox;
use tokio::sync::mpsc::UnboundedSender;
use vstd::prelude::*;

verus! {

/// The identifier a connection receives when it is registered.
pub type ConnectionId = u64;

/// The abstract state of a registry.
pub struct RegistryView {
    /// Identifiers of the registered connections, in registration order.
    pub ids: Seq<ConnectionId>,
    /// The outbound handle of each registered connection, parallel to `ids`.
    pub handles: Seq<Outbox>,
    /// The identifier the next registration will receive.
    pub next_id: nat,
    /// For every identifier ever issued, its handle as last seen: the live
    /// handle while registered, the handle as it was removed afterwards.
    pub models: Map<ConnectionId, Outbox>,
}

/// The elements of `s` whose matching flag in `keep` is `true`, in order.
pub open spec fn kept<T>(s: Seq<T>, keep: Seq<bool>) -> Seq<T>
    decreases s.len(),
{
    if s.len() == 0 {
        Seq::empty()
    } else {
        let rest = kept(s.drop_last(), keep.take(s.len() - 1));
        if keep[s.len() - 1] {
            rest.push(s.last())
        } else {
            rest
        }
    }
}

/// Identifiers are strictly increasing in registration order.
pub open spec fn strictly_increasing(s: Seq<ConnectionId>) -> bool {
    forall|i: int, j: int| 0 <= i < j < s.len() ==> s[i] < s[j]
}

impl RegistryView {
    pub open spec fn wf(self) -> bool {
        &&& self.handles.len() == self.ids.len()
        &&& strictly_increasing(self.ids)
        &&& forall|i: int| 0 <= i < self.ids.len() ==> self.ids[i] < self.next_id
        &&& forall|i: int|
            0 <= i < self.ids.len() ==> self.models.dom().contains(#[trigger] self.ids[i])
                && self.models[self.ids[i]] == self.handles[i]
        &&& forall|k: ConnectionId| self.models.dom().contains(k) ==> k < self.next_id
    }

    /// The state after registering a handle on `sender`.
    pub open spec fn registered(self, sender: UnboundedSender<String>) -> RegistryView {
        RegistryView {
            ids: self.ids.push(self.next_id as ConnectionId),
            handles: self.handles.push(Outbox::fresh(sender)),
            next_id: self.next_id + 1,
            models: self.models.insert(self.next_id as ConnectionId, Outbox::fresh(sender)),
        }
    }

    /// The state after unregistering `id`: its entry is gone if it was there.
    pub open spec fn unregistered(self, id: ConnectionId) -> RegistryView {
        if self.ids.contains(id) {
            let i = self.ids.index_of(id);
            RegistryView {
                ids: self.ids.remove(i),
                handles: self.handles.remove(i),
                ..self
            }
        } else {
            self
        }
    }

    /// The state after `frame` was offered once to every registered handle,
    /// the one at position `i` accepting it exactly when `accepted[i]`.
    pub open spec fn delivered(self, accepted: Seq<bool>, frame: Seq<char>) -> RegistryView {
        RegistryView {
            ids: self.ids,
            handles: Seq::new(
                self.handles.len(),
                |i: int| self.handles[i].after_offer(frame, accepted[i]),
            ),
            next_id: self.next_id,
            models: Map::new(
                |k: ConnectionId| self.models.dom().contains(k),
                |k: ConnectionId|
                    if self.ids.contains(k) {
                        self.handles[self.ids.index_of(k)].after_offer(
                            frame,
                            accepted[self.ids.index_of(k)],
                        )
                    } else {
                        self.models[k]
                    },
            ),
        }
    }

    /// The state after dropping the handles whose flag is `false`.
    pub open spec fn retained(self, accepted: Seq<bool>) -> RegistryView {
        RegistryView {
            ids: kept(self.ids, accepted),
            handles: kept(self.handles, accepted),
            ..self
        }
    }

    /// The state after a broadcast of `frame` in which the handle at position
    /// `i` accepted it exactly when `accepted[i]`: every handle was offered
    /// the frame once, the accepting ones stay and the others are removed.
    pub open spec fn broadcasted(self, accepted: Seq<bool>, frame: Seq<char>) -> RegistryView {
        self.delivered(accepted, frame).retained(accepted)
    }
}

/// Keeping the flags of one more element extends the kept sequence by that
/// element exactly when its flag is set.
pub proof fn lemma_kept_step<T>(s: Seq<T>, keep: Seq<bool>, i: int)
    requires
        0 <= i < s.len(),
        i < keep.len(),
    ensures
        kept(s.take(i + 1), keep.take(i + 1)) == if keep[i] {
            kept(s.take(i), keep.take(i)).push(s[i])
        } else {
            kept(s.take(i), keep.take(i))
        },
{
    assert(s.take(i + 1).drop_last() =~= s.take(i));
    assert(keep.take(i + 1).take(i) =~= keep.take(i));
}

/// Every kept element is an element of the sequence it was kept from.
pub proof fn lemma_kept_subset<T>(s: Seq<T>, keep: Seq<bool>)
    ensures
        kept(s, keep).len() <= s.len(),
        forall|i: int| 0 <= i < kept(s, keep).len() ==> s.contains(#[trigger] kept(s, keep)[i]),
    decreases s.len(),
{
    if s.len() > 0 {
        let p = s.drop_last();
        let r = kept(p, keep.take(s.len() - 1));
        lemma_kept_subset(p, keep.take(s.len() - 1));
        assert forall|i: int| 0 <= i < kept(s, keep).len() implies s.contains(
            #[trigger] kept(s, keep)[i],
        ) by {
            if i < r.len() {
                assert(kept(s, keep)[i] == r[i]);
                assert(p.contains(r[i]));
                let j = choose|j: int| 0 <= j < p.len() && p[j] == r[i];
                assert(s[j] == r[i]);
            } else {
                assert(kept(s, keep)[i] == s[s.len() - 1]);
            }
        }
    }
}

/// An element is in a sequence with one more element pushed exactly when it
/// is the pushed element or was there before.
pub proof fn lemma_push_contains<T>(s: Seq<T>, x: T, y: T)
    ensures
        s.push(x).contains(y) <==> (s.contains(y) || x == y),
{
    if s.push(x).contains(y) {
        let j = choose|j: int| 0 <= j < s.push(x).len() && s.push(x)[j] == y;
        if j < s.len() {
            assert(s[j] == y);
        }
    }
    if s.contains(y) {
        let j = choose|j: int| 0 <= j < s.len() && s[j] == y;
        assert(s.push(x)[j] == y);
    }
    if x == y {
        assert(s.push(x)[s.len() as int] == y);
    }
}

/// Keeping elements of a strictly increasing sequence leaves it strictly
/// increasing.
pub proof fn lemma_kept_increasing(s: Seq<ConnectionId>, keep: Seq<bool>)
    requires
        strictly_increasing(s),
    ensures
        strictly_increasing(kept(s, keep)),
    decreases s.len(),
{
    if s.len() > 0 {
        let p = s.drop_last();
        let r = kept(p, keep.take(s.len() - 1));
        lemma_kept_increasing(p, keep.take(s.len() - 1));
        lemma_kept_subset(p, keep.take(s.len() - 1));
        if keep[s.len() - 1] {
            let q = r.push(s.last());
            assert forall|i: int, j: int| 0 <= i < j < q.len() implies q[i] < q[j] by {
                if j == r.len() {
                    assert(p.contains(r[i]));
                    let k = choose|k: int| 0 <= k < p.len() && p[k] == r[i];
                    assert(s[k] == r[i]);
                } else {
                    assert(q[i] == r[i] && q[j] == r[j]);
                }
            }
        }
    }
}

/// A sequence of strictly increasing identifiers holds each at one position.
pub proof fn lemma_increasing_unique(s: Seq<ConnectionId>, i: int, j: int)
    requires
        strictly_increasing(s),
        0 <= i < s.len(),
        0 <= j < s.len(),
        s[i] == s[j],
    ensures
        i == j,
{
    if i < j {
        assert(s[i] < s[j]);
    } else if j < i {
        assert(s[j] < s[i]);
    }
}

/// In a strictly increasing sequence, `index_of` finds each element at its
/// own position.
pub proof fn lemma_index_of(s: Seq<ConnectionId>, i: int)
    requires
        strictly_increasing(s),
        0 <= i < s.len(),
    ensures
        s.contains(s[i]),
        s.index_of(s[i]) == i,
{
    assert(s.contains(s[i]));
    lemma_increasing_unique(s, s.index_of(s[i]), i);
}

/// Each element kept from `a` sits beside the element kept from `b` at the
/// same position before keeping.
pub proof fn lemma_kept_pairs<A, B>(a: Seq<A>, b: Seq<B>, keep: Seq<bool>, j: int)
    requires
        a.len() == b.len(),
        keep.len() == a.len(),
        0 <= j < kept(a, keep).len(),
    ensures
        exists|i: int|
            0 <= i < a.len() && keep[i] && kept(a, keep)[j] == a[i] && kept(b, keep)[j] == b[i],
    decreases a.len(),
{
    let n = a.len();
    let ka = keep.take(n - 1);
    lemma_kept_len(a.drop_last(), b.drop_last(), ka);
    if j < kept(a.drop_last(), ka).len() {
        lemma_kept_pairs(a.drop_last(), b.drop_last(), ka, j);
        let i = choose|i: int|
            0 <= i < a.drop_last().len() && ka[i] && kept(a.drop_last(), ka)[j] == a.drop_last()[i]
                && kept(b.drop_last(), ka)[j] == b.drop_last()[i];
        assert(keep[i] && a[i] == a.drop_last()[i] && b[i] == b.drop_last()[i]);
    } else {
        assert(keep[n - 1] && kept(a, keep)[j] == a[n - 1] && kept(b, keep)[j] == b[n - 1]);
    }
}

/// Offering a frame to every handle keeps the state well formed and records
/// each offer in the identifier's model.
pub proof fn lemma_delivered(v: RegistryView, accepted: Seq<bool>, frame: Seq<char>)
    requires
        v.wf(),
        accepted.len() == v.ids.len(),
    ensures
        v.delivered(accepted, frame).wf(),
        v.delivered(accepted, frame).models.dom() == v.models.dom(),
        forall|i: int|
            0 <= i < v.ids.len() ==> #[trigger] v.delivered(accepted, frame).models[v.ids[i]]
                == v.models[v.ids[i]].after_offer(frame, accepted[i]),
        forall|k: ConnectionId|
            v.models.dom().contains(k) && !v.ids.contains(k) ==> #[trigger] v.delivered(
                accepted,
                frame,
            ).models[k] == v.models[k],
{
    let d = v.delivered(accepted, frame);
    assert(d.models.dom() =~= v.models.dom());
    assert forall|i: int| 0 <= i < v.ids.len() implies #[trigger] d.models[v.ids[i]]
        == v.models[v.ids[i]].after_offer(frame, accepted[i]) by {
        lemma_index_of(v.ids, i);
    }
    assert forall|i: int| 0 <= i < d.ids.len() implies d.models.dom().contains(#[trigger] d.ids[i])
        && d.models[d.ids[i]] == d.handles[i] by {
        lemma_index_of(v.ids, i);
    }
}

/// Dropping handles by flags keeps the state well formed.
pub proof fn lemma_retained_wf(v: RegistryView, accepted: Seq<bool>)
    requires
        v.wf(),
        accepted.len() == v.ids.len(),
    ensures
        v.retained(accepted).wf(),
        forall|k: ConnectionId| v.retained(accepted).ids.contains(k) ==> v.ids.contains(k),
{
    let w = v.retained(accepted);
    lemma_kept_subset(v.ids, accepted);
    lemma_kept_increasing(v.ids, accepted);
    lemma_kept_len(v.ids, v.handles, accepted);
    assert forall|j: int| 0 <= j < w.ids.len() implies w.ids[j] < w.next_id && w.models.dom().contains(
        #[trigger] w.ids[j],
    ) && w.models[w.ids[j]] == w.handles[j] by {
        lemma_kept_pairs(v.ids, v.handles, accepted, j);
    }
    assert forall|k: ConnectionId| w.ids.contains(k) implies v.ids.contains(k) by {
        let j = choose|j: int| 0 <= j < w.ids.len() && w.ids[j] == k;
        assert(v.ids.contains(w.ids[j]));
    }
}

/// The state after a broadcast is well formed, and it keeps only identifiers
/// that were registered before.
pub proof fn lemma_broadcasted_wf(v: RegistryView, accepted: Seq<bool>, frame: Seq<char>)
    requires
        v.wf(),
        accepted.len() == v.ids.len(),
    ensures
        v.broadcasted(accepted, frame).wf(),
        forall|k: ConnectionId| v.broadcasted(accepted, frame).ids.contains(k) ==> v.ids.contains(k),
{
    lemma_delivered(v, accepted, frame);
    lemma_retained_wf(v.delivered(accepted, frame), accepted);
}

/// Keeping by the same flags from two sequences of one length gives results of
/// one length.
pub proof fn lemma_kept_len<A, B>(a: Seq<A>, b: Seq<B>, keep: Seq<bool>)
    requires
        a.len() == b.len(),
    ensures
        kept(a, keep).len() == kept(b, keep).len(),
    decreases a.len(),
{
    if a.len() > 0 {
        lemma_kept_len(a.drop_last(), b.drop_last(), keep.take(a.len() - 1));
    }
}

/// Unregistering keeps the state well formed, leaves the identifier absent,
/// and touches neither the handle models nor the next identifier.
pub proof fn lemma_unregistered(v: RegistryView, id: ConnectionId)
    requires
        v.wf(),
    ensures
        v.unregistered(id).wf(),
        !v.unregistered(id).ids.contains(id),
        v.unregistered(id).models == v.models,
        v.unregistered(id).next_id == v.next_id,
        forall|i: int|
            0 <= i < v.ids.len() && v.ids[i] == id ==> v.unregistered(id).ids == v.ids.remove(i)
                && v.unregistered(id).handles == v.handles.remove(i),
        forall|k: ConnectionId| #[trigger] v.unregistered(id).ids.contains(k) <==> (v.ids.contains(k) && k != id),
{
    if v.ids.contains(id) {
        let i = v.ids.index_of(id);
        let w = v.unregistered(id);
        assert forall|j: int| 0 <= j < v.ids.len() && v.ids[j] == id implies w.ids == v.ids.remove(j)
            && w.handles == v.handles.remove(j) by {
            lemma_increasing_unique(v.ids, i, j);
        }
        assert forall|a: int, b: int| 0 <= a < b < w.ids.len() implies w.ids[a] < w.ids[b] by {
            if a >= i {
                assert(w.ids[a] == v.ids[a + 1]);
            }
            if b >= i {
                assert(w.ids[b] == v.ids[b + 1]);
            }
        }
        assert forall|a: int| 0 <= a < w.ids.len() implies w.ids[a] < w.next_id
            && w.models.dom().contains(#[trigger] w.ids[a]) && w.models[w.ids[a]] == w.handles[a] by {
            if a >= i {
                assert(w.ids[a] == v.ids[a + 1]);
            } else {
                assert(w.ids[a] == v.ids[a]);
            }
        }
        assert forall|k: ConnectionId| #[trigger] w.ids.contains(k) <==> (v.ids.contains(k) && k != id) by {
            if w.ids.contains(k) {
                let a = choose|a: int| 0 <= a < w.ids.len() && w.ids[a] == k;
                if a >= i {
                    assert(w.ids[a] == v.ids[a + 1]);
                    if k == id {
                        lemma_increasing_unique(v.ids, a + 1, i);
                    }
                } else {
                    assert(w.ids[a] == v.ids[a]);
                    if k == id {
                        lemma_increasing_unique(v.ids, a, i);
                    }
                }
            }
            if v.ids.contains(k) && k != id {
                let a = choose|a: int| 0 <= a < v.ids.len() && v.ids[a] == k;
                if a > i {
                    assert(w.ids[a - 1] == k);
                } else {
                    assert(a != i);
                    assert(w.ids[a] == k);
                }
            }
        }
    }
}

/// With distinct identifiers, the identifier at position `i` survives a
/// filtering exactly when its flag is set.
pub proof fn lemma_kept_membership(s: Seq<ConnectionId>, keep: Seq<bool>, i: int)
    requires
        strictly_increasing(s),
        keep.len() == s.len(),
        0 <= i < s.len(),
    ensures
        kept(s, keep).contains(s[i]) <==> keep[i],
    decreases s.len(),
{
    let n = s.len();
    let p = s.drop_last();
    let kp = keep.take(n - 1);
    let r = kept(p, kp);
    lemma_kept_subset(p, kp);
    if keep[n - 1] {
        lemma_push_contains(r, s[n - 1], s[i]);
    }
    if i == n - 1 {
        if r.contains(s[i]) {
            let a = choose|a: int| 0 <= a < r.len() && r[a] == s[i];
            assert(p.contains(r[a]));
            let b = choose|b: int| 0 <= b < p.len() && p[b] == r[a];
            assert(s[b] < s[i]);
        }
    } else {
        lemma_kept_membership(p, kp, i);
        assert(s[i] < s[n - 1]);
    }
}

/// Keeping every element but the one at `k` is removing that element.
pub proof fn lemma_kept_all_but<T>(s: Seq<T>, k: int)
    requires
        0 <= k < s.len(),
    ensures
        kept(s, Seq::new(s.len(), |i: int| i != k)) == s.remove(k),
    decreases s.len(),
{
    let n = s.len();
    let keep = Seq::new(n, |i: int| i != k);
    let p = s.drop_last();
    if k == n - 1 {
        assert(keep.take(n - 1) =~= Seq::new((n - 1) as nat, |i: int| true));
        lemma_kept_all(p);
        assert(p =~= s.remove(k));
    } else {
        assert(keep.take(n - 1) =~= Seq::new(p.len(), |i: int| i != k));
        lemma_kept_all_but(p, k);
        assert(p.remove(k).push(s.last()) =~= s.remove(k));
    }
}

/// Keeping every element changes nothing.
pub proof fn lemma_kept_all<T>(s: Seq<T>)
    ensures
        kept(s, Seq::new(s.len(), |i: int| true)) == s,
    decreases s.len(),
{
    if s.len() > 0 {
        let p = s.drop_last();
        assert(Seq::new(s.len(), |i: int| true).take(s.len() - 1) =~= Seq::new(p.len(), |i: int| true));
        lemma_kept_all(p);
        assert(p.push(s.last()) =~= s);
    }
}

/// The set of live connections' outbound handles.
pub struct ConnectionRegistry {
    ids: Vec<ConnectionId>,
    handles: Vec<Outbox>,
    next_id: ConnectionId,
    models: Ghost<Map<ConnectionId, Outbox>>,
}

impl View for ConnectionRegistry {
    type V = RegistryView;

    closed spec fn view(&self) -> RegistryView {
        RegistryView {
            ids: self.ids@,
            handles: self.handles@,
            next_id: self.next_id as nat,
            models: self.models@,
        }
    }
}

impl ConnectionRegistry {
    /// An empty registry.
    pub fn new() -> (r: ConnectionRegistry)
        ensures
            r@.wf(),
            r@.ids == Seq::<ConnectionId>::empty(),
            r@.handles == Seq::<Outbox>::empty(),
            r@.next_id == 0,
            r@.models == Map::<ConnectionId, Outbox>::empty(),
    {
        ConnectionRegistry {
            ids: Vec::new(),
            handles: Vec::new(),
            next_id: 0,
            models: Ghost(Map::empty()),
        }
    }

    /// The number of registered connections.
    pub fn len(&self) -> (n: usize)
        ensures
            n == self@.ids.len(),
    {
        self.ids.len()
    }

    /// Whether `id` is registered.
    pub fn contains(&self, id: ConnectionId) -> (b: bool)
        ensures
            b == self@.ids.contains(id),
    {
        let n = self.ids.len();
        let mut i: usize = 0;
        while i < n
            invariant
                n == self@.ids.len(),
                i <= n,
                forall|j: int| 0 <= j < i ==> self@.ids[j] != id,
            decreases n - i,
        {
            if self.ids[i] == id {
                proof {
                    assert(self@.ids[i as int] == id);
                }
                return true;
            }
            i += 1;
        }
        false
    }

    /// Whether a further identifier can still be issued.
    pub fn can_register(&self) -> (b: bool)
        ensures
            b == (self@.next_id < u64::MAX),
    {
        self.next_id < u64::MAX
    }

    /// Adds a handle on `sender` and returns the fresh identifier it is known
    /// by.
    pub fn register(&mut self, sender: UnboundedSender<String>) -> (id: ConnectionId)
        requires
            old(self)@.wf(),
            old(self)@.next_id < u64::MAX,
        ensures
            id == old(self)@.next_id,
            final(self)@ == old(self)@.registered(sender),
            final(self)@.wf(),
    {
        let id = self.next_id;
        self.ids.push(id);
        let handle = Outbox::new(sender);
        self.handles.push(handle);
        self.next_id = id + 1;
        self.models = Ghost(self.models@.insert(id, handle));
        proof {
            let v = old(self)@;
            let w = self@;
            assert forall|a: int, b: int| 0 <= a < b < w.ids.len() implies w.ids[a] < w.ids[b] by {
                if b == v.ids.len() {
                    assert(w.ids[a] == v.ids[a]);
                } else {
                    assert(w.ids[a] == v.ids[a] && w.ids[b] == v.ids[b]);
                }
            }
            assert forall|a: int| 0 <= a < w.ids.len() implies w.ids[a] < w.next_id
                && w.models.dom().contains(#[trigger] w.ids[a]) && w.models[w.ids[a]] == w.handles[a] by {
                if a < v.ids.len() {
                    assert(w.ids[a] == v.ids[a]);
                }
            }
        }
        id
    }
    /// Removes the entry of `id`, if there is one. Removing an identifier
    /// that is absent changes nothing.
    pub fn unregister(&mut self, id: ConnectionId)
        requires
            old(self)@.wf(),
        ensures
            final(self)@ == old(self)@.unregistered(id),
            final(self)@.wf(),
            !final(self)@.ids.contains(id),
            forall|i: int|
                0 <= i < old(self)@.ids.len() && old(self)@.ids[i] == id ==> final(self)@.ids
                    == old(self)@.ids.remove(i) && final(self)@.handles == old(self)@.handles.remove(i),
            forall|k: ConnectionId| #[trigger]
                final(self)@.ids.contains(k) <==> (old(self)@.ids.contains(k) && k != id),
    {
        let ghost v = self@;
        let n = self.ids.len();
        let mut i: usize = 0;
        while i < n
            invariant
                self@ == v,
                v == old(self)@,
                v.wf(),
                n == v.ids.len(),
                i <= n,
                forall|j: int| 0 <= j < i ==> v.ids[j] != id,
            decreases n - i,
        {
            if self.ids[i] == id {
                proof {
                    assert(v.ids.contains(id));
                    let k = v.ids.index_of(id);
                    lemma_increasing_unique(v.ids, k, i as int);
                }
                self.ids.remove(i);
                self.handles.remove(i);
                proof {
                    lemma_unregistered(v, id);
                }
                return;
            }
            i += 1;
        }
    }

    /// Offers `frame` once to every registered handle, in registration order,
    /// and reports, position by position, whether each one's queue accepted
    /// it. Nothing is removed here.
    pub fn deliver(&mut self, frame: &String) -> (accepted: Vec<bool>)
        requires
            old(self)@.wf(),
        ensures
            accepted@.len() == old(self)@.ids.len(),
            final(self)@ == old(self)@.delivered(accepted@, frame@),
            forall|i: int|
                0 <= i < old(self)@.ids.len() ==> #[trigger] final(self)@.handles[i]
                    == old(self)@.handles[i].after_offer(frame@, accepted@[i]),
            final(self)@.wf(),
    {
        let ghost v = self@;
        let n = self.handles.len();
        let mut accepted: Vec<bool> = Vec::new();
        let mut i: usize = 0;
        while i < n
            invariant
                v == old(self)@,
                v.wf(),
                n == v.ids.len(),
                i <= n,
                accepted@.len() == i,
                self@.ids == v.ids,
                self@.next_id == v.next_id,
                self@.handles.len() == n,
                self@.models.dom() == v.models.dom(),
                forall|j: int|
                    0 <= j < i ==> #[trigger] self@.handles[j] == v.handles[j].after_offer(
                        frame@,
                        accepted@[j],
                    ),
                forall|j: int| i <= j < n ==> #[trigger] self@.handles[j] == v.handles[j],
                forall|j: int| 0 <= j < n ==> #[trigger] self@.models[v.ids[j]] == self@.handles[j],
                forall|k: ConnectionId|
                    v.models.dom().contains(k) && !v.ids.contains(k) ==> #[trigger] self@.models[k]
                        == v.models[k],
            decreases n - i,
        {
            let ok = self.handles[i].send(frame.clone());
            let ghost id = self.ids[i as int];
            self.models = Ghost(self.models@.insert(id, self.handles@[i as int]));
            accepted.push(ok);
            proof {
                assert forall|j: int| 0 <= j < n implies #[trigger] self@.models[v.ids[j]]
                    == self@.handles[j] by {
                    if j < i {
                        assert(v.ids[j] < v.ids[i as int]);
                    } else if j > i {
                        assert(v.ids[i as int] < v.ids[j]);
                    }
                }
                assert forall|k: ConnectionId|
                    v.models.dom().contains(k) && !v.ids.contains(k) implies #[trigger] self@.models[k]
                    == v.models[k] by {
                    assert(v.ids.contains(v.ids[i as int]));
                }
                assert(self@.models.dom() =~= v.models.dom());
            }
            i += 1;
        }
        proof {
            let d = v.delivered(accepted@, frame@);
            assert(self@.handles =~= d.handles);
            assert forall|k: ConnectionId| #[trigger] d.models.dom().contains(k) implies self@.models[k]
                == d.models[k] by {
                if v.ids.contains(k) {
                    let j = v.ids.index_of(k);
                    lemma_index_of(v.ids, j);
                }
            }
            assert(self@.models =~= d.models);
            lemma_delivered(v, accepted@, frame@);
        }
        accepted
    }

    /// Removes every handle whose flag in `accepted` is `false`, keeping the
    /// order of the others.
    pub fn retain_accepted(&mut self, accepted: &Vec<bool>)
        requires
            old(self)@.wf(),
            accepted@.len() == old(self)@.ids.len(),
        ensures
            final(self)@ == old(self)@.retained(accepted@),
            final(self)@.wf(),
    {
        let ghost v = self@;
        let n = accepted.len();
        let mut i: usize = 0;
        let mut j: usize = 0;
        while i < n
            invariant
                n == accepted@.len(),
                n == v.ids.len(),
                n == v.handles.len(),
                i <= n,
                j as int == kept(v.ids.take(i as int), accepted@.take(i as int)).len(),
                self@.ids == kept(v.ids.take(i as int), accepted@.take(i as int)) + v.ids.skip(
                    i as int,
                ),
                self@.handles == kept(v.handles.take(i as int), accepted@.take(i as int))
                    + v.handles.skip(i as int),
                self@.next_id == v.next_id,
                self@.models == v.models,
                v == old(self)@,
                v.wf(),
            decreases n - i,
        {
            proof {
                lemma_kept_step(v.ids, accepted@, i as int);
                lemma_kept_step(v.handles, accepted@, i as int);
                lemma_kept_len(v.ids.take(i as int), v.handles.take(i as int), accepted@.take(i as int));
                lemma_kept_subset(v.ids.take(i as int), accepted@.take(i as int));
            }
            if accepted[i] {
                j += 1;
                proof {
                    assert(self@.ids =~= kept(v.ids.take(i + 1), accepted@.take(i + 1)) + v.ids.skip(i + 1));
                    assert(self@.handles =~= kept(v.handles.take(i + 1), accepted@.take(i + 1)) + v.handles.skip(i + 1));
                }
            } else {
                self.ids.remove(j);
                self.handles.remove(j);
                proof {
                    assert(self@.ids =~= kept(v.ids.take(i + 1), accepted@.take(i + 1)) + v.ids.skip(i + 1));
                    assert(self@.handles =~= kept(v.handles.take(i + 1), accepted@.take(i + 1)) + v.handles.skip(i + 1));
                }
            }
            i += 1;
        }
        proof {
            assert(v.ids.take(n as int) =~= v.ids);
            assert(v.handles.take(n as int) =~= v.handles);
            assert(accepted@.take(n as int) =~= accepted@);
            assert(self@.ids =~= kept(v.ids, accepted@));
            assert(self@.handles =~= kept(v.handles, accepted@));
            lemma_retained_wf(v, accepted@);
        }
    }

    /// Offers `frame` once to every registered handle, removes those whose
    /// queue refused it, and returns how many accepted it. Which handles accept
    /// is decided by their receivers; whatever they decide, every registered
    /// handle was offered the frame, and the registry afterwards holds exactly
    /// the handles whose queue accepted it.
    pub fn broadcast(&mut self, frame: &String) -> (count: usize)
        requires
            old(self)@.wf(),
        ensures
            exists|accepted: Seq<bool>|
                accepted.len() == old(self)@.ids.len() && final(self)@ == old(self)@.broadcasted(
                    accepted,
                    frame@,
                ),
            count == final(self)@.ids.len(),
            count <= old(self)@.ids.len(),
            forall|k: ConnectionId| #[trigger]
                final(self)@.ids.contains(k) ==> old(self)@.ids.contains(k),
            forall|i: int|
                0 <= i < old(self)@.ids.len() ==> #[trigger] final(self)@.models[old(self)@.ids[i]].offered()
                    == old(self)@.handles[i].offered().push(frame@),
            forall|i: int|
                0 <= i < old(self)@.ids.len() ==> (#[trigger] final(self)@.ids.contains(
                    old(self)@.ids[i],
                ) <==> final(self)@.models[old(self)@.ids[i]].accepted() == old(
                    self,
                )@.handles[i].accepted().push(frame@)),
            final(self)@.wf(),
    {
        let accepted = self.deliver(frame);
        self.retain_accepted(&accepted);
        proof {
            lemma_broadcasted_wf(old(self)@, accepted@, frame@);
            lemma_kept_subset(old(self)@.ids, accepted@);
            assert(self@ == old(self)@.broadcasted(accepted@, frame@));
            let v = old(self)@;
            lemma_delivered(v, accepted@, frame@);
            assert forall|i: int| 0 <= i < v.ids.len() implies #[trigger] self@.models[v.ids[i]].offered()
                == v.handles[i].offered().push(frame@) by {
                v.handles[i].lemma_after_offer(frame@, accepted@[i]);
            }
            assert forall|i: int| 0 <= i < v.ids.len() implies (#[trigger] self@.ids.contains(v.ids[i])
                <==> self@.models[v.ids[i]].accepted() == v.handles[i].accepted().push(frame@)) by {
                v.handles[i].lemma_after_offer(frame@, accepted@[i]);
                lemma_kept_membership(v.ids, accepted@, i);
                if !accepted@[i] {
                    assert(v.handles[i].accepted().push(frame@).len() != v.handles[i].accepted().len());
                }
            }
        }
        self.ids.len()
    }
}

} // verus!
