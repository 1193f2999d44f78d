//! Registry that gives each live engine object a small integer handle.
//!
//! An engine object is known here by its instance identity (a `u64` the engine
//! assigns) and by a reference `R` to it. Handles are slot indices: a removed
//! object leaves an empty slot whose index is reused, last freed first, by the
//! next object that is registered.
//!
//! Handles carry no generation count. A handle kept after its object was
//! removed denotes whatever object later takes the slot; holders are told of
//! each removal and are expected to drop their handles then. The cost is that
//! such a stale handle goes undetected once its slot is reused; the gain is
//! that a handle stays a plain slot index.
use std::collections::BTreeMap;
use std::marker::PhantomData;
use vstd::prelude::*;

verus! {

broadcast use vstd::std_specs::btree::group_btree_axioms;

/// A handle type: a typed wrapper around a slot index of a [`GdTracker`].
pub trait GdTrackerId: Sized {
    /// The slot index that this handle denotes.
    spec fn index_spec(&self) -> usize;

    fn new(id: usize) -> (r: Self)
        ensures
            r.index_spec() == id,
    ;

    fn index(&self) -> (r: usize)
        ensures
            r == self.index_spec(),
    ;
}

/// Handle of a scene node.
#[derive(Debug, Clone, Copy, PartialEq, Eq, Hash, Default)]
pub struct GodotNodeId {
    id: usize,
}

/// Handle of an engine resource.
#[derive(Debug, Clone, Copy, PartialEq, Eq, Hash, Default)]
pub struct GodotResourceId {
    id: usize,
}

impl GdTrackerId for GodotNodeId {
    closed spec fn index_spec(&self) -> usize {
        self.id
    }

    fn new(id: usize) -> (r: Self) {
        GodotNodeId { id }
    }

    fn index(&self) -> (r: usize) {
        self.id
    }
}

impl GdTrackerId for GodotResourceId {
    closed spec fn index_spec(&self) -> usize {
        self.id
    }

    fn new(id: usize) -> (r: Self) {
        GodotResourceId { id }
    }

    fn index(&self) -> (r: usize) {
        self.id
    }
}

impl GodotNodeId {
    pub fn new(id: usize) -> (r: Self)
        ensures
            r.index_spec() == id,
    {
        GodotNodeId { id }
    }
}

/// The abstract state of a tracker.
pub ghost struct TrackerView<R> {
    /// Each slot is empty or holds the identity and reference of one object.
    pub slots: Seq<Option<(u64, R)>>,
    /// Indices of empty slots, the next one to reuse last.
    pub free: Seq<usize>,
    /// Slot index of each registered identity.
    pub index: Map<u64, usize>,
}

impl<R> TrackerView<R> {
    pub open spec fn empty() -> TrackerView<R> {
        TrackerView { slots: Seq::empty(), free: Seq::empty(), index: Map::empty() }
    }

    /// Whether slot `h` holds an object.
    pub open spec fn live(self, h: int) -> bool {
        0 <= h < self.slots.len() && self.slots[h] is Some
    }

    /// The identity of the object in slot `h`.
    pub open spec fn identity_of(self, h: int) -> u64 {
        (self.slots[h]->0).0
    }

    /// The reference stored in slot `h`.
    pub open spec fn ref_of(self, h: int) -> R {
        (self.slots[h]->0).1
    }

    /// The tracker's invariant: the index and the live slots describe each
    /// other exactly, and the free list holds each empty slot once.
    pub open spec fn wf(self) -> bool {
        &&& forall|k: u64| #[trigger]
            self.index.contains_key(k) ==> self.live(self.index[k] as int) && self.identity_of(
                self.index[k] as int,
            ) == k
        &&& forall|h: int| #[trigger]
            self.live(h) ==> self.index.contains_key(self.identity_of(h)) && self.index[self.identity_of(
                h,
            )] == h
        &&& forall|j: int|
            0 <= j < self.free.len() ==> #[trigger] self.free[j] < self.slots.len()
                && self.slots[self.free[j] as int] is None
        &&& self.free.no_duplicates()
        &&& self.slots.len() <= usize::MAX
        &&& forall|h: int|
            0 <= h < self.slots.len() && #[trigger] self.slots[h] is None ==> self.free.contains(
                h as usize,
            )
    }

    /// Whether a new slot can be added without the slot count leaving `usize`.
    pub open spec fn has_room(self) -> bool {
        self.free.len() > 0 || self.slots.len() < usize::MAX
    }

    /// The slot that registering `id` yields: its own slot if it is known,
    /// else the most recently freed slot, else a new slot at the end.
    pub open spec fn handle_for(self, id: u64) -> usize {
        if self.index.contains_key(id) {
            self.index[id]
        } else if self.free.len() > 0 {
            self.free.last()
        } else {
            self.slots.len() as usize
        }
    }

    /// The state after registering `id` with reference `r`.
    pub open spec fn registered(self, id: u64, r: R) -> TrackerView<R> {
        if self.index.contains_key(id) {
            self
        } else {
            let h = self.handle_for(id);
            TrackerView {
                slots: if self.free.len() > 0 {
                    self.slots.update(h as int, Some((id, r)))
                } else {
                    self.slots.push(Some((id, r)))
                },
                free: if self.free.len() > 0 {
                    self.free.drop_last()
                } else {
                    self.free
                },
                index: self.index.insert(id, h),
            }
        }
    }

    /// The state after removing `id`: its slot is emptied and freed.
    pub open spec fn removed(self, id: u64) -> TrackerView<R> {
        if self.index.contains_key(id) {
            let h = self.index[id];
            TrackerView {
                slots: self.slots.update(h as int, None),
                free: self.free.push(h),
                index: self.index.remove(id),
            }
        } else {
            self
        }
    }
}

/// Registering an object keeps the tracker's invariant, where a slot can
/// still be added.
pub proof fn lemma_registered_wf<R>(v: TrackerView<R>, id: u64, r: R)
    requires
        v.wf(),
        v.has_room(),
    ensures
        v.registered(id, r).wf(),
{
    if !v.index.contains_key(id) {
        let w = v.registered(id, r);
        let h = v.handle_for(id);
        if v.free.len() > 0 {
            assert(v.free.contains(h));
            assert(!v.live(h as int));
            assert forall|j: int| 0 <= j < w.free.len() implies #[trigger] w.free[j]
                < w.slots.len() && w.slots[w.free[j] as int] is None by {
                assert(w.free[j] == v.free[j]);
                assert(v.free[j] != h);
            }
            assert forall|x: int|
                0 <= x < w.slots.len() && #[trigger] w.slots[x] is None implies w.free.contains(
                x as usize,
            ) by {
                assert(x != h);
                assert(v.free.last() == v.free[v.free.len() - 1]);
                assert(v.free.contains(x as usize));
                let j = choose|j: int| 0 <= j < v.free.len() && v.free[j] == x as usize;
                assert(j != v.free.len() - 1);
                assert(w.free[j] == x as usize);
            }
            assert forall|x: int| #[trigger] w.live(x) implies w.index.contains_key(
                w.identity_of(x),
            ) && w.index[w.identity_of(x)] == x by {
                if x != h {
                    assert(v.live(x));
                }
            }
        } else {
            assert forall|x: int| #[trigger] w.live(x) implies w.index.contains_key(
                w.identity_of(x),
            ) && w.index[w.identity_of(x)] == x by {
                if x != h {
                    assert(v.live(x));
                }
            }
            assert forall|x: int|
                0 <= x < w.slots.len() && #[trigger] w.slots[x] is None implies w.free.contains(
                x as usize,
            ) by {
                assert(v.slots[x] is None);
            }
        }
        assert forall|k: u64| #[trigger] w.index.contains_key(k) implies w.live(w.index[k] as int)
            && w.identity_of(w.index[k] as int) == k by {
            if k != id {
                assert(v.index.contains_key(k));
                assert(v.index[k] != h);
            }
        }
    }
}

/// Removing an object keeps the tracker's invariant.
pub proof fn lemma_removed_wf<R>(v: TrackerView<R>, id: u64)
    requires
        v.wf(),
    ensures
        v.removed(id).wf(),
{
    if v.index.contains_key(id) {
        let w = v.removed(id);
        let h = v.index[id];
        assert(!v.free.contains(h)) by {
            if v.free.contains(h) {
                let j = choose|j: int| 0 <= j < v.free.len() && v.free[j] == h;
                assert(v.slots[v.free[j] as int] is None);
            }
        }
        assert forall|k: u64| #[trigger] w.index.contains_key(k) implies w.live(w.index[k] as int)
            && w.identity_of(w.index[k] as int) == k by {
            assert(v.index.contains_key(k));
            assert(v.index[k] != h);
        }
        assert forall|x: int| #[trigger] w.live(x) implies w.index.contains_key(w.identity_of(x))
            && w.index[w.identity_of(x)] == x by {
            assert(v.live(x));
        }
        assert forall|j: int| 0 <= j < w.free.len() implies #[trigger] w.free[j] < w.slots.len()
            && w.slots[w.free[j] as int] is None by {
            if j < v.free.len() {
                assert(w.free[j] == v.free[j]);
            }
        }
        assert forall|x: int|
            0 <= x < w.slots.len() && #[trigger] w.slots[x] is None implies w.free.contains(
            x as usize,
        ) by {
            if x == h {
                assert(w.free[v.free.len() as int] == h);
            } else {
                assert(v.free.contains(x as usize));
                let j = choose|j: int| 0 <= j < v.free.len() && v.free[j] == x as usize;
                assert(w.free[j] == x as usize);
            }
        }
        assert(w.free.no_duplicates()) by {
            assert forall|a: int, b: int|
                0 <= a < w.free.len() && 0 <= b < w.free.len() && a != b implies w.free[a]
                != w.free[b] by {
                if a < v.free.len() && b < v.free.len() {
                } else if a < v.free.len() {
                    assert(v.free.contains(w.free[a]));
                } else {
                    assert(v.free.contains(w.free[b]));
                }
            }
        }
    }
}

/// One step on a tracker: registering an identity with its reference, or
/// removing an identity.
pub ghost enum TrackerOp<R> {
    Register(u64, R),
    Remove(u64),
}

pub open spec fn apply_op<R>(v: TrackerView<R>, op: TrackerOp<R>) -> TrackerView<R> {
    match op {
        TrackerOp::Register(id, r) => v.registered(id, r),
        TrackerOp::Remove(id) => v.removed(id),
    }
}

/// The state reached from `v` by the steps of `ops`, in order.
pub open spec fn apply_ops<R>(v: TrackerView<R>, ops: Seq<TrackerOp<R>>) -> TrackerView<R>
    decreases ops.len(),
{
    if ops.len() == 0 {
        v
    } else {
        apply_op(apply_ops(v, ops.drop_last()), ops.last())
    }
}

/// Live handles and registered identities correspond one to one.
pub open spec fn handles_match_identities<R>(v: TrackerView<R>) -> bool {
    &&& forall|h1: int, h2: int|
        #![trigger v.identity_of(h1), v.identity_of(h2)]
        v.live(h1) && v.live(h2) && v.identity_of(h1) == v.identity_of(h2) ==> h1 == h2
    &&& forall|a: u64, b: u64|
        #![trigger v.index[a], v.index[b]]
        v.index.contains_key(a) && v.index.contains_key(b) && v.index[a] == v.index[b] ==> a == b
    &&& forall|a: u64| #[trigger]
        v.index.contains_key(a) ==> v.live(v.index[a] as int) && v.identity_of(v.index[a] as int)
            == a
    &&& forall|h: int| #[trigger]
        v.live(h) ==> v.index.contains_key(v.identity_of(h)) && v.index[v.identity_of(h)] == h
}

/// A tracker that keeps its invariant maps live handles and identities one to one.
pub proof fn lemma_wf_handles_match<R>(v: TrackerView<R>)
    requires
        v.wf(),
    ensures
        handles_match_identities(v),
{
}

proof fn lemma_ops_wf<R>(ops: Seq<TrackerOp<R>>)
    requires
        ops.len() < usize::MAX,
    ensures
        apply_ops(TrackerView::<R>::empty(), ops).wf(),
        apply_ops(TrackerView::<R>::empty(), ops).slots.len() <= ops.len(),
    decreases ops.len(),
{
    let e = TrackerView::<R>::empty();
    if ops.len() == 0 {
        assert(e.wf());
    } else {
        lemma_ops_wf(ops.drop_last());
        let v = apply_ops(e, ops.drop_last());
        match ops.last() {
            TrackerOp::Register(id, r) => lemma_registered_wf(v, id, r),
            TrackerOp::Remove(id) => lemma_removed_wf(v, id),
        }
    }
}

/// Uniqueness: after every prefix of any sequence of registrations and
/// removals on an empty tracker, each live handle holds exactly one identity
/// and each registered identity has exactly one handle.
pub proof fn lemma_handles_unique_along_ops<R>(ops: Seq<TrackerOp<R>>)
    requires
        ops.len() < usize::MAX,
    ensures
        forall|i: int|
            0 <= i <= ops.len() ==> handles_match_identities(
                #[trigger] apply_ops(TrackerView::<R>::empty(), ops.take(i)),
            ),
{
    assert forall|i: int| 0 <= i <= ops.len() implies handles_match_identities(
        #[trigger] apply_ops(TrackerView::<R>::empty(), ops.take(i)),
    ) by {
        lemma_ops_wf(ops.take(i));
    }
}

/// Reuse: once the identity in slot `k` is removed, the next identity that is
/// not registered gets slot `k`.
pub proof fn lemma_freed_slot_reused<R>(v: TrackerView<R>, a: u64, b: u64)
    requires
        v.wf(),
        v.index.contains_key(a),
        !v.removed(a).index.contains_key(b),
    ensures
        v.removed(a).handle_for(b) == v.index[a],
{
}

/// Idempotence: registering an identity a second time returns the handle of
/// the first time and changes nothing, so the slot list does not grow.
pub proof fn lemma_register_idempotent<R>(v: TrackerView<R>, id: u64, r1: R, r2: R)
    requires
        v.wf(),
        v.has_room(),
    ensures
        v.registered(id, r1).handle_for(id) == v.handle_for(id),
        v.registered(id, r1).registered(id, r2) == v.registered(id, r1),
        v.registered(id, r1).registered(id, r2).slots.len() == v.registered(id, r1).slots.len(),
{
}

/// Round trip: looking up the identity held by a live handle yields that
/// handle.
pub proof fn lemma_lookup_identity_round_trip<R>(v: TrackerView<R>, h: int)
    requires
        v.wf(),
        v.live(h),
    ensures
        v.index.contains_key(v.identity_of(h)),
        v.index[v.identity_of(h)] == h,
{
}

/// Round trip: the handle that a registration returns resolves to the
/// identity and the reference passed to it.
pub proof fn lemma_registered_resolves<R>(v: TrackerView<R>, id: u64, r: R)
    requires
        v.wf(),
        v.has_room(),
        !v.index.contains_key(id),
    ensures
        v.registered(id, r).live(v.handle_for(id) as int),
        v.registered(id, r).identity_of(v.handle_for(id) as int) == id,
        v.registered(id, r).ref_of(v.handle_for(id) as int) == r,
{
}

/// Stores the live engine objects of one kind and hands out handles of type `H`
/// for them.
pub struct GdTracker<R, H> {
    nodes: Vec<Option<(u64, R)>>,
    empty_indexes: Vec<usize>,
    instance_id_to_tracker_id: BTreeMap<u64, usize>,
    kind: PhantomData<H>,
}

impl<R, H> View for GdTracker<R, H> {
    type V = TrackerView<R>;

    closed spec fn view(&self) -> TrackerView<R> {
        TrackerView {
            slots: self.nodes@,
            free: self.empty_indexes@,
            index: self.instance_id_to_tracker_id@,
        }
    }
}

impl<R, H: GdTrackerId> GdTracker<R, H> {
    pub open spec fn wf(&self) -> bool {
        self@.wf()
    }

    /// An empty tracker.
    pub fn new() -> (t: Self)
        ensures
            t@ == TrackerView::<R>::empty(),
            t.wf(),
    {
        let t = GdTracker {
            nodes: Vec::new(),
            empty_indexes: Vec::new(),
            instance_id_to_tracker_id: BTreeMap::new(),
            kind: PhantomData,
        };
        assert(t@.slots =~= Seq::<Option<(u64, R)>>::empty());
        assert(t@.free =~= Seq::<usize>::empty());
        t
    }

    /// The handle of `identity`, registering it with `node` if it is not known yet.
    pub fn get_or_register_id_from_node(&mut self, identity: u64, node: R) -> (r: H)
        requires
            old(self).wf(),
        ensures
            final(self).wf(),
            r.index_spec() == old(self)@.handle_for(identity),
            final(self)@ == old(self)@.registered(identity, node),
    {
        if let Some(id) = self.get_id_from_instance_id(identity) {
            id
        } else {
            self.register(identity, node)
        }
    }

    /// The handle of `identity`, if it is registered.
    pub fn get_id_from_instance_id(&self, identity: u64) -> (r: Option<H>)
        ensures
            r is Some <==> self@.index.contains_key(identity),
            r is Some ==> r->0.index_spec() == self@.index[identity],
    {
        match self.instance_id_to_tracker_id.get(&identity) {
            Some(id) => Some(H::new(*id)),
            None => None,
        }
    }

    fn register(&mut self, identity: u64, node: R) -> (r: H)
        requires
            old(self).wf(),
            !old(self)@.index.contains_key(identity),
        ensures
            final(self).wf(),
            r.index_spec() == old(self)@.handle_for(identity),
            final(self)@ == old(self)@.registered(identity, node),
    {
        let ghost before = self@;
        let id = self.register_impl(identity, node);
        proof {
            lemma_registered_wf(before, identity, node);
        }
        self.instance_id_to_tracker_id.insert(identity, id);
        proof {
            assert(self@.slots =~= old(self)@.registered(identity, node).slots);
            assert(self@.free =~= old(self)@.registered(identity, node).free);
        }
        H::new(id)
    }

    fn register_impl(&mut self, identity: u64, node: R) -> (id: usize)
        requires
            old(self).wf(),
        ensures
            id == old(self)@.handle_for(identity) || old(self)@.index.contains_key(identity),
            id == old(self)@.handle_for(identity) ==> final(self).nodes@ == old(
                self,
            )@.registered(identity, node).slots && final(self).empty_indexes@ == old(
                self,
            )@.registered(identity, node).free,
            final(self).instance_id_to_tracker_id@ == old(self).instance_id_to_tracker_id@,
            old(self)@.has_room(),
    {
        // Reuse the most recently freed slot if there is one.
        if let Some(new_index) = self.empty_indexes.pop() {
            proof {
                assert(old(self)@.free.last() == new_index);
                assert(old(self)@.free.contains(new_index));
            }
            if new_index < self.nodes.len() && self.nodes[new_index].is_none() {
                self.nodes.set(new_index, Some((identity, node)));
                return new_index;
            }
        }
        // Otherwise the object goes into a new slot at the end.

        self.nodes.push(Some((identity, node)));
        let n = self.nodes.len();
        n - 1
    }

    /// The reference in a live slot.
    pub fn get(&self, index: usize) -> (r: &R)
        requires
            self@.live(index as int),
        ensures
            *r == self@.ref_of(index as int),
    {
        &self.nodes[index].as_ref().unwrap().1
    }

    /// The reference in slot `index`, or `None` where the slot is empty or
    /// out of range.
    pub fn try_get(&self, index: usize) -> (r: Option<&R>)
        ensures
            r is Some <==> self@.live(index as int),
            r is Some ==> *(r->0) == self@.ref_of(index as int),
    {
        if index < self.nodes.len() {
            match &self.nodes[index] {
                Some(n) => Some(&n.1),
                None => None,
            }
        } else {
            None
        }
    }

    /// Forgets `identity`, emptying and freeing its slot; does nothing if it is
    /// not registered.
    pub fn remove(&mut self, identity: u64)
        requires
            old(self).wf(),
        ensures
            final(self).wf(),
            final(self)@ == old(self)@.removed(identity),
    {
        proof {
            lemma_removed_wf(self@, identity);
        }
        let id = match self.instance_id_to_tracker_id.remove(&identity) {
            Some(id) => id,
            None => {
                assert(self.instance_id_to_tracker_id@ =~= old(self).instance_id_to_tracker_id@);
                return ;
            },
        };
        if id < self.nodes.len() {
            self.nodes.set(id, None);
            self.empty_indexes.push(id);
        }
        proof {
            assert(self@.slots =~= old(self)@.removed(identity).slots);
        }
    }
}

} // verus!
