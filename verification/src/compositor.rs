//! The layer registry and its dispatch machinery: an ordered collection of
//! components keyed by elevation then insertion order, the per-cycle
//! context that owns the shared state, and the cycle driver that routes one
//! event through the mounted components and applies the queued callbacks.

use vstd::prelude::*;

use crate::{Component, Event, EventAccess, HasId, Id, Jobs, LayerId, Rect};

verus! {

/// What the run loop resumes on: an event from one of the merged sources,
/// or a callback delivered by a finished background job.
pub enum Resume<E, K> {
    /// An event to dispatch.
    Event(Event<E>),
    /// A callback delivered by a finished job, applied like a
    /// dispatch-produced one after an otherwise empty cycle.
    JobCallback(K),
}

/// A deferred, single-use unit of work with exclusive access to the
/// compositor, queued during dispatch and executed strictly after dispatch
/// completes, in enqueue order.  An implementation may mutate the registry
/// and state freely but must keep the registry well-formed, which every
/// public compositor operation does.
pub trait Callback<S, E, C, K>: Sized {
    /// The relation between the compositor before and after this
    /// callback's application.  A verified implementation gives it a
    /// meaning and proves `apply` establishes it; an unverified one
    /// leaves it unconstrained.
    open spec fn applies(self, pre: Compositor<S, E, C, K>, post: Compositor<S, E, C, K>) -> bool {
        true
    }

    /// Applies this callback to the compositor.
    fn apply(self, comp: &mut Compositor<S, E, C, K>)
        requires
            old(comp).wf(),
        ensures
            final(comp).wf(),
            self.applies(*old(comp), *final(comp)),
    ;
}

/// Holds when `post` results from applying the callbacks `cbs` to `pre`:
/// each exactly once, in order, each step leaving the registry well-formed
/// and related to its predecessor by that callback's own
/// [`Callback::applies`] relation.
pub open spec fn applied_in_order<S, E, C, K: Callback<S, E, C, K>>(
    cbs: Seq<K>,
    pre: Compositor<S, E, C, K>,
    post: Compositor<S, E, C, K>,
) -> bool
    decreases cbs.len(),
{
    if cbs.len() == 0 {
        post == pre
    } else {
        exists|mid: Compositor<S, E, C, K>|
            #![auto]
            cbs[0].applies(pre, mid) && mid.wf() && applied_in_order(cbs.drop_first(), mid, post)
    }
}

/// Context of the current update: exclusively owns the shared state for
/// exactly one dispatch cycle and collects the callbacks deferred to the
/// end of that cycle.
#[verifier::reject_recursive_types(E)]
#[verifier::reject_recursive_types(K)]
pub struct Context<S, E, K> {
    callbacks: Vec<K>,
    jobs: Jobs<E, K>,
    size: Rect,
    state: S,
}

impl<S, E, K> Context<S, E, K> {
    /// The callbacks queued so far this cycle, in enqueue order.
    pub closed spec fn spec_callbacks(&self) -> Seq<K> {
        self.callbacks@
    }

    /// The job bridge handle carried through this cycle.
    pub closed spec fn spec_jobs(&self) -> Jobs<E, K> {
        self.jobs
    }

    /// The terminal size this cycle was started with.
    pub closed spec fn spec_size(&self) -> Rect {
        self.size
    }

    /// The shared state owned by this cycle.
    pub closed spec fn spec_state(&self) -> S {
        self.state
    }

    /// The job system handle, through which background work is spawned.
    pub fn jobs(&self) -> (r: &Jobs<E, K>)
        ensures
            *r == self.spec_jobs(),
    {
        &self.jobs
    }

    /// Adds a callback that will be executed, in enqueue order, after the
    /// dispatch of this cycle has completed.
    pub fn add_callback(&mut self, func: K)
        ensures
            final(self).spec_callbacks() == old(self).spec_callbacks().push(func),
            final(self).spec_jobs() == old(self).spec_jobs(),
            final(self).spec_size() == old(self).spec_size(),
            final(self).spec_state() == old(self).spec_state(),
    {
        self.callbacks.push(func)
    }

    /// Returns the size of the terminal in cells.
    pub fn size(&self) -> (r: Rect)
        ensures
            r == self.spec_size(),
    {
        self.size
    }

    /// Returns an immutable reference to the shared state.
    pub fn state(&self) -> (r: &S)
        ensures
            *r == self.spec_state(),
    {
        &self.state
    }

    /// Returns a mutable reference to the shared state.
    pub fn state_mut(&mut self) -> (r: &mut S)
        ensures
            *r == old(self).spec_state(),
            final(self).spec_state() == *final(r),
            final(self).spec_callbacks() == old(self).spec_callbacks(),
            final(self).spec_jobs() == old(self).spec_jobs(),
            final(self).spec_size() == old(self).spec_size(),
    {
        &mut self.state
    }
}

/// One mounted element: a component together with the id captured when it
/// was mounted.
pub struct Slot<C> {
    /// Id under which the component is mounted.
    pub id: Id,
    /// The mounted component.
    pub comp: C,
}

/// One elevation tier: an ordered sequence of mounted components.
/// Insertion order is sibling z-order within the layer.
struct Layer<C> {
    elevation: i16,
    slots: Vec<Slot<C>>,
}

/// Holds when some slot in `slots` is mounted under `id`.
pub open spec fn has_slot<C>(slots: Seq<Slot<C>>, id: Id) -> bool {
    exists|i: int| 0 <= i < slots.len() && slots[i].id == id
}

/// The position of the occupant of `id` in `slots`; meaningful under
/// [`unique_ids`], where it is the one such position.
pub open spec fn slot_index<C>(slots: Seq<Slot<C>>, id: Id) -> int {
    choose|i: int| 0 <= i < slots.len() && slots[i].id == id
}

/// `slots` with the occupant of `id` removed, if there is one.
pub open spec fn remove_id<C>(slots: Seq<Slot<C>>, id: Id) -> Seq<Slot<C>> {
    if has_slot(slots, id) {
        slots.remove(slot_index(slots, id))
    } else {
        slots
    }
}

/// At most one occupant per id: the registry's per-layer invariant.
pub open spec fn unique_ids<C>(slots: Seq<Slot<C>>) -> bool {
    forall|i: int, j: int| 0 <= i < j < slots.len() ==> slots[i].id != slots[j].id
}

/// Under unique ids, any position holding `id` is the position that
/// [`slot_index`] denotes.
pub proof fn lemma_slot_index_agrees<C>(slots: Seq<Slot<C>>, id: Id, i: int)
    requires
        unique_ids(slots),
        0 <= i < slots.len(),
        slots[i].id == id,
    ensures
        has_slot(slots, id),
        slot_index(slots, id) == i,
{
    assert(has_slot(slots, id));
    let j = slot_index(slots, id);
    assert(0 <= j < slots.len() && slots[j].id == id);
    if i < j {
        assert(slots[i].id != slots[j].id);
    }
    if j < i {
        assert(slots[j].id != slots[i].id);
    }
}

/// Removing one slot keeps the ids unique, keeps every other id mounted
/// exactly as it was, and unmounts the removed id for good.
pub proof fn lemma_remove_keeps_unique<C>(slots: Seq<Slot<C>>, k: int)
    requires
        unique_ids(slots),
        0 <= k < slots.len(),
    ensures
        unique_ids(slots.remove(k)),
        !has_slot(slots.remove(k), slots[k].id),
        forall|id: Id| id != slots[k].id ==> has_slot(slots.remove(k), id) == has_slot(slots, id),
{
    let rest = slots.remove(k);
    assert forall|a: int, b: int| 0 <= a < b < rest.len() implies rest[a].id != rest[b].id by {
        let oa: int = if a < k {
            a
        } else {
            a + 1
        };
        let ob: int = if b < k {
            b
        } else {
            b + 1
        };
        assert(rest[a] == slots[oa] && rest[b] == slots[ob]);
    }
    assert forall|i: int| 0 <= i < rest.len() implies rest[i].id != slots[k].id by {
        let oi: int = if i < k {
            i
        } else {
            i + 1
        };
        assert(rest[i] == slots[oi]);
    }
    assert forall|id: Id| id != slots[k].id implies has_slot(rest, id) == has_slot(slots, id) by {
        if has_slot(slots, id) {
            let i = choose|i: int| 0 <= i < slots.len() && slots[i].id == id;
            if i < k {
                assert(rest[i] == slots[i]);
            } else {
                assert(i != k);
                assert(rest[i - 1] == slots[i]);
            }
            assert(has_slot(rest, id));
        }
        if has_slot(rest, id) {
            let i = choose|i: int| 0 <= i < rest.len() && rest[i].id == id;
            let oi: int = if i < k {
                i
            } else {
                i + 1
            };
            assert(rest[i] == slots[oi]);
            assert(has_slot(slots, id));
        }
    }
}

/// Main interface that stores components by layer, dispatches events to
/// them and applies deferred callbacks.
///
/// `S` is the shared application state, `E` the user event payload, `C`
/// the component type mounted in the registry, `K` the callback type.
pub struct Compositor<S, E, C, K> {
    layers: Vec<Layer<C>>,
    state: S,
    timeout_ms: u64,
    exit: bool,
    _marker: core::marker::PhantomData<(E, K)>,
}

impl<S, E, C, K> Compositor<S, E, C, K> {
    /// The registry's abstract content: the layers ascending by elevation,
    /// each an elevation paired with its mounted slots in insertion order.
    pub closed spec fn spec_layers(self) -> Seq<(i16, Seq<Slot<C>>)> {
        self.layers@.map_values(|l: Layer<C>| (l.elevation, l.slots@))
    }

    /// The shared application state.
    pub closed spec fn spec_state(self) -> S {
        self.state
    }

    /// The tick interval in milliseconds; zero disables periodic ticks.
    pub closed spec fn spec_timeout_ms(self) -> u64 {
        self.timeout_ms
    }

    /// Whether the run loop was asked to end.
    pub closed spec fn spec_exit(self) -> bool {
        self.exit
    }

    /// Layers are held in strictly ascending elevation order.
    pub open spec fn layers_sorted(self) -> bool {
        forall|i: int, j: int|
            0 <= i < j < self.spec_layers().len() ==> self.spec_layers()[i].0
                < self.spec_layers()[j].0
    }

    /// Well-formedness: layers strictly ordered by elevation, and within
    /// each layer at most one component per id.
    pub open spec fn wf(self) -> bool {
        &&& self.layers_sorted()
        &&& forall|i: int|
            0 <= i < self.spec_layers().len() ==> unique_ids(#[trigger] self.spec_layers()[i].1)
    }

    /// Holds when a layer with this elevation exists.
    pub open spec fn has_layer(self, elevation: i16) -> bool {
        exists|i: int| 0 <= i < self.spec_layers().len() && self.spec_layers()[i].0 == elevation
    }

    /// The position of the layer with this elevation; meaningful under
    /// [`Self::layers_sorted`], where it is the one such position.
    pub open spec fn layer_index(self, elevation: i16) -> int {
        choose|i: int| 0 <= i < self.spec_layers().len() && self.spec_layers()[i].0 == elevation
    }

    /// What is mounted at this elevation: the layer's slots, or empty when
    /// no such layer exists.
    pub open spec fn layer_slots(self, elevation: i16) -> Seq<Slot<C>> {
        if self.has_layer(elevation) {
            self.spec_layers()[self.layer_index(elevation)].1
        } else {
            Seq::empty()
        }
    }

    /// The state, timeout and exit flag are untouched: only the registry
    /// differs between `self` and `post`.
    pub open spec fn same_core(self, post: Self) -> bool {
        &&& post.spec_state() == self.spec_state()
        &&& post.spec_timeout_ms() == self.spec_timeout_ms()
        &&& post.spec_exit() == self.spec_exit()
    }

    /// The registry's shape is untouched between `self` and `post`: the
    /// same layers at the same elevations, each holding the same ids at
    /// the same positions.  Only the components themselves may differ.
    pub open spec fn same_skeleton(self, post: Self) -> bool {
        &&& post.spec_layers().len() == self.spec_layers().len()
        &&& forall|j: int|
            0 <= j < self.spec_layers().len() ==> (#[trigger] post.spec_layers()[j]).0
                == self.spec_layers()[j].0 && post.spec_layers()[j].1.len()
                == self.spec_layers()[j].1.len()
        &&& forall|j: int, k: int|
            0 <= j < self.spec_layers().len() && 0 <= k < self.spec_layers()[j].1.len() ==> (
            #[trigger] post.spec_layers()[j].1[k]).id == self.spec_layers()[j].1[k].id
    }

    /// A change that keeps the registry's shape keeps it well-formed.
    pub proof fn lemma_skeleton_preserves_wf(pre: Self, post: Self)
        requires
            pre.wf(),
            pre.same_skeleton(post),
        ensures
            post.wf(),
    {
        assert forall|i: int, j: int|
            0 <= i < j < post.spec_layers().len() implies post.spec_layers()[i].0
            < post.spec_layers()[j].0 by {
            assert(pre.spec_layers()[i].0 < pre.spec_layers()[j].0);
        }
        assert forall|i: int|
            0 <= i < post.spec_layers().len() implies unique_ids(
            #[trigger] post.spec_layers()[i].1,
        ) by {
            let s = post.spec_layers()[i].1;
            let p = pre.spec_layers()[i].1;
            assert(unique_ids(p));
            assert forall|a: int, b: int| 0 <= a < b < s.len() implies s[a].id != s[b].id by {
                assert(s[a].id == p[a].id && s[b].id == p[b].id);
            }
        }
    }

    /// At most one component with a given id exists per layer: in a
    /// well-formed registry, two occupants of one id are the same occupant.
    /// Every registry operation requires and preserves well-formedness, so
    /// this holds after any sequence of inserts, replacements and removals.
    pub proof fn lemma_at_most_one_per_id(self, elevation: i16, i: int, j: int)
        requires
            self.wf(),
            0 <= i < self.layer_slots(elevation).len(),
            0 <= j < self.layer_slots(elevation).len(),
            self.layer_slots(elevation)[i].id == self.layer_slots(elevation)[j].id,
        ensures
            i == j,
    {
        if self.has_layer(elevation) {
            let k = self.layer_index(elevation);
            assert(0 <= k < self.spec_layers().len());
            assert(unique_ids(self.spec_layers()[k].1));
            let s = self.layer_slots(elevation);
            if i < j {
                assert(s[i].id != s[j].id);
            }
            if j < i {
                assert(s[j].id != s[i].id);
            }
        }
    }

    /// Under sorted elevations, any position holding `elevation` is the
    /// position that [`Self::layer_index`] denotes.
    pub proof fn lemma_layer_index_agrees(self, elevation: i16, i: int)
        requires
            self.layers_sorted(),
            0 <= i < self.spec_layers().len(),
            self.spec_layers()[i].0 == elevation,
        ensures
            self.has_layer(elevation),
            self.layer_index(elevation) == i,
    {
        assert(self.has_layer(elevation));
        let j = self.layer_index(elevation);
        assert(0 <= j < self.spec_layers().len() && self.spec_layers()[j].0 == elevation);
        if i < j {
            assert(self.spec_layers()[i].0 < self.spec_layers()[j].0);
        }
        if j < i {
            assert(self.spec_layers()[j].0 < self.spec_layers()[i].0);
        }
    }

    /// After a change that keeps the number of layers, every elevation and
    /// every other layer's slots, lookups away from the touched layer are
    /// unchanged, and the touched elevation resolves to the touched layer.
    pub proof fn lemma_lookup_after_update(pre: Self, post: Self, li: int)
        requires
            pre.wf(),
            0 <= li < pre.spec_layers().len(),
            post.spec_layers().len() == pre.spec_layers().len(),
            forall|j: int|
                0 <= j < pre.spec_layers().len() && j != li ==> post.spec_layers()[j]
                    == pre.spec_layers()[j],
            post.spec_layers()[li].0 == pre.spec_layers()[li].0,
        ensures
            post.layers_sorted(),
            forall|e: i16| post.has_layer(e) == pre.has_layer(e),
            forall|e: i16|
                e != pre.spec_layers()[li].0 ==> post.layer_slots(e) == pre.layer_slots(e),
            post.layer_slots(pre.spec_layers()[li].0) == post.spec_layers()[li].1,
            post.layer_index(pre.spec_layers()[li].0) == li,
    {
        let n = pre.spec_layers().len();
        assert(forall|j: int| 0 <= j < n ==> post.spec_layers()[j].0 == pre.spec_layers()[j].0);
        assert(post.layers_sorted());
        assert forall|e: i16| post.has_layer(e) == pre.has_layer(e) by {
            if pre.has_layer(e) {
                let i = pre.layer_index(e);
                assert(0 <= i < n && pre.spec_layers()[i].0 == e);
                assert(post.spec_layers()[i].0 == e);
                assert(post.has_layer(e));
            }
            if post.has_layer(e) {
                let i = post.layer_index(e);
                assert(0 <= i < n && post.spec_layers()[i].0 == e);
                assert(pre.spec_layers()[i].0 == e);
                assert(pre.has_layer(e));
            }
        }
        assert forall|e: i16|
            e != pre.spec_layers()[li].0 implies post.layer_slots(e) == pre.layer_slots(e) by {
            if pre.has_layer(e) {
                let i = pre.layer_index(e);
                assert(0 <= i < n && pre.spec_layers()[i].0 == e);
                assert(i != li);
                post.lemma_layer_index_agrees(e, i);
                assert(post.layer_slots(e) == post.spec_layers()[i].1);
            }
        }
        post.lemma_layer_index_agrees(pre.spec_layers()[li].0, li);
    }

    /// After inserting a fresh layer at its sorted position, the new
    /// elevation resolves to it and every other lookup is unchanged.
    proof fn lemma_lookup_after_insert(pre: Self, post: Self, pos: int, nl: (i16, Seq<Slot<C>>))
        requires
            pre.wf(),
            0 <= pos <= pre.spec_layers().len(),
            forall|j: int| 0 <= j < pos ==> pre.spec_layers()[j].0 < nl.0,
            forall|j: int| pos <= j < pre.spec_layers().len() ==> pre.spec_layers()[j].0 > nl.0,
            post.spec_layers() == pre.spec_layers().insert(pos, nl),
        ensures
            post.layers_sorted(),
            post.has_layer(nl.0),
            post.layer_index(nl.0) == pos,
            post.layer_slots(nl.0) == nl.1,
            forall|e: i16| e != nl.0 ==> post.has_layer(e) == pre.has_layer(e),
            forall|e: i16| e != nl.0 ==> post.layer_slots(e) == pre.layer_slots(e),
    {
        let n = pre.spec_layers().len();
        assert(post.spec_layers().len() == n + 1);
        assert(forall|j: int| 0 <= j < pos ==> post.spec_layers()[j] == pre.spec_layers()[j]);
        assert(post.spec_layers()[pos] == nl);
        assert(forall|j: int| pos < j < n + 1 ==> post.spec_layers()[j] == pre.spec_layers()[j - 1]);
        assert forall|i: int, j: int|
            0 <= i < j < post.spec_layers().len() implies post.spec_layers()[i].0
            < post.spec_layers()[j].0 by {
            if i < pos && j < pos {
            } else if i < pos && j == pos {
            } else if i == pos && j > pos {
            } else if i < pos && j > pos {
                assert(pre.spec_layers()[i].0 < nl.0);
                assert(pre.spec_layers()[j - 1].0 > nl.0);
            } else {
                assert(pos < j);
                assert(post.spec_layers()[j] == pre.spec_layers()[j - 1]);
            }
        }
        post.lemma_layer_index_agrees(nl.0, pos);
        assert forall|e: i16|
            e != nl.0 implies post.has_layer(e) == pre.has_layer(e) && post.layer_slots(e)
            == pre.layer_slots(e) by {
            if pre.has_layer(e) {
                let i = pre.layer_index(e);
                assert(0 <= i < n && pre.spec_layers()[i].0 == e);
                if i < pos {
                    post.lemma_layer_index_agrees(e, i);
                    assert(post.layer_slots(e) == post.spec_layers()[i].1);
                } else {
                    assert(post.spec_layers()[i + 1] == pre.spec_layers()[i]);
                    post.lemma_layer_index_agrees(e, i + 1);
                    assert(post.layer_slots(e) == post.spec_layers()[i + 1].1);
                }
                assert(post.layer_slots(e) == pre.layer_slots(e));
            } else {
                if post.has_layer(e) {
                    let i = post.layer_index(e);
                    assert(0 <= i < n + 1 && post.spec_layers()[i].0 == e);
                    if i < pos {
                        assert(pre.spec_layers()[i].0 == e);
                        assert(pre.has_layer(e));
                    } else {
                        assert(i != pos);
                        assert(pre.spec_layers()[i - 1].0 == e);
                        assert(pre.has_layer(e));
                    }
                }
                assert(!post.has_layer(e));
            }
        }
    }

    /// Finds the position of the layer with this elevation.
    fn find_layer(&self, elevation: i16) -> (r: Option<usize>)
        requires
            self.wf(),
        ensures
            match r {
                Some(i) => self.has_layer(elevation) && i == self.layer_index(elevation) && i
                    < self.spec_layers().len(),
                None => !self.has_layer(elevation),
            },
    {
        let n = self.layers.len();
        let mut i: usize = 0;
        while i < n
            invariant
                self.wf(),
                n == self.spec_layers().len(),
                0 <= i <= n,
                forall|j: int| 0 <= j < i ==> self.spec_layers()[j].0 != elevation,
            decreases n - i,
        {
            if self.layers[i].elevation == elevation {
                proof {
                    self.lemma_layer_index_agrees(elevation, i as int);
                }
                return Some(i);
            }
            i += 1;
        }
        proof {
            if self.has_layer(elevation) {
                let j = self.layer_index(elevation);
                assert(self.spec_layers()[j].0 == elevation);
            }
        }
        None
    }

    /// Finds the sorted position at which a layer with this elevation
    /// would be inserted.
    fn insertion_pos(&self, elevation: i16) -> (r: usize)
        requires
            self.wf(),
            !self.has_layer(elevation),
        ensures
            r <= self.spec_layers().len(),
            forall|j: int| 0 <= j < r ==> self.spec_layers()[j].0 < elevation,
            forall|j: int|
                r <= j < self.spec_layers().len() ==> self.spec_layers()[j].0 > elevation,
    {
        let n = self.layers.len();
        let mut i: usize = 0;
        while i < n
            invariant
                self.wf(),
                !self.has_layer(elevation),
                n == self.spec_layers().len(),
                0 <= i <= n,
                forall|j: int| 0 <= j < i ==> self.spec_layers()[j].0 < elevation,
            decreases n - i,
        {
            proof {
                if self.spec_layers()[i as int].0 == elevation {
                    assert(self.has_layer(elevation));
                }
            }
            if self.layers[i].elevation > elevation {
                proof {
                    assert forall|j: int|
                        i <= j < self.spec_layers().len() implies self.spec_layers()[j].0
                        > elevation by {
                        if i < j {
                            assert(self.spec_layers()[i as int].0 < self.spec_layers()[j].0);
                        }
                    }
                }
                return i;
            }
            i += 1;
        }
        n
    }

    /// Finds the position of the occupant of `id` among `slots`.
    fn find_slot(slots: &Vec<Slot<C>>, id: Id) -> (r: Option<usize>)
        requires
            unique_ids(slots@),
        ensures
            match r {
                Some(i) => has_slot(slots@, id) && i == slot_index(slots@, id) && i < slots@.len()
                    && slots@[i as int].id == id,
                None => !has_slot(slots@, id),
            },
    {
        let n = slots.len();
        let mut i: usize = 0;
        while i < n
            invariant
                unique_ids(slots@),
                n == slots@.len(),
                0 <= i <= n,
                forall|j: int| 0 <= j < i ==> slots@[j].id != id,
            decreases n - i,
        {
            if slots[i].id == id {
                proof {
                    lemma_slot_index_agrees(slots@, id, i as int);
                }
                return Some(i);
            }
            i += 1;
        }
        proof {
            if has_slot(slots@, id) {
                let j = slot_index(slots@, id);
                assert(slots@[j].id == id);
            }
        }
        None
    }

    /// Creates a new compositor with custom state.  The registry starts
    /// empty, the tick interval at its default of 3000 milliseconds.
    pub fn with_state(state: S) -> (r: Self)
        ensures
            r.wf(),
            r.spec_layers() == Seq::<(i16, Seq<Slot<C>>)>::empty(),
            forall|e: i16| r.layer_slots(e) == Seq::<Slot<C>>::empty(),
            r.spec_state() == state,
            r.spec_timeout_ms() == 3000,
            !r.spec_exit(),
    {
        let r = Compositor {
            layers: Vec::new(),
            state,
            timeout_ms: 3000,
            exit: false,
            _marker: core::marker::PhantomData,
        };
        proof {
            assert(r.spec_layers() =~= Seq::<(i16, Seq<Slot<C>>)>::empty());
            assert(forall|e: i16| !r.has_layer(e));
        }
        r
    }

    /// Sets the event wait timeout: when it passes without an intermediate
    /// event, a new [`Event::Tick`] is generated and the ui re-rendered.
    /// Default is 3000 milliseconds; zero disables periodic ticks.
    pub fn with_timeout(self, timeout_ms: u64) -> (r: Self)
        ensures
            r.spec_timeout_ms() == timeout_ms,
            r.spec_layers() == self.spec_layers(),
            r.spec_state() == self.spec_state(),
            r.spec_exit() == self.spec_exit(),
    {
        Compositor { timeout_ms, ..self }
    }

    /// The configured tick interval in milliseconds.
    pub fn timeout_ms(&self) -> (r: u64)
        ensures
            r == self.spec_timeout_ms(),
    {
        self.timeout_ms
    }

    /// Whether periodic ticking is enabled: it is exactly when the
    /// configured interval is not zero.
    pub fn tick_enabled(&self) -> (r: bool)
        ensures
            r == (self.spec_timeout_ms() != 0),
    {
        self.timeout_ms != 0
    }

    /// Asks the run loop to end after the current cycle.
    pub fn exit(&mut self)
        ensures
            final(self).spec_exit(),
            final(self).spec_layers() == old(self).spec_layers(),
            final(self).spec_state() == old(self).spec_state(),
            final(self).spec_timeout_ms() == old(self).spec_timeout_ms(),
    {
        self.exit = true;
    }

    /// Returns the state of the compositor immutably.
    pub fn state(&self) -> (r: &S)
        ensures
            *r == self.spec_state(),
    {
        &self.state
    }

    /// Returns the state of the compositor mutably.
    pub fn state_mut(&mut self) -> (r: &mut S)
        ensures
            *r == old(self).spec_state(),
            final(self).spec_state() == *final(r),
            final(self).spec_layers() == old(self).spec_layers(),
            final(self).spec_timeout_ms() == old(self).spec_timeout_ms(),
            final(self).spec_exit() == old(self).spec_exit(),
    {
        &mut self.state
    }
}

impl<S, E, C: HasId, K> Compositor<S, E, C, K> {
    /// Inserts a new component at a layer.  Fails, handing the component
    /// back un-mounted and leaving the compositor untouched, exactly when
    /// its id is already mounted in that layer; otherwise mounts it at the
    /// end of that layer's sequence.
    pub fn insert_at(&mut self, layer_id: LayerId, component: C) -> (r: Result<(), C>)
        requires
            old(self).wf(),
        ensures
            final(self).wf(),
            old(self).same_core(*final(self)),
            has_slot(old(self).layer_slots(layer_id.0), component.spec_id()) ==> r == Err::<(),
                C,
            >(component) && final(self).spec_layers() == old(self).spec_layers(),
            !has_slot(old(self).layer_slots(layer_id.0), component.spec_id()) ==> r == Ok::<(),
                C,
            >(()) && final(self).layer_slots(layer_id.0) == old(self).layer_slots(
                layer_id.0,
            ).push((Slot { id: component.spec_id(), comp: component })) && (forall|e: i16|
                e != layer_id.0 ==> final(self).layer_slots(e) == old(self).layer_slots(e)),
    {
        let cid = component.id();
        match self.find_layer(layer_id.0) {
            Some(li) => {
                let ghost pre = *self;
                proof {
                    assert(self.spec_layers()[li as int].1 == self.layers@[li as int].slots@);
                }
                if Self::find_slot(&self.layers[li].slots, cid).is_some() {
                    return Err(component);
                }
                let slot = Slot { id: cid, comp: component };
                let layer = &mut self.layers[li];
                layer.slots.push(slot);
                proof {
                    let post = *self;
                    assert(post.spec_layers()[li as int].1 =~= pre.spec_layers()[
                        li as int].1.push(slot));
                    Self::lemma_lookup_after_update(pre, post, li as int);
                    assert forall|i: int|
                        0 <= i < post.spec_layers().len() implies unique_ids(
                        #[trigger] post.spec_layers()[i].1,
                    ) by {
                        if i != li {
                            assert(post.spec_layers()[i] == pre.spec_layers()[i]);
                        } else {
                            let s = post.spec_layers()[li as int].1;
                            let p = pre.spec_layers()[li as int].1;
                            assert forall|a: int, b: int|
                                0 <= a < b < s.len() implies s[a].id != s[b].id by {
                                if b < p.len() {
                                } else {
                                    assert(s[b].id == cid);
                                    assert(s[a] == p[a]);
                                    if p[a].id == cid {
                                        lemma_slot_index_agrees(p, cid, a);
                                    }
                                }
                            }
                        }
                    }
                }
                Ok(())
            },
            None => {
                let ghost pre = *self;
                let slot = Slot { id: cid, comp: component };
                let mut slots = Vec::new();
                slots.push(slot);
                let pos = self.insertion_pos(layer_id.0);
                let nl = Layer { elevation: layer_id.0, slots };
                let ghost nl_view = (layer_id.0, nl.slots@);
                self.layers.insert(pos, nl);
                proof {
                    let post = *self;
                    assert(post.spec_layers() =~= pre.spec_layers().insert(pos as int, nl_view));
                    Self::lemma_lookup_after_insert(pre, post, pos as int, nl_view);
                    assert(post.layer_slots(layer_id.0) =~= pre.layer_slots(layer_id.0).push(
                        (Slot { id: cid, comp: component }),
                    ));
                    assert forall|i: int|
                        0 <= i < post.spec_layers().len() implies unique_ids(
                        #[trigger] post.spec_layers()[i].1,
                    ) by {
                        if i < pos {
                            assert(post.spec_layers()[i] == pre.spec_layers()[i]);
                        } else if i > pos {
                            assert(post.spec_layers()[i] == pre.spec_layers()[i - 1]);
                        } else {
                            assert(post.spec_layers()[i].1 == nl_view.1);
                            assert(nl_view.1.len() == 1);
                        }
                    }
                }
                Ok(())
            },
        }
    }

    /// Replaces any existing same-id occupant in that layer by the new
    /// component, mounted at the end of the layer's sequence.  Afterwards
    /// exactly one occupant holds that id: the newly supplied instance,
    /// standing last.
    pub fn replace_at(&mut self, layer_id: LayerId, component: C)
        requires
            old(self).wf(),
        ensures
            final(self).wf(),
            old(self).same_core(*final(self)),
            final(self).layer_slots(layer_id.0) == remove_id(
                old(self).layer_slots(layer_id.0),
                component.spec_id(),
            ).push((Slot { id: component.spec_id(), comp: component })),
            forall|e: i16| e != layer_id.0 ==> final(self).layer_slots(e) == old(self).layer_slots(e),
            final(self).layer_slots(layer_id.0).last() == (Slot {
                id: component.spec_id(),
                comp: component,
            }),
            forall|i: int|
                0 <= i < final(self).layer_slots(layer_id.0).len() - 1 ==> final(self).layer_slots(
                    layer_id.0,
                )[i].id != component.spec_id(),
    {
        let cid = component.id();
        match self.find_layer(layer_id.0) {
            Some(li) => {
                let ghost pre = *self;
                let layer = &mut self.layers[li];
                let ghost p = layer.slots@;
                proof {
                    assert(p == pre.spec_layers()[li as int].1);
                    assert(unique_ids(p));
                }
                match Self::find_slot(&layer.slots, cid) {
                    Some(si) => {
                        layer.slots.remove(si);
                        proof {
                            lemma_remove_keeps_unique(p, si as int);
                        }
                    },
                    None => {},
                }
                let ghost mid = layer.slots@;
                layer.slots.push(Slot { id: cid, comp: component });
                proof {
                    let post = *self;
                    assert(mid =~= remove_id(p, cid));
                    assert(post.spec_layers()[li as int].1 =~= mid.push(
                        (Slot { id: cid, comp: component }),
                    ));
                    Self::lemma_lookup_after_update(pre, post, li as int);
                    assert(!has_slot(mid, cid));
                    let s = post.spec_layers()[li as int].1;
                    assert forall|a: int, b: int| 0 <= a < b < s.len() implies s[a].id != s[b].id by {
                        if b < mid.len() {
                        } else {
                            assert(s[b].id == cid);
                            assert(s[a] == mid[a]);
                            if mid[a].id == cid {
                                assert(has_slot(mid, cid));
                            }
                        }
                    }
                    assert forall|i: int|
                        0 <= i < post.spec_layers().len() implies unique_ids(
                        #[trigger] post.spec_layers()[i].1,
                    ) by {
                        if i != li {
                            assert(post.spec_layers()[i] == pre.spec_layers()[i]);
                        }
                    }
                    assert forall|i: int| 0 <= i < s.len() - 1 implies s[i].id != cid by {
                        assert(s[i] == mid[i]);
                        if mid[i].id == cid {
                            assert(has_slot(mid, cid));
                        }
                    }
                }
            },
            None => {
                let ghost pre = *self;
                let slot = Slot { id: cid, comp: component };
                let mut slots = Vec::new();
                slots.push(slot);
                let pos = self.insertion_pos(layer_id.0);
                let nl = Layer { elevation: layer_id.0, slots };
                let ghost nl_view = (layer_id.0, nl.slots@);
                self.layers.insert(pos, nl);
                proof {
                    let post = *self;
                    assert(post.spec_layers() =~= pre.spec_layers().insert(pos as int, nl_view));
                    Self::lemma_lookup_after_insert(pre, post, pos as int, nl_view);
                    assert(post.layer_slots(layer_id.0) =~= remove_id(
                        pre.layer_slots(layer_id.0),
                        cid,
                    ).push((Slot { id: cid, comp: component })));
                    assert forall|i: int|
                        0 <= i < post.spec_layers().len() implies unique_ids(
                        #[trigger] post.spec_layers()[i].1,
                    ) by {
                        if i < pos {
                            assert(post.spec_layers()[i] == pre.spec_layers()[i]);
                        } else if i > pos {
                            assert(post.spec_layers()[i] == pre.spec_layers()[i - 1]);
                        } else {
                            assert(post.spec_layers()[i].1 == nl_view.1);
                            assert(nl_view.1.len() == 1);
                        }
                    }
                }
            },
        }
    }

    /// Removes the component mounted under `component_id` at that layer,
    /// returning whether anything was removed.
    pub fn remove_at(&mut self, layer_id: LayerId, component_id: Id) -> (r: bool)
        requires
            old(self).wf(),
        ensures
            final(self).wf(),
            old(self).same_core(*final(self)),
            r == has_slot(old(self).layer_slots(layer_id.0), component_id),
            final(self).layer_slots(layer_id.0) == remove_id(
                old(self).layer_slots(layer_id.0),
                component_id,
            ),
            forall|e: i16| e != layer_id.0 ==> final(self).layer_slots(e) == old(self).layer_slots(e),
    {
        match self.find_layer(layer_id.0) {
            Some(li) => {
                let ghost pre = *self;
                let layer = &mut self.layers[li];
                let ghost p = layer.slots@;
                proof {
                    assert(p == pre.spec_layers()[li as int].1);
                    assert(unique_ids(p));
                }
                match Self::find_slot(&layer.slots, component_id) {
                    Some(si) => {
                        layer.slots.remove(si);
                        proof {
                            lemma_remove_keeps_unique(p, si as int);
                            let post = *self;
                            assert(post.spec_layers()[li as int].1 =~= remove_id(p, component_id));
                            Self::lemma_lookup_after_update(pre, post, li as int);
                            assert forall|i: int|
                                0 <= i < post.spec_layers().len() implies unique_ids(
                                #[trigger] post.spec_layers()[i].1,
                            ) by {
                                if i != li {
                                    assert(post.spec_layers()[i] == pre.spec_layers()[i]);
                                }
                            }
                        }
                        true
                    },
                    None => {
                        proof {
                            let post = *self;
                            assert(post.spec_layers() =~= pre.spec_layers());
                            Self::lemma_lookup_after_update(pre, post, li as int);
                        }
                        false
                    },
                }
            },
            None => {
                false
            },
        }
    }

    /// Removes every component mounted under `component_id`, on all layers.
    pub fn remove_all(&mut self, component_id: Id)
        requires
            old(self).wf(),
        ensures
            final(self).wf(),
            old(self).same_core(*final(self)),
            forall|e: i16|
                final(self).layer_slots(e) == remove_id(
                    #[trigger] old(self).layer_slots(e),
                    component_id,
                ),
    {
        let ghost pre = *self;
        let n = self.layers.len();
        let mut li: usize = 0;
        while li < n
            invariant
                pre.wf(),
                self.wf(),
                self.spec_state() == pre.spec_state(),
                self.spec_timeout_ms() == pre.spec_timeout_ms(),
                self.spec_exit() == pre.spec_exit(),
                n == pre.spec_layers().len(),
                self.spec_layers().len() == n,
                0 <= li <= n,
                forall|j: int|
                    0 <= j < n ==> self.spec_layers()[j].0 == pre.spec_layers()[j].0,
                forall|j: int|
                    0 <= j < li ==> self.spec_layers()[j].1 == remove_id(
                        #[trigger] pre.spec_layers()[j].1,
                        component_id,
                    ),
                forall|j: int| li <= j < n ==> self.spec_layers()[j] == pre.spec_layers()[j],
            decreases n - li,
        {
            let ghost before = *self;
            let layer = &mut self.layers[li];
            let ghost p = layer.slots@;
            proof {
                assert(p == before.spec_layers()[li as int].1);
                assert(unique_ids(p));
            }
            match Self::find_slot(&layer.slots, component_id) {
                Some(si) => {
                    layer.slots.remove(si);
                    proof {
                        lemma_remove_keeps_unique(p, si as int);
                        assert(self.spec_layers()[li as int].1 =~= remove_id(p, component_id));
                        assert forall|i: int|
                            0 <= i < self.spec_layers().len() implies unique_ids(
                            #[trigger] self.spec_layers()[i].1,
                        ) by {
                            if i != li {
                                assert(self.spec_layers()[i] == before.spec_layers()[i]);
                            }
                        }
                        assert forall|j: int|
                            0 <= j < n implies self.spec_layers()[j].0
                            == pre.spec_layers()[j].0 by {
                            if j != li {
                                assert(self.spec_layers()[j] == before.spec_layers()[j]);
                            }
                        }
                    }
                },
                None => {
                    proof {
                        assert(self.spec_layers() =~= before.spec_layers());
                        assert(self.spec_layers()[li as int].1 == remove_id(p, component_id));
                    }
                },
            }
            proof {
                assert forall|i: int, j: int|
                    0 <= i < j < self.spec_layers().len() implies self.spec_layers()[i].0
                    < self.spec_layers()[j].0 by {
                    assert(pre.spec_layers()[i].0 < pre.spec_layers()[j].0);
                }
            }
            li += 1;
        }
        proof {
            let post = *self;
            assert forall|e: i16|
                post.layer_slots(e) == remove_id(
                    #[trigger] pre.layer_slots(e),
                    component_id,
                ) by {
                if pre.has_layer(e) {
                    let i = pre.layer_index(e);
                    assert(0 <= i < n && pre.spec_layers()[i].0 == e);
                    assert(post.spec_layers()[i].0 == e);
                    post.lemma_layer_index_agrees(e, i);
                    assert(post.layer_slots(e) == post.spec_layers()[i].1);
                } else {
                    if post.has_layer(e) {
                        let i = post.layer_index(e);
                        assert(pre.spec_layers()[i].0 == e);
                        assert(pre.has_layer(e));
                    }
                    assert(post.layer_slots(e) =~= remove_id(pre.layer_slots(e), component_id));
                }
            }
        }
    }

    /// Downcasts the component mounted under `component_id` at that layer
    /// and returns a reference to it.  With components held as one sum
    /// type, the caller's match on the result is the concrete-type check.
    pub fn get_at(&self, layer_id: LayerId, component_id: Id) -> (r: Option<&C>)
        requires
            self.wf(),
        ensures
            match r {
                Some(c) => has_slot(self.layer_slots(layer_id.0), component_id) && *c
                    == self.layer_slots(layer_id.0)[slot_index(
                    self.layer_slots(layer_id.0),
                    component_id,
                )].comp,
                None => !has_slot(self.layer_slots(layer_id.0), component_id),
            },
    {
        match self.find_layer(layer_id.0) {
            Some(li) => {
                proof {
                    assert(self.spec_layers()[li as int].1 == self.layers@[li as int].slots@);
                }
                match Self::find_slot(&self.layers[li].slots, component_id) {
                    Some(si) => Some(&self.layers[li].slots[si].comp),
                    None => None,
                }
            },
            None => None,
        }
    }

    /// Downcasts the component mounted under `component_id` at that layer
    /// and returns a mutable reference to it.  The borrow may change the
    /// component but never its mounted id, so the registry stays
    /// well-formed.
    pub fn get_mut_at(&mut self, layer_id: LayerId, component_id: Id) -> (r: Option<&mut C>)
        requires
            old(self).wf(),
        ensures
            !has_slot(old(self).layer_slots(layer_id.0), component_id) ==> r is None && *final(self) == *old(self),
            has_slot(old(self).layer_slots(layer_id.0), component_id) ==> r is Some && *r.unwrap()
                == old(self).layer_slots(layer_id.0)[slot_index(
                old(self).layer_slots(layer_id.0),
                component_id,
            )].comp,
            has_slot(old(self).layer_slots(layer_id.0), component_id) ==> ({
                let li = old(self).layer_index(layer_id.0);
                let si = slot_index(old(self).layer_slots(layer_id.0), component_id);
                &&& old(self).same_core(*final(self))
                &&& final(self).spec_layers().len() == old(self).spec_layers().len()
                &&& (forall|j: int|
                    0 <= j < old(self).spec_layers().len() && j != li ==> final(self).spec_layers()[j] == old(self).spec_layers()[j])
                &&& final(self).spec_layers()[li].0 == layer_id.0
                &&& final(self).spec_layers()[li].1 == old(self).spec_layers()[li].1.update(
                    si,
                    (Slot { id: component_id, comp: *final(r.unwrap()) }),
                )
            }),
    {
        match self.find_layer(layer_id.0) {
            Some(li) => {
                proof {
                    assert(self.spec_layers()[li as int].1 == self.layers@[li as int].slots@);
                }
                match Self::find_slot(&self.layers[li].slots, component_id) {
                    Some(si) => {
                        let layer = &mut self.layers[li];
                        let slot = &mut layer.slots[si];
                        Some(&mut slot.comp)
                    },
                    None => None,
                }
            },
            None => None,
        }
    }

    /// Unmounts the component under `component_id` at that layer and hands
    /// it to `extract`, the caller's concrete-type conversion, which either
    /// converts it or gives the very value back.  On conversion failure the
    /// component is remounted exactly where it was: the registry is then
    /// observably identical to before the call.
    pub fn take_at<T, F: FnOnce(C) -> Result<T, C>>(
        &mut self,
        layer_id: LayerId,
        component_id: Id,
        extract: F,
    ) -> (r: Option<T>)
        requires
            old(self).wf(),
            forall|c: C| #[trigger] call_requires(extract, (c,)),
            forall|c: C, res: Result<T, C>|
                #[trigger] call_ensures(extract, (c,), res) && res is Err ==> res->Err_0 == c,
        ensures
            final(self).wf(),
            old(self).same_core(*final(self)),
            !has_slot(old(self).layer_slots(layer_id.0), component_id) ==> r is None && final(self).spec_layers() == old(self).spec_layers(),
            has_slot(old(self).layer_slots(layer_id.0), component_id) ==> ({
                let c = old(self).layer_slots(layer_id.0)[slot_index(
                    old(self).layer_slots(layer_id.0),
                    component_id,
                )].comp;
                match r {
                    Some(t) => call_ensures(extract, (c,), Ok::<T, C>(t)) && final(self).layer_slots(layer_id.0) == remove_id(
                        old(self).layer_slots(layer_id.0),
                        component_id,
                    ) && (forall|e: i16|
                        e != layer_id.0 ==> final(self).layer_slots(e) == old(self).layer_slots(
                            e,
                        )),
                    None => call_ensures(extract, (c,), Err::<T, C>(c)) && final(self).spec_layers() == old(self).spec_layers(),
                }
            }),
    {
        let ghost pre = *self;
        match self.find_layer(layer_id.0) {
            Some(li) => {
                proof {
                    assert(self.spec_layers()[li as int].1 == self.layers@[li as int].slots@);
                }
                match Self::find_slot(&self.layers[li].slots, component_id) {
                    Some(si) => {
                        let layer = &mut self.layers[li];
                        let ghost p = layer.slots@;
                        let slot = layer.slots.remove(si);
                        proof {
                            lemma_remove_keeps_unique(p, si as int);
                        }
                        let Slot { id: sid, comp } = slot;
                        match extract(comp) {
                            Ok(t) => {
                                proof {
                                    let post = *self;
                                    assert(post.spec_layers()[li as int].1 =~= remove_id(
                                        p,
                                        component_id,
                                    ));
                                    Self::lemma_lookup_after_update(pre, post, li as int);
                                    assert forall|i: int|
                                        0 <= i < post.spec_layers().len() implies unique_ids(
                                        #[trigger] post.spec_layers()[i].1,
                                    ) by {
                                        if i != li {
                                            assert(post.spec_layers()[i] == pre.spec_layers()[i]);
                                        }
                                    }
                                }
                                Some(t)
                            },
                            Err(back) => {
                                let layer = &mut self.layers[li];
                                layer.slots.insert(si, Slot { id: sid, comp: back });
                                proof {
                                    let post = *self;
                                    assert(back == p[si as int].comp);
                                    assert((Slot { id: sid, comp: back }) == p[si as int]);
                                    assert(post.spec_layers()[li as int].1 =~= p.remove(
                                        si as int,
                                    ).insert(si as int, p[si as int]));
                                    assert(post.spec_layers()[li as int].1 =~= p);
                                    assert(post.spec_layers() =~~= pre.spec_layers());
                                }
                                None
                            },
                        }
                    },
                    None => None,
                }
            },
            None => None,
        }
    }
}

/// Dispatch visits layers from the highest elevation to the lowest and,
/// within one layer, slots in insertion order.  `(lj, sj)` comes after
/// `(li, si)` in that order when it lies in a lower layer, or further
/// along the same one.
pub open spec fn dispatched_after(li: int, si: int, lj: int, sj: int) -> bool {
    lj < li || (lj == li && sj > si)
}

/// Every component past position `si` holds the same component in `post`
/// as in `pre`.
pub open spec fn suffix_comps_unchanged<C>(pre: Seq<Slot<C>>, post: Seq<Slot<C>>, si: int) -> bool {
    forall|k: int| si < k < pre.len() ==> post[k].comp == (#[trigger] pre[k]).comp
}

/// Every component after position `(li, si)` in dispatch order holds the
/// same component in `post` as in `pre`: nothing below the consumer, nor
/// beside it further along its own layer, was touched.
pub open spec fn later_comps_unchanged<C>(
    pre: Seq<(i16, Seq<Slot<C>>)>,
    post: Seq<(i16, Seq<Slot<C>>)>,
    li: int,
    si: int,
) -> bool {
    forall|lj: int, sj: int|
        0 <= lj < pre.len() && 0 <= sj < pre[lj].1.len() && dispatched_after(li, si, lj, sj)
            ==> post[lj].1[sj].comp == (#[trigger] pre[lj].1[sj]).comp
}

/// Some mounted position consumed the event and everything after it in
/// dispatch order was left untouched: the single-consumer guarantee over
/// one dispatch pass from `pre` to `post`.
pub open spec fn consumption_respects_order<C>(
    pre: Seq<(i16, Seq<Slot<C>>)>,
    post: Seq<(i16, Seq<Slot<C>>)>,
) -> bool {
    exists|li: int, si: int|
        0 <= li < pre.len() && 0 <= si < pre[li].1.len() && #[trigger] later_comps_unchanged(
            pre,
            post,
            li,
            si,
        )
}

impl<S, E, C: Component<S, E, K>, K> Compositor<S, E, C, K> {
    /// Routes the event through one layer, in insertion order, stopping
    /// the moment the event is consumed.  Returns whether it was.
    fn dispatch_layer(
        layer: &mut Layer<C>,
        access: &mut EventAccess<E>,
        cx: &mut Context<S, E, K>,
    ) -> (consumed: bool)
        requires
            !old(access).spec_is_consumed(),
        ensures
            final(layer).elevation == old(layer).elevation,
            final(layer).slots@.len() == old(layer).slots@.len(),
            forall|k: int|
                0 <= k < old(layer).slots@.len() ==> (#[trigger] final(layer).slots@[k]).id == old(
                    layer,
                ).slots@[k].id,
            old(cx).spec_callbacks().is_prefix_of(final(cx).spec_callbacks()),
            final(cx).spec_jobs() == old(cx).spec_jobs(),
            final(cx).spec_size() == old(cx).spec_size(),
            consumed == final(access).spec_is_consumed(),
            consumed ==> exists|si: int|
                0 <= si < old(layer).slots@.len() && #[trigger] suffix_comps_unchanged(
                    old(layer).slots@,
                    final(layer).slots@,
                    si,
                ),
    {
        let m = layer.slots.len();
        let mut si: usize = 0;
        while si < m
            invariant
                m == old(layer).slots@.len(),
                layer.slots@.len() == m,
                layer.elevation == old(layer).elevation,
                0 <= si <= m,
                forall|k: int|
                    0 <= k < m ==> (#[trigger] layer.slots@[k]).id == old(layer).slots@[k].id,
                forall|k: int|
                    si <= k < m ==> (#[trigger] layer.slots@[k]).comp == old(layer).slots@[k].comp,
                !access.spec_is_consumed(),
                old(cx).spec_callbacks().is_prefix_of(cx.spec_callbacks()),
                cx.spec_jobs() == old(cx).spec_jobs(),
                cx.spec_size() == old(cx).spec_size(),
            decreases m - si,
        {
            let ghost mid_cbs = cx.spec_callbacks();
            let slot = &mut layer.slots[si];
            slot.comp.handle_event(access, cx);
            proof {
                assert(mid_cbs.is_prefix_of(cx.spec_callbacks()));
                assert(old(cx).spec_callbacks().is_prefix_of(mid_cbs));
                assert(old(cx).spec_callbacks().is_prefix_of(cx.spec_callbacks()));
            }
            if access.is_consumed() {
                proof {
                    assert(suffix_comps_unchanged(old(layer).slots@, layer.slots@, si as int));
                }
                return true;
            }
            si += 1;
        }
        false
    }

    /// Routes one event through the mounted components: layers from the
    /// highest elevation down, within a layer in insertion order, stopping
    /// the instant the event is consumed.  The per-cycle context is built
    /// around the compositor's own state, which components may read and
    /// write, and is deconstructed again afterwards; the queued callbacks
    /// and the job handle are handed back to the caller unapplied.
    ///
    /// A consumed event is dispatched to nobody.  Once some component
    /// consumes the event, every component after it in dispatch order is
    /// left exactly as it was: no later component observes the event.
    pub fn dispatch_event(
        self,
        access: &mut EventAccess<E>,
        size: Rect,
        jobs: Jobs<E, K>,
    ) -> (r: (Self, Vec<K>, Jobs<E, K>))
        requires
            self.wf(),
        ensures
            r.0.wf(),
            self.same_skeleton(r.0),
            r.0.spec_timeout_ms() == self.spec_timeout_ms(),
            r.0.spec_exit() == self.spec_exit(),
            r.2 == jobs,
            old(access).spec_is_consumed() ==> *final(access) == *old(access) && r.0.spec_layers()
                == self.spec_layers() && r.0.spec_state() == self.spec_state() && r.1@
                == Seq::<K>::empty(),
            self.spec_layers().len() == 0 ==> *final(access) == *old(access) && r.0.spec_layers()
                == self.spec_layers() && r.0.spec_state() == self.spec_state() && r.1@
                == Seq::<K>::empty(),
            !old(access).spec_is_consumed() && final(access).spec_is_consumed()
                ==> consumption_respects_order(self.spec_layers(), r.0.spec_layers()),
    {
        let ghost pre = self;
        let Compositor { layers, state, timeout_ms, exit, _marker } = self;
        let mut layers = layers;
        let mut cx = Context { callbacks: Vec::new(), jobs, size, state };
        let ghost cx0 = cx;
        let ghost mut wli: int = 0;
        let ghost mut wsi: int = 0;
        let ghost mut gstop: bool = false;
        let mut consumed_at_start = true;
        if !access.is_consumed() {
            consumed_at_start = false;
            let n = layers.len();
            let mut li: usize = n;
            let mut stop = false;
            while li > 0 && !stop
                invariant
                    n == layers@.len(),
                    n == pre.spec_layers().len(),
                    0 <= li <= n,
                    forall|j: int|
                        0 <= j < n ==> (#[trigger] layers@[j]).elevation == pre.spec_layers()[j].0
                            && layers@[j].slots@.len() == pre.spec_layers()[j].1.len(),
                    forall|j: int, k: int|
                        0 <= j < n && 0 <= k < pre.spec_layers()[j].1.len() ==> (
                        #[trigger] layers@[j].slots@[k]).id == pre.spec_layers()[j].1[k].id,
                    forall|j: int, k: int|
                        0 <= j < li && 0 <= k < pre.spec_layers()[j].1.len() ==> (
                        #[trigger] layers@[j].slots@[k]).comp == pre.spec_layers()[j].1[k].comp,
                    cx0.spec_callbacks().is_prefix_of(cx.spec_callbacks()),
                    cx.spec_jobs() == cx0.spec_jobs(),
                    cx.spec_size() == cx0.spec_size(),
                    li == n ==> cx == cx0 && *access == *old(access),
                    !stop ==> !access.spec_is_consumed(),
                    stop ==> access.spec_is_consumed(),
                    stop ==> 0 <= li < n && exists|si: int|
                        0 <= si < pre.spec_layers()[li as int].1.len()
                            && #[trigger] suffix_comps_unchanged(
                            pre.spec_layers()[li as int].1,
                            layers@[li as int].slots@,
                            si,
                        ),
                decreases li,
            {
                let cur = li - 1;
                let ghost mid_cbs = cx.spec_callbacks();
                let ghost layer_pre = layers@[cur as int];
                let c = Self::dispatch_layer(&mut layers[cur], access, &mut cx);
                proof {
                    assert(cx0.spec_callbacks().is_prefix_of(mid_cbs));
                    assert(mid_cbs.is_prefix_of(cx.spec_callbacks()));
                    assert(cx0.spec_callbacks().is_prefix_of(cx.spec_callbacks()));
                }
                if c {
                    stop = true;
                    proof {
                        let si0 = choose|si: int|
                            0 <= si < layer_pre.slots@.len() && #[trigger] suffix_comps_unchanged(
                                layer_pre.slots@,
                                layers@[cur as int].slots@,
                                si,
                            );
                        assert forall|k: int|
                            si0 < k < pre.spec_layers()[cur as int].1.len() implies layers@[
                            cur as int].slots@[k].comp == (#[trigger] pre.spec_layers()[
                        cur as int].1[k]).comp by {
                            assert(layers@[cur as int].slots@[k].comp == layer_pre.slots@[k].comp);
                            assert(layer_pre.slots@[k].comp == pre.spec_layers()[
                                cur as int].1[k].comp);
                        }
                        assert(suffix_comps_unchanged(
                            pre.spec_layers()[cur as int].1,
                            layers@[cur as int].slots@,
                            si0,
                        ));
                    }
                }
                li = cur;
            }
            proof {
                gstop = stop;
                if stop {
                    let si = choose|si: int|
                        0 <= si < pre.spec_layers()[li as int].1.len()
                            && #[trigger] suffix_comps_unchanged(
                            pre.spec_layers()[li as int].1,
                            layers@[li as int].slots@,
                            si,
                        );
                    wli = li as int;
                    wsi = si;
                    assert(0 <= wli < pre.spec_layers().len());
                    assert(0 <= wsi < pre.spec_layers()[wli].1.len());
                    assert forall|lj: int, sj: int|
                        0 <= lj < pre.spec_layers().len() && 0 <= sj
                            < pre.spec_layers()[lj].1.len() && dispatched_after(
                            li as int,
                            si,
                            lj,
                            sj,
                        ) implies layers@[lj].slots@[sj].comp == (#[trigger] pre.spec_layers()[
                        lj].1[sj]).comp by {
                        if lj < li {
                        } else {
                            assert(lj == li && sj > si);
                            assert(suffix_comps_unchanged(
                                pre.spec_layers()[li as int].1,
                                layers@[li as int].slots@,
                                si,
                            ));
                        }
                    }
                    assert(later_comps_unchanged(
                        pre.spec_layers(),
                        layers@.map_values(|l: Layer<C>| (l.elevation, l.slots@)),
                        li as int,
                        si,
                    ));
                }
            }
        }
        let Context { callbacks, jobs: jobs_back, size: _, state: state_back } = cx;
        let comp = Compositor {
            layers,
            state: state_back,
            timeout_ms,
            exit,
            _marker: core::marker::PhantomData,
        };
        proof {
            assert(comp.spec_layers().len() == pre.spec_layers().len());
            Self::lemma_skeleton_preserves_wf(pre, comp);
            if consumed_at_start {
                assert(comp.spec_layers() =~~= pre.spec_layers());
            } else if pre.spec_layers().len() == 0 {
                assert(comp.spec_layers() =~~= pre.spec_layers());
            } else {
                assert(access.spec_is_consumed() ==> gstop);
                if gstop {
                    assert(0 <= wli < pre.spec_layers().len());
                    assert(0 <= wsi < pre.spec_layers()[wli].1.len());
                    assert(later_comps_unchanged(pre.spec_layers(), comp.spec_layers(), wli, wsi));
                    assert(consumption_respects_order(pre.spec_layers(), comp.spec_layers()));
                }
            }
        }
        (comp, callbacks, jobs_back)
    }
}

impl<S, E, C: Component<S, E, K>, K: Callback<S, E, C, K>> Compositor<S, E, C, K> {
    /// Applies the given callbacks to the compositor: each exactly once,
    /// in order, each with exclusive access to the whole compositor.  An
    /// empty batch leaves the compositor exactly as it was.  Callbacks
    /// queued by one callback's own execution are the next cycle's
    /// business, not this batch's.
    pub fn apply_callbacks(&mut self, callbacks: Vec<K>)
        requires
            old(self).wf(),
        ensures
            final(self).wf(),
            applied_in_order(callbacks@, *old(self), *final(self)),
            callbacks@.len() == 0 ==> *final(self) == *old(self),
    {
        let ghost all = callbacks@;
        let ghost pre0 = *self;
        let mut cbs = callbacks;
        while cbs.len() > 0
            invariant
                self.wf(),
                pre0.wf(),
                forall|post: Self|
                    #[trigger] applied_in_order(cbs@, *self, post) ==> applied_in_order(
                        all,
                        pre0,
                        post,
                    ),
            decreases cbs.len(),
        {
            let ghost mid_pre = *self;
            let ghost rem = cbs@;
            let k = cbs.remove(0);
            k.apply(self);
            proof {
                assert(rem[0] == k);
                assert(rem.drop_first() =~= cbs@);
                assert forall|post: Self|
                    #[trigger] applied_in_order(cbs@, *self, post) implies applied_in_order(
                    all,
                    pre0,
                    post,
                ) by {
                    assert(k.applies(mid_pre, *self));
                    assert(applied_in_order(rem, mid_pre, post));
                }
            }
        }
        proof {
            assert(applied_in_order(cbs@, *self, *self));
        }
    }

    /// Runs one full cycle of the loop on a resumption: dispatches an
    /// event (or applies a job-delivered callback after an otherwise empty
    /// dispatch), then applies the callbacks queued during dispatch, in
    /// enqueue order.  Returns the compositor, the job handle, and whether
    /// a render pass should follow: it should exactly when the loop is not
    /// about to exit.
    ///
    /// [`Event::Exit`] short-circuits: it is dispatched to nobody, no
    /// callback runs, nothing is rendered, and the loop is told to end.
    pub fn dispatch_cycle(self, resume: Resume<E, K>, size: Rect, jobs: Jobs<E, K>) -> (r: (
        Self,
        Jobs<E, K>,
        bool,
    ))
        requires
            self.wf(),
        ensures
            r.0.wf(),
            r.1 == jobs,
            r.2 == !r.0.spec_exit(),
            resume matches Resume::Event(ev) && ev is Exit ==> r.0.spec_exit() && !r.2
                && r.0.spec_layers() == self.spec_layers() && r.0.spec_state() == self.spec_state()
                && r.0.spec_timeout_ms() == self.spec_timeout_ms(),
            resume matches Resume::JobCallback(k) ==> k.applies(self, r.0),
            resume matches Resume::Event(ev) && ev is Empty ==> r.0.spec_layers()
                == self.spec_layers() && r.0.spec_state() == self.spec_state() && r.0.spec_exit()
                == self.spec_exit() && r.0.spec_timeout_ms() == self.spec_timeout_ms(),
            resume matches Resume::Event(ev) && !(ev is Exit) ==> exists|mid: Self, cbs: Seq<K>|
                mid.wf() && self.same_skeleton(mid) && mid.spec_timeout_ms()
                    == self.spec_timeout_ms() && mid.spec_exit() == self.spec_exit()
                    && #[trigger] applied_in_order(cbs, mid, r.0),
    {
        match resume {
            Resume::JobCallback(k) => {
                let mut comp = self;
                k.apply(&mut comp);
                let render = !comp.is_exiting();
                (comp, jobs, render)
            },
            Resume::Event(event) => {
                if matches!(event, Event::Exit) {
                    let mut comp = self;
                    comp.exit();
                    return (comp, jobs, false);
                }
                let mut access = EventAccess::new(event);
                let ghost ev_view = access@;
                let (mut comp, cbs, jobs_back) = self.dispatch_event(&mut access, size, jobs);
                let ghost mid = comp;
                let ghost cbs_view = cbs@;
                comp.apply_callbacks(cbs);
                proof {
                    assert(applied_in_order(cbs_view, mid, comp));
                    if ev_view is Empty {
                        assert(cbs_view.len() == 0);
                        assert(comp == mid);
                        assert(mid.spec_layers() == self.spec_layers());
                        assert(mid.spec_state() == self.spec_state());
                    }
                }
                let render = !comp.is_exiting();
                (comp, jobs_back, render)
            },
        }
    }
}

impl<S, E, C, K> Compositor<S, E, C, K> {
    /// Whether the loop was asked to end.
    pub fn is_exiting(&self) -> (r: bool)
        ensures
            r == self.spec_exit(),
    {
        self.exit
    }
}

impl<S, E, C: Component<S, E, K>, K> Compositor<S, E, C, K> {
    /// The render pass: draws every mounted component into the surface,
    /// layers from the lowest elevation to the highest (so higher layers
    /// paint over lower ones), each layer in insertion order, skipping
    /// components whose dirty-check declines.  Every surviving component
    /// receives the full area; sub-region carving is its own business.
    pub fn render(&self, area: Rect, buf: &mut ratatui::buffer::Buffer) {
        let n = self.layers.len();
        let mut li: usize = 0;
        while li < n
            invariant
                n == self.layers@.len(),
                0 <= li <= n,
            decreases n - li,
        {
            let m = self.layers[li].slots.len();
            let mut si: usize = 0;
            while si < m
                invariant
                    n == self.layers@.len(),
                    0 <= li < n,
                    m == self.layers@[li as int].slots@.len(),
                    0 <= si <= m,
                decreases m - si,
            {
                let comp = &self.layers[li].slots[si].comp;
                if comp.should_update(&self.state) {
                    comp.view(area, buf, &self.state);
                }
                si += 1;
            }
            li += 1;
        }
    }
}

impl<E, C, K> Compositor<(), E, C, K> {
    /// Creates a new compositor without state.
    pub fn new() -> (r: Self)
        ensures
            r.wf(),
            r.spec_layers() == Seq::<(i16, Seq<Slot<C>>)>::empty(),
            forall|e: i16| r.layer_slots(e) == Seq::<Slot<C>>::empty(),
            r.spec_timeout_ms() == 3000,
            !r.spec_exit(),
    {
        Self::with_state(())
    }
}

impl<E, C, K> Default for Compositor<(), E, C, K> {
    /// The same compositor that [`Compositor::new`] builds.
    fn default() -> (r: Self)
        ensures
            r.wf(),
            r.spec_layers() == Seq::<(i16, Seq<Slot<C>>)>::empty(),
            r.spec_timeout_ms() == 3000,
            !r.spec_exit(),
    {
        Self::with_state(())
    }
}

} // verus!
