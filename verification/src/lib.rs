//! A run-loop engine for terminal user interfaces built out of stackable,
//! independently addressable components.
//!
//! The library owns component identity ([`Id`], [`LayerId`]), the event model
//! ([`Event`], `EventAccess`), the layer registry with its per-layer id
//! uniqueness invariant, and the dispatch machinery that routes one event
//! through the mounted components until it is consumed.  Terminal rendering
//! and raw input decoding are external collaborators, reached only through
//! opaque handles.

use vstd::prelude::*;

use crossterm::event::Event as CrosstermEvent;

mod compositor;
mod jobs;

pub use compositor::{Callback, Compositor, Context, Resume, Slot};
pub use compositor::{has_slot, remove_id, slot_index, unique_ids};
pub use compositor::{
    consumption_respects_order, dispatched_after, later_comps_unchanged, suffix_comps_unchanged,
};
pub use compositor::{lemma_remove_keeps_unique, lemma_slot_index_agrees};
pub use jobs::{IntoCallback, Jobs, Sealed};

verus! {

/// A rectangular region of the terminal, in cells.  Components receive the
/// full drawing area and carve out their own sub-regions.
#[derive(Debug, Clone, Copy, PartialEq, Eq, Structural)]
pub struct Rect {
    /// Column of the top-left corner.
    pub x: u16,
    /// Row of the top-left corner.
    pub y: u16,
    /// Width in columns.
    pub width: u16,
    /// Height in rows.
    pub height: u16,
}

/// Declares the drawing surface type so components can write into it.
/// Relies on `ratatui::buffer::Buffer`; the library passes such a value
/// through to component drawing code and never looks inside it.
#[verifier::external_type_specification]
#[verifier::external_body]
pub struct ExBuffer(ratatui::buffer::Buffer);

/// The identity every mounted element carries.  `id` must return the same
/// value every time it is queried over the component's lifetime; the
/// registry captures it once at mount time.
pub trait HasId: Sized {
    /// The id this component answers with.  Verified implementations give
    /// this a meaning and prove `id` returns it; unverified ones leave it
    /// unconstrained.
    open spec fn spec_id(&self) -> Id {
        vstd::pervasive::arbitrary()
    }

    /// Id of this component.
    fn id(&self) -> (r: Id)
        ensures
            r == self.spec_id(),
    ;
}

/// UI component: the polymorphic contract every mounted element satisfies.
///
/// `S` is the shared application state, `E` the user event payload, `K` the
/// deferred callback type that dispatch may enqueue.
pub trait Component<S, E, K>: HasId {
    /// Draws the inner ui.  If the component is a root, `area` equals the
    /// whole screen.  Must not mutate the shared state.
    fn view(&self, area: Rect, buf: &mut ratatui::buffer::Buffer, state: &S);

    /// Reacts to the event of the current dispatch cycle.  The component
    /// may consume or replace the event, read and write the shared state,
    /// and enqueue callbacks; the context's callback queue only ever grows,
    /// and its job handle and size are left alone.  Default: no-op.
    fn handle_event(&mut self, event: &mut EventAccess<E>, cx: &mut Context<S, E, K>)
        ensures
            old(cx).spec_callbacks().is_prefix_of(final(cx).spec_callbacks()),
            final(cx).spec_jobs() == old(cx).spec_jobs(),
            final(cx).spec_size() == old(cx).spec_size(),
    {
    }

    /// Cheap dirty-check: the render pass may skip drawing this component
    /// when it returns false.  Default: true.
    fn should_update(&self, state: &S) -> bool {
        true
    }
}

/// LayerId describes the elevation of a component.  Layers are totally
/// ordered by their inner value, ascending; the named tiers are spaced so
/// applications can interleave custom layers between them.
#[derive(Debug, Clone, Copy, PartialEq, Eq, Structural, PartialOrd, Ord, Hash)]
pub struct LayerId(pub i16);

impl LayerId {
    /// Background: `-1_000`
    pub fn background() -> (r: LayerId)
        ensures
            r.0 == -1000,
    {
        LayerId(-1000)
    }

    /// Middle: `0`
    pub fn middle() -> (r: LayerId)
        ensures
            r.0 == 0,
    {
        LayerId(0)
    }

    /// Foreground: `1_000`
    pub fn foreground() -> (r: LayerId)
        ensures
            r.0 == 1000,
    {
        LayerId(1000)
    }

    /// Popup: `2_000`
    pub fn popup() -> (r: LayerId)
        ensures
            r.0 == 2000,
    {
        LayerId(2000)
    }

    /// Overlay: `5_000`
    pub fn overlay() -> (r: LayerId)
        ensures
            r.0 == 5000,
    {
        LayerId(5000)
    }

    /// Topmost: `10_000`
    pub fn topmost() -> (r: LayerId)
        ensures
            r.0 == 10000,
    {
        LayerId(10000)
    }
}

/// The 64-bit digest that identity generation is built on.  Its value on
/// given bytes is left unstated: it is fixed by the external hash function.
pub uninterp spec fn xxhash_of(data: Seq<u8>) -> u64;

/// Relies on `twox_hash::XxHash64::oneshot`: the digest is computed, with a
/// fixed seed of zero, from the input bytes alone, so the same bytes always
/// give the same digest.
#[verifier::external_body]
fn xxhash64(data: &[u8]) -> (r: u64)
    ensures
        r == xxhash_of(data@),
{
    twox_hash::XxHash64::oneshot(0, data)
}

/// The hash of a seed produced the reserved zero value, so no valid [`Id`]
/// could be formed from it.
#[derive(Debug, Clone, Copy, PartialEq, Eq, Structural)]
pub struct IdError;

/// Id of a component: a non-zero 64-bit value derived by hashing a seed.
/// Zero is reserved as invalid and is never held by an `Id`.
#[derive(Debug, Clone, Copy, PartialEq, Eq, Structural, Hash)]
pub struct Id {
    raw: u64,
}

impl View for Id {
    type V = u64;

    closed spec fn view(&self) -> u64 {
        self.raw
    }
}

/// The digest that [`Id::with`] chains from a base id and an extra seed:
/// the base's eight little-endian bytes followed by the seed bytes.
pub open spec fn derived_hash(base: u64, more: Seq<u8>) -> u64 {
    xxhash_of(vstd::bytes::spec_u64_to_le_bytes(base) + more)
}

impl Id {
    /// A held id is never the reserved zero value.
    pub open spec fn valid(self) -> bool {
        self@ != 0
    }

    /// Creates a new Id by hashing the seed bytes.  Equal seeds always yield
    /// equal ids.  Fails only in the degenerate case that the hash of the
    /// seed is the reserved zero value.
    pub fn new(seed: &[u8]) -> (r: Result<Id, IdError>)
        ensures
            r is Ok <==> xxhash_of(seed@) != 0,
            r matches Ok(id) ==> id@ == xxhash_of(seed@) && id.valid(),
    {
        let h = xxhash64(seed);
        if h == 0 {
            Err(IdError)
        } else {
            Ok(Id { raw: h })
        }
    }

    /// Combines this id with a further seed, producing a stable child
    /// identity: the same base id and the same extra seed always yield the
    /// same derived id.  Fails only when the chained hash is zero.
    pub fn with(&self, more: &[u8]) -> (r: Result<Id, IdError>)
        ensures
            r is Ok <==> derived_hash(self@, more@) != 0,
            r matches Ok(id) ==> id@ == derived_hash(self@, more@) && id.valid(),
    {
        let mut data = vstd::bytes::u64_to_le_bytes(self.raw);
        data.extend_from_slice(more);
        proof {
            assert(data@ =~= vstd::bytes::spec_u64_to_le_bytes(self@) + more@);
        }
        let h = xxhash64(data.as_slice());
        if h == 0 {
            Err(IdError)
        } else {
            Ok(Id { raw: h })
        }
    }
}

/// Identity derivation is deterministic and stable across repeated calls:
/// two calls of [`Id::with`] on the same base id and the same extra seed
/// can only return the same result — so equal derivation chains always
/// yield equal ids.
pub proof fn lemma_derive_stable(
    base: &Id,
    more: &[u8],
    r1: Result<Id, IdError>,
    r2: Result<Id, IdError>,
)
    requires
        call_ensures(Id::with, (base, more), r1),
        call_ensures(Id::with, (base, more), r2),
    ensures
        r1 == r2,
{
    let d = derived_hash(base@, more@);
    if d != 0 {
        assert(r1 matches Ok(i) && i@ == d);
        assert(r2 matches Ok(i) && i@ == d);
        assert(r1->Ok_0@ == r2->Ok_0@);
        assert(r1->Ok_0 == r2->Ok_0);
    } else {
        assert(r1 is Err && r2 is Err);
        assert(r1->Err_0 == IdError && r2->Err_0 == IdError);
    }
}

/// Declares the terminal input event type so values of it can be carried
/// through [`Event::Terminal`].  Relies on `CrosstermEvent`; the
/// library never looks inside such a value.
#[verifier::external_type_specification]
#[verifier::external_body]
pub struct ExCrosstermEvent(CrosstermEvent);

/// Relies on the derived `Clone` of `CrosstermEvent`, a field-wise
/// duplicate of a plain data enum: the clone equals the original.
pub assume_specification[ <CrosstermEvent as Clone>::clone ](
    e: &CrosstermEvent,
) -> (r: CrosstermEvent)
    ensures
        r == *e,
;

/// Event that can occur during runtime.
#[derive(Debug, PartialEq, Eq)]
#[non_exhaustive]
pub enum Event<E> {
    /// User event
    User(E),
    /// Event from the terminal
    Terminal(CrosstermEvent),
    /// Next tick occurred without an intermediate event
    Tick,
    /// Ends the run loop when emitted
    Exit,
    /// No event: the placeholder left behind once an event was taken
    Empty,
}

/// Holds when `b` could be the result of cloning `a`: payloads of user
/// events are related by their own `Clone`, every other variant is kept
/// exactly.
pub open spec fn event_cloned<T: Clone>(a: Event<T>, b: Event<T>) -> bool {
    match a {
        Event::User(x) => b matches Event::User(y) && cloned::<T>(x, y),
        Event::Terminal(x) => b matches Event::Terminal(y) && y == x,
        Event::Tick => b is Tick,
        Event::Exit => b is Exit,
        Event::Empty => b is Empty,
    }
}

impl<T: Clone> Clone for Event<T> {
    fn clone(&self) -> (r: Self)
        ensures
            event_cloned(*self, r),
    {
        match self {
            Event::Terminal(e) => Event::Terminal(e.clone()),
            Event::User(e) => Event::User(e.clone()),
            Event::Tick => Event::Tick,
            Event::Exit => Event::Exit,
            Event::Empty => Event::Empty,
        }
    }
}

impl<T> Event<T> {
    /// Checks if the event is a user event.
    pub fn is_user(&self) -> (r: bool)
        ensures
            r == (self is User),
    {
        matches!(self, Event::User(_))
    }

    /// Converts into a user event reference on success.
    pub fn as_user(&self) -> (r: Option<&T>)
        ensures
            match *self {
                Event::User(e) => r is Some && *r.unwrap() == e,
                _ => r is None,
            },
    {
        match self {
            Event::User(e) => Some(e),
            _ => None,
        }
    }

    /// Converts into a user event mutable reference on success.
    pub fn as_mut_user(&mut self) -> (r: Option<&mut T>)
        ensures
            match *old(self) {
                Event::User(e) => r is Some && *r.unwrap() == e && *final(self)
                    == Event::<T>::User(*final(r.unwrap())),
                _ => r is None && *final(self) == *old(self),
            },
    {
        match self {
            Event::User(e) => Some(e),
            _ => None,
        }
    }

    /// Converts into the user event on success, returning the event itself
    /// otherwise.
    pub fn into_user(self) -> (r: Result<T, Self>)
        ensures
            match self {
                Event::User(e) => r == Ok::<T, Self>(e),
                _ => r == Err::<T, Self>(self),
            },
    {
        match self {
            Event::User(e) => Ok(e),
            _ => Err(self),
        }
    }

    /// Checks if the event came from the terminal.
    pub fn is_terminal(&self) -> (r: bool)
        ensures
            r == (self is Terminal),
    {
        matches!(self, Event::Terminal(_))
    }

    /// Converts into a terminal event reference on success.
    pub fn as_terminal(&self) -> (r: Option<&CrosstermEvent>)
        ensures
            match *self {
                Event::Terminal(e) => r is Some && *r.unwrap() == e,
                _ => r is None,
            },
    {
        match self {
            Event::Terminal(e) => Some(e),
            _ => None,
        }
    }

    /// Converts into a terminal event mutable reference on success.
    pub fn as_mut_terminal(&mut self) -> (r: Option<&mut CrosstermEvent>)
        ensures
            match *old(self) {
                Event::Terminal(e) => r is Some && *r.unwrap() == e && *final(self)
                    == Event::<T>::Terminal(*final(r.unwrap())),
                _ => r is None && *final(self) == *old(self),
            },
    {
        match self {
            Event::Terminal(e) => Some(e),
            _ => None,
        }
    }

    /// Converts into the terminal event on success, returning the event
    /// itself otherwise.
    pub fn into_terminal(self) -> (r: Result<CrosstermEvent, Self>)
        ensures
            match self {
                Event::Terminal(e) => r == Ok::<CrosstermEvent, Self>(e),
                _ => r == Err::<CrosstermEvent, Self>(self),
            },
    {
        match self {
            Event::Terminal(e) => Ok(e),
            _ => Err(self),
        }
    }
}

/// Wraps exactly one live [`Event`] for the duration of one dispatch cycle.
/// Consumption is solely defined by the held value being [`Event::Empty`].
pub struct EventAccess<E = ()> {
    event: Event<E>,
}

impl<E> View for EventAccess<E> {
    type V = Event<E>;

    closed spec fn view(&self) -> Event<E> {
        self.event
    }
}

impl<E> EventAccess<E> {
    /// Holds once the held event was consumed.
    pub open spec fn spec_is_consumed(&self) -> bool {
        self@ is Empty
    }

    /// Wraps an event for one dispatch cycle.
    pub fn new(event: Event<E>) -> (r: Self)
        ensures
            r@ == event,
    {
        EventAccess { event }
    }

    /// Peeks the held event.
    pub fn peek(&self) -> (r: &Event<E>)
        ensures
            *r == self@,
    {
        &self.event
    }

    /// Consumes the event: takes it out, leaving [`Event::Empty`] behind.
    /// This is the one-way transition that halts further dispatch.
    pub fn consume(&mut self) -> (r: Event<E>)
        ensures
            r == old(self)@,
            final(self)@ == Event::<E>::Empty,
            final(self).spec_is_consumed(),
    {
        let mut taken = Event::Empty;
        core::mem::swap(&mut self.event, &mut taken);
        taken
    }

    /// Replaces the held event with the one supplied and returns the old
    /// one.  This by itself does not mark anything consumed: consumption is
    /// solely defined by the held value being [`Event::Empty`].
    pub fn replace(&mut self, event: Event<E>) -> (r: Event<E>)
        ensures
            r == old(self)@,
            final(self)@ == event,
    {
        let mut taken = event;
        core::mem::swap(&mut self.event, &mut taken);
        taken
    }

    /// Checks if the event was consumed.
    pub fn is_consumed(&self) -> (r: bool)
        ensures
            r == self.spec_is_consumed(),
    {
        matches!(self.event, Event::Empty)
    }
}

impl<E: Clone> EventAccess<E> {
    /// Clones the held event without modifying it.
    pub fn cloned(&self) -> (r: Event<E>)
        ensures
            event_cloned(self@, r),
    {
        self.event.clone()
    }
}

} // verus!
