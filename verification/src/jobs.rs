//! The job bridge: hands the result channel of the run loop to background
//! work, so an asynchronous computation can deliver a callback back into
//! the loop.  Spawning itself is the host's business; the library only owns
//! the typed handle.

use vstd::prelude::*;

use crate::compositor::Resume;

mod sealed;

pub use sealed::Sealed;

verus! {

/// Implemented for types that a job can resolve to: either nothing or one
/// callback for the loop to apply.
pub trait IntoCallback<K>: Sealed<K> + Send + Sized {
    /// The callback this result converts to, if any.
    spec fn spec_callback(self) -> Option<K>;

    /// Converts the job's result into no callback or one callback.
    fn into_callback(self) -> (r: Option<K>)
        ensures
            r == self.spec_callback(),
    ;
}

impl<K> Sealed<K> for () {

}

impl<K: Send + 'static> IntoCallback<K> for () {
    /// A job that yields nothing delivers no callback.
    open spec fn spec_callback(self) -> Option<K> {
        None
    }

    fn into_callback(self) -> (r: Option<K>) {
        None
    }
}

impl<K: Send + 'static> Sealed<K> for Option<K> {

}

impl<K: Send + 'static> IntoCallback<K> for Option<K> {
    /// A job that yields an optional callback delivers exactly it.
    open spec fn spec_callback(self) -> Option<K> {
        self
    }

    fn into_callback(self) -> (r: Option<K>) {
        self
    }
}

/// Declares the channel sender type so the job bridge can hold one.
/// Relies on `tokio::sync::mpsc::Sender`; the library carries the value
/// through and never looks inside it.
#[verifier::external_type_specification]
#[verifier::external_body]
#[verifier::reject_recursive_types(T)]
pub struct ExSender<T>(tokio::sync::mpsc::Sender<T>);

/// Job system handle: jobs deliver their eventual callback through the
/// channel behind this sender, which the run loop merges as an event
/// source.
#[verifier::reject_recursive_types(E)]
#[verifier::reject_recursive_types(K)]
pub struct Jobs<E, K> {
    sender: tokio::sync::mpsc::Sender<Resume<E, K>>,
}

impl<E, K> Jobs<E, K> {
    /// The sender this handle was built around.
    pub closed spec fn spec_sender(&self) -> tokio::sync::mpsc::Sender<Resume<E, K>> {
        self.sender
    }

    /// Creates the job bridge handle around the sending half of the loop's
    /// result channel.
    pub fn new(sender: tokio::sync::mpsc::Sender<Resume<E, K>>) -> (r: Self)
        ensures
            r.spec_sender() == sender,
    {
        Jobs { sender }
    }

    /// The sending half of the loop's result channel: a job pushes its
    /// callback, wrapped as [`Resume::JobCallback`], through a clone of it.
    pub fn sender(&self) -> (r: &tokio::sync::mpsc::Sender<Resume<E, K>>)
        ensures
            *r == self.spec_sender(),
    {
        &self.sender
    }
}

} // verus!
