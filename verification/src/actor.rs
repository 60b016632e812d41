//! Replica identities and the causal identifiers they issue.

use vstd::prelude::*;

verus! {

/// An identifier for a replica that originates operations.
///
/// The counters are generic over the identifier type and ask only for a
/// decidable equality and the ability to duplicate a value. Equality is
/// specified through a ghost identity, `id`: two values name the same actor
/// exactly when their identities coincide. This leaves room for types, such
/// as `String`, whose runtime equality compares contents rather than
/// machine representation.
pub trait Actor: Sized {
    /// The mathematical identity of an actor; contracts and counter models
    /// are stated over values of this type.
    type Id;

    /// The identity this value names.
    spec fn id(&self) -> Self::Id;

    /// Decides whether two values name the same actor.
    fn actor_eq(&self, other: &Self) -> (r: bool)
        ensures
            r == (self.id() == other.id()),
    ;

    /// Produces another value naming the same actor.
    fn dup(&self) -> (r: Self)
        ensures
            r.id() == self.id(),
    ;
}

impl Actor for String {
    type Id = Seq<char>;

    open spec fn id(&self) -> Seq<char> {
        self@
    }

    fn actor_eq(&self, other: &Self) -> (r: bool) {
        *self == *other
    }

    fn dup(&self) -> (r: Self) {
        self.clone()
    }
}

impl Actor for u64 {
    type Id = u64;

    open spec fn id(&self) -> u64 {
        *self
    }

    fn actor_eq(&self, other: &Self) -> (r: bool) {
        *self == *other
    }

    fn dup(&self) -> (r: Self) {
        *self
    }
}

/// A causal identifier: one actor together with the cumulative number of
/// operations that actor has issued.
///
/// For a fixed actor, honestly issued dots carry strictly increasing
/// counters; dots from different actors are never compared.
#[derive(Clone, Debug)]
pub struct Dot<A: Actor> {
    /// The actor that issued this dot.
    pub actor: A,
    /// The cumulative count of operations issued by `actor`.
    pub counter: u64,
}

} // verus!
