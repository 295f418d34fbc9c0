//! The accessor abstraction: a pure, composable read of a field that may be
//! absent, optionally paired with a write to the same field.

use vstd::prelude::*;
use core::marker::PhantomData;

verus! {

/// A typed accessor from a root `T` to a field `V` that may be absent.
///
/// Absence is an outcome, not a fault: `get` returns `None` and never panics.
pub trait KeyPath<T, V> {
    /// The field this accessor reaches in `data`, or `None` when it is absent.
    spec fn read(&self, data: T) -> Option<V>;

    /// Reads the field.
    fn get<'a>(&'a self, data: &'a T) -> (r: Option<&'a V>)
        ensures
            r is Some <==> self.read(*data) is Some,
            r matches Some(v) ==> *v == self.read(*data)->0,
    ;
}

/// An accessor that can also write the field it reads.
pub trait WritableKeyPath<T, V>: KeyPath<T, V> {
    /// The root after the field this accessor reaches was replaced by `value`.
    spec fn write(&self, data: T, value: V) -> T;

    /// Borrows the field for writing. The borrow is of the field `get` reads:
    /// it starts out holding what `get` returns, and the root ends up as
    /// `write` says for whatever the borrow holds at last.
    fn get_mut<'a>(&'a self, data: &'a mut T) -> (r: Option<&'a mut V>)
        ensures
            r is Some <==> self.read(*old(data)) is Some,
            r matches Some(v) ==> *v == self.read(*old(data))->0 && *final(data) == self.write(
                *old(data),
                *final(v),
            ),
            r is None ==> *final(data) == *old(data),
    ;

    /// Writing back what was read changes nothing.
    proof fn write_back_law(&self, data: T)
        requires
            self.read(data) is Some,
        ensures
            self.write(data, self.read(data)->0) == data,
    ;

    /// A field that is present stays present when written, and holds what was written.
    proof fn read_written_law(&self, data: T, value: V)
        requires
            self.read(data) is Some,
        ensures
            self.read(self.write(data, value)) == Some(value),
    ;
}

/// The accessor that reaches the root itself.
pub struct Identity;

impl<T> KeyPath<T, T> for Identity {
    open spec fn read(&self, data: T) -> Option<T> {
        Some(data)
    }

    fn get<'a>(&'a self, data: &'a T) -> (r: Option<&'a T>) {
        Some(data)
    }
}

impl<T> WritableKeyPath<T, T> for Identity {
    open spec fn write(&self, data: T, value: T) -> T {
        value
    }

    fn get_mut<'a>(&'a self, data: &'a mut T) -> (r: Option<&'a mut T>) {
        Some(data)
    }

    proof fn write_back_law(&self, data: T) {
    }

    proof fn read_written_law(&self, data: T, value: T) {
    }
}

/// Two accessors in sequence: `first` from the root to `M`, and `second` from `M` to the field.
pub struct Composed<P, Q, M> {
    pub first: P,
    pub second: Q,
    pub middle: PhantomData<M>,
}

impl<S, M, V, P: KeyPath<S, M>, Q: KeyPath<M, V>> KeyPath<S, V> for Composed<P, Q, M> {
    /// Absence at either step is absence of the whole; `second` is not consulted
    /// when `first` finds nothing.
    open spec fn read(&self, data: S) -> Option<V> {
        match self.first.read(data) {
            Some(m) => self.second.read(m),
            None => None,
        }
    }

    fn get<'a>(&'a self, data: &'a S) -> (r: Option<&'a V>) {
        match self.first.get(data) {
            Some(m) => self.second.get(m),
            None => None,
        }
    }
}

impl<S, M, V, P: WritableKeyPath<S, M>, Q: WritableKeyPath<M, V>> WritableKeyPath<
    S,
    V,
> for Composed<P, Q, M> {
    open spec fn write(&self, data: S, value: V) -> S {
        match self.first.read(data) {
            Some(m) => self.first.write(data, self.second.write(m, value)),
            None => data,
        }
    }

    fn get_mut<'a>(&'a self, data: &'a mut S) -> (r: Option<&'a mut V>) {
        proof {
            if self.first.read(*data) is Some {
                self.first.write_back_law(*data);
            }
        }
        match self.first.get_mut(data) {
            Some(m) => self.second.get_mut(m),
            None => None,
        }
    }

    proof fn write_back_law(&self, data: S) {
        let m = self.first.read(data)->0;
        self.second.write_back_law(m);
        self.first.write_back_law(data);
    }

    proof fn read_written_law(&self, data: S, value: V) {
        let m = self.first.read(data)->0;
        self.second.read_written_law(m, value);
        self.first.read_written_law(data, self.second.write(m, value));
    }
}

/// Builds the accessor that applies `first` and, where it finds a value, `second` to it.
pub fn compose<S, M, V, P: KeyPath<S, M>, Q: KeyPath<M, V>>(first: P, second: Q) -> (c:
    Composed<P, Q, M>)
    ensures
        c.first == first,
        c.second == second,
{
    Composed { first, second, middle: PhantomData }
}

/// Writes `value` to the field, where it is present.
///
/// `true` exactly when the field is present; the root then is what `write`
/// says, and reading the field gives `value`. Where the field is absent the
/// root is left as it was.
pub fn set_field<T, V, K: WritableKeyPath<T, V>>(keypath: &K, data: &mut T, value: V) -> (written:
    bool)
    ensures
        written == keypath.read(*old(data)) is Some,
        written ==> *final(data) == keypath.write(*old(data), value) && keypath.read(*final(data))
            == Some(value),
        !written ==> *final(data) == *old(data),
{
    proof {
        if keypath.read(*data) is Some {
            keypath.read_written_law(*data, value);
        }
    }
    match keypath.get_mut(data) {
        Some(slot) => {
            *slot = value;
            true
        },
        None => false,
    }
}

/// Composing with the identity on the right changes nothing: the composite
/// reads exactly what the accessor itself reads, on every root.
pub proof fn law_identity_right<S, V, P: KeyPath<S, V>>(c: Composed<P, Identity, V>, data: S)
    ensures
        c.read(data) == c.first.read(data),
{
}

/// Composing with the identity on the left changes nothing.
pub proof fn law_identity_left<S, V, P: KeyPath<S, V>>(c: Composed<Identity, P, S>, data: S)
    ensures
        c.read(data) == c.second.read(data),
{
}

/// Composition is associative: however three accessors are bracketed, the
/// composite reads the same on every root, absent intermediate values included.
pub proof fn law_associative<S, A, B, V, P, Q, R>(
    left: Composed<Composed<P, Q, A>, R, B>,
    right: Composed<P, Composed<Q, R, B>, A>,
    data: S,
)
    where P: KeyPath<S, A>, Q: KeyPath<A, B>, R: KeyPath<B, V>
    requires
        left.first.first == right.first,
        left.first.second == right.second.first,
        left.second == right.second.second,
    ensures
        left.read(data) == right.read(data),
{
}

/// Absence propagates: where any step finds nothing, so does the composite.
pub proof fn law_absence_propagates<S, M, V, P: KeyPath<S, M>, Q: KeyPath<M, V>>(
    c: Composed<P, Q, M>,
    data: S,
)
    ensures
        c.first.read(data) is None ==> c.read(data) is None,
        c.first.read(data) matches Some(m) && c.second.read(m) is None ==> c.read(data) is None,
        c.read(data) is Some ==> c.first.read(data) is Some,
{
}

/// Writing through a composite is associative as reading is.
pub proof fn law_associative_write<S, A, B, V, P, Q, R>(
    left: Composed<Composed<P, Q, A>, R, B>,
    right: Composed<P, Composed<Q, R, B>, A>,
    data: S,
    value: V,
)
    where P: WritableKeyPath<S, A>, Q: WritableKeyPath<A, B>, R: WritableKeyPath<B, V>
    requires
        left.first.first == right.first,
        left.first.second == right.second.first,
        left.second == right.second.second,
    ensures
        left.write(data, value) == right.write(data, value),
{
    if right.first.read(data) is Some {
        right.first.write_back_law(data);
    }
}

} // verus!
