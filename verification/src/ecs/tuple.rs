//! Type-level tuple building: a component type put in front of a tuple of
//! others, for reading, for writing, or for both.
use vstd::prelude::*;

verus! {

/// The tuple with `T` put in front.
pub trait TupleAdd<T> {
    type Result;
}

/// The tuple of types that are read: a shared reference puts its type in
/// front, an exclusive one leaves the tuple as it is.
pub trait TupleAddRef<T> {
    type Result;
}

/// The tuple of types that are written: an exclusive reference puts its type
/// in front, a shared one leaves the tuple as it is.
pub trait TupleAddMut<T> {
    type Result;
}

impl<A> TupleAdd<A> for () {
    type Result = (A,);
}

impl<'a, A> TupleAddRef<&'a A> for () {
    type Result = (A,);
}

impl<'a, A> TupleAddRef<&'a mut A> for () {
    type Result = ();
}

impl<'a, A> TupleAddMut<&'a mut A> for () {
    type Result = (A,);
}

impl<'a, A> TupleAddMut<&'a A> for () {
    type Result = ();
}

impl<A, B> TupleAdd<A> for (B,) {
    type Result = (A, B);
}

impl<'a, A, B> TupleAddRef<&'a A> for (B,) {
    type Result = (A, B);
}

impl<'a, A, B> TupleAddRef<&'a mut A> for (B,) {
    type Result = (B,);
}

impl<'a, A, B> TupleAddMut<&'a mut A> for (B,) {
    type Result = (A, B);
}

impl<'a, A, B> TupleAddMut<&'a A> for (B,) {
    type Result = (B,);
}

impl<A, B, C> TupleAdd<A> for (B, C) {
    type Result = (A, B, C);
}

impl<'a, A, B, C> TupleAddRef<&'a A> for (B, C) {
    type Result = (A, B, C);
}

impl<'a, A, B, C> TupleAddRef<&'a mut A> for (B, C) {
    type Result = (B, C);
}

impl<'a, A, B, C> TupleAddMut<&'a mut A> for (B, C) {
    type Result = (A, B, C);
}

impl<'a, A, B, C> TupleAddMut<&'a A> for (B, C) {
    type Result = (B, C);
}

impl<A, B, C, D> TupleAdd<A> for (B, C, D) {
    type Result = (A, B, C, D);
}

impl<'a, A, B, C, D> TupleAddRef<&'a A> for (B, C, D) {
    type Result = (A, B, C, D);
}

impl<'a, A, B, C, D> TupleAddRef<&'a mut A> for (B, C, D) {
    type Result = (B, C, D);
}

impl<'a, A, B, C, D> TupleAddMut<&'a mut A> for (B, C, D) {
    type Result = (A, B, C, D);
}

impl<'a, A, B, C, D> TupleAddMut<&'a A> for (B, C, D) {
    type Result = (B, C, D);
}

impl<A, B, C, D, E> TupleAdd<A> for (B, C, D, E) {
    type Result = (A, B, C, D, E);
}

impl<'a, A, B, C, D, E> TupleAddRef<&'a A> for (B, C, D, E) {
    type Result = (A, B, C, D, E);
}

impl<'a, A, B, C, D, E> TupleAddRef<&'a mut A> for (B, C, D, E) {
    type Result = (B, C, D, E);
}

impl<'a, A, B, C, D, E> TupleAddMut<&'a mut A> for (B, C, D, E) {
    type Result = (A, B, C, D, E);
}

impl<'a, A, B, C, D, E> TupleAddMut<&'a A> for (B, C, D, E) {
    type Result = (B, C, D, E);
}

impl<A, B, C, D, E, F> TupleAdd<A> for (B, C, D, E, F) {
    type Result = (A, B, C, D, E, F);
}

impl<'a, A, B, C, D, E, F> TupleAddRef<&'a A> for (B, C, D, E, F) {
    type Result = (A, B, C, D, E, F);
}

impl<'a, A, B, C, D, E, F> TupleAddRef<&'a mut A> for (B, C, D, E, F) {
    type Result = (B, C, D, E, F);
}

impl<'a, A, B, C, D, E, F> TupleAddMut<&'a mut A> for (B, C, D, E, F) {
    type Result = (A, B, C, D, E, F);
}

impl<'a, A, B, C, D, E, F> TupleAddMut<&'a A> for (B, C, D, E, F) {
    type Result = (B, C, D, E, F);
}

impl<A, B, C, D, E, F, G> TupleAdd<A> for (B, C, D, E, F, G) {
    type Result = (A, B, C, D, E, F, G);
}

impl<'a, A, B, C, D, E, F, G> TupleAddRef<&'a A> for (B, C, D, E, F, G) {
    type Result = (A, B, C, D, E, F, G);
}

impl<'a, A, B, C, D, E, F, G> TupleAddRef<&'a mut A> for (B, C, D, E, F, G) {
    type Result = (B, C, D, E, F, G);
}

impl<'a, A, B, C, D, E, F, G> TupleAddMut<&'a mut A> for (B, C, D, E, F, G) {
    type Result = (A, B, C, D, E, F, G);
}

impl<'a, A, B, C, D, E, F, G> TupleAddMut<&'a A> for (B, C, D, E, F, G) {
    type Result = (B, C, D, E, F, G);
}

impl<A, B, C, D, E, F, G, H> TupleAdd<A> for (B, C, D, E, F, G, H) {
    type Result = (A, B, C, D, E, F, G, H);
}

impl<'a, A, B, C, D, E, F, G, H> TupleAddRef<&'a A> for (B, C, D, E, F, G, H) {
    type Result = (A, B, C, D, E, F, G, H);
}

impl<'a, A, B, C, D, E, F, G, H> TupleAddRef<&'a mut A> for (B, C, D, E, F, G, H) {
    type Result = (B, C, D, E, F, G, H);
}

impl<'a, A, B, C, D, E, F, G, H> TupleAddMut<&'a mut A> for (B, C, D, E, F, G, H) {
    type Result = (A, B, C, D, E, F, G, H);
}

impl<'a, A, B, C, D, E, F, G, H> TupleAddMut<&'a A> for (B, C, D, E, F, G, H) {
    type Result = (B, C, D, E, F, G, H);
}

} // verus!
