//! Deferred results, as the `futures` crate builds them.
//!
//! Of a future the library speaks only through the value that it resolves
//! to, written `f@`.
use vstd::prelude::*;
use vstd::future::FutureAdditionalSpecFns;
use std::future::Future;
use futures::future::{Either, FutureExt, Ready};

verus! {

/// Trusted: the type `futures::future::Ready`, of which nothing is known here.
#[verifier::external_type_specification]
#[verifier::external_body]
#[verifier::reject_recursive_types(T)]
pub struct ExReady<T>(futures::future::Ready<T>);

/// Trusted: the type `futures::future::Either`, of which nothing is known
/// here.
#[verifier::external_type_specification]
#[verifier::external_body]
#[verifier::reject_recursive_types(A)]
#[verifier::reject_recursive_types(B)]
pub struct ExEither<A, B>(futures::future::Either<A, B>);

/// Trusted: the type `futures::future::Map`, of which nothing is known here.
#[verifier::external_type_specification]
#[verifier::external_body]
#[verifier::reject_recursive_types(Fut)]
#[verifier::reject_recursive_types(F)]
pub struct ExMap<Fut, F>(futures::future::Map<Fut, F>);

/// Trusted: `futures::future::FutureExt::map`, a future that hands the
/// output of the inner future to a function. The contract says that it
/// resolves to what the function returns for the value that the inner future
/// resolves to; the function must accept that value.
#[verifier::external_body]
pub(crate) fn mapped<T, F: Future, G: FnOnce(F::Output) -> T>(inner: F, then: G) -> (outer:
    futures::future::Map<F, G>)
    requires
        call_requires(then, (inner@,)),
    ensures
        call_ensures(then, (inner@,), outer@),
{
    inner.map(then)
}

/// Trusted: `futures::future::ready`, a future that is complete from the
/// start. The contract says that it resolves to the value given.
#[verifier::external_body]
pub(crate) fn ready<T>(value: T) -> (done: Ready<T>)
    ensures
        done@ == value,
{
    futures::future::ready(value)
}

/// Trusted: `futures::future::Either::Left`. Polling the `Either` polls the
/// future inside, so the contract says that both resolve to the same value.
#[verifier::external_body]
pub(crate) fn left<T, A: Future<Output = T>, B: Future<Output = T>>(inner: A) -> (either: Either<
    A,
    B,
>)
    ensures
        either@ == inner@,
{
    Either::Left(inner)
}

/// Trusted: `futures::future::Either::Right`. Polling the `Either` polls the
/// future inside, so the contract says that both resolve to the same value.
#[verifier::external_body]
pub(crate) fn right<T, A: Future<Output = T>, B: Future<Output = T>>(inner: B) -> (either: Either<
    A,
    B,
>)
    ensures
        either@ == inner@,
{
    Either::Right(inner)
}

} // verus!
