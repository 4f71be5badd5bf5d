//! Functions on references, on their way to the pool that maps them over many.

use vstd::prelude::*;

use super::parallel::ComputePool;

verus! {

/// A function on references to an `X`, which gives a `T`, to be mapped over many by a pool.
pub trait Mapping<'a, X: 'a + Sync, T: Send>: Sized {
    /// Whether the function can be called on a reference to `x`.
    spec fn accepts(self, x: X) -> bool;

    /// Whether `t` can come of calling the function on a reference to `x`.
    spec fn gives(self, x: X, t: T) -> bool;

    /// Whether `out` is what came of having `pool` map the function over `items`.
    spec fn mapped_by(self, pool: ComputePool, items: &[&'a X], out: Vec<T>) -> bool;

    /// Has `pool` map the function over `items`.
    fn map_by(self, pool: &ComputePool, items: &[&'a X]) -> (out: Vec<T>)
        requires
            forall|i: int| 0 <= i < items@.len() ==> self.accepts(*#[trigger] items@[i]),
        ensures
            self.mapped_by(*pool, items, out),
            out@.len() == items@.len(),
            forall|i: int| 0 <= i < items@.len() ==> self.gives(*items@[i], #[trigger] out@[i]),
    ;
}

/// A call that is ready to be mapped.
pub struct Mapped<C> {
    /// What is called.
    pub call: C,
}

impl<'a, X: 'a + Sync, T: Send, C: Fn(&&'a X) -> T + Sync> Mapping<'a, X, T> for Mapped<C> {
    open spec fn accepts(self, x: X) -> bool {
        call_requires(self.call, (&&x,))
    }

    open spec fn gives(self, x: X, t: T) -> bool {
        call_ensures(self.call, (&&x,), t)
    }

    open spec fn mapped_by(self, pool: ComputePool, items: &[&'a X], out: Vec<T>) -> bool {
        call_ensures(ComputePool::map, (&pool, items, self.call), out)
    }

    fn map_by(self, pool: &ComputePool, items: &[&'a X]) -> (out: Vec<T>) {
        pool.map(items, self.call)
    }
}

/// Gets `call` ready to be mapped.
fn mapping<'a, X: 'a + Sync, T: Send, C: Fn(&&'a X) -> T + Sync>(call: C) -> (mapped: Mapped<C>)
    ensures
        forall|x: X| #[trigger]
            <Mapped<C> as Mapping<'a, X, T>>::accepts(mapped, x) == call_requires(call, (&&x,)),
        forall|x: X, t: T| #[trigger]
            <Mapped<C> as Mapping<'a, X, T>>::gives(mapped, x, t) == call_ensures(call, (&&x,), t),
{
    Mapped { call }
}

/// The function that calls `f` on what a reference refers to.
pub fn on_references<'a, X: 'a + Sync, T: Send, F: Fn(&X) -> T + Sync>(f: &'a F) -> (mapped:
    impl Mapping<'a, X, T>)
    ensures
        forall|x: X| call_requires(*f, (&x,)) ==> #[trigger] mapped.accepts(x),
        forall|x: X, t: T| #[trigger] mapped.gives(x, t) ==> call_ensures(*f, (&x,), t),
{
    mapping(
        move |x: &&'a X| -> (t: T)
            requires
                call_requires(*f, (*x,)),
            ensures
                call_ensures(*f, (*x,), t),
            { f(*x) })
}

/// A function that a pool mapped over items was handed to [`ComputePool::map`], with that pool and
/// those items, and what came back is the result.
pub proof fn law_mapping_is_mapping_by_the_pool<
    'a,
    X: 'a + Sync,
    T: Send,
    C: Fn(&&'a X) -> T + Sync,
>(mapped: Mapped<C>, pool: &ComputePool, items: &[&'a X], out: Vec<T>)
    requires
        <Mapped<C> as Mapping<'a, X, T>>::mapped_by(mapped, *pool, items, out),
    ensures
        call_ensures(ComputePool::map, (pool, items, mapped.call), out),
{
}

} // verus!
