//! Work that is put together in one place and carried out in another.

use vstd::prelude::*;

verus! {

/// A piece of work that any thread may carry out, and that gives an `R`.
pub trait Task<R>: Sized {
    /// What carries out the work when it is called.
    type Op: FnOnce() -> R + Send;

    /// What carries out the work when it is called.
    spec fn op(self) -> Self::Op;

    /// Whether the work can be carried out.
    spec fn is_ready(self) -> bool;

    /// Whether `r` can come of the work.
    spec fn gives(self, r: R) -> bool;

    /// Unpacks what carries out the work.
    fn into_op(self) -> (op: Self::Op)
        ensures
            op == self.op(),
            self.is_ready() ==> call_requires(op, ()),
            forall|r: R| #[trigger] call_ensures(op, (), r) ==> self.gives(r),
    ;
}

/// A call that is packed as a [`Task`].
pub struct Packed<OP> {
    /// What is called.
    pub op: OP,
}

impl<R, OP: FnOnce() -> R + Send> Task<R> for Packed<OP> {
    type Op = OP;

    open spec fn op(self) -> OP {
        self.op
    }

    open spec fn is_ready(self) -> bool {
        call_requires(self.op, ())
    }

    open spec fn gives(self, r: R) -> bool {
        call_ensures(self.op, (), r)
    }

    fn into_op(self) -> (op: OP) {
        self.op
    }
}

/// Packs `op` as a [`Task`].
fn pack<R, OP: FnOnce() -> R + Send>(op: OP) -> (task: Packed<OP>)
    ensures
        <Packed<OP> as Task<R>>::is_ready(task) == call_requires(op, ()),
        forall|r: R| #[trigger]
            <Packed<OP> as Task<R>>::gives(task, r) == call_ensures(op, (), r),
{
    Packed { op }
}

/// The task of calling `f` on `a` and `b`.
pub fn deferred<A: Send, B: Send, R, F: FnOnce(A, B) -> R + Send>(f: F, a: A, b: B) -> (task:
    impl Task<R>)
    requires
        call_requires(f, (a, b)),
    ensures
        task.is_ready(),
        forall|r: R| #[trigger] task.gives(r) ==> call_ensures(f, (a, b), r),
{
    let op = move || -> (r: R)
        ensures
            call_ensures(f, (a, b), r),
        { f(a, b) };
    pack(op)
}

} // verus!
