use vstd::prelude::*;

verus! {

/// A unit of user code that a registry calls on every invocation.
///
/// At the specification level a callback is characterised by `observed`: the
/// sequence of argument values it has been called with, oldest first. `call`
/// must extend that sequence by exactly the argument it was given, which is
/// what lets a registry promise that an invocation reaches every registered
/// callback exactly once.
pub trait Callback<Args>: Sized {
    /// The argument values this callback has been called with, oldest first.
    spec fn observed(&self) -> Seq<Args>;

    /// Run the callback on `args`.
    fn call(&mut self, args: &Args)
        ensures
            final(self).observed() == old(self).observed().push(*args),
    ;
}

/// A callback that stores every value it is called with.
pub struct Recorder<T> {
    log: Vec<T>,
}

impl<T: Copy> Callback<T> for Recorder<T> {
    closed spec fn observed(&self) -> Seq<T> {
        self.log@
    }

    fn call(&mut self, args: &T) {
        self.log.push(*args);
    }
}

impl<T: Copy> Recorder<T> {
    /// A recorder that has seen nothing yet.
    pub fn new() -> (r: Self)
        ensures
            r.observed() == Seq::<T>::empty(),
    {
        Recorder { log: Vec::new() }
    }

    /// The values recorded so far, oldest first.
    pub fn values(&self) -> (r: &Vec<T>)
        ensures
            r@ == self.observed(),
    {
        &self.log
    }
}

} // verus!
