//! Systems made from functions.
use std::marker::PhantomData;
use vstd::prelude::*;

verus! {

/// A function kept for running later as a system. `Params` names the
/// parameters that the function takes.
pub struct FunctionSystem<F, Params> {
    func: F,
    _params: PhantomData<Params>,
}

impl<F, Params> FunctionSystem<F, Params> {
    /// The function that the system runs.
    pub closed spec fn func(&self) -> F {
        self.func
    }

    /// The system that runs `func`.
    pub fn new(func: F) -> (system: Self)
        ensures
            system.func() == func,
    {
        Self { func, _params: PhantomData }
    }

    /// The function of the system, for calling it.
    pub fn func_mut(&mut self) -> (func: &mut F)
        ensures
            *func == old(self).func(),
            final(self).func() == *final(func),
    {
        &mut self.func
    }
}

/// The system that runs `func`.
pub fn system<F, Params>(func: F) -> (system: FunctionSystem<F, Params>)
    ensures
        system.func() == func,
{
    FunctionSystem::new(func)
}

} // verus!
