use vstd::prelude::*;

use crate::action::Action;
use crate::types::Caller;

verus! {

/// The setting of a call: the fork that it changes, who makes it, and the actions that it
/// leaves for the dispatcher.
pub struct ExecutionContext<'a, F> {
    pub fork: &'a mut F,
    pub caller: Caller,
    pub actions: Vec<Action>,
}

/// What a context holds at one time.
#[verifier::ext_equal]
pub struct ContextState<F> {
    pub fork: F,
    pub caller: Caller,
    pub actions: Seq<Action>,
}

impl<F> ContextState<F> {
    /// The context with another fork in it.
    pub open spec fn with_fork(self, fork: F) -> Self {
        ContextState { fork, ..self }
    }
}

impl<'a, F> View for ExecutionContext<'a, F> {
    type V = ContextState<F>;

    open spec fn view(&self) -> ContextState<F> {
        ContextState { fork: *self.fork, caller: self.caller, actions: self.actions@ }
    }
}

impl<'a, F> ExecutionContext<'a, F> {
    /// A context without actions.
    pub fn new(fork: &'a mut F, caller: Caller) -> (context: Self)
        ensures
            context@ == (ContextState { fork: *old(fork), caller, actions: Seq::empty() }),
            *final(context.fork) == *final(fork),
    {
        ExecutionContext { fork, caller, actions: Vec::new() }
    }

    /// Takes the actions out of the context.
    pub fn take_actions(&mut self) -> (actions: Vec<Action>)
        ensures
            actions@ == old(self)@.actions,
            final(self)@ == (ContextState { actions: Seq::empty(), ..old(self)@ }),
            *final(final(self).fork) == *final(old(self).fork),
    {
        let mut actions: Vec<Action> = Vec::new();
        std::mem::swap(&mut self.actions, &mut actions);
        actions
    }
}

} // verus!
