use vstd::prelude::*;

verus! {

/// An object that runs a routine against a context it does not own.
///
/// The context is handed in at each call instead of being kept inside the
/// command, so that commands never hold a borrow of the state they change.
pub trait Command<Context> {
    /// Runs the routine on `ctx`. A failure inside it reaches the caller
    /// as it is.
    fn exec(&self, ctx: &mut Context);
}

/// An object that carries a payload, fixed when it was made.
pub trait PayloadAware<Payload> {
    spec fn payload(&self) -> Payload;

    fn get_payload(&self) -> (r: &Payload)
        ensures
            *r == self.payload(),
    ;
}

/// A command that also exposes its payload; every type that is both is one.
pub trait PayloadCommand<Context, Payload>: Command<Context> + PayloadAware<Payload> {

}

impl<Context, Payload, T: Command<Context> + PayloadAware<Payload>> PayloadCommand<
    Context,
    Payload,
> for T {

}

impl<Context, Payload> Command<Context> for Box<dyn PayloadCommand<Context, Payload>> {
    fn exec(&self, ctx: &mut Context) {
        (**self).exec(ctx)
    }
}

impl<Context, Payload> PayloadAware<Payload> for Box<dyn PayloadCommand<Context, Payload>> {
    open spec fn payload(&self) -> Payload {
        (**self).payload()
    }

    fn get_payload(&self) -> (r: &Payload) {
        (**self).get_payload()
    }
}

/// A command made of a function and the payload it is applied with.
pub struct CommandPayload<F, Context, Payload> where F: Fn(&mut Context, &Payload) {
    func: F,
    payload: Payload,
    context: core::marker::PhantomData<Context>,
}

impl<F, Context, Payload> CommandPayload<F, Context, Payload> where
    F: Fn(&mut Context, &Payload),
 {
    #[verifier::type_invariant]
    spec fn callable(self) -> bool {
        forall|c: &mut Context, p: &Payload| call_requires(self.func, (c, p))
    }

    /// The function that the command applies.
    pub closed spec fn function(&self) -> F {
        self.func
    }

    /// Binds `func` to `payload`. No method changes the payload afterwards;
    /// running the command calls `func` with the context and the payload.
    pub fn new(func: F, payload: Payload) -> (r: Self)
        requires
            forall|c: &mut Context, p: &Payload| call_requires(func, (c, p)),
        ensures
            r.payload() == payload,
            r.function() == func,
    {
        CommandPayload { func, payload, context: core::marker::PhantomData }
    }
}

impl<F, Context, Payload> Command<Context> for CommandPayload<F, Context, Payload> where
    F: Fn(&mut Context, &Payload),
 {
    /// Calls the stored function once, with the context and the stored
    /// payload; the context ends as that call leaves it.
    fn exec(&self, ctx: &mut Context)
        ensures
            exists|m: &mut Context|
                call_ensures(self.function(), (m, &self.payload()), ()) && *m == *old(ctx) && *final(m)
                    == *final(ctx),
    {
        proof {
            use_type_invariant(self);
        }
        (self.func)(ctx, &self.payload);
    }
}

impl<F, Context, Payload> PayloadAware<Payload> for CommandPayload<F, Context, Payload> where
    F: Fn(&mut Context, &Payload),
 {
    closed spec fn payload(&self) -> Payload {
        self.payload
    }

    fn get_payload(&self) -> (r: &Payload) {
        &self.payload
    }
}

} // verus!
