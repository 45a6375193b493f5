use vstd::prelude::*;
use vstd::std_specs::iter::IteratorSpec;
use crate::command::Command;

verus! {

/// Commands kept in the order they were added; the commands may carry
/// payloads of different types.
#[verifier::reject_recursive_types(Ctx)]
pub struct CommandList<Ctx> {
    list: Vec<Box<dyn Command<Ctx>>>,
}

impl<Ctx> CommandList<Ctx> {
    /// The commands, first added first.
    pub closed spec fn view(&self) -> Seq<Box<dyn Command<Ctx>>> {
        self.list@
    }

    pub fn new() -> (r: Self)
        ensures
            r@ == Seq::<Box<dyn Command<Ctx>>>::empty(),
    {
        CommandList { list: Vec::new() }
    }

    /// Puts `cmd` behind the commands already in the list.
    pub fn add(&mut self, cmd: Box<dyn Command<Ctx>>)
        ensures
            final(self)@ == old(self)@.push(cmd),
    {
        self.list.push(cmd);
    }

    pub fn len(&self) -> (r: usize)
        ensures
            r == self@.len(),
    {
        self.list.len()
    }

    /// Empties the list, handing out its commands in the order they were added.
    pub fn into_commands(self) -> (r: Vec<Box<dyn Command<Ctx>>>)
        ensures
            r@ == self@,
    {
        self.list
    }
}

impl<Ctx> IntoIterator for CommandList<Ctx> {
    type Item = Box<dyn Command<Ctx>>;

    type IntoIter = std::vec::IntoIter<Box<dyn Command<Ctx>>>;

    /// Hands out the commands one by one, in the order they were added.
    fn into_iter(self) -> (r: Self::IntoIter)
        ensures
            r.remaining() == self@,
    {
        self.list.into_iter()
    }
}

} // verus!
