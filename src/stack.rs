use vstd::prelude::*;

verus! {

/// Number of return addresses the call stack holds.
pub const STACK_DEPTH: usize = 16;

/// The call stack: up to sixteen return addresses, most recent last.
#[derive(Debug)]
pub struct Stack {
    contents: Vec<u16>,
}

impl View for Stack {
    type V = Seq<u16>;

    closed spec fn view(&self) -> Seq<u16> {
        self.contents@
    }
}

impl Stack {
    pub open spec fn wf(&self) -> bool {
        self@.len() <= STACK_DEPTH
    }

    /// An empty stack.
    pub fn new() -> (s: Stack)
        ensures
            s.wf(),
            s@ == Seq::<u16>::empty(),
    {
        Stack { contents: Vec::new() }
    }

    /// Number of addresses on the stack.
    pub fn len(&self) -> (n: usize)
        ensures
            n == self@.len(),
    {
        self.contents.len()
    }

    /// Pushes a return address. A full stack is a fatal condition that the
    /// caller rules out first.
    pub fn push(&mut self, data: u16)
        requires
            old(self).wf(),
            old(self)@.len() < STACK_DEPTH,
        ensures
            final(self).wf(),
            final(self)@ == old(self)@.push(data),
    {
        self.contents.push(data);
    }

    /// Pops the most recent return address. An empty stack is a fatal
    /// condition that the caller rules out first.
    pub fn pop(&mut self) -> (r: u16)
        requires
            old(self).wf(),
            old(self)@.len() > 0,
        ensures
            final(self).wf(),
            r == old(self)@.last(),
            final(self)@ == old(self)@.drop_last(),
    {
        self.contents.pop().unwrap()
    }
}

impl Default for Stack {
    fn default() -> (s: Stack)
        ensures
            s.wf(),
            s@ == Seq::<u16>::empty(),
    {
        Stack::new()
    }
}

} // verus!
