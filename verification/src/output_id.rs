use vstd::prelude::*;

verus! {

/// The identity of an output (a monitor).
#[derive(Clone, Copy, Debug, PartialEq, Eq, Hash, Structural)]
pub struct OutputId(pub u64);

/// The source of output identities: it remembers the last one handed out.
#[derive(Debug)]
pub struct OutputIdCounter {
    last: u64,
}

impl OutputIdCounter {
    pub closed spec fn spec_last(&self) -> u64 {
        self.last
    }

    /// A counter that has handed out nothing yet, so the first identity is 1.
    pub fn new() -> (c: OutputIdCounter)
        ensures
            c.spec_last() == 0,
    {
        OutputIdCounter { last: 0 }
    }
}

/// `id` was handed out by a counter that stood at `before` and then stands
/// at `after`: it is one more than the last identity before, and the counter
/// remembers it.
pub open spec fn handed_out(before: OutputIdCounter, id: OutputId, after: OutputIdCounter) -> bool {
    &&& id.0 == before.spec_last() + 1
    &&& after.spec_last() == id.0
}

/// Law: the identities a counter hands out are positive and never repeat;
/// each is greater than every earlier one, since the counter only grows.
pub proof fn lemma_ids_increase(c0: OutputIdCounter, a: OutputId, c1: OutputIdCounter, c2: OutputIdCounter, b: OutputId, c3: OutputIdCounter)
    requires
        handed_out(c0, a, c1),
        c1.spec_last() <= c2.spec_last(),
        handed_out(c2, b, c3),
    ensures
        a.0 >= 1,
        b.0 > a.0,
{
}

impl OutputId {
    /// The identity after the last one `counter` handed out.
    pub fn next(counter: &mut OutputIdCounter) -> (id: OutputId)
        requires
            old(counter).spec_last() < u64::MAX,
        ensures
            handed_out(*old(counter), id, *final(counter)),
    {
        counter.last = counter.last + 1;
        OutputId(counter.last)
    }
}

} // verus!
