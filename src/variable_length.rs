use vstd::prelude::*;
use crate::error::Error;
use crate::source::ByteSource;

verus! {

/// A cursor over the value stream of a variable-width column: each call
/// takes the next `length` bytes, never re-reading or skipping any.
pub struct Values {
    src: ByteSource,
}

impl Values {
    pub closed spec fn wf(&self) -> bool {
        self.src.wf()
    }

    /// The bytes not yet taken.
    pub closed spec fn rest(&self) -> Seq<u8> {
        self.src.rest()
    }

    pub fn new(src: ByteSource) -> (r: Values)
        requires
            src.wf(),
        ensures
            r.wf(),
            r.rest() == src.rest(),
    {
        Values { src }
    }

    /// Number of bytes not yet taken.
    pub fn remaining(&self) -> (r: usize)
        requires
            self.wf(),
        ensures
            r == self.rest().len(),
    {
        self.src.remaining()
    }

    /// Takes the next `length` bytes; fails, taking nothing, when fewer remain.
    pub fn next(&mut self, length: usize) -> (r: Result<Vec<u8>, Error>)
        requires
            old(self).wf(),
        ensures
            final(self).wf(),
            length > old(self).rest().len() ==> (r matches Err(Error::UnexpectedEof))
                && final(self).rest() == old(self).rest(),
            length <= old(self).rest().len() ==> (r matches Ok(v) && v@ == old(self).rest().take(length as int))
                && final(self).rest() == old(self).rest().skip(length as int),
    {
        self.src.read_exact(length)
    }
}

} // verus!
