use vstd::prelude::*;

verus! {

/// A decompressed stream: the bytes in memory and a cursor over them.
pub struct ByteSource {
    data: Vec<u8>,
    pos: usize,
}

impl ByteSource {
    /// The well-formedness condition: the cursor lies within the bytes.
    pub closed spec fn wf(&self) -> bool {
        self.pos <= self.data@.len()
    }

    /// The bytes not yet read.
    pub closed spec fn rest(&self) -> Seq<u8> {
        self.data@.subrange(self.pos as int, self.data@.len() as int)
    }

    pub fn new(data: Vec<u8>) -> (r: ByteSource)
        ensures
            r.wf(),
            r.rest() == data@,
    {
        let r = ByteSource { data, pos: 0 };
        assert(r.rest() =~= r.data@);
        r
    }

    /// Number of bytes not yet read.
    pub fn remaining(&self) -> (r: usize)
        requires
            self.wf(),
        ensures
            r == self.rest().len(),
    {
        self.data.len() - self.pos
    }

    /// Reads one byte; fails when the stream is exhausted.
    pub fn read_byte(&mut self) -> (r: Result<u8, crate::error::Error>)
        requires
            old(self).wf(),
        ensures
            final(self).wf(),
            old(self).rest().len() == 0 ==> r is Err && final(self).rest() == old(self).rest(),
            old(self).rest().len() > 0 ==> r == Ok::<u8, crate::error::Error>(old(self).rest()[0])
                && final(self).rest() == old(self).rest().drop_first(),
    {
        if self.pos < self.data.len() {
            let b = self.data[self.pos];
            self.pos = self.pos + 1;
            assert(self.rest() =~= old(self).rest().drop_first());
            Ok(b)
        } else {
            Err(crate::error::Error::UnexpectedEof)
        }
    }

    /// Reads exactly `n` bytes; fails, reading nothing, when fewer remain.
    pub fn read_exact(&mut self, n: usize) -> (r: Result<Vec<u8>, crate::error::Error>)
        requires
            old(self).wf(),
        ensures
            final(self).wf(),
            n > old(self).rest().len() ==> (r matches Err(crate::error::Error::UnexpectedEof)) && final(self).rest() == old(self).rest(),
            n <= old(self).rest().len() ==> r is Ok
                && r.unwrap()@ == old(self).rest().take(n as int)
                && final(self).rest() == old(self).rest().skip(n as int),
    {
        if n > self.data.len() - self.pos {
            return Err(crate::error::Error::UnexpectedEof);
        }
        let mut out: Vec<u8> = Vec::with_capacity(n);
        let start = self.pos;
        let len = self.data.len();
        let mut i: usize = 0;
        while i < n
            invariant
                start + n <= self.data@.len(),
                len == self.data@.len(),
                self.data == old(self).data,
                self.pos == start,
                start == old(self).pos,
                i <= n,
                out@ == self.data@.subrange(start as int, start + i),
            decreases n - i,
        {
            out.push(self.data[start + i]);
            i = i + 1;
            assert(out@ =~= self.data@.subrange(start as int, start + i));
        }
        self.pos = start + n;
        assert(out@ =~= old(self).rest().take(n as int));
        assert(self.rest() =~= old(self).rest().skip(n as int));
        Ok(out)
    }
}

} // verus!
