use vstd::prelude::*;
use crate::error::Error;
use crate::source::ByteSource;

verus! {

/// The byte run at the start of `s` and the bytes it occupies. A control
/// byte below 128 repeats the next byte `control + 3` times; one of 128 or
/// more is followed by `256 - control` literal bytes.
pub open spec fn parse_byte_run(s: Seq<u8>) -> Option<(Seq<u8>, nat)> {
    if s.len() == 0 {
        None
    } else if s[0] < 128 {
        if s.len() < 2 {
            None
        } else {
            Some((Seq::new((s[0] + 3) as nat, |i: int| s[1]), 2nat))
        }
    } else {
        let k = 256 - s[0];
        if s.len() < 1 + k {
            None
        } else {
            Some((s.subrange(1, 1 + k), (1 + k) as nat))
        }
    }
}

/// All bytes of a byte run-length stream, and whether it ends cleanly.
pub open spec fn byte_items(s: Seq<u8>) -> (Seq<u8>, bool)
    decreases s.len(),
{
    if s.len() == 0 {
        (Seq::empty(), true)
    } else {
        match parse_byte_run(s) {
            Some((vs, n)) => if 0 < n <= s.len() {
                let r = byte_items(s.skip(n as int));
                (vs + r.0, r.1)
            } else {
                (Seq::empty(), false)
            },
            None => (Seq::empty(), false),
        }
    }
}

/// Bit `j` of `b`, counting from the most significant bit.
pub open spec fn bit_at(b: u8, j: int) -> bool {
    (b >> ((7 - j) as u8)) & 1u8 == 1u8
}

/// The eight bits of a byte, most significant first.
pub open spec fn byte_bits(b: u8) -> Seq<bool> {
    Seq::new(8, |j: int| bit_at(b, j))
}

/// The bits of a byte sequence, each byte most significant bit first.
pub open spec fn bits_of(s: Seq<u8>) -> Seq<bool>
    decreases s.len(),
{
    if s.len() == 0 {
        Seq::empty()
    } else {
        byte_bits(s[0]) + bits_of(s.drop_first())
    }
}

/// The first `rows` booleans of a stream whose bits are `bits`: all of them
/// when there are enough, else what there is and a failure.
pub open spec fn bool_items(bits: Seq<bool>, rows: nat) -> (Seq<bool>, bool) {
    if bits.len() >= rows {
        (bits.take(rows as int), true)
    } else {
        (bits, false)
    }
}

/// Reads the byte run at the start of the stream.
fn read_byte_run(src: &mut ByteSource) -> (r: Result<Vec<u8>, Error>)
    requires
        old(src).wf(),
    ensures
        final(src).wf(),
        match parse_byte_run(old(src).rest()) {
            Some((vs, n)) => r is Ok && r.unwrap()@ == vs && vs.len() > 0
                && 0 < n <= old(src).rest().len()
                && final(src).rest() == old(src).rest().skip(n as int),
            None => r is Err,
        },
{
    let ghost s0 = src.rest();
    let c = match src.read_byte() {
        Ok(c) => c,
        Err(e) => return Err(e),
    };
    if c < 128 {
        let b = match src.read_byte() {
            Ok(b) => b,
            Err(e) => return Err(e),
        };
        let count: usize = c as usize + 3;
        let mut out: Vec<u8> = Vec::new();
        let mut i: usize = 0;
        while i < count
            invariant
                i <= count,
                out@ == Seq::new(i as nat, |j: int| b),
            decreases count - i,
        {
            out.push(b);
            i = i + 1;
            assert(out@ =~= Seq::new(i as nat, |j: int| b));
        }
        assert(src.rest() =~= s0.skip(2));
        Ok(out)
    } else {
        let k: usize = 256 - c as usize;
        let r = src.read_exact(k);
        proof {
            if k + 1 <= s0.len() {
                assert(src.rest() =~= s0.skip(1 + k));
                assert(r.unwrap()@ =~= s0.subrange(1, 1 + k));
            }
        }
        r
    }
}

/// A lazy decoder of a byte run-length stream.
pub struct ByteRleDecoder {
    src: ByteSource,
    run: Vec<u8>,
    idx: usize,
    failed: bool,
}

impl ByteRleDecoder {
    pub closed spec fn wf(&self) -> bool {
        self.src.wf() && self.idx <= self.run@.len()
    }

    /// The bytes still to come, and whether the stream ends cleanly after them.
    pub closed spec fn items(&self) -> (Seq<u8>, bool) {
        if self.failed {
            (Seq::empty(), false)
        } else {
            let r = byte_items(self.src.rest());
            (self.run@.skip(self.idx as int) + r.0, r.1)
        }
    }

    pub fn new(src: ByteSource) -> (r: ByteRleDecoder)
        requires
            src.wf(),
        ensures
            r.wf(),
            r.items() == byte_items(src.rest()),
    {
        let r = ByteRleDecoder { src, run: Vec::new(), idx: 0, failed: false };
        assert(r.run@.skip(0) + byte_items(src.rest()).0 =~= byte_items(src.rest()).0);
        r
    }

    /// The next byte: `None` once the stream has ended cleanly, an error once
    /// a run cannot be decoded (and from then on).
    pub fn next(&mut self) -> (r: Option<Result<u8, Error>>)
        requires
            old(self).wf(),
        ensures
            final(self).wf(),
            old(self).items().0.len() > 0 ==> r == Some(Ok::<u8, Error>(old(self).items().0[0]))
                && final(self).items() == (old(self).items().0.drop_first(), old(self).items().1),
            old(self).items().0.len() == 0 && old(self).items().1 ==> r is None
                && final(self).items() == old(self).items(),
            old(self).items().0.len() == 0 && !old(self).items().1 ==> (r matches Some(Err(_)))
                && final(self).items() == (Seq::<u8>::empty(), false),
    {
        if self.failed {
            return Some(Err(Error::MalformedRun));
        }
        let ghost rest = byte_items(self.src.rest());
        if self.idx < self.run.len() {
            let v = self.run[self.idx];
            self.idx = self.idx + 1;
            assert(self.run@.skip(self.idx as int) + rest.0 =~= old(self).items().0.drop_first());
            return Some(Ok(v));
        }
        assert(self.run@.skip(self.idx as int) + rest.0 =~= rest.0);
        if self.src.remaining() == 0 {
            return None;
        }
        match read_byte_run(&mut self.src) {
            Ok(run) => {
                self.run = run;
                self.idx = 1;
                assert(self.run@.skip(1) + byte_items(self.src.rest()).0 =~= rest.0.drop_first());
                Some(Ok(self.run[0]))
            },
            Err(e) => {
                self.failed = true;
                Some(Err(e))
            },
        }
    }
}

/// A lazy decoder of a boolean stream: the bits of a byte run-length stream,
/// most significant bit first, capped at a row budget since the last byte may
/// be partly used.
pub struct BooleanDecoder {
    bytes: ByteRleDecoder,
    cur: u8,
    used: u8,
    remaining: usize,
    failed: bool,
}

impl BooleanDecoder {
    pub closed spec fn wf(&self) -> bool {
        self.bytes.wf() && self.used <= 8
    }

    /// The booleans still to come, and whether the stream holds all of them.
    pub closed spec fn items(&self) -> (Seq<bool>, bool) {
        if self.failed {
            (Seq::empty(), false)
        } else {
            bool_items(
                byte_bits(self.cur).skip(self.used as int) + bits_of(self.bytes.items().0),
                self.remaining as nat,
            )
        }
    }

    /// A decoder of the first `rows` booleans of `src`.
    pub fn new(src: ByteSource, rows: usize) -> (r: BooleanDecoder)
        requires
            src.wf(),
        ensures
            r.wf(),
            r.items() == bool_items(bits_of(byte_items(src.rest()).0), rows as nat),
    {
        let r = BooleanDecoder { bytes: ByteRleDecoder::new(src), cur: 0, used: 8, remaining: rows, failed: false };
        assert(byte_bits(0u8).skip(8) + bits_of(byte_items(src.rest()).0) =~= bits_of(byte_items(src.rest()).0));
        r
    }

    /// The next boolean: `None` after the row budget, an error when the stream
    /// ends before it or cannot be decoded (and from then on).
    pub fn next(&mut self) -> (r: Option<Result<bool, Error>>)
        requires
            old(self).wf(),
        ensures
            final(self).wf(),
            old(self).items().0.len() > 0 ==> r == Some(Ok::<bool, Error>(old(self).items().0[0]))
                && final(self).items() == (old(self).items().0.drop_first(), old(self).items().1),
            old(self).items().0.len() == 0 && old(self).items().1 ==> r is None
                && final(self).items() == old(self).items(),
            old(self).items().0.len() == 0 && !old(self).items().1 ==> (r matches Some(Err(_)))
                && final(self).items() == (Seq::<bool>::empty(), false),
    {
        if self.failed {
            return Some(Err(Error::MalformedRun));
        }
        if self.remaining == 0 {
            return None;
        }
        let ghost tail = bits_of(self.bytes.items().0);
        let ghost all = byte_bits(self.cur).skip(self.used as int) + tail;
        if self.used < 8 {
            let bit = (self.cur >> (7 - self.used)) & 1 == 1;
            self.used = self.used + 1;
            self.remaining = self.remaining - 1;
            proof {
                assert(all[0] == bit);
                assert(byte_bits(self.cur).skip(self.used as int) + tail =~= all.drop_first());
                if all.len() >= old(self).remaining {
                    assert(all.drop_first().take(self.remaining as int) =~= all.take(old(self).remaining as int).drop_first());
                }
            }
            return Some(Ok(bit));
        }
        assert(byte_bits(self.cur).skip(8) =~= Seq::<bool>::empty());
        assert(all =~= tail);
        let ghost bs = self.bytes.items().0;
        match self.bytes.next() {
            Some(Ok(b)) => {
                self.cur = b;
                self.used = 1;
                self.remaining = self.remaining - 1;
                let bit = (b >> 7u8) & 1 == 1;
                proof {
                    assert(bs.drop_first() =~= self.bytes.items().0);
                    assert(tail == byte_bits(b) + bits_of(self.bytes.items().0));
                    assert(all[0] == bit);
                    assert(byte_bits(b).skip(1) + bits_of(self.bytes.items().0) =~= all.drop_first());
                    if all.len() >= old(self).remaining {
                        assert(all.drop_first().take(self.remaining as int) =~= all.take(old(self).remaining as int).drop_first());
                    }
                }
                Some(Ok(bit))
            },
            Some(Err(e)) => {
                self.failed = true;
                Some(Err(e))
            },
            None => {
                self.failed = true;
                Some(Err(Error::UnexpectedEof))
            },
        }
    }
}

} // verus!
