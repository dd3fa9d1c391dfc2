use vstd::prelude::*;
use crate::column::{combine, new_present_iter, present_mask, Column, NullableIterator, StreamKind, Stripe};
use crate::error::Error;
use crate::rle::{rle_items, RunLengthDecoder};
use crate::variable_length::Values;

verus! {

/// The values that lengths `lens` cut from the value bytes `buf`, in order,
/// and whether the column ends cleanly after them: it does not when a length
/// asks for more bytes than remain, nor when the length stream fails
/// (`lens_ok` false).
pub open spec fn binary_items(lens: Seq<int>, lens_ok: bool, buf: Seq<u8>) -> (Seq<Seq<u8>>, bool)
    decreases lens.len(),
{
    if lens.len() == 0 {
        (Seq::empty(), lens_ok)
    } else if 0 <= lens[0] <= buf.len() {
        let r = binary_items(lens.drop_first(), lens_ok, buf.skip(lens[0]));
        (seq![buf.take(lens[0])] + r.0, r.1)
    } else {
        (Seq::empty(), false)
    }
}

/// The values of a variable-width column: each length from the length stream
/// takes that many bytes from the value stream.
pub struct DirectBinaryIterator {
    values: Values,
    lengths: RunLengthDecoder,
    failed: bool,
}

impl DirectBinaryIterator {
    pub closed spec fn wf(&self) -> bool {
        self.values.wf() && self.lengths.wf() && !self.lengths.is_signed()
    }

    /// The values still to come, and whether the column ends cleanly after them.
    pub closed spec fn items(&self) -> (Seq<Seq<u8>>, bool) {
        if self.failed {
            (Seq::empty(), false)
        } else {
            binary_items(self.lengths.items().0, self.lengths.items().1, self.values.rest())
        }
    }

    /// The next value: `None` once the length stream has ended cleanly, an
    /// error when a length cannot be decoded or the value bytes run short (and
    /// from then on).
    pub fn next(&mut self) -> (r: Option<Result<Vec<u8>, Error>>)
        requires
            old(self).wf(),
        ensures
            final(self).wf(),
            old(self).items().0.len() > 0 ==> (r matches Some(Ok(v)) && v@ == old(self).items().0[0])
                && final(self).items() == (old(self).items().0.drop_first(), old(self).items().1),
            old(self).items().0.len() == 0 && old(self).items().1 ==> r is None
                && final(self).items() == old(self).items(),
            old(self).items().0.len() == 0 && !old(self).items().1 ==> (r matches Some(Err(_)))
                && final(self).items() == (Seq::<Seq<u8>>::empty(), false),
    {
        if self.failed {
            return Some(Err(Error::MalformedRun));
        }
        match self.lengths.next() {
            Some(Ok(length)) => {
                if length > self.values.remaining() as i128 {
                    self.failed = true;
                    return Some(Err(Error::UnexpectedEof));
                }
                match self.values.next(length as usize) {
                    Ok(v) => Some(Ok(v)),
                    Err(e) => {
                        self.failed = true;
                        Some(Err(e))
                    },
                }
            },
            Some(Err(e)) => {
                self.failed = true;
                Some(Err(e))
            },
            None => None,
        }
    }
}

impl NullableIterator<DirectBinaryIterator> {
    pub closed spec fn wf(&self) -> bool {
        self.wf_pos() && self.values().wf()
    }

    /// The next row: `None` after the last row, `Some(Ok(None))` for an
    /// absent row, the next value for a present one, and an error when that
    /// value cannot be had.
    pub fn next(&mut self) -> (r: Option<Result<Option<Vec<u8>>, Error>>)
        requires
            old(self).wf(),
        ensures
            final(self).wf(),
            old(self).mask().len() == 0 ==> r is None && final(self).mask() == old(self).mask()
                && final(self).values().items() == old(self).values().items(),
            old(self).mask().len() > 0 ==> final(self).mask() == old(self).mask().drop_first(),
            old(self).mask().len() > 0 && !old(self).mask()[0] ==> (r matches Some(Ok(None)))
                && final(self).values().items() == old(self).values().items(),
            old(self).mask().len() > 0 && old(self).mask()[0] && old(self).values().items().0.len() > 0 ==>
                (r matches Some(Ok(Some(v))) && v@ == old(self).values().items().0[0])
                && final(self).values().items() == (old(self).values().items().0.drop_first(), old(self).values().items().1),
            old(self).mask().len() > 0 && old(self).mask()[0] && old(self).values().items().0.len() == 0 ==>
                (r matches Some(Err(_))),
            match combine(old(self).mask(), old(self).values().items().0) {
                Some(rows) => rows.len() > 0 ==> (r matches Some(Ok(x)) && match x {
                    Some(v) => rows[0] == Some(v@),
                    None => rows[0] is None,
                }) && combine(final(self).mask(), final(self).values().items().0) == Some(rows.drop_first()),
                None => true,
            },
    {
        if self.pos >= self.present.len() {
            return None;
        }
        let p = self.present[self.pos];
        self.pos = self.pos + 1;
        assert(self.present@.skip(self.pos as int) =~= old(self).mask().drop_first());
        proof {
            let m = old(self).mask();
            let vs = old(self).values().items().0;
            if let Some(rows) = combine(m, vs) {
                if m.len() > 0 {
                    if m[0] {
                        assert(rows.drop_first() =~= combine(m.drop_first(), vs.drop_first()).unwrap());
                    } else {
                        assert(rows.drop_first() =~= combine(m.drop_first(), vs).unwrap());
                    }
                }
            }
        }
        if !p {
            return Some(Ok(None));
        }
        match self.iter.next() {
            Some(Ok(v)) => Some(Ok(Some(v))),
            Some(Err(e)) => Some(Err(e)),
            None => Some(Err(Error::UnexpectedEof)),
        }
    }
}

/// Builds the iterator of a binary column: the presence mask, then the value
/// stream (`Data`) cut by the unsigned run-length `Length` stream.
pub fn new_binary_iterator(column: &Column, stripe: &Stripe) -> (r: Result<NullableIterator<DirectBinaryIterator>, Error>)
    ensures
        ({
            let mask = present_mask(stripe.stream_map.lookup(column, StreamKind::Present), column.number_of_rows as nat);
            let data = stripe.stream_map.lookup(column, StreamKind::Data);
            let lengths = stripe.stream_map.lookup(column, StreamKind::Length);
            &&& mask is None ==> r is Err
            &&& mask is Some && data is None ==> (r matches Err(Error::InvalidColumn { name }) && name@ == column.name@)
            &&& mask is Some && data is Some && lengths is None ==> (r matches Err(Error::InvalidColumn { name })
                && name@ == column.name@)
            &&& mask is Some && data is Some && lengths is Some ==> (r matches Ok(it) && it.wf()
                && it.mask() == mask.unwrap()
                && it.values().items() == binary_items(
                    rle_items(lengths.unwrap(), false).0,
                    rle_items(lengths.unwrap(), false).1,
                    data.unwrap(),
                ))
        }),
{
    let present = match new_present_iter(column, stripe) {
        Ok(p) => p,
        Err(e) => return Err(e),
    };
    let values = match stripe.stream_map.get(column, StreamKind::Data) {
        Some(src) => Values::new(src),
        None => return Err(Error::InvalidColumn { name: column.name.clone() }),
    };
    let lengths = match stripe.stream_map.get(column, StreamKind::Length) {
        Some(src) => RunLengthDecoder::new(src, false),
        None => return Err(Error::InvalidColumn { name: column.name.clone() }),
    };
    Ok(NullableIterator::new(present, DirectBinaryIterator { values, lengths, failed: false }))
}

} // verus!
