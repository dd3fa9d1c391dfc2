use vstd::prelude::*;
use crate::boolean_rle::{bits_of, bool_items, byte_items, BooleanDecoder};
use crate::column::{combine, count_true, new_present_iter, present_mask, Column, NullableIterator, StreamKind, Stripe};
use crate::error::Error;

verus! {

/// Number of `true` entries of `mask`.
fn count_present(mask: &Vec<bool>) -> (r: usize)
    ensures
        r == count_true(mask@),
{
    let len = mask.len();
    let mut i: usize = len;
    let mut n: usize = 0;
    assert(mask@.skip(i as int) =~= Seq::<bool>::empty());
    while i > 0
        invariant
            len == mask@.len(),
            i <= mask@.len(),
            n == count_true(mask@.skip(i as int)),
            n <= mask@.len() - i,
        decreases i,
    {
        assert(mask@.skip(i - 1).drop_first() =~= mask@.skip(i as int));
        i = i - 1;
        if mask[i] {
            n = n + 1;
        }
    }
    assert(mask@.skip(0) =~= mask@);
    n
}

impl NullableIterator<BooleanDecoder> {
    pub closed spec fn wf(&self) -> bool {
        self.wf_pos() && self.values().wf()
    }

    /// The next row: `None` after the last row, `Some(Ok(None))` for an
    /// absent row, the next boolean for a present one, and an error when that
    /// boolean cannot be had.
    pub fn next(&mut self) -> (r: Option<Result<Option<bool>, Error>>)
        requires
            old(self).wf(),
        ensures
            final(self).wf(),
            old(self).mask().len() == 0 ==> r is None && final(self).mask() == old(self).mask()
                && final(self).values().items() == old(self).values().items(),
            old(self).mask().len() > 0 ==> final(self).mask() == old(self).mask().drop_first(),
            old(self).mask().len() > 0 && !old(self).mask()[0] ==> (r matches Some(Ok(None)))
                && final(self).values().items() == old(self).values().items(),
            old(self).mask().len() > 0 && old(self).mask()[0] && old(self).values().items().0.len() > 0 ==>
                r == Some(Ok::<Option<bool>, Error>(Some(old(self).values().items().0[0])))
                && final(self).values().items() == (old(self).values().items().0.drop_first(), old(self).values().items().1),
            old(self).mask().len() > 0 && old(self).mask()[0] && old(self).values().items().0.len() == 0 ==>
                (r matches Some(Err(_))),
            match combine(old(self).mask(), old(self).values().items().0) {
                Some(rows) => rows.len() > 0 ==> r == Some(Ok::<Option<bool>, Error>(rows[0]))
                    && combine(final(self).mask(), final(self).values().items().0) == Some(rows.drop_first()),
                None => true,
            },
    {
        if self.pos >= self.present.len() {
            return None;
        }
        let p = self.present[self.pos];
        self.pos = self.pos + 1;
        assert(self.present@.skip(self.pos as int) =~= old(self).mask().drop_first());
        proof {
            let m = old(self).mask();
            let vs = old(self).values().items().0;
            if let Some(rows) = combine(m, vs) {
                if m.len() > 0 {
                    if m[0] {
                        assert(rows.drop_first() =~= combine(m.drop_first(), vs.drop_first()).unwrap());
                    } else {
                        assert(rows.drop_first() =~= combine(m.drop_first(), vs).unwrap());
                    }
                }
            }
        }
        if !p {
            return Some(Ok(None));
        }
        match self.iter.next() {
            Some(Ok(v)) => Some(Ok(Some(v))),
            Some(Err(e)) => Some(Err(e)),
            None => Some(Err(Error::UnexpectedEof)),
        }
    }
}

/// Builds the iterator of a boolean column: the presence mask, then a
/// boolean decoder over the `Data` stream whose row budget is the number of
/// present rows, since absent rows take no room in the stream.
pub fn new_boolean_iter(column: &Column, stripe: &Stripe) -> (r: Result<NullableIterator<BooleanDecoder>, Error>)
    ensures
        ({
            let mask = present_mask(stripe.stream_map.lookup(column, StreamKind::Present), column.number_of_rows as nat);
            let data = stripe.stream_map.lookup(column, StreamKind::Data);
            &&& mask is None ==> r is Err
            &&& mask is Some && data is None ==> (r matches Err(Error::InvalidColumn { name }) && name@ == column.name@)
            &&& mask is Some && data is Some ==> (r matches Ok(it) && it.wf()
                && it.mask() == mask.unwrap()
                && it.values().items() == bool_items(bits_of(byte_items(data.unwrap()).0), count_true(mask.unwrap())))
        }),
{
    let present = match new_present_iter(column, stripe) {
        Ok(p) => p,
        Err(e) => return Err(e),
    };
    let rows = count_present(&present);
    let iter = match stripe.stream_map.get(column, StreamKind::Data) {
        Some(src) => BooleanDecoder::new(src, rows),
        None => return Err(Error::InvalidColumn { name: column.name.clone() }),
    };
    Ok(NullableIterator::new(present, iter))
}

} // verus!
