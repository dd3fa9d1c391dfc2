use vstd::prelude::*;
use crate::boolean_rle::{bits_of, bool_items, byte_items, BooleanDecoder};
use crate::error::Error;
use crate::source::ByteSource;

verus! {

/// The role of a stream within a column.
#[derive(Debug, Clone, Copy, PartialEq, Eq, Structural)]
pub enum StreamKind {
    /// The presence bitstream: which rows hold a value.
    Present,
    /// The primary values.
    Data,
    /// The byte length of each value of a variable-width column.
    Length,
}

/// A logical column of a stripe.
pub struct Column {
    /// The identifier that streams name the column by.
    pub id: u32,
    /// The name given in errors.
    pub name: String,
    /// The number of rows of the column in the stripe.
    pub number_of_rows: usize,
}

/// One decompressed stream of a stripe.
pub struct Stream {
    /// The identifier of the column the stream belongs to.
    pub column: u32,
    pub kind: StreamKind,
    /// The stream's bytes, already decompressed.
    pub data: Vec<u8>,
}

/// The streams of a stripe, looked up by column and kind.
pub struct StreamMap {
    /// The streams; the first of a column and kind is the one used.
    pub streams: Vec<Stream>,
}

/// A stripe: the row group whose streams are decoded.
pub struct Stripe {
    /// The stripe's streams.
    pub stream_map: StreamMap,
}

/// The bytes of the first stream of `column` and `kind` in `streams`.
pub open spec fn lookup(streams: Seq<Stream>, column: u32, kind: StreamKind) -> Option<Seq<u8>>
    decreases streams.len(),
{
    if streams.len() == 0 {
        None
    } else if streams[0].column == column && streams[0].kind == kind {
        Some(streams[0].data@)
    } else {
        lookup(streams.drop_first(), column, kind)
    }
}

fn copy_bytes(v: &Vec<u8>) -> (r: Vec<u8>)
    ensures
        r@ == v@,
{
    let mut out: Vec<u8> = Vec::with_capacity(v.len());
    let mut i: usize = 0;
    while i < v.len()
        invariant
            i <= v@.len(),
            out@ == v@.take(i as int),
        decreases v@.len() - i,
    {
        out.push(v[i]);
        i = i + 1;
        assert(out@ =~= v@.take(i as int));
    }
    assert(v@.take(i as int) =~= v@);
    out
}

impl StreamMap {
    pub open spec fn lookup(&self, column: &Column, kind: StreamKind) -> Option<Seq<u8>> {
        lookup(self.streams@, column.id, kind)
    }

    /// A byte source over the stream of `column` and `kind`, if the stripe has one.
    pub fn get(&self, column: &Column, kind: StreamKind) -> (r: Option<ByteSource>)
        ensures
            self.lookup(column, kind) is None ==> r is None,
            self.lookup(column, kind) matches Some(s) ==> (r matches Some(src) && src.wf() && src.rest() == s),
    {
        let mut i: usize = 0;
        assert(self.streams@.skip(0) =~= self.streams@);
        while i < self.streams.len()
            invariant
                i <= self.streams@.len(),
                lookup(self.streams@, column.id, kind) == lookup(self.streams@.skip(i as int), column.id, kind),
            decreases self.streams@.len() - i,
        {
            assert(self.streams@.skip(i as int).drop_first() =~= self.streams@.skip(i + 1));
            let s = &self.streams[i];
            if s.column == column.id && s.kind == kind {
                return Some(ByteSource::new(copy_bytes(&s.data)));
            }
            i = i + 1;
        }
        None
    }
}

/// Number of `true` entries in a mask.
pub open spec fn count_true(mask: Seq<bool>) -> nat
    decreases mask.len(),
{
    if mask.len() == 0 {
        0
    } else {
        (if mask[0] { 1nat } else { 0nat }) + count_true(mask.drop_first())
    }
}

/// What decoding the presence mask of a column gives: `Some(mask)` or a
/// failure. With no presence stream every row is present.
pub open spec fn present_mask(present: Option<Seq<u8>>, rows: nat) -> Option<Seq<bool>> {
    match present {
        None => Some(Seq::new(rows, |i: int| true)),
        Some(s) => {
            let (bits, ok) = bool_items(bits_of(byte_items(s).0), rows);
            if ok {
                Some(bits)
            } else {
                None
            }
        },
    }
}

/// Decodes the whole presence mask of a column: one entry per row, `true`
/// where the row holds a value.
pub fn new_present_iter(column: &Column, stripe: &Stripe) -> (r: Result<Vec<bool>, Error>)
    ensures
        r is Ok <==> present_mask(stripe.stream_map.lookup(column, StreamKind::Present), column.number_of_rows as nat) is Some,
        r matches Ok(mask) ==> present_mask(stripe.stream_map.lookup(column, StreamKind::Present), column.number_of_rows as nat) == Some(mask@)
            && mask@.len() == column.number_of_rows,
{
    let rows = column.number_of_rows;
    let mut out: Vec<bool> = Vec::with_capacity(rows);
    match stripe.stream_map.get(column, StreamKind::Present) {
        None => {
            let mut i: usize = 0;
            while i < rows
                invariant
                    i <= rows,
                    out@ == Seq::new(i as nat, |j: int| true),
                decreases rows - i,
            {
                out.push(true);
                i = i + 1;
                assert(out@ =~= Seq::new(i as nat, |j: int| true));
            }
            Ok(out)
        },
        Some(src) => {
            let ghost s0 = src.rest();
            let ghost all = bool_items(bits_of(byte_items(s0).0), rows as nat);
            let mut dec = BooleanDecoder::new(src, rows);
            loop
                invariant
                    dec.wf(),
                    rows == column.number_of_rows,
                    stripe.stream_map.lookup(column, StreamKind::Present) == Some(s0),
                    all == bool_items(bits_of(byte_items(s0).0), rows as nat),
                    all.0 == out@ + dec.items().0,
                    all.1 == dec.items().1,
                    out@.len() <= rows,
                    all.1 ==> all.0.len() == rows,
                    !all.1 ==> all.0.len() < rows,
                decreases dec.items().0.len(),
            {
                let ghost before = dec.items();
                match dec.next() {
                    Some(Ok(b)) => {
                        out.push(b);
                        assert(all.0 =~= out@ + dec.items().0);
                    },
                    Some(Err(e)) => {
                        return Err(e);
                    },
                    None => {
                        assert(all.0 =~= out@);
                        return Ok(out);
                    },
                }
            }
        },
    }
}

/// A column as optional values: the presence mask beside a stream that holds
/// a value for each present row only. The value stream is pulled once per
/// `true` entry of the mask, and never for an absent row.
pub struct NullableIterator<I> {
    /// The presence mask, one entry per row.
    pub present: Vec<bool>,
    /// The next row.
    pub pos: usize,
    /// The values of the present rows.
    pub iter: I,
}

impl<I> NullableIterator<I> {
    /// The presence entries of the rows still to come.
    pub open spec fn mask(&self) -> Seq<bool> {
        self.present@.skip(self.pos as int)
    }

    pub open spec fn values(&self) -> I {
        self.iter
    }

    pub open spec fn wf_pos(&self) -> bool {
        self.pos <= self.present@.len()
    }

    pub fn new(present: Vec<bool>, iter: I) -> (r: NullableIterator<I>)
        ensures
            r.mask() == present@,
            r.values() == iter,
            r.wf_pos(),
    {
        let r = NullableIterator { present, pos: 0, iter };
        assert(r.present@.skip(0) =~= r.present@);
        r
    }
}

/// The rows that a mask and the value sequence give: `None` for an absent
/// row, the next value for a present one; `None` overall when the values run
/// out first.
pub open spec fn combine<T>(mask: Seq<bool>, vs: Seq<T>) -> Option<Seq<Option<T>>>
    decreases mask.len(),
{
    if mask.len() == 0 {
        Some(Seq::empty())
    } else if !mask[0] {
        match combine(mask.drop_first(), vs) {
            Some(r) => Some(seq![None] + r),
            None => None,
        }
    } else if vs.len() > 0 {
        match combine(mask.drop_first(), vs.drop_first()) {
            Some(r) => Some(seq![Some(vs[0])] + r),
            None => None,
        }
    } else {
        None
    }
}

/// The values of the present rows.
pub open spec fn present_values<T>(rows: Seq<Option<T>>) -> Seq<T>
    decreases rows.len(),
{
    if rows.len() == 0 {
        Seq::empty()
    } else {
        match rows[0] {
            Some(v) => seq![v] + present_values(rows.drop_first()),
            None => present_values(rows.drop_first()),
        }
    }
}

/// Rows come out one per mask entry exactly when the value sequence holds at
/// least as many values as the mask has `true` entries, and then the values
/// that come out are the first `count_true(mask)` of it, in order: a column
/// pulls from its value stream once per present row, never for absent rows.
pub proof fn lemma_compact_values<T>(mask: Seq<bool>, vs: Seq<T>)
    ensures
        combine(mask, vs) is Some <==> vs.len() >= count_true(mask),
        combine(mask, vs) matches Some(rows) ==> rows.len() == mask.len()
            && present_values(rows) == vs.take(count_true(mask) as int)
            && (forall|i: int| 0 <= i < mask.len() ==> (rows[i] is Some <==> mask[i])),
    decreases mask.len(),
{
    if mask.len() > 0 {
        if !mask[0] {
            lemma_compact_values(mask.drop_first(), vs);
            if let Some(r) = combine(mask.drop_first(), vs) {
                let rows = seq![None] + r;
                assert(rows.drop_first() =~= r);
                assert forall|i: int| 0 <= i < mask.len() implies (rows[i] is Some <==> mask[i]) by {
                    if i > 0 {
                        assert(rows[i] == r[i - 1]);
                        assert(mask[i] == mask.drop_first()[i - 1]);
                    }
                };
            }
        } else if vs.len() > 0 {
            lemma_compact_values(mask.drop_first(), vs.drop_first());
            if let Some(r) = combine(mask.drop_first(), vs.drop_first()) {
                let rows = seq![Some(vs[0])] + r;
                assert(rows.drop_first() =~= r);
                assert(seq![vs[0]] + vs.drop_first().take(count_true(mask.drop_first()) as int)
                    =~= vs.take(count_true(mask) as int));
                assert forall|i: int| 0 <= i < mask.len() implies (rows[i] is Some <==> mask[i]) by {
                    if i > 0 {
                        assert(rows[i] == r[i - 1]);
                        assert(mask[i] == mask.drop_first()[i - 1]);
                    }
                };
            }
        }
    } else {
        assert(vs.take(0) =~= Seq::<T>::empty());
    }
}

/// A decoded presence mask has one entry per row of the column, whether or
/// not the stripe holds a presence stream for it.
pub proof fn lemma_present_length(present: Option<Seq<u8>>, rows: nat)
    ensures
        present_mask(present, rows) matches Some(mask) ==> mask.len() == rows,
{
}

} // verus!
