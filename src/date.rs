use vstd::prelude::*;
use chrono::Datelike;
use crate::column::{new_present_iter, present_mask, Column, NullableIterator, StreamKind, Stripe};
use crate::error::Error;
use crate::rle::{rle_items, RunLengthDecoder};

verus! {

/// A calendar date of the proleptic Gregorian calendar.
#[derive(Debug, Clone, Copy, PartialEq, Eq, Structural)]
pub struct Date {
    pub year: i32,
    /// From 1 to 12.
    pub month: u32,
    /// From 1 to 31.
    pub day: u32,
}

impl Date {
    pub open spec fn ymd(&self) -> (int, int, int) {
        (self.year as int, self.month as int, self.day as int)
    }
}

/// Days from 0001-01-01 of the common era, counted as day 1, to 1970-01-01.
pub const UNIX_EPOCH_FROM_CE: i32 = 719_163;

/// Days are counted from 1970-01-01.
pub open spec fn epoch() -> Date {
    Date { year: 1970, month: 1, day: 1 }
}

/// The date `days` days after 1970-01-01, as chrono computes it; `None` when
/// it is out of chrono's range.
pub uninterp spec fn date_after_epoch(days: nat) -> Option<(int, int, int)>;

/// The date `days` days before 1970-01-01, as chrono computes it; `None` when
/// it is out of chrono's range.
pub uninterp spec fn date_before_epoch(days: nat) -> Option<(int, int, int)>;

/// Relies on chrono's `NaiveDate::checked_add_days` from the default date,
/// 1970-01-01: the date that many days later, `None` when out of range (always
/// so beyond `i32::MAX` days); zero days give the date itself.
#[verifier::external_body]
fn epoch_add_days(days: u64) -> (r: Option<Date>)
    ensures
        r matches Some(d) ==> date_after_epoch(days as nat) == Some(d.ymd())
            && 1 <= d.month <= 12 && 1 <= d.day <= 31,
        r is None ==> date_after_epoch(days as nat) is None,
        days == 0 ==> r == Some(epoch()),
        days > i32::MAX ==> r is None,
{
    chrono::NaiveDate::default()
        .checked_add_days(chrono::Days::new(days))
        .map(|d| Date { year: d.year(), month: d.month(), day: d.day() })
}

/// Relies on chrono's `NaiveDate::checked_sub_days` from the default date,
/// 1970-01-01: the date that many days earlier, `None` when out of range
/// (always so beyond `i32::MAX` days); zero days give the date itself.
#[verifier::external_body]
fn epoch_sub_days(days: u64) -> (r: Option<Date>)
    ensures
        r matches Some(d) ==> date_before_epoch(days as nat) == Some(d.ymd())
            && 1 <= d.month <= 12 && 1 <= d.day <= 31,
        r is None ==> date_before_epoch(days as nat) is None,
        days == 0 ==> r == Some(epoch()),
        days > i32::MAX ==> r is None,
{
    chrono::NaiveDate::default()
        .checked_sub_days(chrono::Days::new(days))
        .map(|d| Date { year: d.year(), month: d.month(), day: d.day() })
}

/// The date a signed day count from 1970-01-01 stands for, if in range.
pub open spec fn date_of(days: int) -> Option<(int, int, int)> {
    if days < 0 {
        date_before_epoch((-days) as nat)
    } else {
        date_after_epoch(days as nat)
    }
}

/// Whether `r` is what converting the day count `days` gives.
pub open spec fn converted(r: Result<Date, Error>, days: int) -> bool {
    match date_of(days) {
        Some(t) => r matches Ok(d) && d.ymd() == t,
        None => r matches Err(Error::AddDays),
    }
}

/// Converts a signed day count relative to 1970-01-01 to a date: negative
/// counts go back, others forward; a date out of range is an error.
pub fn convert_date(data: i64) -> (r: Result<Date, Error>)
    ensures
        converted(r, data as int),
        data == 0 ==> r == Ok::<Date, Error>(epoch()),
{
    let date = if data < 0 {
        epoch_sub_days((-(data as i128)) as u64)
    } else {
        epoch_add_days(data as u64)
    };
    match date {
        Some(d) => Ok(d),
        None => Err(Error::AddDays),
    }
}

/// The dates of a column: a signed run-length stream of day counts, each
/// converted to a date.
pub struct DateIterator {
    data: RunLengthDecoder,
}

impl DateIterator {
    pub closed spec fn wf(&self) -> bool {
        self.data.wf() && self.data.is_signed()
    }

    /// The day counts still to come, and whether the stream ends cleanly after them.
    pub closed spec fn items(&self) -> (Seq<int>, bool) {
        self.data.items()
    }

    /// The next date: `None` once the stream has ended cleanly, an error when
    /// a run cannot be decoded or a day count gives no date.
    pub fn next(&mut self) -> (r: Option<Result<Date, Error>>)
        requires
            old(self).wf(),
        ensures
            final(self).wf(),
            old(self).items().0.len() > 0 ==> (r matches Some(x) && converted(x, old(self).items().0[0]))
                && final(self).items() == (old(self).items().0.drop_first(), old(self).items().1),
            old(self).items().0.len() == 0 && old(self).items().1 ==> r is None
                && final(self).items() == old(self).items(),
            old(self).items().0.len() == 0 && !old(self).items().1 ==> (r matches Some(Err(_)))
                && final(self).items() == (Seq::<int>::empty(), false),
    {
        match self.data.next() {
            Some(Ok(v)) => Some(convert_date(v as i64)),
            Some(Err(e)) => Some(Err(e)),
            None => None,
        }
    }
}

impl NullableIterator<DateIterator> {
    pub closed spec fn wf(&self) -> bool {
        self.wf_pos() && self.values().wf()
    }

    /// The next row: `None` after the last row, `Some(Ok(None))` for an
    /// absent row, the next date for a present one, and an error when that
    /// date cannot be had.
    pub fn next(&mut self) -> (r: Option<Result<Option<Date>, Error>>)
        requires
            old(self).wf(),
        ensures
            final(self).wf(),
            old(self).mask().len() == 0 ==> r is None && final(self).mask() == old(self).mask()
                && final(self).values().items() == old(self).values().items(),
            old(self).mask().len() > 0 ==> final(self).mask() == old(self).mask().drop_first(),
            old(self).mask().len() > 0 && !old(self).mask()[0] ==> (r matches Some(Ok(None)))
                && final(self).values().items() == old(self).values().items(),
            old(self).mask().len() > 0 && old(self).mask()[0] && old(self).values().items().0.len() > 0 ==>
                (r matches Some(x) && match x {
                    Ok(Some(d)) => converted(Ok(d), old(self).values().items().0[0]),
                    Ok(None) => false,
                    Err(e) => converted(Err(e), old(self).values().items().0[0]),
                })
                && final(self).values().items() == (old(self).values().items().0.drop_first(), old(self).values().items().1),
            old(self).mask().len() > 0 && old(self).mask()[0] && old(self).values().items().0.len() == 0 ==>
                (r matches Some(Err(_))),
    {
        if self.pos >= self.present.len() {
            return None;
        }
        let p = self.present[self.pos];
        self.pos = self.pos + 1;
        assert(self.present@.skip(self.pos as int) =~= old(self).mask().drop_first());
        if !p {
            return Some(Ok(None));
        }
        match self.iter.next() {
            Some(Ok(v)) => Some(Ok(Some(v))),
            Some(Err(e)) => Some(Err(e)),
            None => Some(Err(Error::UnexpectedEof)),
        }
    }
}

/// Builds the iterator of a date column: the presence mask, then the signed
/// run-length `Data` stream of day counts.
pub fn new_date_iter(column: &Column, stripe: &Stripe) -> (r: Result<NullableIterator<DateIterator>, Error>)
    ensures
        ({
            let mask = present_mask(stripe.stream_map.lookup(column, StreamKind::Present), column.number_of_rows as nat);
            let data = stripe.stream_map.lookup(column, StreamKind::Data);
            &&& mask is None ==> r is Err
            &&& mask is Some && data is None ==> (r matches Err(Error::InvalidColumn { name }) && name@ == column.name@)
            &&& mask is Some && data is Some ==> (r matches Ok(it) && it.wf()
                && it.mask() == mask.unwrap()
                && it.values().items() == rle_items(data.unwrap(), true))
        }),
{
    let present = match new_present_iter(column, stripe) {
        Ok(p) => p,
        Err(e) => return Err(e),
    };
    let data = match stripe.stream_map.get(column, StreamKind::Data) {
        Some(src) => RunLengthDecoder::new(src, true),
        None => return Err(Error::InvalidColumn { name: column.name.clone() }),
    };
    Ok(NullableIterator::new(present, DateIterator { data }))
}

} // verus!
