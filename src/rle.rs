use vstd::prelude::*;
use crate::error::Error;
use crate::source::ByteSource;

verus! {

/// The longest base-128 integer accepted, in bytes.
pub const MAX_VARINT_BYTES: usize = 10;

/// 2^64: one more than the largest raw integer a stream may hold.
pub const RAW_LIMIT: u128 = 18446744073709551616;

pub open spec fn pow128(n: nat) -> int
    decreases n,
{
    if n == 0 {
        1
    } else {
        128 * pow128((n - 1) as nat)
    }
}

/// The base-128 integer at the start of `s` (groups of seven bits, least
/// significant first, high bit set on every byte but the last) and the number
/// of bytes it occupies; `None` when `s` ends first or the integer takes more
/// than `budget` bytes.
pub open spec fn varint(s: Seq<u8>, budget: nat) -> Option<(int, nat)>
    decreases budget,
{
    if budget == 0 || s.len() == 0 {
        None
    } else if s[0] < 128 {
        Some((s[0] as int, 1nat))
    } else {
        match varint(s.drop_first(), (budget - 1) as nat) {
            Some((v, n)) => Some(((s[0] - 128) + 128 * v, n + 1)),
            None => None,
        }
    }
}

/// Zig-zag decoding: even raw values are the non-negative integers, odd ones
/// the negative integers.
pub open spec fn zigzag(u: int) -> int {
    if u % 2 == 0 {
        u / 2
    } else {
        -((u + 1) / 2)
    }
}

/// The integer a raw stream value stands for.
pub open spec fn decoded(raw: int, signed: bool) -> int {
    if signed {
        zigzag(raw)
    } else {
        raw
    }
}

/// Whether `v` fits the decoder's result type (`i64` or `u64`).
pub open spec fn in_range(v: int, signed: bool) -> bool {
    if signed {
        -0x8000_0000_0000_0000 <= v <= 0x7fff_ffff_ffff_ffff
    } else {
        0 <= v <= 0xffff_ffff_ffff_ffff
    }
}

/// The delta byte of a repeated run, read as a two's complement `i8`.
pub open spec fn delta_of(b: u8) -> int {
    if b < 128 {
        b as int
    } else {
        b - 256
    }
}

/// `k` literal values at the start of `s`, and the bytes they occupy.
pub open spec fn literals(s: Seq<u8>, k: nat, signed: bool) -> Option<(Seq<int>, nat)>
    decreases k,
{
    if k == 0 {
        Some((Seq::empty(), 0nat))
    } else {
        match varint(s, MAX_VARINT_BYTES as nat) {
            Some((raw, n)) => if raw < RAW_LIMIT {
                match literals(s.skip(n as int), (k - 1) as nat, signed) {
                    Some((vs, m)) => Some((seq![decoded(raw, signed)] + vs, n + m)),
                    None => None,
                }
            } else {
                None
            },
            None => None,
        }
    }
}

/// The run at the start of `s`: its values and the bytes it occupies.
/// A control byte below 128 opens a repeated run of `control + 3` values,
/// followed by a delta byte and the base value; one of 128 or more opens a
/// literal run of `256 - control` values.
pub open spec fn parse_run(s: Seq<u8>, signed: bool) -> Option<(Seq<int>, nat)> {
    if s.len() == 0 {
        None
    } else if s[0] < 128 {
        if s.len() < 2 {
            None
        } else {
            let count = s[0] + 3;
            let delta = delta_of(s[1]);
            match varint(s.skip(2), MAX_VARINT_BYTES as nat) {
                Some((raw, n)) => {
                    let base = decoded(raw, signed);
                    if raw < RAW_LIMIT && in_range(base + delta * (count - 1), signed) {
                        Some((Seq::new(count as nat, |i: int| base + i * delta), n + 2))
                    } else {
                        None
                    }
                },
                None => None,
            }
        }
    } else {
        match literals(s.skip(1), (256 - s[0]) as nat, signed) {
            Some((vs, n)) => Some((vs, n + 1)),
            None => None,
        }
    }
}

/// All values of a run-length stream, and whether it ends cleanly (`false`
/// when a malformed or truncated run follows the values).
pub open spec fn rle_items(s: Seq<u8>, signed: bool) -> (Seq<int>, bool)
    decreases s.len(),
{
    if s.len() == 0 {
        (Seq::empty(), true)
    } else {
        match parse_run(s, signed) {
            Some((vs, n)) => if 0 < n <= s.len() {
                let r = rle_items(s.skip(n as int), signed);
                (vs + r.0, r.1)
            } else {
                (Seq::empty(), false)
            },
            None => (Seq::empty(), false),
        }
    }
}

pub open spec fn as_ints(v: Seq<i128>) -> Seq<int> {
    v.map_values(|x: i128| x as int)
}

proof fn lemma_pow128(n: nat)
    requires
        n <= 10,
    ensures
        1 <= pow128(n) <= pow128(10),
        pow128(10) == 0x40_0000_0000_0000_0000,
    decreases n,
{
    reveal_with_fuel(pow128, 11);
    if n > 0 {
        lemma_pow128((n - 1) as nat);
    }
}

proof fn lemma_between(base: int, delta: int, i: int, k: int)
    requires
        0 <= i <= k,
    ensures
        delta >= 0 ==> base <= base + i * delta <= base + delta * k,
        delta < 0 ==> base + delta * k <= base + i * delta <= base,
{
    assert(delta >= 0 ==> 0 <= i * delta <= delta * k) by (nonlinear_arith)
        requires
            0 <= i <= k,
    ;
    assert(delta < 0 ==> delta * k <= i * delta <= 0) by (nonlinear_arith)
        requires
            0 <= i <= k,
    ;
}

/// Reads one base-128 integer of at most `budget` bytes.
fn read_varint(src: &mut ByteSource, budget: usize) -> (r: Result<u128, Error>)
    requires
        old(src).wf(),
        budget <= MAX_VARINT_BYTES,
    ensures
        final(src).wf(),
        match varint(old(src).rest(), budget as nat) {
            Some((v, n)) => r == Ok::<u128, Error>(v as u128) && 0 <= v < pow128(n)
                && v < 0x40_0000_0000_0000_0000
                && 1 <= n <= budget && n <= old(src).rest().len()
                && final(src).rest() == old(src).rest().skip(n as int),
            None => r is Err,
        },
    decreases budget,
{
    if budget == 0 {
        return Err(Error::MalformedRun);
    }
    let b = match src.read_byte() {
        Ok(b) => b,
        Err(e) => return Err(e),
    };
    if b < 128 {
        proof {
            reveal_with_fuel(pow128, 2);
            lemma_pow128(1);
            assert(final(src).rest() =~= old(src).rest().skip(1));
        }
        return Ok(b as u128);
    }
    let ghost mid = src.rest();
    let v = match read_varint(src, budget - 1) {
        Ok(v) => v,
        Err(e) => return Err(e),
    };
    proof {
        let (vv, n) = varint(mid, (budget - 1) as nat).unwrap();
        lemma_pow128(n);
        lemma_pow128(n + 1);
        assert(pow128(n + 1) == 128 * pow128(n));
        assert(final(src).rest() =~= old(src).rest().skip((n + 1) as int));
    }
    Ok((b - 128) as u128 + 128 * v)
}

fn decode_raw(raw: u128, signed: bool) -> (r: i128)
    requires
        raw < RAW_LIMIT,
    ensures
        r as int == decoded(raw as int, signed),
        in_range(r as int, signed),
{
    if signed {
        if raw % 2 == 0 {
            (raw / 2) as i128
        } else {
            -(((raw + 1) / 2) as i128)
        }
    } else {
        raw as i128
    }
}

fn fits(v: i128, signed: bool) -> (r: bool)
    ensures
        r == in_range(v as int, signed),
{
    if signed {
        -0x8000_0000_0000_0000 <= v && v <= 0x7fff_ffff_ffff_ffff
    } else {
        0 <= v && v <= 0xffff_ffff_ffff_ffff
    }
}

/// Reads the `k` values of a literal run.
fn read_literals(src: &mut ByteSource, k: usize, signed: bool) -> (r: Result<Vec<i128>, Error>)
    requires
        old(src).wf(),
    ensures
        final(src).wf(),
        match literals(old(src).rest(), k as nat, signed) {
            Some((vs, n)) => r is Ok && as_ints(r.unwrap()@) == vs
                && n <= old(src).rest().len()
                && final(src).rest() == old(src).rest().skip(n as int),
            None => r is Err,
        },
        r matches Ok(v) ==> forall|j: int| 0 <= j < v@.len() ==> in_range(#[trigger] v@[j] as int, signed),
{
    let ghost s0 = src.rest();
    let mut out: Vec<i128> = Vec::new();
    let mut i: usize = 0;
    let ghost used: nat = 0;
    while i < k
        invariant
            src.wf(),
            i <= k,
            s0 == old(src).rest(),
            forall|j: int| 0 <= j < out@.len() ==> in_range(#[trigger] out@[j] as int, signed),
            used <= s0.len(),
            src.rest() == s0.skip(used as int),
            literals(s0, k as nat, signed) == match literals(src.rest(), (k - i) as nat, signed) {
                Some((vs, m)) => Some((as_ints(out@) + vs, used + m)),
                None => None::<(Seq<int>, nat)>,
            },
        decreases k - i,
    {
        let ghost before = src.rest();
        let raw = match read_varint(src, MAX_VARINT_BYTES) {
            Ok(raw) => raw,
            Err(e) => {
                assert(literals(before, (k - i) as nat, signed) is None);
                assert(literals(s0, k as nat, signed) is None);
                return Err(e);
            },
        };
        if raw >= RAW_LIMIT {
            assert(literals(before, (k - i) as nat, signed) is None);
            assert(literals(s0, k as nat, signed) is None);
            return Err(Error::MalformedRun);
        }
        let v = decode_raw(raw, signed);
        proof {
            let (_, n) = varint(before, MAX_VARINT_BYTES as nat).unwrap();
            assert(src.rest() =~= s0.skip((used + n) as int));
            assert(as_ints(out@.push(v)) =~= as_ints(out@) + seq![v as int]);
            match literals(src.rest(), (k - i - 1) as nat, signed) {
                Some((vs, m)) => {
                    assert(as_ints(out@) + (seq![v as int] + vs) =~= as_ints(out@.push(v)) + vs);
                },
                None => {},
            }
            used = used + n;
        }
        out.push(v);
        i = i + 1;
    }
    proof {
        assert(as_ints(out@) + Seq::<int>::empty() =~= as_ints(out@));
    }
    Ok(out)
}

/// Reads the run at the start of the stream.
fn read_run(src: &mut ByteSource, signed: bool) -> (r: Result<Vec<i128>, Error>)
    requires
        old(src).wf(),
    ensures
        final(src).wf(),
        match parse_run(old(src).rest(), signed) {
            Some((vs, n)) => r is Ok && as_ints(r.unwrap()@) == vs && vs.len() > 0
                && 0 < n <= old(src).rest().len()
                && final(src).rest() == old(src).rest().skip(n as int),
            None => r is Err,
        },
        r matches Ok(v) ==> forall|j: int| 0 <= j < v@.len() ==> in_range(#[trigger] v@[j] as int, signed),
{
    let ghost s0 = src.rest();
    let c = match src.read_byte() {
        Ok(c) => c,
        Err(e) => return Err(e),
    };
    if c < 128 {
        let d = match src.read_byte() {
            Ok(d) => d,
            Err(e) => return Err(e),
        };
        proof {
            assert(src.rest() =~= s0.skip(2));
        }
        let raw = match read_varint(src, MAX_VARINT_BYTES) {
            Ok(raw) => raw,
            Err(e) => return Err(e),
        };
        if raw >= RAW_LIMIT {
            return Err(Error::MalformedRun);
        }
        let base = decode_raw(raw, signed);
        let delta: i128 = if d < 128 { d as i128 } else { d as i128 - 256 };
        let count: usize = c as usize + 3;
        assert(-128 * 129 <= delta * (count - 1) <= 127 * 129) by (nonlinear_arith)
            requires
                -128 <= delta <= 127,
                0 <= count - 1 <= 129,
        ;
        let last: i128 = base + delta * (count as i128 - 1);
        if !fits(last, signed) {
            return Err(Error::MalformedRun);
        }
        let ghost vs = Seq::new(count as nat, |i: int| base + i * delta);
        let mut out: Vec<i128> = Vec::new();
        let mut i: usize = 0;
        while i < count
            invariant
                i <= count,
                count == c + 3,
                c < 128,
                in_range(base as int, signed),
                in_range(base + delta * (count - 1), signed),
                forall|j: int| 0 <= j < out@.len() ==> in_range(#[trigger] out@[j] as int, signed),
                -0x8000_0000_0000_0000 <= base <= 0xffff_ffff_ffff_ffff,
                -128 <= delta <= 127,
                as_ints(out@) == vs.take(i as int),
                vs == Seq::new(count as nat, |j: int| base + j * delta),
            decreases count - i,
        {
            proof {
                lemma_between(base as int, delta as int, i as int, count - 1);
                assert(-128 * 129 <= i * delta <= 127 * 129) by (nonlinear_arith)
                    requires
                        -128 <= delta <= 127,
                        0 <= i <= 129,
                ;
            }
            let v = base + (i as i128) * delta;
            let ghost prev = out@;
            out.push(v);
            assert(as_ints(out@) =~= as_ints(prev).push(v as int));
            assert(vs[i as int] == v as int);
            assert(as_ints(out@) =~= vs.take(i + 1));
            i = i + 1;
        }
        proof {
            let (_, n) = varint(s0.skip(2), MAX_VARINT_BYTES as nat).unwrap();
            assert(src.rest() =~= s0.skip((n + 2) as int));
            assert(vs.take(count as int) =~= vs);
        }
        Ok(out)
    } else {
        proof {
            assert(src.rest() =~= s0.skip(1));
        }
        let k: usize = 256 - c as usize;
        let r = read_literals(src, k, signed);
        proof {
            match literals(s0.skip(1), k as nat, signed) {
                Some((vs, n)) => {
                    assert(src.rest() =~= s0.skip((n + 1) as int));
                    assert(vs.len() > 0);
                },
                None => {},
            }
        }
        r
    }
}

/// A lazy decoder of a run-length integer stream, signed (zig-zag) or
/// unsigned. It holds at most one decoded run.
pub struct RunLengthDecoder {
    src: ByteSource,
    signed: bool,
    run: Vec<i128>,
    idx: usize,
    failed: bool,
}

impl RunLengthDecoder {
    pub closed spec fn wf(&self) -> bool {
        &&& self.src.wf()
        &&& self.idx <= self.run@.len()
        &&& forall|i: int| 0 <= i < self.run@.len() ==> in_range(#[trigger] self.run@[i] as int, self.signed)
    }

    pub closed spec fn is_signed(&self) -> bool {
        self.signed
    }

    /// The values still to come, and whether the stream ends cleanly after them.
    pub closed spec fn items(&self) -> (Seq<int>, bool) {
        if self.failed {
            (Seq::empty(), false)
        } else {
            let r = rle_items(self.src.rest(), self.signed);
            (as_ints(self.run@).skip(self.idx as int) + r.0, r.1)
        }
    }

    pub fn new(src: ByteSource, signed: bool) -> (r: RunLengthDecoder)
        requires
            src.wf(),
        ensures
            r.wf(),
            r.is_signed() == signed,
            r.items() == rle_items(src.rest(), signed),
    {
        let r = RunLengthDecoder { src, signed, run: Vec::new(), idx: 0, failed: false };
        assert(as_ints(r.run@).skip(0) + rle_items(src.rest(), signed).0 =~= rle_items(src.rest(), signed).0);
        r
    }

    /// The next value: `None` once the stream has ended cleanly, an error once
    /// a run cannot be decoded (and from then on).
    pub fn next(&mut self) -> (r: Option<Result<i128, Error>>)
        requires
            old(self).wf(),
        ensures
            final(self).wf(),
            final(self).is_signed() == old(self).is_signed(),
            old(self).items().0.len() > 0 ==> (r matches Some(Ok(v)) && v as int == old(self).items().0[0]
                && in_range(v as int, old(self).is_signed()))
                && final(self).items() == (old(self).items().0.drop_first(), old(self).items().1),
            old(self).items().0.len() == 0 && old(self).items().1 ==> r is None
                && final(self).items() == old(self).items(),
            old(self).items().0.len() == 0 && !old(self).items().1 ==> (r matches Some(Err(_)))
                && final(self).items() == (Seq::<int>::empty(), false),
    {
        if self.failed {
            return Some(Err(Error::MalformedRun));
        }
        let ghost rest = rle_items(self.src.rest(), self.signed);
        if self.idx < self.run.len() {
            let v = self.run[self.idx];
            self.idx = self.idx + 1;
            assert(as_ints(self.run@).skip(self.idx as int) + rest.0 =~= old(self).items().0.drop_first());
            return Some(Ok(v));
        }
        assert(as_ints(self.run@).skip(self.idx as int) + rest.0 =~= rest.0);
        if self.src.remaining() == 0 {
            return None;
        }
        let ghost s0 = self.src.rest();
        match read_run(&mut self.src, self.signed) {
            Ok(run) => {
                let ghost (vs, n) = parse_run(s0, self.signed).unwrap();
                proof {
                    assert(vs + rle_items(s0.skip(n as int), self.signed).0 == rest.0);
                }
                self.run = run;
                self.idx = 1;
                assert(as_ints(self.run@).skip(1) + rle_items(self.src.rest(), self.signed).0
                    =~= rest.0.drop_first());
                Some(Ok(self.run[0]))
            },
            Err(e) => {
                self.failed = true;
                Some(Err(e))
            },
        }
    }
}

/// The base-128 encoding of `u`: seven bits per byte, least significant
/// first, high bit set on every byte but the last.
pub open spec fn encode_varint(u: nat) -> Seq<u8>
    decreases u,
{
    if u < 128 {
        seq![u as u8]
    } else {
        seq![(u % 128 + 128) as u8] + encode_varint(u / 128)
    }
}

/// The zig-zag encoding of a signed integer.
pub open spec fn zigzag_encode(v: int) -> nat {
    if v >= 0 {
        (2 * v) as nat
    } else {
        (-2 * v - 1) as nat
    }
}

/// The raw stream value that stands for `v`.
pub open spec fn raw_of(v: int, signed: bool) -> nat {
    if signed {
        zigzag_encode(v)
    } else {
        v as nat
    }
}

proof fn lemma_varint_round_trip(u: nat, k: nat, rest: Seq<u8>, budget: nat)
    requires
        u < pow128(k),
        1 <= k <= budget,
    ensures
        encode_varint(u).len() <= k,
        varint(encode_varint(u) + rest, budget) == Some((u as int, encode_varint(u).len())),
    decreases u,
{
    let s = encode_varint(u) + rest;
    if u < 128 {
        assert(s[0] == u as u8);
    } else {
        assert(pow128(k) == 128 * pow128((k - 1) as nat));
        assert(u / 128 < pow128((k - 1) as nat));
        if k == 1 {
            reveal_with_fuel(pow128, 1);
            assert(false);
        }
        lemma_varint_round_trip(u / 128, (k - 1) as nat, rest, (budget - 1) as nat);
        assert(s.drop_first() =~= encode_varint(u / 128) + rest);
        assert(s[0] == (u % 128 + 128) as u8);
        assert((s[0] - 128) + 128 * (u / 128) == u);
    }
}

proof fn lemma_raw_of(v: int, signed: bool)
    requires
        in_range(v, signed),
    ensures
        raw_of(v, signed) < RAW_LIMIT,
        raw_of(v, signed) < pow128(10),
        decoded(raw_of(v, signed) as int, signed) == v,
{
    lemma_pow128(10);
}

/// The raw values of `vs`, one base-128 integer after another.
pub open spec fn encode_values(vs: Seq<int>, signed: bool) -> Seq<u8>
    decreases vs.len(),
{
    if vs.len() == 0 {
        Seq::empty()
    } else {
        encode_varint(raw_of(vs[0], signed)) + encode_values(vs.drop_first(), signed)
    }
}

/// `vs` as literal runs of at most 128 values each.
pub open spec fn encode_literal_runs(vs: Seq<int>, signed: bool) -> Seq<u8>
    decreases vs.len(),
{
    if vs.len() == 0 {
        Seq::empty()
    } else if vs.len() <= 128 {
        seq![(256 - vs.len()) as u8] + encode_values(vs, signed)
    } else {
        seq![128u8] + encode_values(vs.take(128), signed) + encode_literal_runs(vs.skip(128), signed)
    }
}

/// A repeated run of `count` values (3 to 130) from `base`, `delta` apart.
pub open spec fn encode_repeated_run(base: int, delta: int, count: nat, signed: bool) -> Seq<u8> {
    seq![(count - 3) as u8, (if delta < 0 { delta + 256 } else { delta }) as u8]
        + encode_varint(raw_of(base, signed))
}

proof fn lemma_literals_round_trip(vs: Seq<int>, rest: Seq<u8>, signed: bool)
    requires
        forall|i: int| 0 <= i < vs.len() ==> in_range(#[trigger] vs[i], signed),
    ensures
        literals(encode_values(vs, signed) + rest, vs.len(), signed)
            == Some((vs, encode_values(vs, signed).len())),
    decreases vs.len(),
{
    if vs.len() > 0 {
        let raw = raw_of(vs[0], signed);
        let tail = encode_values(vs.drop_first(), signed) + rest;
        lemma_raw_of(vs[0], signed);
        lemma_varint_round_trip(raw, 10, tail, MAX_VARINT_BYTES as nat);
        assert(encode_values(vs, signed) + rest =~= encode_varint(raw) + tail);
        assert((encode_varint(raw) + tail).skip(encode_varint(raw).len() as int) =~= tail);
        assert forall|i: int| 0 <= i < vs.drop_first().len() implies in_range(#[trigger] vs.drop_first()[i], signed) by {
            assert(vs.drop_first()[i] == vs[i + 1]);
        };
        lemma_literals_round_trip(vs.drop_first(), rest, signed);
        assert(seq![vs[0]] + vs.drop_first() =~= vs);
    }
}

proof fn lemma_rle_items_prefix(run: Seq<u8>, rest: Seq<u8>, vs: Seq<int>, signed: bool)
    requires
        run.len() > 0,
        parse_run(run + rest, signed) == Some((vs, run.len())),
    ensures
        rle_items(run + rest, signed) == (vs + rle_items(rest, signed).0, rle_items(rest, signed).1),
{
    assert((run + rest).skip(run.len() as int) =~= rest);
}

/// Encoding values that fit the decoder's type as literal runs, then decoding,
/// gives back exactly those values, signed (zig-zag) or unsigned.
pub proof fn lemma_literal_round_trip(vs: Seq<int>, signed: bool)
    requires
        forall|i: int| 0 <= i < vs.len() ==> in_range(#[trigger] vs[i], signed),
    ensures
        rle_items(encode_literal_runs(vs, signed), signed) == (vs, true),
    decreases vs.len(),
{
    if vs.len() > 0 {
        let n: int = if vs.len() <= 128 { vs.len() as int } else { 128 };
        let chunk = vs.take(n);
        let rest = if vs.len() <= 128 { Seq::<u8>::empty() } else { encode_literal_runs(vs.skip(128), signed) };
        let run = seq![(256 - n) as u8] + encode_values(chunk, signed);
        assert forall|i: int| 0 <= i < chunk.len() implies in_range(#[trigger] chunk[i], signed) by {
            assert(chunk[i] == vs[i]);
        };
        lemma_literals_round_trip(chunk, rest, signed);
        assert((run + rest).skip(1) =~= encode_values(chunk, signed) + rest);
        assert(parse_run(run + rest, signed) == Some((chunk, run.len())));
        lemma_rle_items_prefix(run, rest, chunk, signed);
        if vs.len() <= 128 {
            assert(chunk =~= vs);
            assert(run + rest =~= encode_literal_runs(vs, signed));
            assert(vs + Seq::<int>::empty() =~= vs);
        } else {
            assert forall|i: int| 0 <= i < vs.skip(128).len() implies in_range(#[trigger] vs.skip(128)[i], signed) by {
                assert(vs.skip(128)[i] == vs[i + 128]);
            };
            lemma_literal_round_trip(vs.skip(128), signed);
            assert(run + rest =~= encode_literal_runs(vs, signed));
            assert(chunk + vs.skip(128) =~= vs);
        }
    }
}

/// Encoding a repeated run whose values fit the decoder's type, then
/// decoding, gives back its `count` values from `base`, `delta` apart.
pub proof fn lemma_repeated_round_trip(base: int, delta: int, count: nat, signed: bool)
    requires
        3 <= count <= 130,
        -128 <= delta <= 127,
        in_range(base, signed),
        in_range(base + delta * (count - 1), signed),
    ensures
        rle_items(encode_repeated_run(base, delta, count, signed), signed)
            == (Seq::new(count, |i: int| base + i * delta), true),
{
    let raw = raw_of(base, signed);
    let run = encode_repeated_run(base, delta, count, signed);
    lemma_raw_of(base, signed);
    lemma_varint_round_trip(raw, 10, Seq::empty(), MAX_VARINT_BYTES as nat);
    assert(run.skip(2) =~= encode_varint(raw) + Seq::<u8>::empty());
    assert(delta_of(run[1]) == delta);
    assert(run[0] + 3 == count);
    let vs = Seq::new(count, |i: int| base + i * delta);
    assert(parse_run(run, signed) == Some((vs, run.len())));
    lemma_rle_items_prefix(run, Seq::empty(), vs, signed);
    assert(run + Seq::<u8>::empty() =~= run);
    assert(vs + Seq::<int>::empty() =~= vs);
}

} // verus!
