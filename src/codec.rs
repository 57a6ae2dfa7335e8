use vstd::prelude::*;

use crate::error::DecodeError;
use crate::raw::{RawEventV1, RECORD_SIZE};

verus! {

/// 256 to the power `n`.
pub open spec fn pow256(n: nat) -> nat
    decreases n,
{
    if n == 0 {
        1
    } else {
        256 * pow256((n - 1) as nat)
    }
}

/// The unsigned number that the bytes `s` spell, least significant first.
pub open spec fn le_value(s: Seq<u8>) -> nat
    decreases s.len(),
{
    if s.len() == 0 {
        0
    } else {
        s[0] as nat + 256 * le_value(s.drop_first())
    }
}

/// The `n` bytes that spell `v`, least significant first.
pub open spec fn le_bytes(v: nat, n: nat) -> Seq<u8>
    decreases n,
{
    if n == 0 {
        Seq::empty()
    } else {
        seq![(v % 256) as u8] + le_bytes(v / 256, (n - 1) as nat)
    }
}

/// The 24 bytes of one record: descriptor, tag, flags, then four zero bytes.
pub open spec fn record_bytes(r: RawEventV1) -> Seq<u8> {
    le_bytes(r.fd as nat, 8) + le_bytes(r.user_data as nat, 8) + le_bytes(r.flags as nat, 4)
        + seq![0u8, 0u8, 0u8, 0u8]
}

/// Whether the 24 bytes `s` hold a record whose numbers fit the record's fields.
pub open spec fn record_fits(s: Seq<u8>) -> bool {
    &&& le_value(s.subrange(0, 8)) <= usize::MAX
    &&& le_value(s.subrange(8, 16)) <= usize::MAX
}

/// The record that the 24 bytes `s` spell; the padding is not read.
pub open spec fn record_of(s: Seq<u8>) -> RawEventV1 {
    RawEventV1 {
        fd: le_value(s.subrange(0, 8)) as usize,
        user_data: le_value(s.subrange(8, 16)) as usize,
        flags: le_value(s.subrange(16, 20)) as u32,
    }
}

/// The `i`-th chunk of 24 bytes of `s`.
pub open spec fn chunk(s: Seq<u8>, i: int) -> Seq<u8> {
    s.subrange(i * RECORD_SIZE as int, i * RECORD_SIZE as int + RECORD_SIZE as int)
}

/// The records packed one after another.
pub open spec fn batch_bytes(rs: Seq<RawEventV1>) -> Seq<u8>
    decreases rs.len(),
{
    if rs.len() == 0 {
        Seq::empty()
    } else {
        batch_bytes(rs.drop_last()) + record_bytes(rs.last())
    }
}

/// What decoding the bytes `s` gives.
pub open spec fn decode_batch_spec(s: Seq<u8>) -> Result<Seq<RawEventV1>, DecodeError> {
    if s.len() % (RECORD_SIZE as nat) != 0 {
        Err(DecodeError::Length { len: s.len() as usize })
    } else if exists|i: int| 0 <= i < s.len() / (RECORD_SIZE as nat) && !record_fits(chunk(s, i)) {
        Err(DecodeError::Overflow)
    } else {
        Ok(Seq::new(s.len() / (RECORD_SIZE as nat), |i: int| record_of(chunk(s, i))))
    }
}

/// Powers of 256 are positive.
pub proof fn lemma_pow256_pos(n: nat)
    ensures
        pow256(n) > 0,
    decreases n,
{
    if n > 0 {
        lemma_pow256_pos((n - 1) as nat);
    }
}

/// The powers of 256 that bound a 32-bit and a 64-bit number.
pub proof fn lemma_pow256_values()
    ensures
        pow256(4) == 0x1_0000_0000,
        pow256(8) == 0x1_0000_0000_0000_0000,
{
    reveal_with_fuel(pow256, 9);
}

/// `n` bytes spell a number below 256 to the `n`.
pub proof fn lemma_le_value_bound(s: Seq<u8>)
    ensures
        le_value(s) < pow256(s.len()),
    decreases s.len(),
{
    if s.len() > 0 {
        lemma_le_value_bound(s.drop_first());
        let a = s[0] as nat;
        let b = le_value(s.drop_first());
        let p = pow256((s.len() - 1) as nat);
        assert(a + 256 * b < 256 * p) by (nonlinear_arith)
            requires
                a < 256,
                b < p,
        ;
    }
}

/// Reading back the `n` bytes of a number below 256 to the `n` gives it back.
pub proof fn lemma_le_round_trip(v: nat, n: nat)
    requires
        v < pow256(n),
    ensures
        le_bytes(v, n).len() == n,
        le_value(le_bytes(v, n)) == v,
    decreases n,
{
    if n > 0 {
        let p = pow256((n - 1) as nat);
        assert(v / 256 < p) by (nonlinear_arith)
            requires
                v < 256 * p,
        ;
        lemma_le_round_trip(v / 256, (n - 1) as nat);
        let s = le_bytes(v, n);
        assert(s.drop_first() =~= le_bytes(v / 256, (n - 1) as nat));
        assert(v == v % 256 + 256 * (v / 256)) by (nonlinear_arith);
    } else {
        assert(v == 0);
    }
}

/// Reads the `n` bytes of `b` from `start` as a little-endian number.
fn read_le(b: &[u8], start: usize, n: usize) -> (r: u64)
    requires
        n <= 8,
        start + n <= b@.len(),
    ensures
        r as nat == le_value(b@.subrange(start as int, start + n)),
{
    let mut acc: u64 = 0;
    let mut i: usize = n;
    let len = b.len();
    proof {
        lemma_pow256_values();
    }
    while i > 0
        invariant
            i <= n <= 8,
            start + n <= b@.len(),
            b@.len() == len,
            acc as nat == le_value(b@.subrange(start + i, start + n)),
            pow256((n - i) as nat) <= pow256(8),
            pow256(8) == 0x1_0000_0000_0000_0000,
        decreases i,
    {
        let ghost tail = b@.subrange(start + i, start + n);
        let ghost whole = b@.subrange(start + i - 1, start + n);
        proof {
            assert(whole.drop_first() =~= tail);
            lemma_le_value_bound(tail);
            lemma_le_value_bound(whole);
            assert(pow256((n - i + 1) as nat) <= pow256(8)) by {
                lemma_pow256_mono((n - i + 1) as nat, 8);
            }
            let p = pow256((n - i) as nat);
            assert(pow256((n - i + 1) as nat) == 256 * p);
            assert(acc * 256 + 255 < 256 * p) by (nonlinear_arith)
                requires
                    acc < p,
            ;
        }
        let byte = b[start + (i - 1)];
        acc = acc * 256 + byte as u64;
        i = i - 1;
    }
    assert(b@.subrange(start as int, start + n) =~= b@.subrange(start + i, start + n));
    acc
}

/// Powers of 256 grow with the exponent.
pub proof fn lemma_pow256_mono(a: nat, b: nat)
    requires
        a <= b,
    ensures
        pow256(a) <= pow256(b),
    decreases b,
{
    if a < b {
        lemma_pow256_mono(a, (b - 1) as nat);
        lemma_pow256_pos((b - 1) as nat);
    }
}

/// Appends the `n` bytes of `v`, least significant first.
fn write_le(out: &mut Vec<u8>, v: u64, n: usize)
    requires
        n <= 8,
    ensures
        final(out)@ == old(out)@ + le_bytes(v as nat, n as nat),
{
    let mut rest: u64 = v;
    let mut i: usize = 0;
    while i < n
        invariant
            i <= n,
            out@ + le_bytes(rest as nat, (n - i) as nat) == old(out)@ + le_bytes(v as nat, n as nat),
        decreases n - i,
    {
        let ghost before = out@;
        out.push((rest % 256) as u8);
        proof {
            let tail = le_bytes((rest / 256) as nat, (n - i - 1) as nat);
            assert(le_bytes(rest as nat, (n - i) as nat) =~= seq![(rest % 256) as u8] + tail);
            assert(before + (seq![(rest % 256) as u8] + tail) =~= out@ + tail);
        }
        rest = rest / 256;
        i = i + 1;
    }
    assert(out@ + le_bytes(rest as nat, 0) =~= out@);
}

/// The 24 bytes of the record `r`.
pub fn encode_record(r: &RawEventV1) -> (out: Vec<u8>)
    ensures
        out@ == record_bytes(*r),
{
    let mut out: Vec<u8> = Vec::new();
    write_le(&mut out, r.fd as u64, 8);
    write_le(&mut out, r.user_data as u64, 8);
    write_le(&mut out, r.flags as u64, 4);
    let mut k: usize = 0;
    while k < 4
        invariant
            k <= 4,
            out@ == le_bytes(r.fd as nat, 8) + le_bytes(r.user_data as nat, 8) + le_bytes(
                r.flags as nat,
                4,
            ) + Seq::new(k as nat, |j: int| 0u8),
        decreases 4 - k,
    {
        out.push(0u8);
        k = k + 1;
        assert(out@ =~= le_bytes(r.fd as nat, 8) + le_bytes(r.user_data as nat, 8) + le_bytes(
            r.flags as nat,
            4,
        ) + Seq::new(k as nat, |j: int| 0u8));
    }
    assert(Seq::new(4, |j: int| 0u8) =~= seq![0u8, 0u8, 0u8, 0u8]);
    out
}

/// The records packed one after another, in order.
pub fn encode_batch(records: &[RawEventV1]) -> (out: Vec<u8>)
    ensures
        out@ == batch_bytes(records@),
{
    let mut out: Vec<u8> = Vec::new();
    let mut i: usize = 0;
    while i < records.len()
        invariant
            i <= records@.len(),
            out@ == batch_bytes(records@.subrange(0, i as int)),
        decreases records@.len() - i,
    {
        let one = encode_record(&records[i]);
        let mut k: usize = 0;
        let ghost before = out@;
        while k < one.len()
            invariant
                k <= one@.len(),
                out@ == before + one@.subrange(0, k as int),
            decreases one@.len() - k,
        {
            out.push(one[k]);
            k = k + 1;
            assert(out@ =~= before + one@.subrange(0, k as int));
        }
        assert(one@.subrange(0, k as int) =~= one@);
        assert(records@.subrange(0, i + 1).drop_last() =~= records@.subrange(0, i as int));
        i = i + 1;
    }
    assert(records@.subrange(0, i as int) =~= records@);
    out
}

/// Reads the record in the 24 bytes of `b` from `start`.
fn decode_record(b: &[u8], start: usize) -> (r: Option<RawEventV1>)
    requires
        start + RECORD_SIZE <= b@.len(),
    ensures
        r.is_some() == record_fits(b@.subrange(start as int, start + RECORD_SIZE)),
        r.is_some() ==> r.unwrap() == record_of(b@.subrange(start as int, start + RECORD_SIZE)),
{
    let ghost s = b@.subrange(start as int, start + RECORD_SIZE);
    let _len = b.len();
    let fd = read_le(b, start, 8);
    let user_data = read_le(b, start + 8, 8);
    let flags = read_le(b, start + 16, 4);
    assert(s.subrange(0, 8) =~= b@.subrange(start as int, start + 8));
    assert(s.subrange(8, 16) =~= b@.subrange(start + 8, start + 16));
    assert(s.subrange(16, 20) =~= b@.subrange(start + 16, start + 20));
    proof {
        lemma_le_value_bound(s.subrange(16, 20));
        lemma_pow256_values();
    }
    if fd > usize::MAX as u64 || user_data > usize::MAX as u64 {
        None
    } else {
        Some(RawEventV1 { fd: fd as usize, user_data: user_data as usize, flags: flags as u32 })
    }
}

/// Decodes a packed stream of records, checking first that it holds whole records.
pub fn decode_batch(bytes: &[u8]) -> (r: Result<Vec<RawEventV1>, DecodeError>)
    ensures
        match r {
            Ok(v) => decode_batch_spec(bytes@) == Ok::<Seq<RawEventV1>, DecodeError>(v@),
            Err(e) => decode_batch_spec(bytes@) == Err::<Seq<RawEventV1>, DecodeError>(e),
        },
{
    let len = bytes.len();
    if len % RECORD_SIZE != 0 {
        return Err(DecodeError::Length { len });
    }
    let n = len / RECORD_SIZE;
    let mut out: Vec<RawEventV1> = Vec::new();
    let mut i: usize = 0;
    while i < n
        invariant
            n == bytes@.len() / (RECORD_SIZE as nat),
            bytes@.len() == len,
            bytes@.len() % (RECORD_SIZE as nat) == 0,
            i <= n,
            out@.len() == i,
            forall|j: int| 0 <= j < i ==> record_fits(#[trigger] chunk(bytes@, j)),
            forall|j: int| 0 <= j < i ==> out@[j] == record_of(#[trigger] chunk(bytes@, j)),
        decreases n - i,
    {
        assert(i * RECORD_SIZE + RECORD_SIZE <= bytes@.len()) by (nonlinear_arith)
            requires
                i < n,
                n == bytes@.len() / 24,
                bytes@.len() % 24 == 0,
        ;
        match decode_record(bytes, i * RECORD_SIZE) {
            Some(rec) => {
                out.push(rec);
            },
            None => {
                assert(!record_fits(chunk(bytes@, i as int)));
                return Err(DecodeError::Overflow);
            },
        }
        i = i + 1;
    }
    assert(out@ =~= Seq::new(n as nat, |j: int| record_of(chunk(bytes@, j))));
    Ok(out)
}

/// Reading back the bytes of a record gives the record.
pub proof fn lemma_record_round_trip(r: RawEventV1)
    ensures
        record_bytes(r).len() == RECORD_SIZE,
        record_fits(record_bytes(r)),
        record_of(record_bytes(r)) == r,
{
    lemma_pow256_values();
    lemma_le_round_trip(r.fd as nat, 8);
    lemma_le_round_trip(r.user_data as nat, 8);
    lemma_le_round_trip(r.flags as nat, 4);
    let s = record_bytes(r);
    assert(s.subrange(0, 8) =~= le_bytes(r.fd as nat, 8));
    assert(s.subrange(8, 16) =~= le_bytes(r.user_data as nat, 8));
    assert(s.subrange(16, 20) =~= le_bytes(r.flags as nat, 4));
}

/// The `i`-th chunk of a packed batch is the bytes of its `i`-th record.
pub proof fn lemma_batch_chunks(rs: Seq<RawEventV1>)
    ensures
        batch_bytes(rs).len() == rs.len() * RECORD_SIZE,
        forall|i: int| 0 <= i < rs.len() ==> #[trigger] chunk(batch_bytes(rs), i) == record_bytes(rs[i]),
    decreases rs.len(),
{
    if rs.len() > 0 {
        let init = rs.drop_last();
        lemma_batch_chunks(init);
        lemma_record_round_trip(rs.last());
        let b = batch_bytes(rs);
        let a = batch_bytes(init);
        assert(b == a + record_bytes(rs.last()));
        assert(b.len() == rs.len() * RECORD_SIZE) by (nonlinear_arith)
            requires
                b.len() == a.len() + 24,
                a.len() == init.len() * 24,
                init.len() + 1 == rs.len(),
        ;
        assert forall|i: int| 0 <= i < rs.len() implies #[trigger] chunk(b, i) == record_bytes(rs[i]) by {
            assert(i * 24 + 24 <= b.len()) by (nonlinear_arith)
                requires
                    i < rs.len(),
                    b.len() == rs.len() * 24,
            ;
            if i < init.len() {
                assert(i * 24 + 24 <= a.len()) by (nonlinear_arith)
                    requires
                        i < init.len(),
                        a.len() == init.len() * 24,
                ;
                assert(chunk(b, i) =~= chunk(a, i));
            } else {
                assert(i * 24 == a.len());
                assert(chunk(b, i) =~= record_bytes(rs.last()));
            }
        }
    }
}

/// Decoding the packed form of any sequence of records gives back exactly
/// those records, as many and in the same order.
pub proof fn lemma_decode_encode_batch(rs: Seq<RawEventV1>)
    ensures
        decode_batch_spec(batch_bytes(rs)) == Ok::<Seq<RawEventV1>, DecodeError>(rs),
{
    let b = batch_bytes(rs);
    lemma_batch_chunks(rs);
    assert(b.len() % 24 == 0 && b.len() / 24 == rs.len()) by (nonlinear_arith)
        requires
            b.len() == rs.len() * 24,
    ;
    assert forall|i: int| 0 <= i < rs.len() implies record_fits(#[trigger] chunk(b, i)) && record_of(chunk(b, i)) == rs[i] by {
        lemma_record_round_trip(rs[i]);
    }
    assert(Seq::new(b.len() / (RECORD_SIZE as nat), |i: int| record_of(chunk(b, i))) =~= rs);
}

} // verus!
