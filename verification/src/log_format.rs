//! The byte format of a record log.
//!
//! A log is a sequence of records. Each record is a length prefix of eight bytes, the length of
//! its payload as a little-endian integer, and the payload. Bytes at the end that do not make up
//! a whole record, such as those of an interrupted write, are no part of the log.

use vstd::bytes::*;
use vstd::prelude::*;

verus! {

/// The size of the length prefix of a record.
pub const LENGTH_PREFIX_BYTES: u64 = 8;

/// The payload length that the prefix at offset `at` gives.
pub open spec fn prefix_at(file: Seq<u8>, at: int) -> int {
    spec_u64_from_le_bytes(file.subrange(at, at + 8)) as int
}

/// Where the record at offset `at` ends.
pub open spec fn next_at(file: Seq<u8>, at: int) -> int {
    at + 8 + prefix_at(file, at)
}

/// A whole record stands at offset `at`.
pub open spec fn complete_at(file: Seq<u8>, at: int) -> bool {
    &&& 0 <= at
    &&& at + 8 <= file.len()
    &&& next_at(file, at) <= file.len()
}

/// How many whole records follow each other from offset `at` on.
pub open spec fn count_from(file: Seq<u8>, at: int) -> nat
    decreases file.len() - at,
{
    if complete_at(file, at) {
        1 + count_from(file, next_at(file, at))
    } else {
        0
    }
}

/// How many records the log holds.
pub open spec fn record_count(file: Seq<u8>) -> nat {
    count_from(file, 0)
}

/// The offset of record number `i`.
pub open spec fn record_offset(file: Seq<u8>, i: nat) -> int
    decreases i,
{
    if i == 0 {
        0
    } else {
        next_at(file, record_offset(file, (i - 1) as nat))
    }
}

/// The payload of the record at offset `at`.
pub open spec fn payload_at(file: Seq<u8>, at: int) -> Seq<u8> {
    file.subrange(at + 8, next_at(file, at))
}

/// The payload of record number `i`.
pub open spec fn payload(file: Seq<u8>, i: nat) -> Seq<u8> {
    payload_at(file, record_offset(file, i))
}

/// The payloads of all records of the log.
pub open spec fn records(file: Seq<u8>) -> Seq<Seq<u8>> {
    Seq::new(record_count(file), |i: int| payload(file, i as nat))
}

/// The bytes of one record.
pub open spec fn framed(p: Seq<u8>) -> Seq<u8> {
    spec_u64_to_le_bytes(p.len() as u64) + p
}

/// The bytes of a log with the given payloads.
pub open spec fn encoded(payloads: Seq<Seq<u8>>) -> Seq<u8>
    decreases payloads.len(),
{
    if payloads.len() == 0 {
        Seq::empty()
    } else {
        encoded(payloads.drop_last()) + framed(payloads.last())
    }
}

/// `a` and `b` hold the same first `n` bytes.
pub open spec fn agree_up_to(a: Seq<u8>, b: Seq<u8>, n: int) -> bool {
    &&& 0 <= n <= a.len()
    &&& n <= b.len()
    &&& a.take(n) == b.take(n)
}

pub proof fn lemma_record_offset(file: Seq<u8>, i: nat)
    requires
        i <= record_count(file),
    ensures
        0 <= record_offset(file, i) <= file.len(),
        8 * i <= record_offset(file, i),
        count_from(file, record_offset(file, i)) == record_count(file) - i,
        i < record_count(file) ==> complete_at(file, record_offset(file, i)),
        i == record_count(file) ==> !complete_at(file, record_offset(file, i)),
    decreases i,
{
    if i > 0 {
        lemma_record_offset(file, (i - 1) as nat);
    }
}

/// Offsets grow with the record number.
pub proof fn record_offsets_grow(file: Seq<u8>, i: nat, j: nat)
    requires
        i < j <= record_count(file),
    ensures
        record_offset(file, i) + 8 <= record_offset(file, j),
    decreases j,
{
    lemma_record_offset(file, (j - 1) as nat);
    if i < j - 1 {
        record_offsets_grow(file, i, (j - 1) as nat);
    }
}

proof fn lemma_agree_record(a: Seq<u8>, b: Seq<u8>, n: int, at: int)
    requires
        agree_up_to(a, b, n),
        complete_at(a, at),
        next_at(a, at) <= n,
    ensures
        complete_at(b, at),
        next_at(b, at) == next_at(a, at),
        payload_at(b, at) == payload_at(a, at),
{
    assert(a.subrange(at, at + 8) =~= a.take(n).subrange(at, at + 8));
    assert(b.subrange(at, at + 8) =~= b.take(n).subrange(at, at + 8));
    assert(a.subrange(at + 8, next_at(a, at)) =~= a.take(n).subrange(at + 8, next_at(a, at)));
    assert(b.subrange(at + 8, next_at(a, at)) =~= b.take(n).subrange(at + 8, next_at(a, at)));
}

/// Two files that agree up to the end of record number `n` have the same first `n` records.
pub proof fn agreement_keeps_records(a: Seq<u8>, b: Seq<u8>, n: nat)
    requires
        n <= record_count(a),
        agree_up_to(a, b, record_offset(a, n)),
    ensures
        n <= record_count(b),
        forall|i: nat| i <= n ==> #[trigger] record_offset(b, i) == record_offset(a, i),
        forall|i: nat| i < n ==> #[trigger] payload(b, i) == payload(a, i),
    decreases n,
{
    if n > 0 {
        let m = (n - 1) as nat;
        lemma_record_offset(a, m);
        lemma_record_offset(a, n);
        let at = record_offset(a, m);
        let end = record_offset(a, n);
        assert(a.take(at) =~= a.take(end).take(at));
        assert(b.take(at) =~= b.take(end).take(at));
        agreement_keeps_records(a, b, m);
        lemma_agree_record(a, b, end, at);
        lemma_record_offset(b, m);
        assert(complete_at(b, record_offset(b, m)));
        assert forall|i: nat| i <= n implies #[trigger] record_offset(b, i) == record_offset(
            a,
            i,
        ) by {
            if i == n {
                assert(record_offset(b, n) == next_at(b, record_offset(b, m)));
            }
        }
        assert forall|i: nat| i < n implies #[trigger] payload(b, i) == payload(a, i) by {
            if i == m {
                assert(payload(b, m) == payload_at(b, at));
            }
        }
    }
}

/// The length of a framed record.
pub proof fn lemma_framed(p: Seq<u8>)
    ensures
        framed(p).len() == 8 + p.len(),
{
    lemma_auto_spec_u64_to_from_le_bytes();
}

/// Adding one framed record at the end of the last record adds exactly its payload to the log,
/// whatever incomplete bytes follow it.
pub proof fn append_adds_record(file: Seq<u8>, p: Seq<u8>, tail: Seq<u8>)
    requires
        record_offset(file, record_count(file)) == file.len(),
        p.len() <= u64::MAX,
        !complete_at(file + framed(p) + tail, (file.len() + framed(p).len()) as int),
    ensures
        records(file + framed(p) + tail) == records(file).push(p),
        record_count(file + framed(p) + tail) == record_count(file) + 1,
        record_offset(file + framed(p) + tail, record_count(file)) == file.len(),
        record_offset(file + framed(p) + tail, record_count(file) + 1) == file.len()
            + framed(p).len(),
{
    let n = record_count(file);
    let g = file + framed(p) + tail;
    lemma_auto_spec_u64_to_from_le_bytes();
    assert(g.take(file.len() as int) =~= file.take(file.len() as int));
    agreement_keeps_records(file, g, n);
    let at = file.len() as int;
    assert(g.subrange(at, at + 8) =~= spec_u64_to_le_bytes(p.len() as u64));
    assert(prefix_at(g, at) == p.len());
    assert(complete_at(g, at));
    assert(payload_at(g, at) =~= p);
    lemma_record_offset(g, n);
    assert(record_offset(g, n) == at);
    assert(record_offset(g, n + 1) == next_at(g, at));
    assert(count_from(g, at) == 1 + count_from(g, next_at(g, at)));
    assert(count_from(g, next_at(g, at)) == 0);
    assert(record_count(g) == n + 1);
    assert(records(g) =~= records(file).push(p)) by {
        assert forall|i: int| 0 <= i < n + 1 implies records(g)[i] == records(file).push(p)[i] by {
            if i < n {
                assert(payload(g, i as nat) == payload(file, i as nat));
            } else {
                assert(payload(g, n) == payload_at(g, at));
            }
        }
    }
}

proof fn lemma_encoded_end(payloads: Seq<Seq<u8>>)
    requires
        forall|i: int| 0 <= i < payloads.len() ==> (#[trigger] payloads[i]).len() <= u64::MAX,
    ensures
        records(encoded(payloads)) == payloads,
        record_count(encoded(payloads)) == payloads.len(),
        record_offset(encoded(payloads), payloads.len()) == encoded(payloads).len(),
    decreases payloads.len(),
{
    let file = encoded(payloads);
    if payloads.len() == 0 {
        assert(!complete_at(file, 0));
        assert(records(file) =~= payloads);
    } else {
        let init = payloads.drop_last();
        let p = payloads.last();
        assert forall|i: int| 0 <= i < init.len() implies (#[trigger] init[i]).len()
            <= u64::MAX by {
            assert(init[i] == payloads[i]);
        }
        lemma_encoded_end(init);
        assert(payloads[payloads.len() - 1].len() <= u64::MAX);
        let none = Seq::<u8>::empty();
        assert(encoded(init) + framed(p) + none =~= file);
        assert(!complete_at(file, file.len() as int));
        append_adds_record(encoded(init), p, none);
        assert(init.push(p) =~= payloads);
    }
}

/// Reading the bytes of a log gives back the payloads that were written, and incomplete bytes at
/// the end change nothing.
pub proof fn written_records_read_back(payloads: Seq<Seq<u8>>, tail: Seq<u8>)
    requires
        forall|i: int| 0 <= i < payloads.len() ==> (#[trigger] payloads[i]).len() <= u64::MAX,
        !complete_at(tail, 0),
    ensures
        records(encoded(payloads) + tail) == payloads,
        record_count(encoded(payloads) + tail) == payloads.len(),
        record_offset(encoded(payloads) + tail, payloads.len()) == encoded(payloads).len(),
{
    let file = encoded(payloads);
    let g = file + tail;
    let n = payloads.len();
    lemma_encoded_end(payloads);
    assert(g.take(file.len() as int) =~= file.take(file.len() as int));
    agreement_keeps_records(file, g, n);
    let at = file.len() as int;
    assert(!complete_at(g, at)) by {
        if complete_at(g, at) {
            assert(g.subrange(at, at + 8) =~= tail.subrange(0, 8));
            assert(complete_at(tail, 0));
        }
    }
    lemma_record_offset(g, n);
    assert(record_offset(g, n) == at);
    assert(count_from(g, at) == 0);
    assert(records(g) =~= payloads) by {
        assert forall|i: int| 0 <= i < n implies records(g)[i] == payloads[i] by {
            assert(payload(g, i as nat) == payload(file, i as nat));
            assert(records(file)[i] == payload(file, i as nat));
        }
    }
}

}
