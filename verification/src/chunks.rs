//! Objects in chunks: which ranges of an object are fetched, and how what came back
//! is put together again.
use vstd::prelude::*;

verus! {

/// A range of the bytes of an object, from `start` up to `end`.
#[derive(Clone, Copy, PartialEq, Eq, Structural, Debug)]
pub struct ChunkRange {
    pub start: usize,
    pub end: usize,
}

/// How many chunks an object has: one for every `chunk` bytes, the last perhaps
/// shorter.
pub open spec fn chunk_count_of(size: nat, chunk: nat) -> nat {
    ((size + chunk - 1) / chunk as int) as nat
}

/// The first byte of chunk `i`.
pub open spec fn chunk_start(chunk: nat, i: nat) -> nat {
    i * chunk
}

/// The byte behind chunk `i`.
pub open spec fn chunk_end(size: nat, chunk: nat, i: nat) -> nat {
    if (i + 1) * chunk < size {
        (i + 1) * chunk
    } else {
        size
    }
}

proof fn lemma_count(size: nat, chunk: nat)
    requires
        chunk > 0,
    ensures
        size <= chunk_count_of(size, chunk) * chunk < size + chunk,
{
    let n = size + chunk - 1;
    let c = chunk as int;
    assert(c * (n / c) <= n < c * (n / c) + c) by (nonlinear_arith)
        requires
            c > 0,
    ;
    assert(n / c >= 0) by (nonlinear_arith)
        requires
            c > 0,
            n >= 0,
    ;
    assert(chunk_count_of(size, chunk) * chunk == c * (n / c)) by (nonlinear_arith)
        requires
            chunk_count_of(size, chunk) == n / c,
            c == chunk,
    ;
}

proof fn lemma_chunk_bounds(size: nat, chunk: nat, i: nat)
    requires
        chunk > 0,
        i < chunk_count_of(size, chunk),
    ensures
        chunk_start(chunk, i) < chunk_end(size, chunk, i) <= size,
        (i + 1) * chunk < size + chunk,
        (i + 1) * chunk == i * chunk + chunk,
{
    lemma_count(size, chunk);
    let k = chunk_count_of(size, chunk);
    assert((i + 1) * chunk <= k * chunk && (i + 1) * chunk == i * chunk + chunk)
        by (nonlinear_arith)
        requires
            i + 1 <= k,
    ;
}

/// How many chunks an object has.
pub fn chunk_count(size: usize, chunk: usize) -> (n: usize)
    requires
        chunk > 0,
        size + chunk - 1 <= usize::MAX,
    ensures
        n == chunk_count_of(size as nat, chunk as nat),
{
    (size + (chunk - 1)) / chunk
}

/// The range of chunk `i`.
pub fn chunk_range(size: usize, chunk: usize, i: usize) -> (range: ChunkRange)
    requires
        chunk > 0,
        size + chunk - 1 <= usize::MAX,
        i < chunk_count_of(size as nat, chunk as nat),
    ensures
        range.start == chunk_start(chunk as nat, i as nat),
        range.end == chunk_end(size as nat, chunk as nat, i as nat),
        range.start < range.end <= size,
{
    proof {
        lemma_chunk_bounds(size as nat, chunk as nat, i as nat);
    }
    let start: usize = i * chunk;
    let full: usize = start + chunk;
    let end: usize = if full < size {
        full
    } else {
        size
    };
    ChunkRange { start, end }
}

/// The ranges of all chunks of an object, in order.
pub fn chunk_ranges(size: usize, chunk: usize) -> (ranges: Vec<ChunkRange>)
    requires
        chunk > 0,
        size + chunk - 1 <= usize::MAX,
    ensures
        ranges@.len() == chunk_count_of(size as nat, chunk as nat),
        forall|i: int|
            0 <= i < ranges@.len() ==> {
                &&& (#[trigger] ranges@[i]).start == chunk_start(chunk as nat, i as nat)
                &&& ranges@[i].end == chunk_end(size as nat, chunk as nat, i as nat)
            },
{
    let count: usize = chunk_count(size, chunk);
    let mut ranges: Vec<ChunkRange> = Vec::new();
    let mut i: usize = 0;
    while i < count
        invariant
            chunk > 0,
            size + chunk - 1 <= usize::MAX,
            count == chunk_count_of(size as nat, chunk as nat),
            i <= count,
            ranges@.len() == i,
            forall|j: int|
                0 <= j < i ==> {
                    &&& (#[trigger] ranges@[j]).start == chunk_start(chunk as nat, j as nat)
                    &&& ranges@[j].end == chunk_end(size as nat, chunk as nat, j as nat)
                },
        decreases count - i,
    {
        ranges.push(chunk_range(size, chunk, i));
        i += 1;
    }
    ranges
}

/// The chunks of an object follow each other without a gap or an overlap, from its
/// first byte to its last, and no chunk is empty or longer than the chunk size.
pub proof fn chunks_cover_object(size: nat, chunk: nat, i: nat)
    requires
        chunk > 0,
        i < chunk_count_of(size, chunk),
    ensures
        i == 0 ==> chunk_start(chunk, i) == 0,
        i > 0 ==> chunk_start(chunk, i) == chunk_end(size, chunk, (i - 1) as nat),
        i == chunk_count_of(size, chunk) - 1 ==> chunk_end(size, chunk, i) == size,
        0 < chunk_end(size, chunk, i) - chunk_start(chunk, i) <= chunk,
{
    lemma_count(size, chunk);
    lemma_chunk_bounds(size, chunk, i);
    if i == 0 {
        assert(0 * chunk == 0);
    } else {
        lemma_chunk_bounds(size, chunk, (i - 1) as nat);
    }
}

/// Only an empty object has no chunk.
pub proof fn empty_object_has_no_chunk(size: nat, chunk: nat)
    requires
        chunk > 0,
    ensures
        chunk_count_of(size, chunk) == 0 <==> size == 0,
{
    lemma_count(size, chunk);
    let k = chunk_count_of(size, chunk);
    if k == 0 {
        assert(k * chunk == 0) by (nonlinear_arith)
            requires
                k == 0,
        ;
    } else if size == 0 {
        assert(k * chunk >= chunk) by (nonlinear_arith)
            requires
                k >= 1,
        ;
    }
}

/// A buffer of bytes that cannot change, of the crate `bytes`.
#[verifier::external_type_specification]
#[verifier::external_body]
pub struct ExBytes(bytes::Bytes);

/// A buffer of bytes that can grow, of the crate `bytes`.
#[verifier::external_type_specification]
#[verifier::external_body]
pub struct ExBytesMut(bytes::BytesMut);

/// What a `bytes::Bytes` holds.
pub uninterp spec fn bytes_in(b: bytes::Bytes) -> Seq<u8>;

/// What a `bytes::BytesMut` holds.
pub uninterp spec fn buffered_in(b: bytes::BytesMut) -> Seq<u8>;

/// Makes an empty buffer with `bytes::BytesMut::new`.
#[verifier::external_body]
fn empty_buffer() -> (b: bytes::BytesMut)
    ensures
        buffered_in(b) == Seq::<u8>::empty(),
{
    bytes::BytesMut::new()
}

/// Appends all the bytes of `more` with `bytes::BytesMut::extend_from_slice`. Twice
/// the new length must not exceed the largest allocation: the buffer grows by
/// doubling, and panics where it cannot.
#[verifier::external_body]
fn extend_buffer(b: &mut bytes::BytesMut, more: &bytes::Bytes)
    requires
        2 * (buffered_in(*old(b)).len() + bytes_in(*more).len()) <= isize::MAX,
    ensures
        buffered_in(*final(b)) == buffered_in(*old(b)) + bytes_in(*more),
{
    b.extend_from_slice(more)
}

/// Turns a buffer into bytes with `bytes::BytesMut::freeze`; what it holds stays the
/// same.
#[verifier::external_body]
fn freeze_buffer(b: bytes::BytesMut) -> (r: bytes::Bytes)
    ensures
        bytes_in(r) == buffered_in(b),
{
    b.freeze()
}

/// Chunks with their numbers, as they came in.
pub open spec fn parts_view(parts: Seq<(usize, bytes::Bytes)>) -> Seq<(usize, Seq<u8>)> {
    parts.map_values(|part: (usize, bytes::Bytes)| (part.0, bytes_in(part.1)))
}

/// All the bytes, one chunk after the other.
pub open spec fn strung(parts: Seq<(usize, Seq<u8>)>) -> Seq<u8>
    decreases parts.len(),
{
    if parts.len() == 0 {
        Seq::empty()
    } else {
        strung(parts.drop_last()) + parts.last().1
    }
}

/// The bytes of the chunks with number `i`, in the order in which they came in.
pub open spec fn numbered(parts: Seq<(usize, Seq<u8>)>, i: nat) -> Seq<u8>
    decreases parts.len(),
{
    if parts.len() == 0 {
        Seq::empty()
    } else {
        numbered(parts.drop_last(), i) + (if parts.last().0 == i {
            parts.last().1
        } else {
            Seq::empty()
        })
    }
}

/// The bytes of the chunks with a number below `n`, by number.
pub open spec fn gathered(parts: Seq<(usize, Seq<u8>)>, n: nat) -> Seq<u8>
    decreases n,
{
    if n == 0 {
        Seq::empty()
    } else {
        gathered(parts, (n - 1) as nat) + numbered(parts, (n - 1) as nat)
    }
}

/// No chunk has a number of `n` or more.
pub open spec fn below(parts: Seq<(usize, Seq<u8>)>, n: nat) -> bool {
    forall|k: int| 0 <= k < parts.len() ==> (#[trigger] parts[k]).0 < n
}

spec fn in_order(parts: Seq<(usize, Seq<u8>)>) -> bool {
    forall|a: int, b: int|
        0 <= a <= b < parts.len() ==> (#[trigger] parts[a]).0 <= (#[trigger] parts[b]).0
}

proof fn lemma_numbered_none(parts: Seq<(usize, Seq<u8>)>, i: nat)
    requires
        forall|k: int| 0 <= k < parts.len() ==> (#[trigger] parts[k]).0 != i,
    ensures
        numbered(parts, i) == Seq::<u8>::empty(),
    decreases parts.len(),
{
    if parts.len() > 0 {
        assert forall|k: int| 0 <= k < parts.drop_last().len() implies (
        #[trigger] parts.drop_last()[k]).0 != i by {
            assert(parts.drop_last()[k] == parts[k]);
        }
        lemma_numbered_none(parts.drop_last(), i);
        assert(numbered(parts, i) =~= Seq::<u8>::empty());
    }
}

proof fn lemma_gathered_above(parts: Seq<(usize, Seq<u8>)>, m: nat, n: nat)
    requires
        below(parts, m),
        m <= n,
    ensures
        gathered(parts, n) == gathered(parts, m),
    decreases n,
{
    if n > m {
        lemma_gathered_above(parts, m, (n - 1) as nat);
        lemma_numbered_none(parts, (n - 1) as nat);
        assert(gathered(parts, n) =~= gathered(parts, m));
    }
}

/// A chunk with a higher number changes nothing below.
proof fn lemma_gathered_push(parts: Seq<(usize, Seq<u8>)>, part: (usize, Seq<u8>), n: nat)
    requires
        n <= part.0,
    ensures
        gathered(parts.push(part), n) == gathered(parts, n),
    decreases n,
{
    if n > 0 {
        lemma_gathered_push(parts, part, (n - 1) as nat);
        let more = parts.push(part);
        assert(more.drop_last() =~= parts);
        assert(numbered(more, (n - 1) as nat) =~= numbered(parts, (n - 1) as nat));
    }
}

/// Chunks in order string together to what their numbers gather.
proof fn lemma_in_order(parts: Seq<(usize, Seq<u8>)>, n: nat)
    requires
        in_order(parts),
        below(parts, n),
    ensures
        strung(parts) == gathered(parts, n),
    decreases parts.len(),
{
    if parts.len() == 0 {
        lemma_gathered_above(parts, 0, n);
    } else {
        let rest = parts.drop_last();
        let last = parts.last();
        let k = last.0 as nat;
        assert forall|a: int, b: int| 0 <= a <= b < rest.len() implies (#[trigger] rest[a]).0 <= (
        #[trigger] rest[b]).0 by {
            assert(rest[a] == parts[a] && rest[b] == parts[b]);
        }
        assert forall|a: int| 0 <= a < rest.len() implies (#[trigger] rest[a]).0 < k + 1 by {
            assert(rest[a] == parts[a] && parts[a].0 <= parts[parts.len() - 1].0);
        }
        assert(below(parts, k + 1)) by {
            assert forall|a: int| 0 <= a < parts.len() implies (#[trigger] parts[a]).0 < k + 1 by {
                assert(parts[a].0 <= parts[parts.len() - 1].0);
            }
        }
        assert(parts[parts.len() - 1].0 < n);
        lemma_in_order(rest, k + 1);
        lemma_gathered_above(parts, k + 1, n);
        assert(rest.push(last) =~= parts);
        lemma_gathered_push(rest, last, k);
        assert(gathered(parts, k + 1) =~= gathered(rest, k + 1) + last.1);
    }
}

/// Putting a chunk behind those with its number and before those with a higher one
/// gives the same as adding it at the end.
proof fn lemma_insert(
    parts: Seq<(usize, Seq<u8>)>,
    at: int,
    part: (usize, Seq<u8>),
    i: nat,
)
    requires
        0 <= at <= parts.len(),
        forall|k: int| at <= k < parts.len() ==> (#[trigger] parts[k]).0 > part.0,
    ensures
        numbered(parts.insert(at, part), i) == numbered(parts.push(part), i),
    decreases parts.len(),
{
    if at == parts.len() {
        assert(parts.insert(at, part) =~= parts.push(part));
    } else {
        let rest = parts.drop_last();
        let last = parts.last();
        let more = parts.insert(at, part);
        assert(more.drop_last() =~= rest.insert(at, part));
        assert(more.last() == last);
        assert forall|k: int| at <= k < rest.len() implies (#[trigger] rest[k]).0 > part.0 by {
            assert(rest[k] == parts[k]);
        }
        lemma_insert(rest, at, part, i);
        assert(parts[parts.len() - 1].0 > part.0);
        assert(rest.push(part).drop_last() =~= rest);
        assert(parts.push(part).drop_last() =~= parts);
        assert(rest.push(part).last() == part && parts.push(part).last() == part);
        if last.0 == i {
            assert(numbered(rest.push(part), i) =~= numbered(rest, i));
            assert(numbered(parts.push(part), i) =~= numbered(parts, i));
        } else {
            assert(numbered(parts, i) =~= numbered(rest, i));
            assert(numbered(more, i) =~= numbered(rest.push(part), i));
        }
    }
}

proof fn lemma_gathered_same(a: Seq<(usize, Seq<u8>)>, b: Seq<(usize, Seq<u8>)>, n: nat)
    requires
        forall|i: nat| numbered(a, i) == #[trigger] numbered(b, i),
    ensures
        gathered(a, n) == gathered(b, n),
    decreases n,
{
    if n > 0 {
        lemma_gathered_same(a, b, (n - 1) as nat);
        assert(numbered(a, (n - 1) as nat) == numbered(b, (n - 1) as nat));
    }
}

/// The length of all chunks together.
pub open spec fn total_len(parts: Seq<(usize, Seq<u8>)>) -> nat
    decreases parts.len(),
{
    if parts.len() == 0 {
        0
    } else {
        total_len(parts.drop_last()) + parts.last().1.len()
    }
}

proof fn lemma_total_len_insert(
    parts: Seq<(usize, Seq<u8>)>,
    at: int,
    part: (usize, Seq<u8>),
)
    requires
        0 <= at <= parts.len(),
    ensures
        total_len(parts.insert(at, part)) == total_len(parts) + part.1.len(),
    decreases parts.len(),
{
    let more = parts.insert(at, part);
    if at == parts.len() {
        assert(more.drop_last() =~= parts);
    } else {
        assert(more.drop_last() =~= parts.drop_last().insert(at, part));
        lemma_total_len_insert(parts.drop_last(), at, part);
    }
}

proof fn lemma_strung_len(parts: Seq<(usize, Seq<u8>)>, n: int)
    requires
        0 <= n <= parts.len(),
    ensures
        strung(parts.take(n)).len() <= total_len(parts),
        strung(parts.take(n)).len() == total_len(parts.take(n)),
    decreases parts.len() + n,
{
    if n > 0 {
        lemma_strung_len(parts.take(n).drop_last(), n - 1);
        assert(parts.take(n).drop_last().take(n - 1) =~= parts.take(n).drop_last());
    }
    if n < parts.len() {
        lemma_strung_len(parts.drop_last(), n);
        assert(parts.drop_last().take(n) =~= parts.take(n));
    } else {
        assert(parts.take(n) =~= parts);
    }
}

/// The chunks by number, those with the same number in the order in which they came in.
fn sorted_parts(parts: Vec<(usize, bytes::Bytes)>) -> (sorted: Vec<(usize, bytes::Bytes)>)
    ensures
        in_order(parts_view(sorted@)),
        total_len(parts_view(sorted@)) == total_len(parts_view(parts@)),
        forall|i: nat|
            numbered(parts_view(sorted@), i) == #[trigger] numbered(parts_view(parts@), i),
        forall|n: nat| #[trigger]
            below(parts_view(parts@), n) ==> below(parts_view(sorted@), n),
{
    let ghost all = parts_view(parts@);
    let mut left = parts;
    let mut sorted: Vec<(usize, bytes::Bytes)> = Vec::new();
    let count: usize = left.len();
    let mut k: usize = 0;
    assert(all.take(0) =~= Seq::<(usize, Seq<u8>)>::empty());
    assert(parts_view(sorted@) =~= all.take(0));
    assert(parts_view(left@) =~= all.skip(0));
    while k < count
        invariant
            k <= count == all.len(),
            all == parts_view(parts@),
            parts_view(left@) == all.skip(k as int),
            in_order(parts_view(sorted@)),
            sorted@.len() == k,
            total_len(parts_view(sorted@)) == total_len(all.take(k as int)),
            forall|i: nat|
                numbered(parts_view(sorted@), i) == #[trigger] numbered(all.take(k as int), i),
            forall|n: nat| #[trigger] below(all, n) ==> below(parts_view(sorted@), n),
        decreases count - k,
    {
        let ghost before = parts_view(sorted@);
        let ghost waiting = parts_view(left@);
        assert(waiting.len() == left@.len());
        let part = left.remove(0);
        let ghost item = (part.0, bytes_in(part.1));
        assert(item == all[k as int]) by {
            assert(all.skip(k as int)[0] == all[k as int]);
        }
        assert(parts_view(left@) =~= waiting.skip(1));
        assert(waiting.skip(1) =~= all.skip(k + 1));
        let mut at: usize = sorted.len();
        while at > 0 && sorted[at - 1].0 > part.0
            invariant
                at <= sorted@.len(),
                before == parts_view(sorted@),
                in_order(before),
                forall|j: int| at <= j < before.len() ==> (#[trigger] before[j]).0 > part.0,
            decreases at,
        {
            assert(before[at - 1].0 == sorted@[at - 1].0);
            at -= 1;
        }
        proof {
            if at > 0 {
                assert(before[at - 1].0 == sorted@[at - 1].0);
            }
        }
        sorted.insert(at, part);
        proof {
            let after = parts_view(sorted@);
            assert(after =~= before.insert(at as int, item));
            assert(all.take(k as int).push(item) =~= all.take(k + 1));
            lemma_total_len_insert(before, at as int, item);
            lemma_total_len_insert(all.take(k as int), k as int, item);
            assert(all.take(k as int).insert(k as int, item) =~= all.take(k + 1));
            assert forall|i: nat|
                numbered(after, i) == #[trigger] numbered(all.take(k + 1), i) by {
                lemma_insert(before, at as int, item, i);
                assert(before.push(item).drop_last() =~= before);
                assert(before.push(item).last() == item);
                assert(all.take(k + 1).drop_last() =~= all.take(k as int));
                assert(all.take(k + 1).last() == item);
                assert(numbered(before, i) == numbered(all.take(k as int), i));
            }
            assert forall|n: nat| #[trigger] below(all, n) implies below(after, n) by {
                assert(all[k as int].0 < n);
                assert(below(before, n));
            }
        }
        k += 1;
    }
    assert(all.take(k as int) =~= all);
    sorted
}

/// Puts an object together from its chunks, whatever the order in which they came in.
pub fn assemble(parts: Vec<(usize, bytes::Bytes)>) -> (object: bytes::Bytes)
    requires
        2 * total_len(parts_view(parts@)) <= isize::MAX,
    ensures
        forall|n: nat| #[trigger]
            below(parts_view(parts@), n) ==> bytes_in(object) == gathered(parts_view(parts@), n),
{
    let sorted = sorted_parts(parts);
    let ghost order = parts_view(sorted@);
    let mut buffer = empty_buffer();
    let mut k: usize = 0;
    assert(order.take(0) =~= Seq::<(usize, Seq<u8>)>::empty());
    while k < sorted.len()
        invariant
            k <= sorted@.len() == order.len(),
            order == parts_view(sorted@),
            buffered_in(buffer) == strung(order.take(k as int)),
            2 * total_len(order) <= isize::MAX,
        decreases sorted.len() - k,
    {
        proof {
            assert(order[k as int].1 == bytes_in(sorted@[k as int].1));
            assert(order.take(k + 1).drop_last() =~= order.take(k as int));
            lemma_strung_len(order, k + 1);
        }
        extend_buffer(&mut buffer, &sorted[k].1);
        k += 1;
    }
    proof {
        assert(order.take(k as int) =~= order);
        let all = parts_view(parts@);
        assert forall|n: nat| #[trigger] below(all, n) implies strung(order) == gathered(
            all,
            n,
        ) by {
            lemma_in_order(order, n);
            lemma_gathered_same(order, all, n);
        }
    }
    freeze_buffer(buffer)
}

/// The bytes of chunk `i` of an object.
pub open spec fn chunk_of(object: Seq<u8>, chunk: nat, i: nat) -> Seq<u8> {
    object.subrange(
        chunk_start(chunk, i) as int,
        chunk_end(object.len(), chunk, i) as int,
    )
}

/// Every chunk of the object came in once, in any order.
pub open spec fn are_chunks_of(
    parts: Seq<(usize, Seq<u8>)>,
    object: Seq<u8>,
    chunk: nat,
) -> bool {
    let count = chunk_count_of(object.len(), chunk);
    &&& below(parts, count)
    &&& forall|k: int|
        0 <= k < parts.len() ==> (#[trigger] parts[k]).1 == chunk_of(object, chunk, parts[k].0 as nat)
    &&& forall|i: nat| i < count ==> #[trigger] arrived(parts, i)
    &&& forall|a: int, b: int|
        0 <= a < b < parts.len() ==> (#[trigger] parts[a]).0 != (#[trigger] parts[b]).0
}

/// A chunk with number `i` came in.
pub open spec fn arrived(parts: Seq<(usize, Seq<u8>)>, i: nat) -> bool {
    exists|k: int| 0 <= k < parts.len() && (#[trigger] parts[k]).0 == i
}

proof fn lemma_numbered_one(parts: Seq<(usize, Seq<u8>)>, k: int)
    requires
        0 <= k < parts.len(),
        forall|a: int, b: int|
            0 <= a < b < parts.len() ==> (#[trigger] parts[a]).0 != (#[trigger] parts[b]).0,
    ensures
        numbered(parts, parts[k].0 as nat) == parts[k].1,
    decreases parts.len(),
{
    let rest = parts.drop_last();
    let i = parts[k].0 as nat;
    assert forall|a: int, b: int| 0 <= a < b < rest.len() implies (#[trigger] rest[a]).0 != (
    #[trigger] rest[b]).0 by {
        assert(rest[a] == parts[a] && rest[b] == parts[b]);
    }
    if k == parts.len() - 1 {
        assert forall|a: int| 0 <= a < rest.len() implies (#[trigger] rest[a]).0 != i by {
            assert(rest[a] == parts[a] && parts[a].0 != parts[k].0);
        }
        lemma_numbered_none(rest, i);
        assert(numbered(parts, i) =~= parts[k].1);
    } else {
        lemma_numbered_one(rest, k);
        assert(rest[k] == parts[k]);
        assert(parts[k].0 != parts[parts.len() - 1].0);
        assert(numbered(parts, i) =~= parts[k].1);
    }
}

proof fn lemma_gathered_prefix(
    parts: Seq<(usize, Seq<u8>)>,
    object: Seq<u8>,
    chunk: nat,
    n: nat,
)
    requires
        chunk > 0,
        are_chunks_of(parts, object, chunk),
        n <= chunk_count_of(object.len(), chunk),
    ensures
        gathered(parts, n) == object.take(
            if n == 0 {
                0
            } else {
                chunk_end(object.len(), chunk, (n - 1) as nat) as int
            },
        ),
    decreases n,
{
    if n == 0 {
        assert(gathered(parts, 0) =~= object.take(0));
    } else {
        let i = (n - 1) as nat;
        lemma_gathered_prefix(parts, object, chunk, i);
        chunks_cover_object(object.len(), chunk, i);
        lemma_chunk_bounds(object.len(), chunk, i);
        assert(arrived(parts, i));
        let k = choose|k: int| 0 <= k < parts.len() && (#[trigger] parts[k]).0 == i;
        lemma_numbered_one(parts, k);
        let end = chunk_end(object.len(), chunk, i) as int;
        assert(gathered(parts, n) =~= object.take(end));
    }
}

/// However the chunks of an object come in, gathering them gives the object back.
pub proof fn chunks_reassemble(parts: Seq<(usize, Seq<u8>)>, object: Seq<u8>, chunk: nat)
    requires
        chunk > 0,
        are_chunks_of(parts, object, chunk),
    ensures
        gathered(parts, chunk_count_of(object.len(), chunk)) == object,
{
    let count = chunk_count_of(object.len(), chunk);
    lemma_gathered_prefix(parts, object, chunk, count);
    if count == 0 {
        empty_object_has_no_chunk(object.len(), chunk);
    } else {
        chunks_cover_object(object.len(), chunk, (count - 1) as nat);
    }
    assert(object.take(object.len() as int) =~= object);
}

/// Chunks uploaded one after the other, in order, make up the object.
pub proof fn parts_in_order_make_object(parts: Seq<(usize, Seq<u8>)>, object: Seq<u8>, chunk: nat)
    requires
        chunk > 0,
        parts.len() == chunk_count_of(object.len(), chunk),
        forall|i: int|
            0 <= i < parts.len() ==> (#[trigger] parts[i]).0 == i && parts[i].1 == chunk_of(
                object,
                chunk,
                i as nat,
            ),
    ensures
        strung(parts) == object,
{
    let count = chunk_count_of(object.len(), chunk);
    assert forall|i: nat| i < count implies #[trigger] arrived(parts, i) by {
        assert(parts[i as int].0 == i);
    }
    assert(are_chunks_of(parts, object, chunk));
    lemma_in_order(parts, count);
    chunks_reassemble(parts, object, chunk);
}

} // verus!
