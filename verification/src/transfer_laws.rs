//! What holds of transfers: which objects are copied, where to and how, what is counted,
//! and how a transfer ends.
use vstd::prelude::*;
use crate::chunks::{
    bytes_in, chunk_count_of, chunk_end, chunk_start, chunks_cover_object, gathered, numbered,
    parts_view, strung,
};
use crate::config::{
    asks_for_stream, chunk_bytes, number_or, tuned, Copying, TransferConfig, DEFAULT_CHUNK_SIZE_MIB,
    DEFAULT_PARALLEL_CHUNKS, DEFAULT_PARALLEL_OBJECTS, DEFAULT_STREAM_CONCURRENCY,
    DEFAULT_WORKER_CONCURRENCY,
};
use crate::progress::{reported_throughput, seconds_of};
use crate::store_url::{
    below, bucket_in, cloud_scheme, cloud_store, is_plain_path, is_plain_url, key_in, name_char,
    object_path, plain_char, resolves_plainly, resolves_to, tidied, url_parts, CloudScheme,
    ResolvedStore, StoreKind, StoreKindView, StoreUrlError,
};
use crate::text::{all_digits, digits_value, number_in, pieces, without_leading, Separator};
use crate::text_laws::{
    digits_are_read, leading_run_goes, prefix_goes, separator_parts_pieces, unbroken,
    unbroken_text_is_one_piece,
};
use crate::transfer::{
    copied_of, copy_method_for, named, outcome_view, plan_tells, relative, sizes_of, target,
    total_of, CopyMethod, CopyState, ListedObject, ObjectPlan, TransferEvent, TransferView,
};

verus! {

/// How many entries of a listing could be read.
pub open spec fn read_count(entries: Seq<Option<ListedObject>>) -> nat
    decreases entries.len(),
{
    if entries.len() == 0 {
        0
    } else {
        read_count(entries.drop_last()) + (if entries.last() is Some {
            1nat
        } else {
            0
        })
    }
}

/// Every entry of a listing that could be read is copied, whatever it is, in the order of
/// the listing, and nothing else is.
pub proof fn every_object_is_copied(entries: Seq<Option<ListedObject>>, i: int)
    requires
        0 <= i < entries.len(),
    ensures
        named(entries).len() == read_count(entries),
        entries[i] matches Some(object) ==> {
            &&& read_count(entries.take(i)) < named(entries).len()
            &&& named(entries)[read_count(entries.take(i)) as int] == object
            &&& named(entries).contains(object)
        },
        forall|k: int|
            0 <= k < named(entries).len() ==> entries.contains(Some(#[trigger] named(entries)[k])),
    decreases entries.len(),
{
    lemma_named_len(entries);
    lemma_named_was_listed(entries);
    lemma_named_at(entries, i);
}

proof fn lemma_named_len(entries: Seq<Option<ListedObject>>)
    ensures
        named(entries).len() == read_count(entries),
    decreases entries.len(),
{
    if entries.len() > 0 {
        lemma_named_len(entries.drop_last());
    }
}

proof fn lemma_named_was_listed(entries: Seq<Option<ListedObject>>)
    ensures
        forall|k: int|
            0 <= k < named(entries).len() ==> entries.contains(Some(#[trigger] named(entries)[k])),
    decreases entries.len(),
{
    if entries.len() > 0 {
        let rest = entries.drop_last();
        lemma_named_was_listed(rest);
        assert forall|k: int| 0 <= k < named(entries).len() implies entries.contains(
            Some(#[trigger] named(entries)[k]),
        ) by {
            if k < named(rest).len() {
                assert(rest.contains(Some(named(rest)[k])));
                let m = choose|m: int| 0 <= m < rest.len() && rest[m] == Some(named(rest)[k]);
                assert(entries[m] == Some(named(entries)[k]));
            } else {
                assert(entries[entries.len() - 1] == Some(named(entries)[k]));
            }
        }
    }
}

proof fn lemma_named_at(entries: Seq<Option<ListedObject>>, i: int)
    requires
        0 <= i < entries.len(),
    ensures
        entries[i] matches Some(object) ==> {
            &&& read_count(entries.take(i)) < named(entries).len()
            &&& named(entries)[read_count(entries.take(i)) as int] == object
        },
    decreases entries.len(),
{
    let rest = entries.drop_last();
    lemma_named_len(rest);
    if i == entries.len() - 1 {
        assert(entries.take(i) =~= rest);
    } else {
        lemma_named_at(rest, i);
        assert(rest.take(i) =~= entries.take(i));
        assert(rest[i] == entries[i]);
    }
}

/// Two listings, one after the other, give the objects of the one and then of the other.
pub proof fn listings_add_up(
    a: Seq<Option<ListedObject>>,
    b: Seq<Option<ListedObject>>,
    object: ListedObject,
)
    ensures
        named(a + b) == named(a) + named(b),
        named(seq![Some(object)]) == seq![object],
        named(seq![None]) == Seq::<ListedObject>::empty(),
    decreases b.len(),
{
    reveal_with_fuel(named, 2);
    assert(seq![Some(object)].drop_last() =~= Seq::<Option<ListedObject>>::empty());
    assert(named(seq![Some(object)]) =~= seq![object]);
    assert(seq![None::<ListedObject>].drop_last() =~= Seq::<Option<ListedObject>>::empty());
    if b.len() == 0 {
        assert(a + b =~= a);
        assert(named(a) + named(b) =~= named(a));
    } else {
        assert((a + b).drop_last() =~= a + b.drop_last());
        listings_add_up(a, b.drop_last(), object);
        assert(named(a + b) =~= named(a) + named(b));
    }
}

/// An object below the source prefix is copied to the same place below the destination
/// prefix, whatever its path is made of.
pub proof fn objects_go_to_the_same_place(
    src_prefix: Seq<char>,
    rel: Seq<char>,
    dst_prefix: Seq<char>,
)
    requires
        rel.len() > 0,
        rel[0] != '/',
    ensures
        src_prefix.len() > 0 ==> relative(src_prefix + seq!['/'] + rel, src_prefix) == rel,
        src_prefix.len() == 0 ==> relative(rel, src_prefix) == rel,
        src_prefix.len() > 0 && dst_prefix.len() > 0 ==> target(
            src_prefix + seq!['/'] + rel,
            src_prefix,
            dst_prefix,
        ) == dst_prefix + seq!['/'] + rel,
        src_prefix.len() == 0 && dst_prefix.len() > 0 ==> target(rel, src_prefix, dst_prefix)
            == dst_prefix + seq!['/'] + rel,
        src_prefix.len() > 0 && dst_prefix.len() == 0 ==> target(
            src_prefix + seq!['/'] + rel,
            src_prefix,
            dst_prefix,
        ) == rel,
        src_prefix.len() == 0 && dst_prefix.len() == 0 ==> target(rel, src_prefix, dst_prefix)
            == rel,
{
    reveal_strlit("/");
    assert("/"@ =~= seq!['/']);
    let slashed = seq!['/'] + rel;
    prefix_goes(src_prefix, slashed, rel);
    prefix_goes(src_prefix, rel, rel);
    assert(src_prefix + seq!['/'] + rel =~= src_prefix + slashed);
    assert(slashed.skip(1) =~= rel);
    assert(without_leading(rel, '/') == rel);
    assert(without_leading(slashed, '/') == rel);
    if src_prefix.len() == 0 {
        assert(src_prefix + rel =~= rel);
    }
}

/// Whatever stands between the source prefix and the rest of a path, slashes are not part of
/// the place that an object is copied to, and everything else is.
pub proof fn only_slashes_go(
    src_prefix: Seq<char>,
    n: nat,
    rest: Seq<char>,
    dst_prefix: Seq<char>,
)
    requires
        rest.len() == 0 || rest[0] != '/',
    ensures
        ({
            let location = src_prefix + (Seq::new(n, |i: int| '/') + rest);
            &&& relative(location, src_prefix) == rest
            &&& dst_prefix.len() == 0 ==> target(location, src_prefix, dst_prefix) == rest
            &&& dst_prefix.len() > 0 ==> target(location, src_prefix, dst_prefix) == dst_prefix
                + seq!['/'] + rest
        }),
{
    reveal_strlit("/");
    assert("/"@ =~= seq!['/']);
    prefix_goes(src_prefix, Seq::new(n, |i: int| '/') + rest, rest);
    leading_run_goes(n, rest, '/');
}

/// An object that does not lie below the source prefix is copied under its whole path.
pub proof fn other_objects_keep_their_path(
    location: Seq<char>,
    src_prefix: Seq<char>,
    dst_prefix: Seq<char>,
)
    requires
        location.len() < src_prefix.len() || location.take(src_prefix.len() as int) != src_prefix,
        location.len() > 0,
        location[0] != '/',
    ensures
        target(location, src_prefix, dst_prefix) == (if dst_prefix.len() == 0 {
            location
        } else {
            dst_prefix + seq!['/'] + location
        }),
{
    reveal_strlit("/");
    assert("/"@ =~= seq!['/']);
    prefix_goes(src_prefix, location, location);
}

/// No two objects are copied to one place.
pub proof fn objects_do_not_meet(
    src_prefix: Seq<char>,
    one: Seq<char>,
    other: Seq<char>,
    dst_prefix: Seq<char>,
)
    requires
        one.len() > 0 && one[0] != '/',
        other.len() > 0 && other[0] != '/',
        one != other,
    ensures
        target(below(src_prefix, one), src_prefix, dst_prefix) != target(
            below(src_prefix, other),
            src_prefix,
            dst_prefix,
        ),
{
    objects_go_to_the_same_place(src_prefix, one, dst_prefix);
    objects_go_to_the_same_place(src_prefix, other, dst_prefix);
    let (s, t) = (dst_prefix + seq!['/'] + one, dst_prefix + seq!['/'] + other);
    if s == t {
        let n = dst_prefix.len() + 1;
        assert(s.skip(n as int) =~= one);
        assert(t.skip(n as int) =~= other);
    }
}

/// Only clouds take multipart uploads, only objects larger than a chunk are copied in
/// chunks, and streams are used if and only if the strategy is to stream.
pub proof fn methods_fit(config: TransferConfig, to_cloud: bool, size: u64)
    ensures
        ({
            let method = copy_method_for(config, to_cloud, size);
            let streamed = method == CopyMethod::StreamMultipart || method
                == CopyMethod::StreamLocal;
            &&& streamed <==> config.copying is Stream
            &&& method == CopyMethod::StreamMultipart ==> to_cloud
            &&& method == CopyMethod::StreamLocal ==> !to_cloud
            &&& method == CopyMethod::ChunkedMultipart ==> to_cloud
            &&& method == CopyMethod::ChunkedBuffered ==> !to_cloud
            &&& config.copying matches Copying::Chunked { chunk_size: Some(chunk), .. } ==> (method
                == CopyMethod::Whole <==> size <= chunk)
        }),
{
}

/// Sizes add up one by one.
pub proof fn sizes_add_up(sizes: Seq<u64>, states: Seq<CopyState>, size: u64, state: CopyState)
    requires
        sizes.len() == states.len(),
    ensures
        total_of(Seq::empty()) == 0,
        total_of(sizes.push(size)) == total_of(sizes) + size,
        copied_of(Seq::empty(), Seq::empty()) == 0,
        state == CopyState::Copied ==> copied_of(sizes.push(size), states.push(state)) == copied_of(
            sizes,
            states,
        ) + size,
        state != CopyState::Copied ==> copied_of(sizes.push(size), states.push(state)) == copied_of(
            sizes,
            states,
        ),
{
    assert(sizes.push(size).drop_last() =~= sizes);
    assert(states.push(state).drop_last() =~= states);
}

/// Each object counts with its own size.
pub proof fn sizes_are_those_listed(objects: Seq<ListedObject>, i: int)
    ensures
        sizes_of(objects).len() == objects.len(),
        0 <= i < objects.len() ==> sizes_of(objects)[i] == objects[i].size,
{
}

/// Copying an object that has not been tried changes its state alone, and its bytes are
/// reported on top of those before, out of all.
pub proof fn copies_are_counted(
    t: TransferView,
    object: usize,
    elapsed_secs: u64,
    elapsed_nanos: u32,
)
    requires
        t.wf(),
        object < t.states.len(),
        t.states[object as int] == CopyState::Pending,
    ensures
        ({
            let event = TransferEvent::Copied { object, elapsed_secs, elapsed_nanos };
            let after = t.after(event);
            &&& after.states == t.states.update(object as int, CopyState::Copied)
            &&& after.sizes == t.sizes && after.job_id == t.job_id && after.failure == t.failure
            &&& copied_of(after.sizes, after.states) == copied_of(t.sizes, t.states)
                + t.sizes[object as int]
            &&& t.report(event) matches Some(report)
            &&& report.job_id == t.job_id
            &&& report.bytes_transferred == copied_of(t.sizes, t.states) + t.sizes[object as int]
            &&& report.bytes_total == Some(total_of(t.sizes) as u64)
            &&& report.throughput_mbps == reported_throughput(
                report.bytes_transferred,
                seconds_of(elapsed_secs, elapsed_nanos),
            )
        }),
{
    let event = TransferEvent::Copied { object, elapsed_secs, elapsed_nanos };
    lemma_copy_adds(t.sizes, t.states, object as int);
    crate::transfer::progress_only_grows(t, event);
}

proof fn lemma_copy_adds(sizes: Seq<u64>, states: Seq<CopyState>, i: int)
    requires
        sizes.len() == states.len(),
        0 <= i < sizes.len(),
        states[i] == CopyState::Pending,
    ensures
        copied_of(sizes, states.update(i, CopyState::Copied)) == copied_of(sizes, states)
            + sizes[i],
    decreases sizes.len(),
{
    let after = states.update(i, CopyState::Copied);
    if i == sizes.len() - 1 {
        assert(after.drop_last() =~= states.drop_last());
    } else {
        assert(after.drop_last() =~= states.drop_last().update(i, CopyState::Copied));
        lemma_copy_adds(sizes.drop_last(), states.drop_last(), i);
    }
}

/// An object that fails changes its state alone, is not reported, and is the failure of the
/// transfer if it is the first to fail.
pub proof fn failures_are_kept(t: TransferView, event: TransferEvent)
    requires
        event matches TransferEvent::Failed { object, .. } && object < t.states.len()
            && t.states[object as int] == CopyState::Pending,
    ensures
        ({
            let after = t.after(event);
            &&& event matches TransferEvent::Failed { object, error }
            &&& after.states == t.states.update(object as int, CopyState::Failed)
            &&& after.sizes == t.sizes && after.job_id == t.job_id
            &&& t.failure is None ==> after.failure == Some(error@)
            &&& t.failure is Some ==> after.failure == t.failure
            &&& t.report(event) is None
        }),
{
}

/// What is said of an object that has been tried, or that is none, changes nothing.
pub proof fn objects_are_tried_once(t: TransferView, event: TransferEvent, object: usize)
    requires
        event matches TransferEvent::Copied { object: o, .. } ==> o == object,
        event matches TransferEvent::Failed { object: o, .. } ==> o == object,
        object >= t.states.len() || t.states[object as int] != CopyState::Pending,
    ensures
        t.after(event) == t,
        t.report(event) is None,
{
}

/// A transfer has ended if and only if every object has been tried: well, with the bytes
/// of all objects, if and only if none has failed, and else with the first failure.
pub proof fn transfers_end_when_all_is_tried(t: TransferView)
    requires
        t.wf(),
    ensures
        t.outcome() is Some <==> forall|i: int|
            0 <= i < t.states.len() ==> #[trigger] t.states[i] != CopyState::Pending,
        t.outcome() matches Some(Ok(n)) ==> n == total_of(t.sizes),
        t.outcome() is Some && (forall|i: int|
            0 <= i < t.states.len() ==> #[trigger] t.states[i] != CopyState::Failed) ==> t.outcome()
            == Some(Ok::<u64, Seq<char>>(total_of(t.sizes) as u64)),
        t.outcome() is Some && (exists|i: int|
            0 <= i < t.states.len() && #[trigger] t.states[i] == CopyState::Failed) ==> t.outcome()
            == Some(Err::<u64, Seq<char>>(t.failure->0)) && t.failure is Some,
{
    if let Some(Ok(n)) = t.outcome() {
        crate::transfer::success_means_everything(t, n);
    }
}

/// Every chunk but the last has the full size, and there are as many as that takes.
pub proof fn chunks_are_full(size: nat, chunk: nat, i: nat)
    requires
        chunk > 0,
        i < chunk_count_of(size, chunk),
    ensures
        chunk_start(chunk, i) == i * chunk,
        i + 1 < chunk_count_of(size, chunk) ==> chunk_end(size, chunk, i) == (i + 1) * chunk,
        i + 1 == chunk_count_of(size, chunk) ==> chunk_end(size, chunk, i) == size,
        (chunk_count_of(size, chunk) - 1) * chunk < size <= chunk_count_of(size, chunk) * chunk,
{
    let count = chunk_count_of(size, chunk);
    let last = (count - 1) as nat;
    chunks_cover_object(size, chunk, i);
    chunks_cover_object(size, chunk, last);
    if i + 1 < count {
        chunks_cover_object(size, chunk, i + 1);
    }
    assert(last * chunk + chunk == count * chunk) by (nonlinear_arith)
        requires
            last + 1 == count,
    ;
}

/// Gathered chunks stand by number, and chunks with one number as they came in.
pub proof fn chunks_stand_by_number(parts: Seq<(usize, Seq<u8>)>, part: (usize, Seq<u8>), n: nat)
    ensures
        numbered(Seq::empty(), n) == Seq::<u8>::empty(),
        part.0 == n ==> numbered(parts.push(part), n) == numbered(parts, n) + part.1,
        part.0 != n ==> numbered(parts.push(part), n) == numbered(parts, n),
        gathered(parts, 0) == Seq::<u8>::empty(),
        gathered(parts, n + 1) == gathered(parts, n) + numbered(parts, n),
        strung(Seq::empty()) == Seq::<u8>::empty(),
        strung(parts.push(part)) == strung(parts) + part.1,
{
    assert(parts.push(part).drop_last() =~= parts);
    assert(part.0 != n ==> numbered(parts.push(part), n) =~= numbered(parts, n));
}

/// A setting that holds a number is that number, in digits with or without a plus sign.
/// Without one, or with something else, the default counts.
pub proof fn settings_are_read(digits: &str, other: &str, i: int, default: usize)
    requires
        digits@.len() > 0,
        all_digits(digits@),
        digits_value(digits@) <= usize::MAX,
        0 <= i < other@.len(),
        i > 0 || other@[0] != '+',
        !('0' <= other@[i] <= '9'),
    ensures
        number_or(Some(digits), default) == digits_value(digits@),
        number_or(Some(other), default) == default,
        number_or(None, default) == default,
        chunk_bytes(Some(digits)) == digits_value(digits@) * 1048576,
        chunk_bytes(Some(other)) == 64 * 1048576,
        chunk_bytes(None) == 64 * 1048576,
{
    digits_are_read(digits@, usize::MAX as nat);
    crate::text_laws::only_digits_are_read(other@, i, usize::MAX as nat);
}

/// A setting is the number that its text spells, if it spells one that can be counted.
pub proof fn settings_are_numbers(text: &str, default: usize)
    ensures
        number_in(text@, usize::MAX as nat) matches Some(n) ==> number_or(Some(text), default) == n,
        number_in(text@, usize::MAX as nat) is None ==> number_or(Some(text), default) == default,
{
}

/// The numbers that count where nothing is set, and the only word that asks for streams.
pub proof fn defaults(value: Option<&str>)
    ensures
        DEFAULT_CHUNK_SIZE_MIB == 64,
        DEFAULT_PARALLEL_CHUNKS == 4,
        DEFAULT_PARALLEL_OBJECTS == 16,
        DEFAULT_STREAM_CONCURRENCY == 16,
        DEFAULT_WORKER_CONCURRENCY == 4,
        asks_for_stream(value) <==> value is Some && value->0@ == "stream"@,
{
}

/// A URL belongs to a cloud if and only if it starts with the cloud's scheme.
pub proof fn schemes(rest: Seq<char>, raw: Seq<char>)
    ensures
        cloud_scheme("s3://"@ + rest) == Some(CloudScheme::S3),
        cloud_scheme("gs://"@ + rest) == Some(CloudScheme::Gcs),
        cloud_scheme("az://"@ + rest) == Some(CloudScheme::Azure),
        cloud_scheme(raw) == Some(CloudScheme::S3) ==> raw.len() >= 5 && raw.take(5) == "s3://"@,
        cloud_scheme(raw) == Some(CloudScheme::Gcs) ==> raw.len() >= 5 && raw.take(5) == "gs://"@,
        cloud_scheme(raw) == Some(CloudScheme::Azure) ==> raw.len() >= 5 && raw.take(5) == "az://"@,
{
    reveal_strlit("s3://");
    reveal_strlit("gs://");
    reveal_strlit("az://");
    assert(("s3://"@ + rest).subrange(0, 5) =~= "s3://"@);
    assert(("gs://"@ + rest).subrange(0, 5) =~= "gs://"@);
    assert(("az://"@ + rest).subrange(0, 5) =~= "az://"@);
    assert("s3://"@[0] == 's' && "gs://"@[0] == 'g' && "az://"@[0] == 'a');
    assert(("gs://"@ + rest)[0] == 'g' && ("az://"@ + rest)[0] == 'a');
    if raw.len() >= 5 {
        assert(raw.take(5) =~= raw.subrange(0, 5));
    }
}

/// A plain URL of a cloud names the bucket behind its scheme and the key behind that.
pub proof fn urls_name_bucket_and_key(scheme: CloudScheme, bucket: Seq<char>, key: Seq<char>)
    requires
        bucket.len() > 0,
        forall|i: int| 0 <= i < bucket.len() ==> name_char(#[trigger] bucket[i]),
    ensures
        ({
            let start = match scheme {
                CloudScheme::S3 => "s3://"@,
                CloudScheme::Gcs => "gs://"@,
                CloudScheme::Azure => "az://"@,
            };
            let url = start + bucket + seq!['/'] + key;
            &&& bucket_in(url) == bucket
            &&& key_in(url) == seq!['/'] + key
            &&& bucket_in(start + bucket) == bucket
            &&& key_in(start + bucket).len() == 0
            &&& cloud_store(scheme, Some(bucket)) == (match scheme {
                CloudScheme::S3 => StoreKindView::S3 { bucket },
                CloudScheme::Gcs => StoreKindView::Gcs { bucket },
                CloudScheme::Azure => StoreKindView::Azure { container: bucket },
            })
            &&& cloud_store(scheme, None) == cloud_store(scheme, Some(Seq::empty()))
        }),
{
    reveal_strlit("s3://");
    reveal_strlit("gs://");
    reveal_strlit("az://");
    let start = match scheme {
        CloudScheme::S3 => "s3://"@,
        CloudScheme::Gcs => "gs://"@,
        CloudScheme::Azure => "az://"@,
    };
    let url = start + bucket + seq!['/'] + key;
    assert(start.len() == 5);
    assert(url.skip(5) =~= bucket + seq!['/'] + key);
    assert((start + bucket).skip(5) =~= bucket);
    assert forall|i: int| 0 <= i < bucket.len() implies !Separator::Slash.is(
        #[trigger] bucket[i],
    ) by {
        assert(name_char(bucket[i]));
    }
    unbroken_text_is_one_piece(bucket, Separator::Slash);
    separator_parts_pieces(bucket, '/', key, Separator::Slash);
    assert(pieces(url.skip(5), Separator::Slash)[0] == bucket);
    assert(url.skip(5 + bucket.len() as int) =~= seq!['/'] + key);
}

/// A path of the local file system is its own root, with or without `file://`, and a URL
/// with no known scheme is refused with its own text.
pub proof fn other_urls(
    path: Seq<char>,
    raw: Seq<char>,
    local: Result<ResolvedStore, StoreUrlError>,
    filed: Result<ResolvedStore, StoreUrlError>,
    refused: Result<ResolvedStore, StoreUrlError>,
)
    requires
        path.len() > 0,
        path[0] == '/',
        cloud_scheme(raw) is None,
        raw.len() < 7 || raw.take(7) != "file://"@,
        raw.len() == 0 || raw[0] != '/',
        raw != "mem://"@,
    ensures
        resolves_to(path, local) ==> (local matches Ok(found) && found.store@ == (
        StoreKindView::Local { root: path }) && found.prefix@.len() == 0),
        resolves_to("file://"@ + path, filed) ==> (filed matches Ok(found) && found.store@ == (
        StoreKindView::Local { root: path }) && found.prefix@.len() == 0),
        resolves_to(raw, refused) ==> (refused matches Err(StoreUrlError::Unsupported(text))
            && text@ == raw),
{
    reveal_strlit("s3://");
    reveal_strlit("gs://");
    reveal_strlit("az://");
    reveal_strlit("file://");
    reveal_strlit("mem://");
    let named = "file://"@ + path;
    assert("s3://"@[0] == 's' && "gs://"@[0] == 'g' && "az://"@[0] == 'a' && "file://"@[0] == 'f');
    assert(named[0] == 'f');
    if "s3://"@.is_prefix_of(path) {
        assert(path.subrange(0, 5)[0] == 's');
    }
    if "gs://"@.is_prefix_of(path) {
        assert(path.subrange(0, 5)[0] == 'g');
    }
    if "az://"@.is_prefix_of(path) {
        assert(path.subrange(0, 5)[0] == 'a');
    }
    if "s3://"@.is_prefix_of(named) {
        assert(named.subrange(0, 5)[0] == 's');
    }
    if "gs://"@.is_prefix_of(named) {
        assert(named.subrange(0, 5)[0] == 'g');
    }
    if "az://"@.is_prefix_of(named) {
        assert(named.subrange(0, 5)[0] == 'a');
    }
    if "file://"@.is_prefix_of(path) {
        assert(path.subrange(0, 7)[0] == 'f');
    }
    if "file://"@.is_prefix_of(raw) {
        assert(raw.take(7) =~= raw.subrange(0, 7));
    }
    prefix_goes("file://"@, path, path);
    assert(named.subrange(0, 7) =~= "file://"@);
}

/// Memory is a store of its own.
pub proof fn memory_is_a_store(found: Result<ResolvedStore, StoreUrlError>)
    ensures
        resolves_to("mem://"@, found) ==> (found matches Ok(at) && at.store@
            == StoreKindView::Memory && at.prefix@.len() == 0),
{
    reveal_strlit("s3://");
    reveal_strlit("gs://");
    reveal_strlit("az://");
    reveal_strlit("file://");
    reveal_strlit("mem://");
    let raw = "mem://"@;
    assert(raw[0] == 'm');
    if "s3://"@.is_prefix_of(raw) {
        assert(raw.subrange(0, 5)[0] == "s3://"@[0]);
    }
    if "gs://"@.is_prefix_of(raw) {
        assert(raw.subrange(0, 5)[0] == "gs://"@[0]);
    }
    if "az://"@.is_prefix_of(raw) {
        assert(raw.subrange(0, 5)[0] == "az://"@[0]);
    }
}

/// The characters that are plain: printable ASCII without those that a store avoids.
pub proof fn plain_characters(c: char)
    ensures
        'a' <= c <= 'z' || 'A' <= c <= 'Z' || '0' <= c <= '9' ==> plain_char(c),
        c == '-' || c == '_' || c == '.' || c == '=' || c == '+' || c == ':' || c == '@' || c == ','
            || c == '!' || c == '$' || c == '&' || c == '(' || c == ')' || c == ';' || c == ' '
            || c == '\'' ==> plain_char(c),
        'a' <= c <= 'z' || '0' <= c <= '9' || c == '-' || c == '.' || c == '_' ==> name_char(c),
        plain_char(c) ==> c != '/' && c != '%' && c != '#' && c != '?' && (c as u32) < 0x7f,
{
}

/// A path without slashes at its ends and without empty parts stays, one with needless
/// slashes loses them, and nothing else changes.
pub proof fn only_needless_slashes_go(a: Seq<char>, b: Seq<char>)
    requires
        a.len() > 0 && unbroken(a, Separator::Slash),
        b.len() > 0 && unbroken(b, Separator::Slash),
    ensures
        tidied(a) == a,
        tidied(a + seq!['/'] + b) == a + seq!['/'] + b,
        tidied(a + seq!['/'] + (seq!['/'] + b)) == a + seq!['/'] + b,
        tidied(seq!['/'] + a) == a,
        tidied(a.push('/')) == a,
{
    let none = Seq::<char>::empty();
    unbroken_text_is_one_piece(a, Separator::Slash);
    unbroken_text_is_one_piece(b, Separator::Slash);
    crate::store_url::tidy_paths_stay(a);
    crate::store_url::tidy_paths_stay(b);
    crate::store_url::slash_goes_below(a, b);
    crate::store_url::slash_goes_below(none, b);
    crate::store_url::slash_goes_below(none, a);
    crate::store_url::lemma_empty_path(none);
    assert(none + seq!['/'] + b =~= seq!['/'] + b);
    assert(none + seq!['/'] + a =~= seq!['/'] + a);
    crate::store_url::slash_goes_below(a, seq!['/'] + b);
    crate::store_url::trailing_slash_changes_nothing(a);
}

/// A URL with a bucket of a usual name and a plain key without blanks is plain, and is
/// found under just that bucket and that key.
pub proof fn usual_urls_are_plain(
    scheme: CloudScheme,
    bucket: Seq<char>,
    key: Seq<char>,
    r: Result<ResolvedStore, StoreUrlError>,
)
    requires
        0 < bucket.len(),
        bucket.len() + key.len() + 6 <= u32::MAX,
        forall|i: int| 0 <= i < bucket.len() ==> name_char(#[trigger] bucket[i]),
        is_plain_path(key),
        !key.contains(' '),
    ensures
        ({
            let start = match scheme {
                CloudScheme::S3 => "s3://"@,
                CloudScheme::Gcs => "gs://"@,
                CloudScheme::Azure => "az://"@,
            };
            let url = start + bucket + seq!['/'] + key;
            &&& is_plain_url(url)
            &&& resolves_plainly(url, r) ==> (r matches Ok(found) && found.prefix@ == tidied(key)
                && found.store@ == cloud_store(scheme, Some(bucket)))
        }),
{
    reveal_strlit("s3://");
    reveal_strlit("gs://");
    reveal_strlit("az://");
    let start = match scheme {
        CloudScheme::S3 => "s3://"@,
        CloudScheme::Gcs => "gs://"@,
        CloudScheme::Azure => "az://"@,
    };
    let url = start + bucket + seq!['/'] + key;
    urls_name_bucket_and_key(scheme, bucket, key);
    let rest = bucket + seq!['/'] + key;
    schemes(rest, url);
    assert(url =~= start + rest);
    let none = Seq::<char>::empty();
    crate::store_url::slash_goes_below(none, key);
    crate::store_url::lemma_empty_path(none);
    assert(none + seq!['/'] + key =~= seq!['/'] + key);
    let path = seq!['/'] + key;
    assert(!path.contains(' ')) by {
        if path.contains(' ') {
            let i = choose|i: int| 0 <= i < path.len() && path[i] == ' ';
            assert(key[i - 1] == ' ');
        }
    }
}

/// A URL of a cloud is found under the host and the path that it parses to, and one that
/// does not parse is refused in the words of the parser.
pub proof fn cloud_urls_follow_their_parts(
    raw: Seq<char>,
    scheme: CloudScheme,
    r: Result<ResolvedStore, StoreUrlError>,
)
    requires
        cloud_scheme(raw) == Some(scheme),
    ensures
        resolves_to(raw, r) ==> {
            &&& url_parts(raw) matches Ok(parts) ==> (r matches Ok(found) && found.store@
                == cloud_store(scheme, parts.0) && found.prefix@ == object_path(
                without_leading(parts.1, '/'),
            ))
            &&& url_parts(raw) matches Err(why) ==> (r matches Err(StoreUrlError::BadUrl(text))
                && text@ == why)
        },
{
}

/// A configuration can copy unless it is for chunks of a size that cannot be counted.
pub proof fn streams_can_always_copy(config: TransferConfig)
    ensures
        config.copying is Stream ==> config.can_copy(),
        config.copying matches Copying::Chunked { chunk_size, .. } ==> (config.can_copy()
            <==> chunk_size is Some),
{
}

/// Errors of URLs say what is wrong.
pub proof fn url_errors(e: StoreUrlError, kind: StoreKind)
    ensures
        e matches StoreUrlError::BadUrl(why) ==> e.text() == why@,
        e matches StoreUrlError::Unsupported(raw) ==> e.text() == "Unsupported store URL: "@ + raw@
            + ". Use s3://, gs://, az://, file://, or /path"@,
        kind matches StoreKind::S3 { bucket } ==> kind@ == (StoreKindView::S3 { bucket: bucket@ }),
        kind matches StoreKind::Gcs { bucket } ==> kind@ == (StoreKindView::Gcs { bucket: bucket@ }),
        kind matches StoreKind::Azure { container } ==> kind@ == (StoreKindView::Azure {
            container: container@,
        }),
        kind matches StoreKind::Local { root } ==> kind@ == (StoreKindView::Local { root: root@ }),
        kind is Memory ==> kind@ == StoreKindView::Memory,
{
}

/// How a transfer has ended is seen as it is, and so are the chunks that came in.
pub proof fn outcomes_are_seen(
    outcome: Option<Result<u64, String>>,
    parts: Seq<(usize, bytes::Bytes)>,
    i: int,
)
    ensures
        outcome is None <==> outcome_view(outcome) is None,
        outcome matches Some(Ok(n)) ==> outcome_view(outcome) == Some(Ok::<u64, Seq<char>>(n)),
        outcome matches Some(Err(e)) ==> outcome_view(outcome) == Some(Err::<u64, Seq<char>>(e@)),
        parts_view(parts).len() == parts.len(),
        0 <= i < parts.len() ==> parts_view(parts)[i] == (parts[i].0, bytes_in(parts[i].1)),
{
}

/// A transfer streams if and only if that is asked for, and then the size of chunks does not
/// matter. Each number is the one that is set for it, or its default.
pub proof fn transfers_are_tuned(
    config: TransferConfig,
    strategy: Option<&str>,
    objects: Option<&str>,
    chunks: Option<&str>,
    size: Option<&str>,
)
    requires
        tuned(config, strategy, objects, chunks, size),
    ensures
        config.copying is Stream <==> (strategy matches Some(text) && text@ == "stream"@),
        config.concurrency == number_or(objects, 16),
        config.copying is Stream ==> config.can_copy(),
        config.copying matches Copying::Chunked { chunk_size, parallel_chunks } ==> {
            &&& parallel_chunks == number_or(chunks, 4)
            &&& chunk_size matches Some(n) ==> n == number_or(size, 64) * 1048576
            &&& chunk_size is None <==> number_or(size, 64) * 1048576 > usize::MAX
        },
{
}

/// The plan for an object reads that object, whole, and copies it to the same place below
/// the destination prefix, in a way that the destination takes.
pub proof fn plans_are_for_their_object(
    plan: ObjectPlan,
    object: ListedObject,
    rel: Seq<char>,
    src_prefix: Seq<char>,
    dst_prefix: Seq<char>,
    config: TransferConfig,
    to_cloud: bool,
)
    requires
        plan_tells(plan, object, src_prefix, dst_prefix, config, to_cloud),
    ensures
        plan.src_path@ == object.location@,
        plan.size == object.size,
        plan.method == copy_method_for(config, to_cloud, object.size),
        plan.dst_path@ == object_path(target(object.location@, src_prefix, dst_prefix)),
        rel.len() > 0 && rel[0] != '/' && is_plain_path(rel) && is_plain_path(dst_prefix)
            && object.location@ == below(src_prefix, rel) ==> plan.dst_path@ == below(
            tidied(dst_prefix),
            tidied(rel),
        ),
{
    if rel.len() > 0 && rel[0] != '/' && is_plain_path(rel) && is_plain_path(dst_prefix) {
        crate::transfer::copies_keep_their_place(src_prefix, rel, dst_prefix);
    }
}

} // verus!
