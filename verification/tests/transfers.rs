use bytes::Bytes;
use slate::chunks::{assemble, chunk_count, chunk_range, chunk_ranges};
use slate::config::{
    checked_chunk_size, chunk_size, parallel_chunks, parallel_objects, strategy,
    stream_concurrency, transfer_config, worker_concurrency, Copying, Strategy, TransferConfig,
};
use slate::store_url::{
    cloud_client_options, cloud_location, resolve, CloudScheme, StoreKind, StoreUrlError, UrlParts,
};
use slate::transfer::{
    copy_method, destination_path, is_cloud_url, listed_objects, total_fits, CopyMethod,
    ListedObject, TransferEngine, TransferEvent, TransferSource,
};

fn streams() -> TransferConfig {
    TransferConfig { concurrency: 16, copying: Copying::Stream }
}

fn chunks() -> TransferConfig {
    TransferConfig {
        concurrency: 16,
        copying: Copying::Chunked { chunk_size: Some(100), parallel_chunks: 4 },
    }
}

fn object(location: &str, size: u64) -> ListedObject {
    ListedObject { location: location.to_string(), size }
}

#[test]
fn settings_and_their_defaults() {
    assert_eq!(parallel_objects(None), 16);
    assert_eq!(stream_concurrency(None), 16);
    assert_eq!(parallel_chunks(None), 4);
    assert_eq!(worker_concurrency(None), 4);
    assert_eq!(chunk_size(None), 64 * 1024 * 1024);
    assert_eq!(parallel_objects(Some("32")), 32);
    assert_eq!(stream_concurrency(Some("+7")), 7);
    assert_eq!(parallel_chunks(Some("0")), 0);
    assert_eq!(worker_concurrency(Some("many")), 4);
    assert_eq!(worker_concurrency(Some("")), 4);
    assert_eq!(worker_concurrency(Some("-1")), 4);
    assert_eq!(worker_concurrency(Some(" 8")), 4);
    assert_eq!(worker_concurrency(Some("99999999999999999999999")), 4);
    assert_eq!(chunk_size(Some("8")), 8 * 1024 * 1024);
    assert_eq!(checked_chunk_size(Some("18446744073709551615")), None);
}

#[test]
fn the_strategy() {
    assert_eq!(strategy(None), Strategy::Chunked);
    assert_eq!(strategy(Some("chunked")), Strategy::Chunked);
    assert_eq!(strategy(Some("stream")), Strategy::Stream);
    assert_eq!(strategy(Some("Stream")), Strategy::Chunked);
}

#[test]
fn a_whole_configuration() {
    let c = transfer_config(Some("stream"), Some("3"), None, Some("1"));
    assert_eq!(c, TransferConfig { concurrency: 3, copying: Copying::Stream });
    let c = transfer_config(None, Some("5"), Some("2"), Some("1"));
    let copying = Copying::Chunked { chunk_size: Some(1024 * 1024), parallel_chunks: 2 };
    assert_eq!(c, TransferConfig { concurrency: 5, copying });
    assert_eq!(transfer_config(None, None, None, None).concurrency, 16);
}

#[test]
fn a_size_that_cannot_be_counted_matters_only_to_chunks() {
    let huge = Some("18446744073709551615");
    assert_eq!(transfer_config(Some("stream"), None, None, huge), streams());
    let c = transfer_config(None, None, None, huge);
    assert_eq!(c.copying, Copying::Chunked { chunk_size: None, parallel_chunks: 4 });
}

#[test]
fn cloud_urls() {
    assert!(is_cloud_url("s3://b"));
    assert!(is_cloud_url("gs://b"));
    assert!(is_cloud_url("az://b"));
    assert!(!is_cloud_url("/mnt/s3://b"));
    assert!(!is_cloud_url("file:///x"));
    assert!(!is_cloud_url("S3://b"));
}

#[test]
fn buckets_and_keys() {
    let s3 = resolve("s3://my-bucket/datasets/imagenet").unwrap();
    assert!(matches!(s3.store, StoreKind::S3 { ref bucket } if bucket == "my-bucket"));
    assert_eq!(s3.prefix, "datasets/imagenet");
    let gs = resolve("gs://other//a//b/").unwrap();
    assert!(matches!(gs.store, StoreKind::Gcs { ref bucket } if bucket == "other"));
    assert_eq!(gs.prefix, "a/b");
    let az = resolve("az://container").unwrap();
    assert!(matches!(az.store, StoreKind::Azure { ref container } if container == "container"));
    assert_eq!(az.prefix, "");
    let none = resolve("s3:///key").unwrap();
    assert!(matches!(none.store, StoreKind::S3 { ref bucket } if bucket.is_empty()));
    assert_eq!(none.prefix, "key");
}

#[test]
fn plain_urls_are_read_as_they_stand() {
    for n in 0x21u8..0x7e {
        let c = n as char;
        if "\"#%*/<>?[\\]^`{|}".contains(c) {
            continue;
        }
        for scheme in ["s3", "gs", "az"] {
            let found = resolve(&format!("{scheme}://my.bucket_1-x//a{c}b/.{c}x/")).unwrap();
            assert_eq!(found.prefix, format!("a{c}b/.{c}x"));
            let name = match found.store {
                StoreKind::S3 { bucket } | StoreKind::Gcs { bucket } => bucket,
                StoreKind::Azure { container } => container,
                other => panic!("{:?}", other),
            };
            assert_eq!(name, "my.bucket_1-x");
        }
    }
}

#[test]
fn keys_are_encoded() {
    assert_eq!(resolve("s3://b/a~b").unwrap().prefix, "a%7Eb");
    assert_eq!(resolve("s3://b/a b").unwrap().prefix, "a%2520b");
    assert_eq!(destination_path("a b/c", "", "x y"), "x y/a b/c");
}

#[test]
fn local_stores() {
    for (url, path) in [
        ("/mnt/nvme", "/mnt/nvme"),
        ("file:///mnt/nvme", "/mnt/nvme"),
        ("file://relative", "relative"),
        ("/", "/"),
    ] {
        let found = resolve(url).unwrap();
        assert!(matches!(found.store, StoreKind::Local { ref root } if root == path));
        assert_eq!(found.prefix, "");
    }
    assert!(matches!(resolve("mem://").unwrap().store, StoreKind::Memory));
}

#[test]
fn urls_that_name_no_store() {
    for url in ["ftp://x", "", "mem://x", "relative/path", "S3://b"] {
        let e = resolve(url).err().unwrap();
        assert!(matches!(e, StoreUrlError::Unsupported(_)));
        assert_eq!(
            e.message(),
            format!("Unsupported store URL: {url}. Use s3://, gs://, az://, file://, or /path")
        );
    }
    let e = resolve("s3://[bad").err().unwrap();
    assert!(matches!(e, StoreUrlError::BadUrl(_)));
    assert_eq!(e.message(), "invalid IPv6 address");
}

#[test]
fn locations_from_parts() {
    let parts = UrlParts { host: Some("h".to_string()), path: "//x/y".to_string() };
    let found = cloud_location(CloudScheme::Azure, parts);
    assert!(matches!(found.store, StoreKind::Azure { ref container } if container == "h"));
    assert_eq!(found.prefix, "x/y");
    let found = cloud_location(CloudScheme::Gcs, UrlParts { host: None, path: String::new() });
    assert!(matches!(found.store, StoreKind::Gcs { ref bucket } if bucket.is_empty()));
}

#[test]
fn options_for_clouds() {
    let o = cloud_client_options();
    assert!(o.allow_http2 && o.http2_keep_alive_while_idle);
    assert_eq!(o.pool_max_idle_per_host, 32);
    assert_eq!((o.http2_keep_alive_interval_secs, o.http2_keep_alive_timeout_secs), (5, 15));
    assert_eq!(o.connect_timeout_secs, 10);
}

#[test]
fn ways_to_copy() {
    let stream = streams();
    assert_eq!(copy_method(&stream, true, 5), CopyMethod::StreamMultipart);
    assert_eq!(copy_method(&stream, false, 5000), CopyMethod::StreamLocal);
    let chunked = chunks();
    assert_eq!(copy_method(&chunked, true, 100), CopyMethod::Whole);
    assert_eq!(copy_method(&chunked, false, 100), CopyMethod::Whole);
    assert_eq!(copy_method(&chunked, true, 101), CopyMethod::ChunkedMultipart);
    assert_eq!(copy_method(&chunked, false, 101), CopyMethod::ChunkedBuffered);
}

#[test]
fn objects_keep_their_place() {
    assert_eq!(destination_path("data/a/b.bin", "data", "copy"), "copy/a/b.bin");
    assert_eq!(destination_path("data/a/b.bin", "data", ""), "a/b.bin");
    assert_eq!(destination_path("a/b.bin", "", "copy/deep"), "copy/deep/a/b.bin");
    assert_eq!(destination_path("other/x", "data", "copy"), "copy/other/x");
    assert_eq!(destination_path("data", "data", "copy"), "copy");
    assert_eq!(destination_path("data/a~", "data", "copy"), "copy/a%7E");
    assert_eq!(destination_path("data/..", "data", ""), "%2E%2E");
}

#[test]
fn ranges_of_an_object() {
    let ranges: Vec<(usize, usize)> =
        chunk_ranges(250, 100).iter().map(|r| (r.start, r.end)).collect();
    assert_eq!(ranges, vec![(0, 100), (100, 200), (200, 250)]);
    let ranges: Vec<(usize, usize)> =
        chunk_ranges(200, 100).iter().map(|r| (r.start, r.end)).collect();
    assert_eq!(ranges, vec![(0, 100), (100, 200)]);
    assert_eq!(chunk_ranges(1, 100).len(), 1);
    assert!(chunk_ranges(0, 100).is_empty());
    assert_eq!(chunk_count(usize::MAX, 1), usize::MAX);
    assert_eq!(chunk_range(250, 100, 2).end, 250);
}

#[test]
fn chunks_come_back_together_in_any_order() {
    let object: Vec<u8> = (0..=249u8).collect();
    let ranges = chunk_ranges(object.len(), 64);
    for order in [[0usize, 1, 2, 3], [3, 2, 1, 0], [2, 0, 3, 1]] {
        let parts: Vec<(usize, Bytes)> = order
            .iter()
            .map(|&i| (i, Bytes::copy_from_slice(&object[ranges[i].start..ranges[i].end])))
            .collect();
        assert_eq!(&assemble(parts)[..], &object[..]);
    }
    assert!(assemble(vec![]).is_empty());
}

#[test]
fn chunks_with_one_number_stay_in_order() {
    let parts = vec![
        (7, Bytes::from_static(b"c")),
        (1, Bytes::from_static(b"a")),
        (7, Bytes::from_static(b"d")),
        (1, Bytes::from_static(b"b")),
    ];
    assert_eq!(&assemble(parts)[..], b"abcd");
}

#[test]
fn entries_that_could_not_be_read_are_left_out() {
    let found = listed_objects(vec![
        None,
        Some(object("a", 1)),
        None,
        Some(object("b", 2)),
        Some(object("c", 3)),
        None,
    ]);
    let names: Vec<&str> = found.iter().map(|o| o.location.as_str()).collect();
    assert_eq!(names, vec!["a", "b", "c"]);
    assert!(listed_objects(vec![None]).is_empty());
}

#[test]
fn totals_that_can_be_counted() {
    assert!(total_fits(&vec![object("a", u64::MAX)]));
    assert!(!total_fits(&vec![object("a", u64::MAX), object("b", 1)]));
}

fn between(src: &str, dst: &str) -> TransferEngine {
    TransferSource::find(9, src).unwrap().towards(dst).unwrap()
}

fn engine() -> TransferEngine {
    between("s3://bucket/data", "gs://other/copy")
}

#[test]
fn a_transfer_that_ends_well() {
    let mut engine = engine();
    assert_eq!(engine.list_prefix(), Some("data"));
    assert_eq!(engine.source().prefix, "data");
    assert_eq!(engine.destination().prefix, "copy");
    let plans = engine.plan(&vec![object("data/a", 40), object("data/b", 500)], &chunks());
    assert_eq!(engine.bytes_total(), 540);
    assert_eq!(plans[0].dst_path, "copy/a");
    assert_eq!(plans[0].method, CopyMethod::Whole);
    assert_eq!(plans[1].src_path, "data/b");
    assert_eq!(plans[1].method, CopyMethod::ChunkedMultipart);
    assert_eq!(plans[1].size, 500);
    assert!(engine.outcome().is_none());

    let action =
        engine.run(TransferEvent::Copied { object: 1, elapsed_secs: 2, elapsed_nanos: 0 });
    let report = action.report.unwrap();
    assert_eq!((report.job_id, report.bytes_transferred, report.bytes_total), (9, 500, Some(540)));
    assert_eq!(report.throughput_mbps.to_bits(), ((500.0f64 / 2.0) / 1_000_000.0).to_bits());
    assert!(action.outcome.is_none());

    let action =
        engine.run(TransferEvent::Copied { object: 0, elapsed_secs: 0, elapsed_nanos: 0 });
    let report = action.report.unwrap();
    assert_eq!(report.bytes_transferred, 540);
    assert_eq!(report.throughput_mbps.to_bits(), 0.0f64.to_bits());
    assert_eq!(action.outcome, Some(Ok(540)));
}

#[test]
fn a_transfer_with_failures_tries_everything_and_keeps_the_first() {
    let mut engine = engine();
    engine.plan(&vec![object("data/a", 1), object("data/b", 2), object("data/c", 4)], &chunks());
    let first = engine.run(TransferEvent::Failed { object: 2, error: "first".to_string() });
    assert!(first.report.is_none() && first.outcome.is_none());
    let ok = engine.run(TransferEvent::Copied { object: 0, elapsed_secs: 1, elapsed_nanos: 0 });
    assert_eq!(ok.report.unwrap().bytes_transferred, 1);
    let last = engine.run(TransferEvent::Failed { object: 1, error: "second".to_string() });
    assert_eq!(last.outcome, Some(Err("first".to_string())));
}

#[test]
fn what_is_said_twice_counts_once() {
    let mut engine = engine();
    engine.plan(&vec![object("data/a", 1), object("data/b", 2)], &chunks());
    engine.run(TransferEvent::Copied { object: 0, elapsed_secs: 1, elapsed_nanos: 0 });
    let again = engine.run(TransferEvent::Copied { object: 0, elapsed_secs: 1, elapsed_nanos: 0 });
    assert!(again.report.is_none() && again.outcome.is_none());
    let odd = engine.run(TransferEvent::Failed { object: 7, error: "x".to_string() });
    assert!(odd.outcome.is_none());
    let done = engine.run(TransferEvent::Copied { object: 1, elapsed_secs: 1, elapsed_nanos: 0 });
    assert_eq!(done.outcome, Some(Ok(3)));
}

#[test]
fn an_empty_transfer_is_done() {
    let mut engine = between("/from", "/to");
    assert_eq!(engine.list_prefix(), None);
    assert!(engine.plan(&vec![], &streams()).is_empty());
    assert_eq!(engine.outcome(), Some(Ok(0)));
}

#[test]
fn a_local_destination_takes_no_multipart() {
    let mut engine = between("s3://b/p", "/to");
    let plans = engine.plan(&vec![object("p/x", 101)], &chunks());
    assert_eq!(plans[0].method, CopyMethod::ChunkedBuffered);
    assert_eq!(plans[0].dst_path, "x");
}

#[test]
fn a_transfer_between_unknown_stores() {
    let e = TransferSource::find(1, "ftp://a");
    assert!(e.err().unwrap().message().contains("ftp://a"));
    let source = TransferSource::find(1, "/a").unwrap();
    assert!(matches!(source.source().store, StoreKind::Local { ref root } if root == "/a"));
    let e = source.towards("http://b");
    assert!(e.err().unwrap().message().contains("http://b"));
}

#[test]
fn slashes_at_the_end_change_nothing() {
    for (src, dst) in [
        ("s3://lake/raw", "gs://stage/raw"),
        ("s3://lake/raw/", "gs://stage/raw/"),
        ("s3://lake//raw//", "gs://stage/raw//"),
    ] {
        let mut engine = between(src, dst);
        assert_eq!(engine.list_prefix(), Some("raw"));
        assert_eq!(engine.destination().prefix, "raw");
        let plans = engine.plan(&vec![object("raw/dt=2024-01-01/a+b:c@d.bin", 1)], &chunks());
        assert_eq!(plans[0].dst_path, "raw/dt=2024-01-01/a+b:c@d.bin");
    }
    assert_eq!(destination_path("raw/a", "raw", "copy/"), "copy/a");
    assert_eq!(destination_path("raw//a//b/", "raw", "copy//deep"), "copy/deep/a/b");
}

#[test]
fn plain_characters_stay() {
    for n in 0x21u8..0x7f {
        let c = n as char;
        let changed = "\"#%*/<>?[\\]^`{|}~".contains(c);
        let path = destination_path(&format!("x{c}y"), "", "");
        assert_eq!(path == format!("x{c}y"), c == '/' || !changed, "{c}");
    }
}
