use atrinik_client::directory::directory_body_sha256;
use atrinik_client::directory_cache::{
    existing_entry_matches, legacy_record, prepare_store, record_shape_ok, CacheScan, cache_filename, decode_record, encode_record, newest_candidates, recognized_cache_name,
    valid_strong_etag, CachedDirectory, DirectoryCache, DirectoryCacheError, MemoryDirectoryCache,
};
use atrinik_client::text::lowercase_hex;

const CACHE_MAGIC_V2: &[u8] = b"ATRINIK-DIRECTORY-CACHE-V2\n";

fn record(received_at: u64, body: &[u8]) -> CachedDirectory {
    CachedDirectory {
        received_at,
        published_at: Some(received_at.saturating_sub(1)),
        etag: format!("\"origin-object-{received_at}\""),
        body_sha256: directory_body_sha256(body),
        body: body.to_vec(),
    }
}

#[test]
fn record_codec_is_exact_bounded_and_rejects_noncanonical_metadata() {
    let expected = record(42, b"public directory\n");
    let encoded = encode_record(&expected).expect("encode");
    assert_eq!(decode_record(&encoded), Ok(expected.clone()));
    assert!(encoded.starts_with(CACHE_MAGIC_V2));

    let invalid = [
        b"ATRINIK-DIRECTORY-CACHE-V2\nreceived-at:042\npublished-at:41\netag:\"origin\"\nbody-sha256:e3b0c44298fc1c149afbf4c8996fb92427ae41e4649b934ca495991b7852b855\nbody-bytes:0\n\n".as_slice(),
        b"ATRINIK-DIRECTORY-CACHE-V2\nreceived-at:42\npublished-at:41\netag:W/\"origin\"\nbody-sha256:e3b0c44298fc1c149afbf4c8996fb92427ae41e4649b934ca495991b7852b855\nbody-bytes:0\n\n".as_slice(),
        b"ATRINIK-DIRECTORY-CACHE-V2\nreceived-at:42\npublished-at:41\netag:\"origin\"\nbody-sha256:E3B0C44298FC1C149AFBF4C8996FB92427AE41E4649B934CA495991B7852B855\nbody-bytes:0\n\n".as_slice(),
        b"ATRINIK-DIRECTORY-CACHE-V2\nreceived-at:42\npublished-at:41\netag:\"origin\"\nbody-sha256:aaaaaaaaaaaaaaaaaaaaaaaaaaaaaaaaaaaaaaaaaaaaaaaaaaaaaaaaaaaaaaaa\nbody-bytes:0\n\n".as_slice(),
        b"ATRINIK-DIRECTORY-CACHE-V2\nreceived-at:42\npublished-at:343\netag:\"origin\"\nbody-sha256:e3b0c44298fc1c149afbf4c8996fb92427ae41e4649b934ca495991b7852b855\nbody-bytes:0\n\n".as_slice(),
    ];
    for value in invalid {
        assert_eq!(
            decode_record(value),
            Err(DirectoryCacheError::InvalidRecord)
        );
    }
}

#[test]
fn verified_v1_record_remains_a_last_known_good_migration_candidate() {
    let body = b"legacy directory\n";
    let digest = lowercase_hex(&directory_body_sha256(body));
    let mut encoded = format!(
        "ATRINIK-DIRECTORY-CACHE-V1\nreceived-at:42\n\
         etag:\"atrinik-directory-v1-sha256-{digest}\"\n\
         body-bytes:{}\n\n",
        body.len(),
    )
    .into_bytes();
    encoded.extend_from_slice(body);

    assert_eq!(
        decode_record(&encoded),
        Ok(CachedDirectory {
            received_at: 42,
            published_at: None,
            etag: format!("\"atrinik-directory-v1-sha256-{digest}\""),
            body_sha256: directory_body_sha256(body),
            body: body.to_vec(),
        }),
    );

    let wrong = encoded
        .iter()
        .copied()
        .take(encoded.len() - 1)
        .chain(*b"!")
        .collect::<Vec<_>>();
    assert_eq!(
        decode_record(&wrong),
        Err(DirectoryCacheError::InvalidRecord),
    );
}

#[test]
fn strong_etag_syntax_is_opaque_bounded_and_exact() {
    assert!(valid_strong_etag("\"a\""));
    assert!(valid_strong_etag(&format!("\"{}\"", "x".repeat(126))));
    for invalid in [
        String::new(),
        "\"\"".to_owned(),
        "W/\"a\"".to_owned(),
        "\"with space\"".to_owned(),
        "\"with\\slash\"".to_owned(),
        "\"with\"quote\"".to_owned(),
        "\"é\"".to_owned(),
        format!("\"{}\"", "x".repeat(127)),
    ] {
        assert!(!valid_strong_etag(&invalid), "{invalid:?}");
    }
}

#[test]
fn encoded_record_has_the_documented_layout() {
    let body = b"{}";
    let value = record(7, body);
    let encoded = encode_record(&value).expect("encode");
    let expected_head = format!(
        "ATRINIK-DIRECTORY-CACHE-V2\nreceived-at:7\npublished-at:6\netag:\"origin-object-7\"\nbody-sha256:{}\nbody-bytes:2\n\n",
        lowercase_hex(&directory_body_sha256(body))
    );
    let mut expected = expected_head.into_bytes();
    expected.extend_from_slice(body);
    assert_eq!(encoded, expected);
}

#[test]
fn records_that_may_not_be_stored_are_refused() {
    let mut legacy = record(10, b"body");
    legacy.published_at = None;
    assert_eq!(encode_record(&legacy), Err(DirectoryCacheError::InvalidRecord));
    let mut weak = record(10, b"body");
    weak.etag = "W/\"weak\"".to_owned();
    assert_eq!(encode_record(&weak), Err(DirectoryCacheError::InvalidRecord));
    let mut future = record(10, b"body");
    future.published_at = Some(311);
    assert_eq!(encode_record(&future), Err(DirectoryCacheError::InvalidRecord));
    let mut edge = record(10, b"body");
    edge.published_at = Some(310);
    assert!(encode_record(&edge).is_ok());
    let mut corrupt = record(10, b"body");
    corrupt.body_sha256[0] ^= 1;
    assert_eq!(encode_record(&corrupt), Err(DirectoryCacheError::InvalidRecord));
    assert_eq!(
        decode_record(b"NOT-A-CACHE\n\n"),
        Err(DirectoryCacheError::InvalidRecord)
    );
}

#[test]
fn carriage_returns_before_newlines_are_tolerated_in_metadata() {
    let body = b"x";
    let value = record(42, body);
    let text = format!(
        "ATRINIK-DIRECTORY-CACHE-V2\nreceived-at:42\r\npublished-at:41\r\netag:\"origin-object-42\"\r\nbody-sha256:{}\r\nbody-bytes:1\n\nx",
        lowercase_hex(&directory_body_sha256(body))
    );
    assert_eq!(decode_record(text.as_bytes()), Ok(value));
}

#[test]
fn file_names_are_recognized_and_distinguish_validators() {
    let first = record(43, b"legacy directory\n");
    let mut second = first.clone();
    second.etag = "\"replacement-object\"".to_owned();
    let first_name = cache_filename(&first);
    assert_ne!(first_name, cache_filename(&second));
    assert!(first_name.starts_with("directory-00000000000000000043-"));
    assert!(first_name.ends_with(".cache"));
    assert!(recognized_cache_name(&first_name));
    let mut legacy = first.clone();
    legacy.published_at = None;
    assert_eq!(
        cache_filename(&legacy),
        format!(
            "directory-00000000000000000043-{}.cache",
            lowercase_hex(&legacy.body_sha256)
        )
    );
    assert!(!recognized_cache_name("directory-43-abc.cache"));
    assert!(!recognized_cache_name(&format!(
        "directory-{}-{}.cache",
        "0".repeat(20),
        "A".repeat(64)
    )));
    assert!(!recognized_cache_name(".tmp-1-2"));
}

#[test]
fn memory_cache_retains_the_four_newest_newest_first() {
    let mut cache = MemoryDirectoryCache::default();
    for timestamp in 1..=6 {
        cache
            .store(&record(timestamp, format!("body-{timestamp}").as_bytes()))
            .expect("store");
    }
    let read = cache.load().expect("load");
    assert_eq!(read.rejected_entries, 0);
    assert_eq!(
        read.candidates
            .iter()
            .map(|value| value.received_at)
            .collect::<Vec<_>>(),
        vec![6, 5, 4, 3]
    );
}

#[test]
fn memory_cache_failures_are_injected_once_and_invalid_records_refused() {
    let mut cache = MemoryDirectoryCache::with_records(vec![record(1, b"one")]);
    cache.set_rejected_entries(2);
    cache.fail_next_load(DirectoryCacheError::Io);
    assert_eq!(cache.load(), Err(DirectoryCacheError::Io));
    let read = cache.load().expect("second load");
    assert_eq!(read.rejected_entries, 2);
    assert_eq!(read.candidates, vec![record(1, b"one")]);
    cache.fail_next_store(DirectoryCacheError::Conflict);
    assert_eq!(
        cache.store(&record(2, b"two")),
        Err(DirectoryCacheError::Conflict)
    );
    let mut invalid = record(3, b"three");
    invalid.published_at = None;
    assert_eq!(cache.store(&invalid), Err(DirectoryCacheError::InvalidRecord));
    assert_eq!(cache.records(), &[record(1, b"one")]);
}

#[test]
fn candidates_order_by_receipt_then_tag_and_keep_ties_stable() {
    let mut a = record(5, b"a");
    a.etag = "\"a\"".to_owned();
    let mut b = record(5, b"b");
    b.etag = "\"b\"".to_owned();
    let older = record(4, b"older");
    let mut twin = record(5, b"twin");
    twin.etag = "\"a\"".to_owned();
    let ordered = newest_candidates(vec![older.clone(), a.clone(), b.clone(), twin.clone()]);
    assert_eq!(ordered, vec![b, a, twin, older]);
    assert!(newest_candidates(Vec::new()).is_empty());
}

#[test]
fn scan_loads_verified_legacy_and_current_records_and_reports_corruption() {
    let body = b"legacy directory\n";
    let digest = lowercase_hex(&directory_body_sha256(body));
    let mut legacy = format!(
        "ATRINIK-DIRECTORY-CACHE-V1\nreceived-at:42\n\
         etag:\"atrinik-directory-v1-sha256-{digest}\"\n\
         body-bytes:{}\n\n",
        body.len(),
    )
    .into_bytes();
    legacy.extend_from_slice(body);
    let legacy_name = format!("directory-{:020}-{digest}.cache", 42);
    let current = record(43, body);
    let (current_name, current_bytes) = prepare_store(&current).expect("storable");
    let corrupt_name = format!("directory-{:020}-{}.cache", 44, "a".repeat(64));

    let mut scan = CacheScan::new();
    for (name, bytes) in [
        ("unrelated.txt".to_owned(), b"ignored".to_vec()),
        (legacy_name, legacy),
        (current_name.clone(), current_bytes.clone()),
        (corrupt_name, b"corrupt".to_vec()),
    ] {
        if !scan.consider(&name).expect("within bound") {
            continue;
        }
        if scan.accept_file(true, bytes.len() as u64) {
            scan.offer(&name, &bytes);
        }
    }
    let read = scan.finish();
    assert_eq!(read.rejected_entries, 1);
    assert_eq!(read.candidates.len(), 2);
    assert_eq!(read.candidates[0], current);
    assert_eq!(read.candidates[1].published_at, None);

    let mut misnamed = CacheScan::new();
    let other_name = format!("directory-{:020}-{}.cache", 43, "b".repeat(64));
    assert_eq!(misnamed.consider(&other_name), Ok(true));
    misnamed.offer(&other_name, &current_bytes);
    assert!(!misnamed.accept_file(false, 0));
    let read = misnamed.finish();
    assert_eq!(read.rejected_entries, 2);
    assert!(read.candidates.is_empty());
}

#[test]
fn scan_stops_beyond_sixty_four_recognized_entries() {
    let mut scan = CacheScan::new();
    for index in 0..64u64 {
        let name = format!("directory-{index:020}-{}.cache", "0".repeat(64));
        assert_eq!(scan.consider(&name), Ok(true));
    }
    let name = format!("directory-{:020}-{}.cache", 64, "0".repeat(64));
    assert_eq!(scan.consider(&name), Err(DirectoryCacheError::Capacity));
}

#[test]
fn an_existing_entry_stands_only_for_identical_bytes() {
    assert_eq!(existing_entry_matches(true, 3, b"abc", b"abc"), Ok(()));
    assert_eq!(
        existing_entry_matches(true, 3, b"abd", b"abc"),
        Err(DirectoryCacheError::Conflict)
    );
    assert_eq!(
        existing_entry_matches(false, 3, b"abc", b"abc"),
        Err(DirectoryCacheError::Conflict)
    );
}

#[test]
fn record_shape_is_judged_against_the_given_body_digest() {
    let stored = record(42, b"public directory\n");
    let digest = directory_body_sha256(b"public directory\n");
    assert!(record_shape_ok(&stored, &digest));
    assert!(!record_shape_ok(&stored, &[0u8; 32]));
    let unpublished = CachedDirectory { published_at: None, ..stored.clone() };
    assert!(!record_shape_ok(&unpublished, &digest));
}

#[test]
fn legacy_record_requires_the_tag_to_name_the_given_digest() {
    let body = b"";
    let digest = directory_body_sha256(body);
    let etag = format!("\"atrinik-directory-v1-sha256-{}\"", lowercase_hex(&digest));
    let decoded = legacy_record(42, etag.as_bytes(), body, &digest).expect("legacy record");
    assert_eq!(decoded.received_at, 42);
    assert_eq!(decoded.published_at, None);
    assert_eq!(decoded.etag, etag);
    assert_eq!(decoded.body_sha256, digest);
    assert_eq!(
        legacy_record(42, etag.as_bytes(), body, &[0u8; 32]),
        Err(DirectoryCacheError::InvalidRecord)
    );
    assert_eq!(
        legacy_record(42, b"\"origin\"", body, &digest),
        Err(DirectoryCacheError::InvalidRecord)
    );
}
