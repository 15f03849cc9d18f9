use atrinik_client::directory::{
    conditional_request, directory_body_sha256, directory_etag, record_to_keep,
    retry_after_seconds, ConnectionPlanError, DirectoryAvailability, DirectoryFailure,
    DirectoryService, DirectorySource, RendezvousSupport, ResponseOutcome, ValidatedRecord,
    MAXIMUM_STALE_DISPLAY_SECONDS,
};
use atrinik_client::directory_cache::{CachedDirectory, DirectoryCacheError, MemoryDirectoryCache};
use atrinik_client::directory_model::{
    parse_directory, DirectoryParser, DirectoryValidationError, InstalledCompatibility, WireDirectory,
    WireEndpoint, WireServer,
};
use atrinik_client::transport::{
    DirectoryRequest, DirectoryResponse, DirectoryTransport, DirectoryTransportError,
    DIRECTORY_MEDIA_TYPE,
};
use std::collections::VecDeque;
use std::time::{Duration, UNIX_EPOCH};

const NOW: u64 = 1_786_219_201;
const GENERATED_AT: u64 = 1_786_219_200;
const ENDPOINT: &[u8] = b",\"endpoint\":{\"hostname\":\"xn--bcher-kva.example.org\",\"port\":13327}";
const CANONICAL: &[u8] = b"{\"schema\":\"atrinik-directory-v1\",\"generation\":\"42\",\"generatedAt\":\"1786219200\",\"expiresAt\":\"1786233600\",\"servers\":[{\"serverId\":\"1111111111111111111111111111111111111111111111111111111111111111\",\"contentId\":\"atrinik-main\",\"endpoint\":{\"hostname\":\"xn--bcher-kva.example.org\",\"port\":13327}},{\"serverId\":\"2222222222222222222222222222222222222222222222222222222222222222\",\"contentId\":\"other-content\"}]}\n";
const EMPTY: &[u8] = b"{\"schema\":\"atrinik-directory-v1\",\"generation\":\"1\",\"generatedAt\":\"1786219200\",\"expiresAt\":\"1786233600\",\"servers\":[]}\n";

fn wire_server(id: u8, content_id: &str, endpoint: Option<WireEndpoint>) -> WireServer {
    WireServer {
        server_id: vec![id; 32],
        certificate_sha256: vec![id; 32],
        name: format!("Server {id}"),
        description: String::new(),
        region: None,
        protocol_major: 1,
        protocol_minor: 0,
        content_id: content_id.into(),
        content_revision_sha256: vec![0xaa; 32],
        players_online: 3,
        players_capacity: 64,
        status: 1,
        password_required: false,
        endpoint,
    }
}

fn without_endpoint(body: &[u8]) -> Vec<u8> {
    let mut body = body.to_vec();
    let start = body
        .windows(ENDPOINT.len())
        .position(|window| window == ENDPOINT)
        .expect("endpoint");
    body.drain(start..start + ENDPOINT.len());
    body
}

/// Stands in for the canonical parser on the bodies these tests use.
struct FixtureParser;

impl DirectoryParser for FixtureParser {
    fn parse_directory_json(&self, input: &[u8]) -> Result<WireDirectory, DirectoryValidationError> {
        let listed = |endpoint: bool| WireDirectory {
            generation: 42,
            generated_at: GENERATED_AT,
            expires_at: 1_786_233_600,
            servers: vec![
                wire_server(
                    0x11,
                    "atrinik-main",
                    endpoint.then(|| WireEndpoint {
                        hostname: "xn--bcher-kva.example.org".into(),
                        port: 13_327,
                    }),
                ),
                wire_server(0x22, "other-content", None),
            ],
        };
        if input == CANONICAL {
            Ok(listed(true))
        } else if input == without_endpoint(CANONICAL).as_slice() {
            Ok(listed(false))
        } else if input == EMPTY {
            Ok(WireDirectory {
                generation: 1,
                generated_at: GENERATED_AT,
                expires_at: 1_786_233_600,
                servers: vec![],
            })
        } else {
            Err(DirectoryValidationError::InvalidJson)
        }
    }
}

#[derive(Default)]
struct FakeTransport {
    responses: VecDeque<Result<DirectoryResponse, DirectoryTransportError>>,
    requests: Vec<DirectoryRequest>,
}

impl FakeTransport {
    fn returning(response: Result<DirectoryResponse, DirectoryTransportError>) -> Self {
        Self {
            responses: VecDeque::from([response]),
            requests: Vec::new(),
        }
    }
}

impl DirectoryTransport for FakeTransport {
    fn fetch(
        &mut self,
        request: &DirectoryRequest,
    ) -> Result<DirectoryResponse, DirectoryTransportError> {
        self.requests.push(request.clone());
        self.responses
            .pop_front()
            .unwrap_or(Err(DirectoryTransportError::Offline))
    }
}

fn compatibility() -> InstalledCompatibility {
    InstalledCompatibility::exact(0, "atrinik-main", [0xaa; 32]).expect("valid compatibility")
}

fn new_service(
    transport: FakeTransport,
    cache: MemoryDirectoryCache,
    compatibility: InstalledCompatibility,
) -> DirectoryService<FakeTransport, MemoryDirectoryCache, FixtureParser> {
    DirectoryService::new(transport, cache, FixtureParser, compatibility)
}

fn response(status: u16, body: &[u8]) -> DirectoryResponse {
    let mut headers = Vec::new();
    if status == 200 {
        headers.extend([
            ("content-type".to_owned(), DIRECTORY_MEDIA_TYPE.to_owned()),
            ("content-length".to_owned(), body.len().to_string()),
            ("etag".to_owned(), directory_etag(body)),
            (
                "last-modified".to_owned(),
                httpdate::fmt_http_date(UNIX_EPOCH + Duration::from_secs(496_172 * 3_600)),
            ),
        ]);
    }
    DirectoryResponse {
        status,
        headers,
        body: body.to_vec(),
    }
}

fn cached(received_at: u64) -> CachedDirectory {
    CachedDirectory {
        received_at,
        published_at: Some(GENERATED_AT),
        etag: directory_etag(CANONICAL),
        body_sha256: directory_body_sha256(CANONICAL),
        body: CANONICAL.to_vec(),
    }
}

#[test]
fn accepted_network_snapshot_is_bounded_filtered_and_cached() {
    let transport = FakeTransport::returning(Ok(response(200, CANONICAL)));
    let mut service = new_service(transport, MemoryDirectoryCache::default(), compatibility());
    let view = service.refresh(NOW);
    assert_eq!(view.availability, DirectoryAvailability::Fresh);
    assert_eq!(view.source, DirectorySource::Network);
    assert_eq!(view.notice, None);
    assert_eq!(view.snapshot.as_ref().expect("snapshot").servers.len(), 1);
    let (transport, cache, _) = service.into_parts();
    assert_eq!(transport.requests, [DirectoryRequest::new(None)]);
    assert_eq!(cache.records(), &[cached(NOW)]);
}

#[test]
fn empty_and_no_compatible_states_are_distinct() {
    let transport = FakeTransport::returning(Ok(response(200, EMPTY)));
    let mut service = new_service(transport, MemoryDirectoryCache::default(), compatibility());
    let empty = service.refresh(NOW);
    assert_eq!(empty.availability, DirectoryAvailability::Empty);
    assert_eq!(empty.message(), "No public servers are currently listed");

    let transport = FakeTransport::returning(Ok(response(200, CANONICAL)));
    let mut service = new_service(
        transport,
        MemoryDirectoryCache::default(),
        InstalledCompatibility::Unavailable,
    );
    let incompatible = service.refresh(NOW);
    assert_eq!(
        incompatible.availability,
        DirectoryAvailability::NoCompatibleServers
    );
    assert_eq!(
        incompatible.message(),
        "No listed server matches the installed protocol and content"
    );
}

#[test]
fn conditional_revalidation_refreshes_receipt_without_changing_body() {
    let mut not_modified = response(304, &[]);
    not_modified.headers = vec![("etag".to_owned(), directory_etag(CANONICAL))];
    let transport = FakeTransport::returning(Ok(not_modified));
    let cache = MemoryDirectoryCache::with_records(vec![cached(NOW - 10)]);
    let mut service = new_service(transport, cache, compatibility());
    let view = service.refresh(NOW);
    assert_eq!(view.source, DirectorySource::Revalidated);
    assert_eq!(view.received_at, Some(NOW));
    let (transport, cache, _) = service.into_parts();
    assert_eq!(
        transport.requests,
        [DirectoryRequest::new(Some(directory_etag(CANONICAL)))]
    );
    assert_eq!(cache.records()[0].received_at, NOW);
    assert_eq!(cache.records()[0].body, CANONICAL);
}

#[test]
fn network_failures_use_fresh_then_stale_lkg_but_never_stale_for_connection() {
    let transport = FakeTransport::returning(Err(DirectoryTransportError::Timeout));
    let mut service = new_service(
        transport,
        MemoryDirectoryCache::with_records(vec![cached(NOW - 10)]),
        compatibility(),
    );
    let fresh = service.refresh(NOW);
    assert_eq!(fresh.availability, DirectoryAvailability::Fresh);
    assert_eq!(fresh.source, DirectorySource::Cache);
    assert_eq!(fresh.notice, Some(DirectoryFailure::Timeout));

    let (_, cache, compatibility) = service.into_parts();
    let transport = FakeTransport::returning(Err(DirectoryTransportError::Offline));
    let mut service = DirectoryService::new(transport, cache, FixtureParser, compatibility);
    let stale_now = 1_786_233_601;
    let stale = service.refresh(stale_now);
    assert_eq!(stale.availability, DirectoryAvailability::Stale);
    assert_eq!(
        stale.connection_plan(&[0x11; 32], stale_now, RendezvousSupport::FixedV1),
        Err(ConnectionPlanError::RefreshRequired)
    );

    let (_, cache, compatibility) = service.into_parts();
    let transport = FakeTransport::returning(Err(DirectoryTransportError::Offline));
    let mut service = DirectoryService::new(transport, cache, FixtureParser, compatibility);
    let expired = service.refresh(1_786_233_600 + MAXIMUM_STALE_DISPLAY_SECONDS + 1);
    assert_eq!(expired.availability, DirectoryAvailability::Unavailable);
    assert!(expired.snapshot.is_none());
}

#[test]
fn corrupt_cache_does_not_poison_request_or_hide_transport_failure() {
    let mut bad = cached(NOW - 1);
    bad.etag = directory_etag(b"different");
    let transport = FakeTransport::returning(Err(DirectoryTransportError::Tls));
    let cache = MemoryDirectoryCache::with_records(vec![bad]);
    let mut service = new_service(transport, cache, compatibility());
    let view = service.refresh(NOW);
    assert_eq!(view.availability, DirectoryAvailability::Unavailable);
    assert_eq!(view.notice, Some(DirectoryFailure::Tls));
    let (transport, _, _) = service.into_parts();
    assert_eq!(transport.requests, [DirectoryRequest::new(None)]);
}

#[test]
fn cache_write_failure_keeps_valid_network_result_visible() {
    let transport = FakeTransport::returning(Ok(response(200, CANONICAL)));
    let mut cache = MemoryDirectoryCache::default();
    cache.fail_next_store(DirectoryCacheError::Io);
    let mut service = new_service(transport, cache, compatibility());
    let view = service.refresh(NOW);
    assert_eq!(view.availability, DirectoryAvailability::Fresh);
    assert_eq!(view.notice, Some(DirectoryFailure::CacheWriteFailed));
}

#[test]
fn metadata_integrity_and_clock_fail_closed_without_replacing_lkg() {
    let cases = [
        {
            let mut value = response(200, CANONICAL);
            value.headers.retain(|(name, _)| name != "etag");
            value
        },
        {
            let mut value = response(200, CANONICAL);
            value
                .headers
                .push(("etag".to_owned(), directory_etag(CANONICAL)));
            value
        },
        {
            let mut value = response(200, CANONICAL);
            value.headers.retain(|(name, _)| name != "content-type");
            value
        },
        {
            let mut value = response(200, CANONICAL);
            value
                .headers
                .push(("content-encoding".to_owned(), "gzip".to_owned()));
            value
        },
    ];
    for response in cases {
        let transport = FakeTransport::returning(Ok(response));
        let cache = MemoryDirectoryCache::with_records(vec![cached(NOW - 1)]);
        let mut service = new_service(transport, cache, compatibility());
        let view = service.refresh(NOW);
        assert_eq!(view.source, DirectorySource::Cache);
        assert!(view.notice.is_some());
        let (_, cache, _) = service.into_parts();
        assert_eq!(cache.records(), &[cached(NOW - 1)]);
    }

    let transport = FakeTransport::returning(Ok(response(200, CANONICAL)));
    let mut service = new_service(transport, MemoryDirectoryCache::default(), compatibility());
    let view = service.refresh(1_786_218_899);
    assert_eq!(view.availability, DirectoryAvailability::Unavailable);
    assert_eq!(view.notice, Some(DirectoryFailure::InvalidMetadata));
}

#[test]
fn rate_limit_is_typed_bounded_and_preserves_lkg() {
    let mut limited = response(429, &[]);
    limited
        .headers
        .push(("retry-after".to_owned(), "60".to_owned()));
    let transport = FakeTransport::returning(Ok(limited));
    let cache = MemoryDirectoryCache::with_records(vec![cached(NOW - 1)]);
    let mut service = new_service(transport, cache, compatibility());
    let view = service.refresh(NOW);
    assert_eq!(view.source, DirectorySource::Cache);
    assert_eq!(
        view.notice,
        Some(DirectoryFailure::RateLimited {
            retry_after_seconds: 60
        })
    );

    let mut dated = response(429, &[]);
    dated.headers.push((
        "retry-after".to_owned(),
        httpdate::fmt_http_date(UNIX_EPOCH + Duration::from_secs(NOW + 90)),
    ));
    let transport = FakeTransport::returning(Ok(dated));
    let mut service = new_service(transport, MemoryDirectoryCache::default(), compatibility());
    assert_eq!(
        service.refresh(NOW).notice,
        Some(DirectoryFailure::RateLimited {
            retry_after_seconds: 90
        })
    );
}

#[test]
fn freshness_boundaries_use_exact_protocol_skew_and_expiry_rules() {
    let transport = FakeTransport::returning(Ok(response(200, CANONICAL)));
    let mut service = new_service(transport, MemoryDirectoryCache::default(), compatibility());
    assert_eq!(
        service.refresh(1_786_218_900).availability,
        DirectoryAvailability::Fresh
    );

    let transport = FakeTransport::returning(Err(DirectoryTransportError::Offline));
    let mut service = new_service(
        transport,
        MemoryDirectoryCache::with_records(vec![cached(NOW)]),
        compatibility(),
    );
    assert_eq!(
        service.refresh(1_786_233_600).availability,
        DirectoryAvailability::Stale
    );
}

#[test]
fn addressless_server_uses_only_fixed_rendezvous_and_remains_certificate_pinned() {
    let body = without_endpoint(CANONICAL);
    let transport = FakeTransport::returning(Ok(response(200, &body)));
    let mut service = new_service(transport, MemoryDirectoryCache::default(), compatibility());
    let view = service.refresh(NOW);
    let plan = view
        .connection_plan(&[0x11; 32], NOW, RendezvousSupport::FixedV1)
        .expect("addressless rendezvous plan");
    assert_eq!(plan.server_id, plan.certificate_sha256);
    assert_eq!(plan.direct_endpoint, None);
    assert_eq!(
        plan.rendezvous_url.as_deref(),
        Some(
            "wss://rendezvous.meta.atrinik.org/v1/servers/1111111111111111111111111111111111111111111111111111111111111111?role=client"
        )
    );
    assert_eq!(
        view.connection_plan(&[0x11; 32], NOW, RendezvousSupport::Disabled),
        Err(ConnectionPlanError::NoRoute)
    );
}

#[test]
fn etag_is_the_body_digest_in_the_fixed_form() {
    assert_eq!(
        directory_etag(b""),
        "\"atrinik-directory-v1-sha256-e3b0c44298fc1c149afbf4c8996fb92427ae41e4649b934ca495991b7852b855\""
    );
}

#[test]
fn connection_plans_refuse_missing_full_and_unknown_servers() {
    let transport = FakeTransport::returning(Ok(response(200, CANONICAL)));
    let mut service = new_service(transport, MemoryDirectoryCache::default(), compatibility());
    let view = service.refresh(NOW);
    let plan = view
        .connection_plan(&[0x11; 32], NOW, RendezvousSupport::Disabled)
        .expect("direct plan");
    assert_eq!(plan.rendezvous_url, None);
    assert_eq!(
        plan.direct_endpoint.map(|endpoint| endpoint.port),
        Some(13_327)
    );
    assert_eq!(
        view.connection_plan(&[0x22; 32], NOW, RendezvousSupport::FixedV1),
        Err(ConnectionPlanError::ServerMissing)
    );
    let transport = FakeTransport::returning(Err(DirectoryTransportError::Offline));
    let mut unavailable = service_without_cache(transport);
    let view = unavailable.refresh(NOW);
    assert_eq!(view.source, DirectorySource::NoSource);
    assert_eq!(
        view.connection_plan(&[0x11; 32], NOW, RendezvousSupport::FixedV1),
        Err(ConnectionPlanError::DirectoryUnavailable)
    );
    assert_eq!(view.notice.map(DirectoryFailure::code), Some("offline"));
}

fn service_without_cache(
    transport: FakeTransport,
) -> DirectoryService<FakeTransport, MemoryDirectoryCache, FixtureParser> {
    new_service(transport, MemoryDirectoryCache::default(), compatibility())
}

#[test]
fn responses_with_bad_status_length_or_digest_are_rejected() {
    let transport = FakeTransport::returning(Ok(response(503, &[])));
    let mut unavailable = service_without_cache(transport);
    assert_eq!(
        unavailable.refresh(NOW).notice,
        Some(DirectoryFailure::HttpUnavailable)
    );
    let mut wrong_length = response(200, CANONICAL);
    for header in &mut wrong_length.headers {
        if header.0 == "content-length" {
            header.1 = "01".to_owned();
        }
    }
    let mut service = service_without_cache(FakeTransport::returning(Ok(wrong_length)));
    assert_eq!(
        service.refresh(NOW).notice,
        Some(DirectoryFailure::InvalidMetadata)
    );
    let mut tampered = response(200, CANONICAL);
    for header in &mut tampered.headers {
        if header.0 == "etag" {
            header.1 = directory_etag(EMPTY);
        }
    }
    let mut service = service_without_cache(FakeTransport::returning(Ok(tampered)));
    assert_eq!(
        service.refresh(NOW).notice,
        Some(DirectoryFailure::IntegrityMismatch)
    );
    let unparsable = response(200, b"{}");
    let mut service = service_without_cache(FakeTransport::returning(Ok(unparsable)));
    assert_eq!(
        service.refresh(NOW).notice,
        Some(DirectoryFailure::InvalidDirectory(
            DirectoryValidationError::InvalidJson
        ))
    );
}

#[test]
fn retry_after_outside_one_second_to_a_day_is_invalid() {
    for value in ["0", "86401", "007", "soon"] {
        let mut limited = response(429, &[]);
        limited
            .headers
            .push(("retry-after".to_owned(), value.to_owned()));
        assert_eq!(
            retry_after_seconds(&limited, NOW),
            Err(DirectoryFailure::InvalidMetadata),
            "{value}"
        );
    }
    let mut day = response(429, &[]);
    day.headers
        .push(("retry-after".to_owned(), "86400".to_owned()));
    assert_eq!(retry_after_seconds(&day, NOW), Ok(86_400));
}

#[test]
fn etag_of_the_empty_directory_is_its_tagged_digest() {
    assert_eq!(
        directory_etag(EMPTY),
        "\"atrinik-directory-v1-sha256-6397015170882ff2236157bdb156cd5b405527dec5323aab70fc1cbf97e2ac91\""
    );
}

fn validated(received_at: u64) -> ValidatedRecord {
    let snapshot = parse_directory(&FixtureParser, CANONICAL, &compatibility()).expect("snapshot");
    ValidatedRecord {
        record: cached(received_at),
        snapshot,
        source: DirectorySource::Cache,
    }
}

#[test]
fn the_request_carries_the_tag_of_the_chosen_record_only() {
    assert_eq!(conditional_request(&None), DirectoryRequest::new(None));
    assert_eq!(
        conditional_request(&Some(validated(NOW - 10))),
        DirectoryRequest::new(Some(directory_etag(CANONICAL)))
    );
}

#[test]
fn a_revalidation_keeps_the_cached_record_received_now() {
    let kept = record_to_keep(ResponseOutcome::Revalidated, Some(validated(NOW - 10)), NOW)
        .expect("revalidated");
    assert_eq!(kept.record.received_at, NOW);
    assert_eq!(kept.record.body, CANONICAL);
    assert_eq!(kept.record.etag, directory_etag(CANONICAL));
    assert_eq!(kept.source, DirectorySource::Revalidated);
    assert_eq!(
        record_to_keep(ResponseOutcome::Revalidated, None, NOW).err(),
        Some(DirectoryFailure::InvalidMetadata)
    );
    let accepted = record_to_keep(
        ResponseOutcome::Accepted(validated(NOW)),
        Some(validated(NOW - 10)),
        NOW,
    )
    .expect("accepted");
    assert_eq!(accepted.record.received_at, NOW);
    assert_eq!(accepted.source, DirectorySource::Cache);
}

#[test]
fn failure_kinds_have_codes_of_their_own() {
    let validation = [
        DirectoryValidationError::InvalidJson,
        DirectoryValidationError::NonCanonicalJson,
        DirectoryValidationError::UnsupportedSchema,
        DirectoryValidationError::BodyTooLarge,
        DirectoryValidationError::TooManyServers,
        DirectoryValidationError::InvalidGeneration,
        DirectoryValidationError::InvalidFreshness,
        DirectoryValidationError::InvalidIdentity,
        DirectoryValidationError::InvalidText,
        DirectoryValidationError::InvalidRegion,
        DirectoryValidationError::InvalidProtocol,
        DirectoryValidationError::InvalidContent,
        DirectoryValidationError::InvalidPlayers,
        DirectoryValidationError::InvalidStatus,
        DirectoryValidationError::InvalidEndpoint,
        DirectoryValidationError::UnorderedServers,
        DirectoryValidationError::InternalContract,
    ];
    let mut failures = vec![
        DirectoryFailure::Offline,
        DirectoryFailure::Timeout,
        DirectoryFailure::Tls,
        DirectoryFailure::RateLimited {
            retry_after_seconds: 7,
        },
        DirectoryFailure::HttpUnavailable,
        DirectoryFailure::InvalidMetadata,
        DirectoryFailure::IntegrityMismatch,
        DirectoryFailure::CacheUnavailable,
        DirectoryFailure::CacheCorrupt,
        DirectoryFailure::CacheWriteFailed,
    ];
    failures.extend(validation.iter().map(|error| DirectoryFailure::InvalidDirectory(*error)));
    let codes: std::collections::BTreeSet<&str> =
        failures.iter().map(|failure| failure.code()).collect();
    assert_eq!(codes.len(), failures.len());
    assert_eq!(
        DirectoryFailure::RateLimited {
            retry_after_seconds: 1
        }
        .code(),
        "rate_limited"
    );
}
