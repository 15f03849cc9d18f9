use atrinik_client::directory_model::DIRECTORY_BODY_BYTES_LIMIT;
use atrinik_client::transport::{
    append_body_chunk, selected_headers, validate_request, DirectoryRequest, DirectoryResponse,
    DirectoryTransportError, DIRECTORY_MEDIA_TYPE, DIRECTORY_URL,
};

#[test]
fn request_contract_is_fixed_and_tampering_fails_before_network() {
    assert_eq!(
        DirectoryRequest::new(Some("\"etag\"".to_owned())),
        DirectoryRequest {
            url: "https://meta.atrinik.org/index.json",
            accept: "application/json; charset=utf-8",
            cache_control: "no-cache",
            if_none_match: Some("\"etag\"".to_owned()),
        }
    );
    let invalid = DirectoryRequest {
        url: "https://example.invalid/directory",
        accept: DIRECTORY_MEDIA_TYPE,
        cache_control: "no-cache",
        if_none_match: None,
    };
    assert_eq!(
        validate_request(&invalid),
        Err(DirectoryTransportError::Protocol)
    );

    let invalid_validator = DirectoryRequest {
        url: DIRECTORY_URL,
        accept: DIRECTORY_MEDIA_TYPE,
        cache_control: "no-cache",
        if_none_match: Some("W/\"weak\"".to_owned()),
    };
    assert_eq!(
        validate_request(&invalid_validator),
        Err(DirectoryTransportError::Protocol)
    );
    assert_eq!(validate_request(&DirectoryRequest::new(None)), Ok(()));
}

#[test]
fn selected_metadata_is_allowlisted_and_invalid_values_fail_closed() {
    let headers = vec![
        ("etag".to_owned(), Some("\"one\"".to_owned())),
        ("etag".to_owned(), Some("\"two\"".to_owned())),
        ("set-cookie".to_owned(), Some("secret=value".to_owned())),
    ];
    assert_eq!(
        selected_headers(headers).expect("selected"),
        vec![
            ("etag".to_owned(), "\"one\"".to_owned()),
            ("etag".to_owned(), "\"two\"".to_owned()),
        ]
    );
    assert_eq!(
        selected_headers(vec![("etag".to_owned(), None)]),
        Err(DirectoryTransportError::Protocol)
    );
    assert_eq!(
        selected_headers(vec![("set-cookie".to_owned(), None)]),
        Ok(vec![])
    );
}

#[test]
fn decoded_body_limit_is_enforced_independently_of_http_metadata() {
    let mut body = Vec::new();
    let chunk = vec![b'a'; 8 * 1024];
    while body.len() + chunk.len() <= DIRECTORY_BODY_BYTES_LIMIT {
        append_body_chunk(&mut body, &chunk).expect("within bound");
    }
    assert_eq!(body.len(), DIRECTORY_BODY_BYTES_LIMIT);
    assert_eq!(
        append_body_chunk(&mut body, b"a"),
        Err(DirectoryTransportError::BodyTooLarge)
    );
    assert_eq!(body.len(), DIRECTORY_BODY_BYTES_LIMIT);
}

#[test]
fn header_lookup_ignores_ascii_case_and_keeps_order() {
    let response = DirectoryResponse {
        status: 200,
        headers: vec![
            ("ETag".to_owned(), "\"one\"".to_owned()),
            ("content-type".to_owned(), DIRECTORY_MEDIA_TYPE.to_owned()),
            ("etag".to_owned(), "\"two\"".to_owned()),
        ],
        body: Vec::new(),
    };
    assert_eq!(response.header_values("etag"), vec!["\"one\"", "\"two\""]);
    assert_eq!(
        response.header_values("Content-Type"),
        vec![DIRECTORY_MEDIA_TYPE]
    );
    assert!(response.header_values("retry-after").is_empty());
}
