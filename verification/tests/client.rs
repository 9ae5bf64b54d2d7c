//! The client's side of the protocol.

use studybuddy::client::{
    accept_path, error_from, is_success, patch_path, refusal_text, reject_path,
    validate_api_token, Endpoint,
};

#[test]
fn ascii_token_is_valid() {
    assert!(validate_api_token("my-secret-token").is_ok());
    assert!(validate_api_token("550e8400-e29b-41d4-a716-446655440000").is_ok());
}

#[test]
fn non_ascii_token_is_rejected() {
    assert!(validate_api_token("tëken").is_err());
    assert!(validate_api_token("秘密").is_err());
}

#[test]
fn token_error_says_what_is_wrong() {
    assert_eq!(
        validate_api_token("tëken").unwrap_err(),
        "STUDYBUDDY_API_TOKEN must contain only ASCII characters"
    );
    assert!(validate_api_token("").is_ok());
}

#[test]
fn trailing_slashes_of_the_base_url_are_dropped() {
    for base in ["http://h:1", "http://h:1/", "http://h:1///"] {
        assert_eq!(Endpoint::new(base).url("/ingest"), "http://h:1/ingest");
    }
}

#[test]
fn card_paths_carry_the_id() {
    let id = uuid::Uuid::from_u128(0x550e8400_e29b_41d4_a716_446655440000);
    assert_eq!(accept_path(id.as_u128()), format!("/cards/{id}/accept"));
    assert_eq!(
        reject_path(id.as_u128()),
        "/cards/550e8400-e29b-41d4-a716-446655440000/reject"
    );
    assert_eq!(patch_path(0), "/cards/00000000-0000-0000-0000-000000000000");
}

#[test]
fn non_success_surfaces_server_error_message() {
    let msg = error_from("404 Not Found", "{\"error\":\"not found\"}");
    assert_eq!(msg, "server returned 404 Not Found: not found");
}

#[test]
fn bodies_without_a_message_are_surfaced_whole() {
    for body in [
        "plain text",
        "{\"error\":\"\"}",
        "{\"error\":null}",
        "{\"error\":3}",
        "[]",
        "{}",
        "",
        "{\"error\":\"e\",\"x\":1e999}",
    ] {
        assert_eq!(
            error_from("500 Internal Server Error", body),
            format!("server returned 500 Internal Server Error: {body}")
        );
    }
}

#[test]
fn refusals_prefer_the_message() {
    assert_eq!(
        refusal_text("409 Conflict", Some("taken".to_string()), "body"),
        "server returned 409 Conflict: taken"
    );
    assert_eq!(refusal_text("409 Conflict", None, "body"), "server returned 409 Conflict: body");
}

#[test]
fn success_is_two_hundred_and_something() {
    assert!(is_success(200) && is_success(204) && is_success(299));
    assert!(!is_success(199) && !is_success(300) && !is_success(404));
}
