use highwater::auth::{split_at_colon, strip_prefix};
use highwater::state::constant_time_equal;
use highwater::auth::{
    allowed_console_origin, console_credentials_match, constant_time_eq, control_authorized,
    ConsoleCredentials,
};
use highwater::state::{authorize_cluster, AuthorizationError};

#[test]
fn bearer_tokens_require_an_exact_match() {
    assert!(constant_time_eq(b"highwater", b"highwater"));
    assert!(!constant_time_eq(b"highwater", b"highwaters"));
    assert!(!constant_time_eq(b"highwater", b"highwateR"));
}

#[test]
fn demo_console_is_the_only_production_browser_origin() {
    assert!(allowed_console_origin("https://demo.highwater.cloud"));
    assert!(allowed_console_origin("http://localhost:8080"));
    assert!(!allowed_console_origin("https://highwater.cloud"));
    assert!(!allowed_console_origin(
        "https://demo.highwater.cloud.attacker.test"
    ));
}

#[test]
fn console_login_requires_both_credentials() {
    let expected = ConsoleCredentials {
        username: "demo".to_owned(),
        password: "demo".to_owned(),
    };
    assert!(console_credentials_match(
        Some("Basic ZGVtbzpkZW1v"),
        &expected
    ));
    assert!(!console_credentials_match(
        Some("Basic ZGVtbzp3cm9uZw=="),
        &expected
    ));
    assert!(!console_credentials_match(
        Some("Bearer ZGVtbzpkZW1v"),
        &expected
    ));
    assert!(!console_credentials_match(None, &expected));
}

#[test]
fn console_login_rejects_malformed_basic_credentials() {
    let expected = ConsoleCredentials {
        username: "demo".to_owned(),
        password: "demo".to_owned(),
    };
    // "demodemo" has no colon between username and password.
    assert!(!console_credentials_match(Some("Basic ZGVtb2RlbW8="), &expected));
    // Not base64 at all.
    assert!(!console_credentials_match(Some("Basic !!!"), &expected));
    // The password may itself contain a colon: "demo:de:mo".
    let colon = ConsoleCredentials {
        username: "demo".to_owned(),
        password: "de:mo".to_owned(),
    };
    assert!(console_credentials_match(Some("Basic ZGVtbzpkZTptbw=="), &colon));
}

#[test]
fn constant_time_comparison_handles_empty_and_unequal_lengths() {
    assert!(constant_time_eq(b"", b""));
    assert!(!constant_time_eq(b"", b"a"));
    assert!(!constant_time_eq(b"ab", b"a"));
}

#[test]
fn console_origin_requires_an_exact_origin() {
    assert!(!allowed_console_origin("https://demo.highwater.cloud/"));
    assert!(!allowed_console_origin("http://localhost"));
    assert!(!allowed_console_origin(""));
}

#[test]
fn cluster_peers_need_the_exact_bearer_token() {
    assert_eq!(
        authorize_cluster(None, Some("Bearer x")),
        Err(AuthorizationError::ClusterDisabled)
    );
    assert_eq!(
        authorize_cluster(Some("secret"), None),
        Err(AuthorizationError::ClusterIdentityRequired)
    );
    assert_eq!(
        authorize_cluster(Some("secret"), Some("Basic secret")),
        Err(AuthorizationError::ClusterIdentityRequired)
    );
    assert_eq!(
        authorize_cluster(Some("secret"), Some("Bearer secreT")),
        Err(AuthorizationError::InvalidClusterIdentity)
    );
    assert_eq!(authorize_cluster(Some("secret"), Some("Bearer secret")), Ok(()));
}

#[test]
fn control_service_expects_basic_credentials() {
    assert!(control_authorized(Some("Basic ZGVtbzpkZW1v"), "demo", "demo"));
    assert!(!control_authorized(Some("Basic ZGVtbzpkZW1v"), "demo", "other"));
    assert!(!control_authorized(Some("basic ZGVtbzpkZW1v"), "demo", "demo"));
    assert!(!control_authorized(None, "demo", "demo"));
}

#[test]
fn bearer_headers_must_carry_exactly_the_expected_token() {
    assert!(highwater::auth::bearer_token_matches(Some("Bearer s3cret"), "s3cret"));
    assert!(!highwater::auth::bearer_token_matches(Some("Bearer s3cret"), "s3cre"));
    assert!(!highwater::auth::bearer_token_matches(Some("bearer s3cret"), "s3cret"));
    assert!(!highwater::auth::bearer_token_matches(Some("s3cret"), "s3cret"));
    assert!(!highwater::auth::bearer_token_matches(None, "s3cret"));
}

#[test]
fn header_pieces_split_and_strip_exactly() {
    assert_eq!(strip_prefix("Basic abc", "Basic "), Some("abc"));
    assert_eq!(strip_prefix("Basi", "Basic "), None);
    assert_eq!(split_at_colon("user:pa:ss"), Some(("user".to_owned(), "pa:ss".to_owned())));
    assert_eq!(split_at_colon("nocolon"), None);
    assert!(constant_time_equal(b"token", b"token"));
    assert!(!constant_time_equal(b"token", b"tokem"));
    assert!(!constant_time_equal(b"token", b"token2"));
}
