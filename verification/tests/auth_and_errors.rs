//! Checks of the login-flow helpers and the store error classification.

use base64::Engine;
use scoreboard::auth::{
    authorize_url, discovery_url, extract_session_cookie, logout_cookie_value,
    make_session_claims, session_cookie_value, session_identity, MicrosoftIdClaims,
};
use scoreboard::config::AppConfig;
use scoreboard::errors::{
    classify_match_message, classify_match_message_for, classify_player_insert_message,
    classify_player_message, classify_player_message_for, MatchStorageError, PlayerStorageError,
};

fn config() -> AppConfig {
    AppConfig {
        azure_storage_account: "acct".to_string(),
        azure_storage_access_key: "SECRET-REDACTED".to_string(),
        azure_tenant_id: "tenant-123".to_string(),
        azure_client_id: "client-456".to_string(),
        azure_client_secret: "SECRET-REDACTED".to_string(),
        app_url: "https://example.test".to_string(),
        session_secret: "SECRET-REDACTED".to_string(),
        port: 3000,
    }
}

#[test]
fn discovery_url_names_the_tenant() {
    assert_eq!(
        discovery_url("tenant-123"),
        "https://login.microsoftonline.com/tenant-123/v2.0/.well-known/openid-configuration"
    );
}

#[test]
fn authorize_url_carries_the_encoded_redirect() {
    let url = authorize_url(&config());
    let expected = "https://login.microsoftonline.com/tenant-123/oauth2/v2.0/authorize?client_id=client-456&response_type=code&redirect_uri=https%3A%2F%2Fexample.test%2Fapi%2Fauth%2Fcallback&scope=openid%20profile%20email&response_mode=query";
    assert_eq!(url, expected);
}

#[test]
fn session_claims_last_a_day() {
    let claims = make_session_claims("oid-1", "Jo", "jo@example.test", 1_700_000_000);
    assert_eq!(claims.sub, "oid-1");
    assert_eq!(claims.name, "Jo");
    assert_eq!(claims.email, "jo@example.test");
    assert_eq!(claims.iat, 1_700_000_000);
    assert_eq!(claims.exp - claims.iat, 86_400);
}

#[test]
fn session_identity_prefers_oid_then_sub() {
    let (id, name, email) = session_identity(MicrosoftIdClaims {
        oid: Some("oid-1".to_string()),
        sub: Some("sub-1".to_string()),
        name: None,
        preferred_username: None,
    });
    assert_eq!(id, "oid-1");
    assert_eq!(name, "Unknown User");
    assert_eq!(email, "unknown@unknown.com");

    let (id, name, email) = session_identity(MicrosoftIdClaims {
        oid: None,
        sub: Some("sub-1".to_string()),
        name: Some("Jo".to_string()),
        preferred_username: Some("jo@example.test".to_string()),
    });
    assert_eq!(id, "sub-1");
    assert_eq!(name, "Jo");
    assert_eq!(email, "jo@example.test");

    let (id, _, _) = session_identity(MicrosoftIdClaims {
        oid: None,
        sub: None,
        name: None,
        preferred_username: None,
    });
    assert_eq!(id, "unknown");
}

#[test]
fn session_cookie_values() {
    assert_eq!(
        session_cookie_value("tok123"),
        "session=tok123; Path=/; HttpOnly; SameSite=Lax; Max-Age=86400"
    );
    assert_eq!(logout_cookie_value(), "session=; Path=/; HttpOnly; SameSite=Lax; Max-Age=0");
}

#[test]
fn session_cookie_is_found_among_segments() {
    assert_eq!(
        extract_session_cookie("a=1; session=abc; b=2"),
        Some("abc".to_string())
    );
    assert_eq!(extract_session_cookie("session=xyz"), Some("xyz".to_string()));
    assert_eq!(extract_session_cookie("  \tsession=q"), Some("q".to_string()));
    assert_eq!(extract_session_cookie("session="), Some(String::new()));
    assert_eq!(extract_session_cookie("a=1; b=2"), None);
    assert_eq!(extract_session_cookie("xsession=q"), None);
    assert_eq!(extract_session_cookie(""), None);
}

#[test]
fn player_messages_classify_by_store_text() {
    assert!(matches!(
        classify_player_message("... EntityAlreadyExists ...".to_string()),
        PlayerStorageError::AlreadyExists(s) if s == "(unknown)"
    ));
    assert!(matches!(
        classify_player_message("HTTP 409 conflict".to_string()),
        PlayerStorageError::AlreadyExists(_)
    ));
    assert!(matches!(
        classify_player_message("ResourceNotFound".to_string()),
        PlayerStorageError::NotFound(s) if s == "(unknown)"
    ));
    assert!(matches!(
        classify_player_message("connection reset".to_string()),
        PlayerStorageError::Azure(s) if s == "connection reset"
    ));
}

#[test]
fn per_player_messages_carry_the_id() {
    assert!(matches!(
        classify_player_message_for("status 404".to_string(), &"bob".to_string()),
        PlayerStorageError::NotFound(s) if s == "bob"
    ));
    assert!(matches!(
        classify_player_insert_message("409".to_string(), &"bob".to_string()),
        PlayerStorageError::AlreadyExists(s) if s == "bob"
    ));
    assert!(matches!(
        classify_match_message_for("ResourceNotFound".to_string(), &"k1".to_string()),
        MatchStorageError::NotFound(s) if s == "k1"
    ));
    assert!(matches!(
        classify_match_message("404".to_string()),
        MatchStorageError::NotFound(_)
    ));
    assert!(matches!(
        classify_match_message("timeout".to_string()),
        MatchStorageError::Azure(_)
    ));
}

#[test]
fn error_messages_name_the_subject() {
    assert_eq!(
        PlayerStorageError::NotFound("bob".to_string()).message(),
        "Player 'bob' not found"
    );
    assert_eq!(
        PlayerStorageError::AlreadyExists("bob".to_string()).message(),
        "Player 'bob' already exists"
    );
    assert_eq!(
        PlayerStorageError::Azure("internal detail".to_string()).message(),
        "Internal server error"
    );
    assert_eq!(
        MatchStorageError::NotFound("k1".to_string()).message(),
        "Match 'k1' not found"
    );
}

#[test]
fn jwt_payload_decodes_the_middle_part() {
    let payload = base64::engine::general_purpose::URL_SAFE_NO_PAD.encode(b"{\"oid\":\"u1\"}");
    let token = format!("header.{payload}.signature");
    assert_eq!(
        scoreboard::auth::jwt_payload(&token),
        Some(b"{\"oid\":\"u1\"}".to_vec())
    );
}

#[test]
fn jwt_payload_rejects_malformed_tokens() {
    assert!(scoreboard::auth::jwt_payload("only.two").is_none());
    assert!(scoreboard::auth::jwt_payload("a.b.c.d").is_none());
    assert!(scoreboard::auth::jwt_payload("a.!!!.c").is_none());
    assert!(scoreboard::auth::jwt_payload("").is_none());
}

#[test]
fn token_url_names_the_tenant() {
    assert_eq!(
        scoreboard::auth::token_url("tenant-123"),
        "https://login.microsoftonline.com/tenant-123/oauth2/v2.0/token"
    );
}
