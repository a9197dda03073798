use gg_core::error::{is_network_error, GgError};

#[test]
fn test_is_network_error_detects_dns_errors() {
    assert!(is_network_error("Could not resolve host: github.com"));
    assert!(is_network_error("DNS resolution failed"));
    assert!(is_network_error("DNS lookup failed for api.github.com"));
    assert!(is_network_error("DNS error: NXDOMAIN"));
    assert!(is_network_error("getaddrinfo failed: Name or service not known"));
    assert!(is_network_error("temporary failure in name resolution"));
}

#[test]
fn test_is_network_error_detects_connection_errors() {
    assert!(is_network_error("connection timed out"));
    assert!(is_network_error("Connection refused (os error 111)"));
    assert!(is_network_error("Connection reset by peer"));
    assert!(is_network_error("failed to connect to api.github.com"));
}

#[test]
fn test_is_network_error_detects_network_unreachable() {
    assert!(is_network_error("network is unreachable"));
    assert!(is_network_error("no route to host"));
    assert!(is_network_error("ENETUNREACH"));
    assert!(is_network_error("EHOSTUNREACH"));
}

#[test]
fn test_is_network_error_detects_tls_errors() {
    assert!(is_network_error("TLS handshake timeout"));
    assert!(is_network_error("SSL connection failed"));
    assert!(is_network_error("SSL handshake failed"));
    assert!(is_network_error("SSL certificate verify failed"));
    assert!(is_network_error("SSL error: certificate expired"));
    assert!(is_network_error("curl: (35) SSL_connect returned"));
}

#[test]
fn test_is_network_error_detects_timeout_errors() {
    assert!(is_network_error("connection timed out"));
    assert!(is_network_error("request timeout"));
    assert!(is_network_error("Operation timed out"));
    assert!(is_network_error("ETIMEDOUT"));
}

#[test]
fn test_is_network_error_detects_errno_codes() {
    assert!(is_network_error("ECONNREFUSED"));
    assert!(is_network_error("ECONNRESET"));
}

#[test]
fn test_is_network_error_detects_git_access_errors() {
    assert!(is_network_error("unable to access 'https://github.com/repo.git/'"));
}

#[test]
fn test_is_network_error_ignores_auth_errors() {
    assert!(!is_network_error("not logged in"));
    assert!(!is_network_error("authentication failed"));
    assert!(!is_network_error("token expired"));
    assert!(!is_network_error("bad credentials"));
    assert!(!is_network_error("You are not logged into any GitHub hosts"));
}

#[test]
fn test_is_network_error_ignores_empty_string() {
    assert!(!is_network_error(""));
}

#[test]
fn test_is_network_error_case_insensitive() {
    assert!(is_network_error("COULD NOT RESOLVE HOST"));
    assert!(is_network_error("Connection Timed Out"));
    assert!(is_network_error("DNS RESOLUTION FAILED"));
}

#[test]
fn network_error_lowercases_non_ascii_text_before_matching() {
    // The lowercase wrapper must really lowercase: uppercase-only input matches.
    assert!(is_network_error("ECONNREFUSED by ÉTÉ"));
    assert!(!is_network_error("ÉTÉ"));
}

#[test]
fn error_messages_match_the_cli_text() {
    assert_eq!(GgError::NotInRepo.message(), "Not in a git repository");
    assert_eq!(GgError::StackNotFound("feat".to_string()).message(), "Stack 'feat' not found");
    assert_eq!(
        GgError::Command("git push".to_string(), "denied".to_string()).message(),
        "Command 'git push' failed: denied"
    );
    assert_eq!(
        GgError::ImmutableTargets("  #1  abc  x  (merged as !7)".to_string()).message(),
        "cannot rewrite immutable commits (pass --force / --ignore-immutable to override):\n  #1  abc  x  (merged as !7)"
    );
    assert_eq!(
        GgError::StaleUndo { ref_name: "refs/heads/a".into(), expected: "1".into(), actual: "2".into() }.message(),
        "Cannot undo: ref 'refs/heads/a' has moved since the operation (expected 1, actually 2). Run `gg undo --list` to see a safe candidate."
    );
    assert_eq!(GgError::Other("plain".to_string()).message(), "plain");
    assert_eq!(
        GgError::GitOperationInProgress("held".into(), "/x/index.lock".into()).message(),
        "A git operation is currently in progress.\nheld\nIf no other process is running, remove the stale lock:\n  rm /x/index.lock"
    );
}

#[test]
fn network_error_detection_ignores_ascii_case() {
    assert!(is_network_error("CONNECTION REFUSED"));
    assert!(is_network_error("Ssl_Connect: reset by peer"));
    assert_eq!(
        is_network_error("permission denied (publickey)"),
        is_network_error("PERMISSION DENIED (PUBLICKEY)")
    );
}

#[test]
fn network_error_survives_surrounding_text() {
    assert!(is_network_error("etimedout"));
    assert!(is_network_error("fatal: ETIMEDOUT while fetching origin\nretrying"));
}
