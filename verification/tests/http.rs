use rusty_collars::http::accepts_gzip;

#[test]
fn absent_header_means_identity_only() {
    assert!(!accepts_gzip(None));
}

#[test]
fn identity_only_rejects_gzip() {
    assert!(!accepts_gzip(Some("identity")));
    assert!(!accepts_gzip(Some("identity;q=1")));
    assert!(!accepts_gzip(Some("identity;q=1, *;q=0")));
}

#[test]
fn explicit_gzip_accepts() {
    assert!(accepts_gzip(Some("gzip")));
    assert!(accepts_gzip(Some("gzip, deflate")));
    assert!(accepts_gzip(Some("deflate, gzip")));
    assert!(accepts_gzip(Some("gzip;q=0.5")));
    assert!(accepts_gzip(Some("gzip;q=1.0")));
}

#[test]
fn explicit_gzip_zero_rejects() {
    assert!(!accepts_gzip(Some("gzip;q=0")));
    assert!(!accepts_gzip(Some("gzip; q=0")));
    assert!(!accepts_gzip(Some("gzip;q=0.0")));
}

#[test]
fn wildcard_accepts_when_gzip_unmentioned() {
    assert!(accepts_gzip(Some("*")));
    assert!(accepts_gzip(Some("deflate, *;q=0.5")));
}

#[test]
fn wildcard_zero_rejects_unmentioned_gzip() {
    assert!(!accepts_gzip(Some("*;q=0")));
    assert!(!accepts_gzip(Some("identity, *;q=0")));
}

#[test]
fn explicit_gzip_overrides_wildcard() {
    // gzip;q=0 with *;q=1 → gzip is forbidden, wildcard does not rescue it.
    assert!(!accepts_gzip(Some("gzip;q=0, *")));
    // gzip;q=1 with *;q=0 → gzip is allowed.
    assert!(accepts_gzip(Some("gzip, *;q=0")));
}

#[test]
fn case_insensitive_and_x_gzip_alias() {
    assert!(accepts_gzip(Some("GZIP")));
    assert!(accepts_gzip(Some("Gzip")));
    assert!(accepts_gzip(Some("x-gzip")));
    assert!(accepts_gzip(Some("X-GZIP;Q=0.5")));
    assert!(!accepts_gzip(Some("X-GZIP;Q=0")));
}

#[test]
fn realistic_browser_header() {
    assert!(accepts_gzip(Some("gzip, deflate, br, zstd")));
}

#[test]
fn malformed_q_param_falls_back_to_default() {
    // An unparseable q-parameter is ignored, leaving the default q=1.0 in
    // effect — gzip is still accepted. Non-malicious clients don't send
    // unparseable q-values; we choose the lenient interpretation.
    assert!(accepts_gzip(Some("gzip;q=garbage")));
}
