use storage_cli::client::{
    az_launch_error, az_token, ensure_trailing_slash, mime_type_for_path, status_error,
    transport_error, upload_outcome, Client, SasSource,
};
use storage_cli::error::ErrorCode;
use storage_cli::paths::PathStyle;

#[test]
fn test_mime_detection() {
    assert_eq!(mime_type_for_path("doc.pdf", PathStyle::Unix), "application/pdf");
    assert_eq!(mime_type_for_path("image.png", PathStyle::Unix), "image/png");
    assert_eq!(mime_type_for_path("archive.zip", PathStyle::Unix), "application/zip");
    assert_eq!(mime_type_for_path("unknown.xyz", PathStyle::Unix), "application/octet-stream");
}

#[test]
fn test_sas_url_construction() {
    let client = Client::new("testaccount", "testcontainer", None, None);
    let url = client.build_read_sas_url("file.txt", "sp=r&sig=abc");
    assert_eq!(url, "https://testaccount.blob.core.windows.net/testcontainer/file.txt?sp=r&sig=abc");
}

#[test]
fn mime_uses_lowercased_extension_of_the_file_name() {
    assert_eq!(mime_type_for_path("REPORT.PDF", PathStyle::Unix), "application/pdf");
    assert_eq!(mime_type_for_path("/tmp/a.b/photo.JPEG", PathStyle::Unix), "image/jpeg");
    assert_eq!(mime_type_for_path("/tmp/a.png/README", PathStyle::Unix), "application/octet-stream");
    assert_eq!(mime_type_for_path(".yaml", PathStyle::Unix), "application/octet-stream");
    assert_eq!(mime_type_for_path("dir/config.YML/", PathStyle::Unix), "application/yaml");
    assert_eq!(mime_type_for_path("x.tar.gz", PathStyle::Unix), "application/gzip");
    assert_eq!(mime_type_for_path("notes.md", PathStyle::Unix), "text/plain");
    assert_eq!(mime_type_for_path("C:\\x.d\\photo.JPG", PathStyle::Windows), "image/jpeg");
    assert_eq!(mime_type_for_path("C:.png", PathStyle::Unix), "image/png");
    assert_eq!(mime_type_for_path("C:.png", PathStyle::Windows), "application/octet-stream");
}

#[test]
fn endpoints_by_precedence() {
    let c = Client::new_with_override(Some("http://mock:1234"), "acct", "box", Some("http://custom/"), Some(" "));
    assert_eq!(c.endpoint_base(), "http://mock:1234/");
    assert_eq!(c.secret, None);
    let c = Client::new_with_override(Some("  "), "acct", "box", Some("http://custom/"), Some("key"));
    assert_eq!(c.endpoint_base(), "http://custom/");
    assert_eq!(c.secret.as_deref(), Some("key"));
    let c = Client::new("acct", "box", Some(""), None);
    assert_eq!(c.endpoint_base(), "https://acct.blob.core.windows.net/");
    assert_eq!(c.account_name(), "acct");
    assert_eq!(c.container_name(), "box");
    assert_eq!(ensure_trailing_slash("a/".to_string()), "a/");
    assert_eq!(ensure_trailing_slash("a".to_string()), "a/");
    assert_eq!(ensure_trailing_slash(String::new()), "/");
}

#[test]
fn urls_strip_leading_question_marks() {
    let c = Client::new("acct", "box", None, None);
    assert_eq!(c.build_read_sas_url("f", "??sp=r"), "https://acct.blob.core.windows.net/box/f?sp=r");
    assert_eq!(c.build_read_sas_url("f", "?"), "https://acct.blob.core.windows.net/box/f");
    assert_eq!(c.upload_url("f", Some("?sv=1")), "https://acct.blob.core.windows.net/box/f?sv=1");
    assert_eq!(c.upload_url("f", Some("  ")), "https://acct.blob.core.windows.net/box/f");
    assert_eq!(c.upload_url("f", None), "https://acct.blob.core.windows.net/box/f");
    assert_eq!(c.upload_url("f", Some("?")), "https://acct.blob.core.windows.net/box/f?");
}

#[test]
fn sas_token_sources() {
    let c = Client::new("acct", "box", None, Some("?sv=2024&sig=x"));
    match c.sas_token_source(None, Some("?env-token"), "r", "2026-12-31") {
        SasSource::Token(t) => assert_eq!(t, "env-token"),
        other => panic!("{:?}", other),
    }
    match c.sas_token_source(None, None, "r", "2026-12-31") {
        SasSource::Token(t) => assert_eq!(t, "sv=2024&sig=x"),
        other => panic!("{:?}", other),
    }
    let c = Client::new("acct", "box", None, Some("accountkey=="));
    match c.sas_token_source(None, Some(" "), "acw", "2026-12-31") {
        SasSource::AzureCli(args) => assert_eq!(
            args,
            vec![
                "storage", "container", "generate-sas", "--account-name", "acct", "--name", "box", "--permissions",
                "acw", "--expiry", "2026-12-31", "--https-only", "--output", "tsv", "--account-key", "accountkey==",
            ]
        ),
        other => panic!("{:?}", other),
    }
    let c = Client::new("acct", "box", None, None);
    match c.sas_token_source(None, None, "r", "2026-12-31") {
        SasSource::AzureCli(args) => assert_eq!(args.len(), 14),
        other => panic!("{:?}", other),
    }
}

#[test]
fn supplied_tokens_serve_upload_and_read() {
    let c = Client::new("acct", "box", None, Some("?sv=2024&sp=r&sig=stored"));
    let write = "sp=racw&se=2026-12-31&sig=mocksig";
    for perms in ["acw", "r"] {
        match c.sas_token_source(Some(write), Some("sp=r&sig=env"), perms, "2026-12-31") {
            SasSource::Token(t) => assert_eq!(t, write),
            other => panic!("{:?}", other),
        }
        match c.sas_token_source(None, Some(write), perms, "2026-12-31") {
            SasSource::Token(t) => assert_eq!(t, write),
            other => panic!("{:?}", other),
        }
    }
    let c = Client::new("acct", "box", None, Some("sv=2024&sp=rwd&sig=stored"));
    match c.sas_token_source(None, None, "r", "2026-12-31") {
        SasSource::Token(t) => assert_eq!(t, "sv=2024&sp=rwd&sig=stored"),
        other => panic!("{:?}", other),
    }
    let url = c.build_read_sas_url("report.pdf", write);
    assert_eq!(url, format!("https://acct.blob.core.windows.net/box/report.pdf?{write}"));
}

#[test]
fn az_results() {
    assert_eq!(az_token(true, " ?sv=1&sig=2\n", "").unwrap(), "sv=1&sig=2");
    let e = az_token(true, "  \n", "").unwrap_err();
    assert_eq!(e.code, ErrorCode::AuthRequired);
    assert_eq!(e.message, "Azure CLI returned an empty SAS token. Ensure you are logged in ('az login').");
    let e = az_token(false, "", "  ERROR: not logged in\n").unwrap_err();
    assert_eq!(e.code, ErrorCode::AuthRequired);
    assert_eq!(e.detail.as_deref(), Some("ERROR: not logged in"));
    let e = az_launch_error(true, "No such file");
    assert_eq!(e.code, ErrorCode::AuthRequired);
    assert_eq!(e.message, "Azure CLI ('az') was not found on PATH.");
    let e = az_launch_error(false, "permission denied");
    assert_eq!(e.code, ErrorCode::Error);
    assert_eq!(e.message, "Could not run Azure CLI: permission denied");
}

#[test]
fn status_errors_by_code() {
    let e = status_error(401, "nope");
    assert_eq!(e.code, ErrorCode::AuthRequired);
    assert_eq!(e.detail.as_deref(), Some("HTTP 401: nope"));
    assert_eq!(status_error(403, "").detail.as_deref(), Some("HTTP 403"));
    assert_eq!(status_error(404, "").code, ErrorCode::NotFound);
    assert_eq!(status_error(429, "").code, ErrorCode::RateLimited);
    let e = status_error(422, "");
    assert_eq!(e.code, ErrorCode::InvalidInput);
    assert_eq!(e.fix, None);
    assert_eq!(status_error(503, "").code, ErrorCode::Network);
    assert_eq!(status_error(302, "").code, ErrorCode::Error);
    assert_eq!(status_error(302, "").message, "Upload to Azure Storage failed.");
    assert!(upload_outcome(201, "").is_ok());
    let e = upload_outcome(500, "  busy \n").unwrap_err();
    assert_eq!(e.detail.as_deref(), Some("HTTP 500: busy"));
    assert_eq!(e.code.exit_code(), 2);
    assert_eq!(e.code.name(), "network");
    let t = transport_error(true, "");
    assert_eq!(t.message, "The upload request timed out.");
    let t = transport_error(false, "connection refused");
    assert_eq!(t.detail.as_deref(), Some("connection refused"));
}

#[test]
fn exit_codes_are_distinct() {
    let all = [
        ErrorCode::Error,
        ErrorCode::Network,
        ErrorCode::AuthRequired,
        ErrorCode::NotFound,
        ErrorCode::RateLimited,
        ErrorCode::InvalidInput,
        ErrorCode::NoAccount,
    ];
    let codes: Vec<u8> = all.iter().map(|c| c.exit_code()).collect();
    assert_eq!(codes, vec![1, 2, 3, 4, 5, 6, 7]);
    let names: Vec<&str> = all.iter().map(|c| c.name()).collect();
    assert_eq!(names, vec!["error", "network", "auth_required", "not_found", "rate_limited", "invalid_input", "no_account"]);
}

#[test]
fn read_url_ignores_one_more_question_mark() {
    let c = Client::new("acct", "box", None, None);
    assert_eq!(c.build_read_sas_url("f", "?sp=r"), c.build_read_sas_url("f", "sp=r"));
    assert!(Client::new("acct", "box", Some("http://x"), None).endpoint_base().ends_with('/'));
}
