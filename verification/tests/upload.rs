use storage_cli::account::Resolved;
use storage_cli::cli::UploadArgs;
use storage_cli::client::Client;
use storage_cli::commands::upload::{
    upload_report,
    path_not_found, plain_blob_name, should_zip, upload_container, upload_endpoint, upload_target, UploadTarget,
};
use storage_cli::config::StorageProfile;
use storage_cli::error::ErrorCode;
use storage_cli::paths::{extension, file_name, file_stem, PathStyle};
use storage_cli::text::{trim, trim_start_char};
use storage_cli::zip::{
    directory_blob_name, entry_action, is_excluded, single_file_names, zip_entry_name, EntryAction, EntryKind,
};

fn args(first: &str, second: Option<&str>, account: Option<&str>) -> UploadArgs {
    UploadArgs {
        first: first.to_string(),
        second: second.map(|s| s.to_string()),
        account: account.map(|s| s.to_string()),
        container: None,
        zipped: false,
        expires: None,
        expiry_hours: None,
        endpoint: None,
        sas_token: None,
    }
}

#[test]
fn upload_arguments_name_profile_and_path() {
    match upload_target(&args("prof", Some("./f.txt"), Some("ignored")), true) {
        UploadTarget::Profile { profile, path } => assert_eq!((profile.as_str(), path.as_str()), ("prof", "./f.txt")),
        other => panic!("{:?}", other),
    }
    match upload_target(&args("./f.txt", None, Some("acct")), true) {
        UploadTarget::Profile { profile, path } => assert_eq!((profile.as_str(), path.as_str()), ("acct", "./f.txt")),
        other => panic!("{:?}", other),
    }
    assert!(matches!(upload_target(&args("./f.txt", None, None), true), UploadTarget::ProfileMissing));
    match upload_target(&args("prof", None, None), false) {
        UploadTarget::Profile { profile, path } => assert_eq!((profile.as_str(), path.as_str()), ("prof", "")),
        other => panic!("{:?}", other),
    }
    let e = path_not_found("/definitely/nonexistent/file.txt");
    assert_eq!(e.code, ErrorCode::InvalidInput);
    assert_eq!(e.message, "Path not found: /definitely/nonexistent/file.txt");
}

#[test]
fn container_and_endpoint_overrides() {
    let r = Resolved::new(
        "p".to_string(),
        StorageProfile {
            provider: "azure".to_string(),
            account_name: "a".to_string(),
            container_name: "c".to_string(),
            endpoint: Some("http://e/".to_string()),
            added_at: None,
        },
        None,
    );
    let mut a = args("p", Some("f"), None);
    assert_eq!(upload_container(&a, &r), "c");
    assert_eq!(upload_endpoint(&a, &r).as_deref(), Some("http://e/"));
    a.container = Some("public-assets".to_string());
    a.endpoint = Some("http://azurite/".to_string());
    assert_eq!(upload_container(&a, &r), "public-assets");
    assert_eq!(upload_endpoint(&a, &r).as_deref(), Some("http://azurite/"));
    assert!(should_zip(true, false));
    assert!(should_zip(false, true));
    assert!(!should_zip(false, false));
}

#[test]
fn blob_names() {
    assert_eq!(plain_blob_name("./docs/report.pdf", PathStyle::Unix).unwrap(), "report.pdf");
    let e = plain_blob_name("/", PathStyle::Unix).unwrap_err();
    assert_eq!(e.message, "Invalid file path: /");
    assert_eq!(single_file_names("/tmp/storage_zip_test_file/test.txt", PathStyle::Unix).unwrap(), ("test.txt".to_string(), "test.zip".to_string()));
    assert_eq!(single_file_names("logs/server.log.1", PathStyle::Unix).unwrap().1, "server.log.zip");
    assert_eq!(single_file_names(".env", PathStyle::Unix).unwrap().1, ".env.zip");
    assert_eq!(single_file_names("..", PathStyle::Unix).unwrap_err().code, ErrorCode::InvalidInput);
    assert_eq!(directory_blob_name("/tmp/bundle-assets/", PathStyle::Unix), "bundle-assets.zip");
    assert_eq!(directory_blob_name("/", PathStyle::Unix), "archive.zip");
    assert_eq!(directory_blob_name(".", PathStyle::Unix), "archive.zip");
}

#[test]
fn archive_entries() {
    assert!(is_excluded("node_modules"));
    assert!(is_excluded("NODE_MODULES"));
    assert!(is_excluded(".git"));
    assert!(is_excluded(".ds_store"));
    assert!(!is_excluded("src"));
    assert!(!is_excluded("targets"));
    assert_eq!(zip_entry_name("sub\\main.js", false), "sub/main.js");
    assert_eq!(zip_entry_name("sub", true), "sub/");
    assert_eq!(zip_entry_name("sub/", true), "sub/");
}

#[test]
fn paths_read_like_std() {
    for p in ["a/b.txt", "b.txt", "/", "", ".", "..", "a/..", "a/.", "a//", "./x.tar.gz", ".hidden", "foo.", "a/b/./"] {
        let std_path = std::path::Path::new(p);
        assert_eq!(file_name(p, PathStyle::Unix), std_path.file_name().and_then(|s| s.to_str()), "file_name {p}");
        assert_eq!(extension(p, PathStyle::Unix), std_path.extension().and_then(|s| s.to_str()), "extension {p}");
        assert_eq!(file_stem(p, PathStyle::Unix), std_path.file_stem().and_then(|s| s.to_str()), "file_stem {p}");
    }
}

#[test]
fn trimming_like_std() {
    for s in ["", "  ", " a b ", "\u{3000}x\u{85}", "\t\n", "x"] {
        assert_eq!(trim(s), s.trim());
        assert_eq!(trim_start_char(s, ' '), s.trim_start_matches(' '));
    }
    assert_eq!(trim_start_char("??a?", '?'), "a?");
}

#[test]
fn windows_paths_split_on_both_slashes_after_the_drive() {
    let w = PathStyle::Windows;
    assert_eq!(file_name("C:\\dir\\report.pdf", w), Some("report.pdf"));
    assert_eq!(file_name("C:report.pdf", w), Some("report.pdf"));
    assert_eq!(file_name("C:", w), None);
    assert_eq!(file_name("C:\\", w), None);
    assert_eq!(file_name("dir/sub\\a.txt", w), Some("a.txt"));
    assert_eq!(file_name("dir\\..", w), None);
    assert_eq!(file_name("dir\\.\\", w), Some("dir"));
    assert_eq!(file_name("dir\\a.txt", PathStyle::Unix), Some("dir\\a.txt"));
    assert_eq!(extension("C:\\x\\archive.tar.gz", w), Some("gz"));
    assert_eq!(file_stem("C:\\x\\archive.tar.gz", w), Some("archive.tar"));
    assert_eq!(plain_blob_name("C:\\x\\report.pdf", w).unwrap(), "report.pdf");
    assert_eq!(directory_blob_name("C:\\x\\bundle\\", w), "bundle.zip");
    assert_eq!(directory_blob_name("C:\\", w), "archive.zip");
    assert_eq!(single_file_names("D:\\logs\\server.log", w).unwrap(), ("server.log".to_string(), "server.zip".to_string()));
}

#[test]
fn directory_walk_decisions() {
    assert!(matches!(entry_action("node_modules", "node_modules", EntryKind::Directory), EntryAction::Skip));
    assert!(matches!(entry_action("TARGET", "sub/TARGET", EntryKind::Directory), EntryAction::Skip));
    assert!(matches!(entry_action(".ds_store", ".ds_store", EntryKind::File), EntryAction::Skip));
    assert!(matches!(entry_action("fifo", "fifo", EntryKind::Other), EntryAction::Skip));
    match entry_action("subdir", "subdir", EntryKind::Directory) {
        EntryAction::Directory(n) => assert_eq!(n, "subdir/"),
        other => panic!("{:?}", other),
    }
    match entry_action("file2.txt", "subdir\\file2.txt", EntryKind::File) {
        EntryAction::File(n) => assert_eq!(n, "subdir/file2.txt"),
        other => panic!("{:?}", other),
    }
}

#[test]
fn upload_report_links_the_blob_read_only() {
    let c = Client::new("acct", "box", None, None);
    let r = upload_report(&c, "report.zip", 1234, "application/zip", "2026-12-31", "?sp=r&sig=abc");
    assert_eq!(r.status, "uploaded");
    assert_eq!(r.account, "acct");
    assert_eq!(r.container, "box");
    assert_eq!(r.blob, "report.zip");
    assert_eq!(r.size_bytes, 1234);
    assert_eq!(r.content_type, "application/zip");
    assert_eq!(r.expires, "2026-12-31");
    assert_eq!(r.url, "https://acct.blob.core.windows.net/box/report.zip?sp=r&sig=abc");
}
