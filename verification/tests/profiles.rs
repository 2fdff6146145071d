use indexmap::IndexMap;
use storage_cli::account::{describe, resolve, Resolved};
use storage_cli::commands::accounts::{
    apply_add, apply_remove, check_add_allowed, confirms_removal, list_status, new_profile, normalize_secret,
    plan_remove, prepare_add,
};
use storage_cli::config::{
    config_dir_parts, config_path, default_provider, default_version, lock_step, Config, ConfigFile, LockAttempt,
    LockStep, Platform, StorageProfile,
};
use storage_cli::error::ErrorCode;

fn profile(account: &str, container: &str) -> StorageProfile {
    StorageProfile {
        provider: "azure".to_string(),
        account_name: account.to_string(),
        container_name: container.to_string(),
        endpoint: None,
        added_at: None,
    }
}

fn sample() -> Config {
    let mut storage = IndexMap::new();
    storage.insert("zeta".to_string(), profile("za", "zc"));
    storage.insert("Alpha".to_string(), profile("aa", "ac"));
    let mut accounts = IndexMap::new();
    accounts.insert("beta".to_string(), profile("ba", "bc"));
    accounts.insert("zeta".to_string(), profile("old", "old"));
    accounts.insert("ALPHA".to_string(), profile("AA", "AC"));
    Config { version: 1, storage, accounts }
}

#[test]
fn reads_the_dotnet_layout() {
    let yaml = "storage:\n  ivy-tendril:\n    provider: azure\n    account_name: stivytelemetry\n    container_name: ivy-tendril\n";
    let value: serde_norway::Value = serde_norway::from_str(yaml).unwrap();
    let mut cfg = Config::default();
    let storage = value.get("storage").unwrap().as_mapping().unwrap();
    for (k, v) in storage {
        let get = |field: &str| v.get(field).and_then(|x| x.as_str()).map(|s| s.to_string());
        cfg.storage.insert(
            k.as_str().unwrap().to_string(),
            StorageProfile {
                provider: get("provider").unwrap_or_else(default_provider),
                account_name: get("account_name").unwrap(),
                container_name: get("container_name").unwrap(),
                endpoint: get("endpoint"),
                added_at: get("added_at"),
            },
        );
    }
    let (name, profile) = cfg.find("ivy-tendril").unwrap();
    assert_eq!(name, "ivy-tendril");
    assert_eq!(profile.provider, "azure");
    assert_eq!(profile.account_name, "stivytelemetry");
    assert_eq!(profile.container_name, "ivy-tendril");
}

#[test]
fn defaults_of_a_new_config() {
    let cfg = Config::default();
    assert_eq!(cfg.version, 1);
    assert!(cfg.storage.is_empty() && cfg.accounts.is_empty());
    assert_eq!(default_version(), 1);
    assert_eq!(default_provider(), "azure");
}

#[test]
fn find_ignores_ascii_case_and_prefers_storage() {
    let cfg = sample();
    let (name, p) = cfg.find("ALPHA").unwrap();
    assert_eq!(name, "Alpha");
    assert_eq!(p.account_name, "aa");
    let (name, p) = cfg.find("Beta").unwrap();
    assert_eq!(name, "beta");
    assert_eq!(p.account_name, "ba");
    assert!(cfg.find("gamma").is_none());
    assert!(cfg.find("alph").is_none());
}

#[test]
fn sorted_lists_each_name_once_by_lowercase() {
    let cfg = sample();
    let names: Vec<&str> = cfg.sorted().into_iter().map(|(k, _)| k.as_str()).collect();
    // `zeta` of `accounts` is hidden by `storage`; `Alpha` and `ALPHA` keep their order.
    assert_eq!(names, vec!["Alpha", "ALPHA", "beta", "zeta"]);
    assert_eq!(cfg.sorted()[3].1.account_name, "za");
}

#[test]
fn describe_lists_profiles_or_says_none() {
    assert_eq!(
        describe(&Config::default()),
        "No storage profiles are configured yet. Run 'storage login <name>' or 'storage accounts add <name>'."
    );
    let mut cfg = Config::default();
    cfg.storage.insert("b".to_string(), profile("x", "y"));
    cfg.storage.insert("a".to_string(), profile("p", "q"));
    assert_eq!(describe(&cfg), "Configured profiles: a (account: p, container: q), b (account: x, container: y)");
}

#[test]
fn resolve_trims_and_reports_missing_profiles() {
    let cfg = sample();
    let (name, p) = resolve(&cfg, Some("  alpha \n")).unwrap();
    assert_eq!(name, "Alpha");
    assert_eq!(p.container_name, "ac");

    let err = resolve(&cfg, None).unwrap_err();
    assert_eq!(err.code, ErrorCode::NoAccount);
    assert_eq!(err.message, "No storage profile specified. Pass --account <name> or <profile>.");
    assert_eq!(err.fix.as_deref(), Some("storage accounts list"));
    assert!(err.detail.unwrap().starts_with("Configured profiles: Alpha (account: aa, container: ac)"));

    let err = resolve(&cfg, Some("   ")).unwrap_err();
    assert_eq!(err.message, "No storage profile specified. Pass --account <name> or <profile>.");

    let err = resolve(&Config::default(), Some("missingprofile")).unwrap_err();
    assert_eq!(err.code, ErrorCode::NoAccount);
    assert_eq!(err.message, "No storage profile named 'missingprofile'.");
    assert_eq!(err.detail.as_deref(), Some("No storage profiles are configured yet. Run 'storage login <name>' or 'storage accounts add <name>'."));
}

#[test]
fn resolved_accessors() {
    let mut p = profile("acct", "box");
    p.endpoint = Some("http://127.0.0.1:10000/".to_string());
    let r = Resolved::new("name".to_string(), p, None);
    assert_eq!(r.account_name(), "acct");
    assert_eq!(r.container_name(), "box");
    assert_eq!(r.endpoint(), Some("http://127.0.0.1:10000/"));
}

#[test]
fn added_profile_is_found_again() {
    let mut cfg = sample();
    let plan = prepare_add("  newone ", None, Some("  ".to_string())).unwrap();
    assert_eq!(plan.name, "newone");
    assert_eq!(plan.account_name, "newone");
    assert_eq!(plan.container_name, "newone");
    assert!(check_add_allowed(&cfg, &plan.name, false).is_ok());
    let p = new_profile(&plan, None, "2026-09-21T14:13:20Z".to_string());
    apply_add(&mut cfg, plan.name.clone(), p.clone());
    let (name, found) = cfg.find("newone").unwrap();
    assert_eq!(name, "newone");
    assert_eq!(found.added_at.as_deref(), Some("2026-09-21T14:13:20Z"));
    assert_eq!(cfg.storage.len(), 3);
    assert_eq!(cfg.storage.get_index(2).unwrap().0, "newone");
}

#[test]
fn adding_an_existing_name_needs_force() {
    let mut cfg = sample();
    let err = check_add_allowed(&cfg, "ZETA", false).unwrap_err();
    assert_eq!(err.code, ErrorCode::InvalidInput);
    assert_eq!(err.message, "Profile 'ZETA' already exists.");
    assert_eq!(err.detail.as_deref(), Some("An existing profile cannot be overwritten without --force."));
    assert_eq!(err.fix.as_deref(), Some("storage accounts add ZETA --force"));
    assert!(check_add_allowed(&cfg, "zeta", true).is_ok());
    apply_add(&mut cfg, "zeta".to_string(), profile("new", "new"));
    assert_eq!(cfg.storage.get_index(0).unwrap().0, "zeta");
    assert_eq!(cfg.find("zeta").unwrap().1.account_name, "new");
    assert_eq!(cfg.storage.len(), 2);
    let names: Vec<&str> = cfg.accounts.keys().map(|k| k.as_str()).collect();
    assert_eq!(names, vec!["beta", "ALPHA"]);
}

#[test]
fn force_replaces_a_name_that_differs_in_case() {
    let mut cfg = sample();
    cfg.storage.insert("ZETA2".to_string(), profile("z2", "z2"));
    assert!(check_add_allowed(&cfg, "ZETA", true).is_ok());
    apply_add(&mut cfg, "ZETA".to_string(), profile("new", "new"));
    let names: Vec<&str> = cfg.storage.keys().map(|k| k.as_str()).collect();
    assert_eq!(names, vec!["ZETA", "Alpha", "ZETA2"]);
    let (name, found) = cfg.find("zeta").unwrap();
    assert_eq!(name, "ZETA");
    assert_eq!(found.account_name, "new");
    assert_eq!(cfg.storage.keys().filter(|k| k.eq_ignore_ascii_case("zeta")).count(), 1);
    assert!(cfg.accounts.keys().all(|k| !k.eq_ignore_ascii_case("zeta")));
    // A name found only in `accounts` moves to `storage`.
    apply_add(&mut cfg, "Beta".to_string(), profile("b2", "b2"));
    assert_eq!(cfg.storage.get_index(3).unwrap().0, "Beta");
    let names: Vec<&str> = cfg.accounts.keys().map(|k| k.as_str()).collect();
    assert_eq!(names, vec!["ALPHA"]);
}

#[test]
fn add_then_remove_gives_back_the_config() {
    let before = sample();
    let mut cfg = sample();
    assert!(check_add_allowed(&cfg, "gamma", false).is_ok());
    apply_add(&mut cfg, "gamma".to_string(), profile("g", "g"));
    let key = plan_remove(&cfg, "gamma").unwrap();
    assert_eq!(key, "gamma");
    apply_remove(&mut cfg, &key);
    assert_eq!(cfg.version, before.version);
    let pairs = |m: &IndexMap<String, StorageProfile>| -> Vec<(String, String, String)> {
        m.iter().map(|(k, p)| (k.clone(), p.account_name.clone(), p.container_name.clone())).collect()
    };
    assert_eq!(pairs(&cfg.storage), pairs(&before.storage));
    assert_eq!(pairs(&cfg.accounts), pairs(&before.accounts));
}

#[test]
fn blank_profile_names_are_refused() {
    let err = prepare_add(" \t", None, None).unwrap_err();
    assert_eq!(err.code, ErrorCode::InvalidInput);
    assert_eq!(err.message, "Profile name cannot be empty.");
    let plan = prepare_add("n", Some("acct".to_string()), Some("box".to_string())).unwrap();
    assert_eq!((plan.account_name.as_str(), plan.container_name.as_str()), ("acct", "box"));
}

#[test]
fn removed_profile_is_gone_from_both_maps() {
    let mut cfg = sample();
    let key = plan_remove(&cfg, "ZeTa").unwrap();
    assert_eq!(key, "zeta");
    apply_remove(&mut cfg, &key);
    assert!(cfg.find("zeta").is_none());
    assert_eq!(cfg.storage.len(), 1);
    assert_eq!(cfg.accounts.len(), 2);
    let names: Vec<&str> = cfg.accounts.keys().map(|k| k.as_str()).collect();
    assert_eq!(names, vec!["beta", "ALPHA"]);
    let err = plan_remove(&cfg, "nothere").unwrap_err();
    assert_eq!(err.code, ErrorCode::NotFound);
    assert_eq!(err.message, "Profile 'nothere' does not exist.");
}

#[test]
fn secrets_and_prompts() {
    assert_eq!(normalize_secret("  key \n"), Some("key".to_string()));
    assert_eq!(normalize_secret(" \n"), None);
    assert!(confirms_removal(" Y\n"));
    assert!(confirms_removal("y"));
    assert!(!confirms_removal("yes"));
    assert_eq!(list_status(false, false), "configured");
    assert_eq!(list_status(true, true), "valid");
    assert_eq!(list_status(true, false), "unreachable_or_no_az");
}

#[test]
fn config_locations() {
    assert_eq!(config_dir_parts(Some("/cfg"), Platform::OtherUnix, Some("/home/u"), None, None), vec!["/cfg"]);
    assert_eq!(
        config_dir_parts(Some(""), Platform::OtherUnix, Some("/home/u"), None, Some("")),
        vec!["/home/u", ".config", "storage-cli"]
    );
    assert_eq!(config_dir_parts(None, Platform::OtherUnix, None, None, Some("/x")), vec!["/x", "storage-cli"]);
    assert_eq!(
        config_dir_parts(None, Platform::MacOs, Some("/Users/u"), None, Some("/x")),
        vec!["/Users/u", "Library", "Application Support", "storage-cli"]
    );
    assert_eq!(config_dir_parts(None, Platform::Windows, None, Some("C:\\A"), None), vec!["C:\\A", "storage-cli"]);
    assert_eq!(config_path(true, true, true), ConfigFile::Standard);
    assert_eq!(config_path(false, true, true), ConfigFile::Local);
    assert_eq!(config_path(false, false, true), ConfigFile::SrcLocal);
    assert_eq!(config_path(false, false, false), ConfigFile::Standard);
}

#[test]
fn lock_backoff_doubles_up_to_a_cap() {
    assert_eq!(lock_step(LockAttempt::Acquired, true, 25), LockStep::Done);
    assert_eq!(lock_step(LockAttempt::WouldBlock, true, 25), LockStep::Retry { sleep_ms: 25, next_delay_ms: 50 });
    assert_eq!(lock_step(LockAttempt::WouldBlock, true, 300), LockStep::Retry { sleep_ms: 300, next_delay_ms: 400 });
    assert_eq!(lock_step(LockAttempt::WouldBlock, false, 25), LockStep::TimedOut);
    assert_eq!(lock_step(LockAttempt::Failed, true, 25), LockStep::Fail);
}
