use aether_core::sdk::identity::rotation::RotationPolicy as DefaultRotation;
use aether_core::sdk::identity::vault::{seed_from_env_value, seed_from_key_file, EnvVault, FileVault, SeedError};
use aether_core::sdk::identity::{needs_rotation, select_vault, IdentityConfig, RotationPolicy, VaultBackend, VaultConfigError};
use aether_core::sdk::sla::{QosConfig, SlaCompliance};
use aether_core::Identity;

fn config(vault_type: &str, key_path: Option<&str>, env_var: Option<&str>) -> IdentityConfig {
    IdentityConfig {
        vault_type: vault_type.to_string(),
        key_path: key_path.map(|s| s.to_string()),
        env_var: env_var.map(|s| s.to_string()),
        pkcs11_uri: None,
        rotation: None,
        label: "test".to_string(),
    }
}

#[test]
fn rotation_policy_default() {
    let p = DefaultRotation::default();
    assert_eq!(p.interval_days, 30);
    assert_eq!(p.grace_period_secs, 3600);
    assert!(p.auto_rotate);
}

#[test]
fn vault_selection() {
    match select_vault(&config("file", Some("/tmp/k"), None)).unwrap() {
        VaultBackend::File(v) => assert_eq!(v.key_path(), "/tmp/k"),
        _ => panic!("expected a file vault"),
    }
    match select_vault(&config("env", None, Some("AETHER_KEY"))).unwrap() {
        VaultBackend::Env(v) => assert_eq!(v.var_name(), "AETHER_KEY"),
        _ => panic!("expected an env vault"),
    }
    assert_eq!(select_vault(&config("file", None, Some("X"))).unwrap_err(), VaultConfigError::MissingKeyPath);
    assert_eq!(select_vault(&config("env", Some("p"), None)).unwrap_err(), VaultConfigError::MissingEnvVar);
    assert_eq!(select_vault(&config("hsm", Some("p"), Some("v"))).unwrap_err(), VaultConfigError::MissingPkcs11Uri);
    let mut hsm = config("hsm", None, None);
    hsm.pkcs11_uri = Some("pkcs11:token=aether".to_string());
    match select_vault(&hsm).unwrap() {
        VaultBackend::Hsm(v) => assert_eq!(v.pkcs11_uri(), "pkcs11:token=aether"),
        _ => panic!("expected an HSM vault"),
    }
    assert_eq!(select_vault(&config("kms", Some("p"), Some("v"))).unwrap_err(), VaultConfigError::UnknownVaultType);
}

#[test]
fn key_file_holds_the_seed() {
    let id = Identity::from_seed([0x5A; 32]);
    let text = id.seed_hex();
    assert_eq!(text, "5a".repeat(32));
    let seed = seed_from_key_file(&text).unwrap();
    let back = Identity::from_seed(seed);
    assert_eq!(back.public_key_bytes(), id.public_key_bytes());
    assert_eq!(back.hash(), id.hash());
}

#[test]
fn vault_constructors() {
    assert_eq!(FileVault::new("a/b").key_path(), "a/b");
    assert_eq!(EnvVault::new("VAR").var_name(), "VAR");
}

#[test]
fn rotation_due_only_when_automatic() {
    assert!(!needs_rotation(&None));
    let p = RotationPolicy { interval_days: 1, grace_period_secs: 0, auto_rotate: false };
    assert!(!needs_rotation(&Some(p)));
    assert!(needs_rotation(&Some(RotationPolicy { auto_rotate: true, ..p })));
}

#[test]
fn seeds_from_key_files() {
    let hex64 = "00112233445566778899aabbccddeeff00112233445566778899AABBCCDDEEFF";
    let seed = seed_from_key_file(hex64).unwrap();
    assert_eq!(seed[0], 0x00);
    assert_eq!(seed[1], 0x11);
    assert_eq!(seed[31], 0xFF);
    assert_eq!(seed_from_key_file("abcd").unwrap_err(), SeedError::KeyLength);
    let bad = "zz112233445566778899aabbccddeeff00112233445566778899aabbccddeeff";
    assert_eq!(seed_from_key_file(bad).unwrap_err(), SeedError::InvalidHex);
}

#[test]
fn seeds_from_env_values() {
    let hex64 = "ffeeddccbbaa99887766554433221100ffeeddccbbaa99887766554433221100";
    let seed = seed_from_env_value(hex64).unwrap();
    assert_eq!(seed[0], 0xFF);
    assert_eq!(seed[15], 0x00);
    assert_eq!(seed_from_env_value("").unwrap_err(), SeedError::Empty);
    assert_eq!(seed_from_env_value("abc").unwrap_err(), SeedError::InvalidHex);
    assert_eq!(seed_from_env_value("g0").unwrap_err(), SeedError::InvalidHex);
    assert_eq!(seed_from_env_value("abcd").unwrap_err(), SeedError::SeedLength);
}

#[test]
fn compliance_from_violations() {
    let ok = SlaCompliance::from_violations(Vec::new());
    assert!(ok.compliant);
    let bad = SlaCompliance::from_violations(vec!["latency".to_string()]);
    assert!(!bad.compliant);
    assert_eq!(bad.violations.len(), 1);
    let q = QosConfig { default_priority: 7, priority_queueing: true };
    assert_eq!(q.default_priority, 7);
}
