//! Identity manager configuration: which key vault holds the node's seed and
//! when keys rotate.

pub mod rotation;
pub mod vault;

use vstd::prelude::*;

use self::vault::{EnvVault, FileVault, HsmVault};

verus! {

/// Identity manager configuration.
#[derive(Debug, Clone)]
pub struct IdentityConfig {
    /// Vault backend: "file", "env" or "hsm".
    pub vault_type: String,
    /// Path of the key file (file vault).
    pub key_path: Option<String>,
    /// Name of the environment variable (env vault).
    pub env_var: Option<String>,
    /// PKCS#11 URI (HSM vault).
    pub pkcs11_uri: Option<String>,
    /// Rotation policy.
    pub rotation: Option<RotationPolicy>,
    /// Label of the key.
    pub label: String,
}

/// Key rotation policy of a configuration.
#[derive(Debug, Clone, Copy, PartialEq, Eq, Structural)]
pub struct RotationPolicy {
    /// Rotate every N days.
    pub interval_days: u32,
    /// How long old keys stay valid, in seconds.
    pub grace_period_secs: u64,
    /// Generate new keys automatically.
    pub auto_rotate: bool,
}

/// The vault a configuration selects.
#[derive(Debug, Clone)]
pub enum VaultBackend {
    /// Keys in a file.
    File(FileVault),
    /// Keys in an environment variable.
    Env(EnvVault),
    /// Keys in a hardware security module (stub backend).
    Hsm(HsmVault),
}

/// Why a configuration selects no vault.
#[derive(Debug, Clone, Copy, PartialEq, Eq, Structural)]
pub enum VaultConfigError {
    /// A file vault without `key_path`.
    MissingKeyPath,
    /// An env vault without `env_var`.
    MissingEnvVar,
    /// An HSM vault without `pkcs11_uri`.
    MissingPkcs11Uri,
    /// A vault type other than "file", "env" and "hsm".
    UnknownVaultType,
}

/// The vault a configuration selects: "file" needs `key_path`, "env" needs
/// `env_var`, "hsm" needs `pkcs11_uri`; other types are refused.
pub fn select_vault(config: &IdentityConfig) -> (res: Result<VaultBackend, VaultConfigError>)
    ensures
        config.vault_type@ == "file"@ ==> match config.key_path {
            Some(p) => res matches Ok(VaultBackend::File(v)) && v.spec_key_path() == p@,
            None => res == Err::<VaultBackend, VaultConfigError>(VaultConfigError::MissingKeyPath),
        },
        config.vault_type@ == "env"@ ==> match config.env_var {
            Some(n) => res matches Ok(VaultBackend::Env(v)) && v.spec_var_name() == n@,
            None => res == Err::<VaultBackend, VaultConfigError>(VaultConfigError::MissingEnvVar),
        },
        config.vault_type@ == "hsm"@ ==> match config.pkcs11_uri {
            Some(u) => res matches Ok(VaultBackend::Hsm(v)) && v.spec_pkcs11_uri() == u@,
            None => res == Err::<VaultBackend, VaultConfigError>(VaultConfigError::MissingPkcs11Uri),
        },
        config.vault_type@ != "file"@ && config.vault_type@ != "env"@ && config.vault_type@
            != "hsm"@ ==> res == Err::<VaultBackend, VaultConfigError>(
            VaultConfigError::UnknownVaultType,
        ),
{
    proof {
        reveal_strlit("file");
        reveal_strlit("env");
        reveal_strlit("hsm");
        assert("file"@.len() != "env"@.len());
        assert("file"@.len() != "hsm"@.len());
        assert("env"@[0] != "hsm"@[0]);
    }
    if crate::crypto::str_eq(config.vault_type.as_str(), "file") {
        match &config.key_path {
            Some(p) => Ok(VaultBackend::File(FileVault::new(p.as_str()))),
            None => Err(VaultConfigError::MissingKeyPath),
        }
    } else if crate::crypto::str_eq(config.vault_type.as_str(), "env") {
        match &config.env_var {
            Some(n) => Ok(VaultBackend::Env(EnvVault::new(n.as_str()))),
            None => Err(VaultConfigError::MissingEnvVar),
        }
    } else if crate::crypto::str_eq(config.vault_type.as_str(), "hsm") {
        match &config.pkcs11_uri {
            Some(u) => Ok(VaultBackend::Hsm(HsmVault::new(u.as_str()))),
            None => Err(VaultConfigError::MissingPkcs11Uri),
        }
    } else {
        Err(VaultConfigError::UnknownVaultType)
    }
}

/// Whether keys are due for rotation: when a policy asks for automatic
/// rotation.
pub fn needs_rotation(rotation: &Option<RotationPolicy>) -> (res: bool)
    ensures
        res == (rotation matches Some(p) && p.auto_rotate),
{
    match rotation {
        Some(p) => p.auto_rotate,
        None => false,
    }
}

} // verus!
